use agent_tabs::text::{
    decimal_chars, ends_with_lit, eq_lit, norm_session_name, parse_unsigned_chars, replace_chars,
    split_chars, split_words, starts_with_lit, trim_chars, Sep,
};
use agent_tabs::width::{char_width_of, truncate_string};

fn chars(s: &str) -> Vec<char> {
    s.chars().collect()
}

fn text(v: &[char]) -> String {
    v.iter().collect()
}

#[test]
fn trimming() {
    assert_eq!(text(&trim_chars(&chars("  a b \t\n"))), "a b");
    assert_eq!(text(&trim_chars(&chars("\u{3000}x\u{a0}"))), "x");
    assert_eq!(text(&trim_chars(&chars("   "))), "");
}

#[test]
fn literal_comparisons() {
    assert!(eq_lit(&chars("done"), "done"));
    assert!(!eq_lit(&chars("done "), "done"));
    assert!(starts_with_lit(&chars("Tab #3"), "Tab #"));
    assert!(!starts_with_lit(&chars("Ta"), "Tab #"));
    assert!(ends_with_lit(&chars("rgb(1,2,3)"), ")"));
    assert!(!ends_with_lit(&chars(""), ")"));
}

#[test]
fn splitting_keeps_empty_pieces() {
    let parts = split_chars(&chars("1\u{1f}working\u{1f}\u{1f}x"), Sep::Char('\u{1f}'));
    let got: Vec<String> = parts.iter().map(|p| text(p)).collect();
    assert_eq!(got, vec!["1", "working", "", "x"]);
    let one = split_chars(&chars(""), Sep::Char('\n'));
    assert_eq!(one.len(), 1);
    assert!(one[0].is_empty());
}

#[test]
fn words_skip_runs_of_whitespace() {
    let ws = split_words(&chars("  error   waiting\tdone "));
    let got: Vec<String> = ws.iter().map(|p| text(p)).collect();
    assert_eq!(got, vec!["error", "waiting", "done"]);
}

#[test]
fn decimal_numbers() {
    assert_eq!(text(&decimal_chars(0)), "0");
    assert_eq!(text(&decimal_chars(1207)), "1207");
    assert_eq!(parse_unsigned_chars(&chars("42"), 255), Some(42));
    assert_eq!(parse_unsigned_chars(&chars("+7"), 255), Some(7));
    assert_eq!(parse_unsigned_chars(&chars("256"), 255), None);
    assert_eq!(parse_unsigned_chars(&chars(""), 255), None);
    assert_eq!(parse_unsigned_chars(&chars("1a"), 255), None);
    assert_eq!(parse_unsigned_chars(&chars("4294967295"), 0xffff_ffff), Some(4294967295));
    assert_eq!(parse_unsigned_chars(&chars("4294967296"), 0xffff_ffff), None);
}

#[test]
fn replacing_every_occurrence() {
    let r = replace_chars(&chars("{count} more, {count}!"), "{count}", &chars("12"));
    assert_eq!(text(&r), "12 more, 12!");
    let none = replace_chars(&chars("no marker"), "{count}", &chars("3"));
    assert_eq!(text(&none), "no marker");
}

#[test]
fn session_names() {
    assert_eq!(text(&norm_session_name(&chars("  * main"))), "main");
    assert_eq!(text(&norm_session_name(&chars("work"))), "work");
    assert_eq!(text(&norm_session_name(&chars("\t● dev"))), "dev");
    assert_eq!(text(&norm_session_name(&chars(""))), "");
    assert_eq!(text(&norm_session_name(&chars("9lives"))), "9lives");
}

#[test]
fn character_widths() {
    assert_eq!(char_width_of('a'), 1);
    assert_eq!(char_width_of('界'), 2);
    assert_eq!(char_width_of('\u{301}'), 0);
}

#[test]
fn truncation() {
    assert_eq!(text(&truncate_string(&chars("short"), 10)), "short");
    assert_eq!(text(&truncate_string(&chars("exactly"), 7)), "exactly");
    assert_eq!(text(&truncate_string(&chars("a long name"), 8)), "a lon...");
    assert_eq!(text(&truncate_string(&chars("abcdef"), 3)), "...");
    assert_eq!(text(&truncate_string(&chars("abcdef"), 2)), "..");
    assert_eq!(text(&truncate_string(&chars("abcdef"), 0)), "");
    // Wide characters count two columns each.
    assert_eq!(text(&truncate_string(&chars("界界界界"), 7)), "界界...");
}

#[test]
fn session_marks_are_dropped() {
    assert_eq!(text(&norm_session_name(&chars("* main"))), "main");
    assert_eq!(text(&norm_session_name(&chars("  main"))), "main");
    assert_eq!(text(&norm_session_name(&chars("9lives"))), "9lives");
}

#[test]
fn ascii_truncation_keeps_a_prefix() {
    for max in 0..12 {
        let r = text(&truncate_string(&chars("abcdefghij"), max));
        assert!(r.chars().count() <= max);
        let want = if 10 <= max {
            "abcdefghij".to_string()
        } else if max <= 3 {
            ".".repeat(max)
        } else {
            format!("{}...", &"abcdefghij"[..max - 3])
        };
        assert_eq!(r, want);
    }
}
