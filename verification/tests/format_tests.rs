use agent_tabs::color::ColorSpec;
use agent_tabs::format::{parse_style_directive, parse_styled_string, parse_tmux_format, parse_variable, FormatToken};
use agent_tabs::style::{fit_text, InlineStyle, StyledText};

fn chars(s: &str) -> Vec<char> {
    s.chars().collect()
}

fn text(v: &[char]) -> String {
    v.iter().collect()
}

fn describe(t: &FormatToken) -> String {
    match t {
        FormatToken::Style(s) => format!("style({:?},{:?},{},{},{})", s.fg, s.bg, s.bold, s.dim, s.fill),
        FormatToken::Variable { name, width } => format!("var({},{:?})", text(name), width),
        FormatToken::Literal(l) => format!("lit({})", text(l)),
    }
}

#[test]
fn style_directives() {
    let s = parse_style_directive(&chars("fg=red, bg=#010203 ,bold,dim"));
    assert_eq!(s.fg, ColorSpec::EightBit(196));
    assert_eq!(s.bg, ColorSpec::Rgb(1, 2, 3));
    assert!(s.bold && s.dim && !s.fill);
    let reset = parse_style_directive(&chars("bold,fill,reset,dim"));
    assert_eq!(reset, InlineStyle { dim: true, ..InlineStyle::plain() });
    let unknown = parse_style_directive(&chars("italic,,fg=240"));
    assert_eq!(unknown, InlineStyle { fg: ColorSpec::EightBit(240), ..InlineStyle::plain() });
}

#[test]
fn variables_with_and_without_width() {
    assert_eq!(describe(&parse_variable(&chars("name"))), "var(name,None)");
    assert_eq!(describe(&parse_variable(&chars("=12:title"))), "var(title,Some(12))");
    assert_eq!(describe(&parse_variable(&chars("=x:title"))), "var(=x:title,None)");
    assert_eq!(describe(&parse_variable(&chars("=5"))), "var(=5,None)");
}

#[test]
fn format_tokens() {
    let toks = parse_tmux_format(&chars("#[fg=red]{index}:#{name} {=4:title}x#y"));
    let got: Vec<String> = toks.iter().map(describe).collect();
    assert_eq!(
        got,
        vec![
            "style(EightBit(196),Default,false,false,false)",
            "var(index,None)",
            "lit(:)",
            "var(name,None)",
            "lit( )",
            "var(title,Some(4))",
            "lit(x#y)",
        ]
    );
}

#[test]
fn unclosed_references_run_to_the_end() {
    let toks = parse_tmux_format(&chars("a{name"));
    let got: Vec<String> = toks.iter().map(describe).collect();
    assert_eq!(got, vec!["lit(a)", "var(name,None)"]);
    let toks = parse_tmux_format(&chars("#[bold"));
    let got: Vec<String> = toks.iter().map(describe).collect();
    assert_eq!(got, vec!["style(Default,Default,true,false,false)"]);
}

#[test]
fn styled_strings_keep_variables_as_text() {
    let st = parse_styled_string(&chars("#[fg=240]│{x}"));
    assert_eq!(st.segments.len(), 2);
    assert_eq!(text(&st.segments[0].text), "│");
    assert_eq!(text(&st.segments[1].text), "{x}");
    assert_eq!(st.segments[1].style.fg, ColorSpec::EightBit(240));
    assert_eq!(
        text(&st.to_ansi()),
        "\x1b[0m\x1b[38;5;240m│\x1b[0m\x1b[38;5;240m{x}\x1b[0m"
    );
    assert_eq!(st.display_width(), 4);
}

#[test]
fn plain_text_has_no_codes() {
    let st = parse_styled_string(&chars("plain"));
    assert_eq!(text(&st.to_ansi()), "plain");
    let empty = parse_styled_string(&chars(""));
    assert_eq!(empty.segments.len(), 0);
    assert_eq!(text(&empty.to_ansi()), "");
}

#[test]
fn inline_style_codes() {
    let s = InlineStyle { fg: ColorSpec::EightBit(1), bg: ColorSpec::Rgb(2, 3, 4), bold: true, dim: true, fill: false };
    assert_eq!(text(&s.to_ansi()), "\x1b[1m\x1b[2m\x1b[38;5;1m\x1b[48;2;2;3;4m");
    assert!(s.has_any_style());
    assert!(!InlineStyle::plain().has_any_style());
    assert!(InlineStyle { fill: true, ..InlineStyle::plain() }.has_any_style());
}

#[test]
fn styled_text_truncation() {
    let mut t = StyledText::new();
    t.push(chars("abc"), InlineStyle::plain());
    t.push(chars(""), InlineStyle::plain());
    t.push(chars("defg"), InlineStyle { bold: true, ..InlineStyle::plain() });
    assert_eq!(t.segments.len(), 2);
    assert_eq!(t.display_width(), 7);
    let cut = t.truncate(5);
    assert_eq!(cut.segments.len(), 2);
    assert_eq!(text(&cut.segments[0].text), "abc");
    assert_eq!(text(&cut.segments[1].text), "de");
    let whole = t.truncate(7);
    assert_eq!(whole.display_width(), 7);
    let first = t.truncate(3);
    assert_eq!(first.segments.len(), 1);
    let none = t.truncate(0);
    assert_eq!(none.segments.len(), 0);
    assert_eq!(text(&fit_text(&chars("界ab"), 1)), "");
    assert_eq!(text(&fit_text(&chars("界ab"), 3)), "界a");
}

#[test]
fn unreadable_colours_in_directives() {
    let s = parse_style_directive(&chars("fg=#éa,bold"));
    assert_eq!(s, InlineStyle { bold: true, ..InlineStyle::plain() });
    let st = parse_styled_string(&chars("x#[bg=#éa]y"));
    assert_eq!(st.segments.len(), 2);
    assert_eq!(st.segments[1].style.bg, ColorSpec::Default);
}
