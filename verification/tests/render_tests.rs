use agent_tabs::agent::{AgentState, Channels};
use agent_tabs::color::ColorSpec;
use agent_tabs::panes::{ModeView, PaneView, TabView, ThemeColors};
use agent_tabs::plugin::{Action, Event, PluginState};
use agent_tabs::screen::{render_error, wrap_message};
use agent_tabs::style::{InlineStyle, StyledText};
use unicode_width::UnicodeWidthStr;

fn chars(s: &str) -> Vec<char> {
    s.chars().collect()
}

fn text(v: &[char]) -> String {
    v.iter().collect()
}

fn mode() -> ModeView {
    ModeView {
        rename_tab: false,
        colors: ThemeColors {
            frame_selected: ColorSpec::EightBit(10),
            frame_unselected: Some(ColorSpec::EightBit(100)),
            exit_code_success: ColorSpec::EightBit(2),
            exit_code_error: ColorSpec::EightBit(1),
        },
    }
}

fn tab(pos: usize, name: &str, active: bool) -> TabView {
    TabView { position: pos, name: chars(name), active, is_fullscreen_active: false, is_sync_panes_active: false }
}

fn pane(id: u32, title: &str, focused: bool) -> PaneView {
    PaneView {
        id,
        is_plugin: false,
        is_focused: focused,
        title: chars(title),
        terminal_command: None,
        exited: false,
        is_held: false,
        exit_status: None,
    }
}

fn granted() -> PluginState {
    let mut s = PluginState::new(mode());
    s.update(Event::PermissionResult(true));
    s
}

#[test]
fn idle_inactive_box() {
    let s = granted();
    let lines = s.render_box(1, false, AgentState::Idle, &chars("abc"), 10, 3);
    let got: Vec<String> = lines.iter().map(|l| text(l)).collect();
    let bc = "\x1b[38;5;100m";
    assert_eq!(
        got,
        vec![
            format!("{}╭────────╮\x1b[0m", bc),
            format!("{}│\x1b[0m 1 abc  \x1b[0m{}│\x1b[0m", bc, bc),
            format!("{}╰────────╯\x1b[0m", bc),
        ]
    );
}

#[test]
fn working_box_fills_and_scrolls() {
    let mut s = granted();
    s.frame = 2;
    let lines = s.render_box(3, true, AgentState::Working, &chars("build"), 8, 4);
    let got: Vec<String> = lines.iter().map(|l| text(l)).collect();
    let bc = "\x1b[38;5;10m";
    let bg = "\x1b[48;5;2m";
    assert_eq!(got.len(), 4);
    assert_eq!(got[0], format!("{}╭──────╮\x1b[0m", bc));
    assert_eq!(
        got[1],
        format!("{}│\x1b[0m{}\x1b[1m 3\x1b[7m \x1b[27m...\x1b[0m{}│\x1b[0m", bc, bg, bc)
    );
    assert_eq!(got[2], format!("{}│\x1b[0m{}  \x1b[7m \x1b[27m   \x1b[0m{}│\x1b[0m", bc, bg, bc));
    assert_eq!(got[3], format!("{}╰──────╯\x1b[0m", bc));
}

#[test]
fn two_row_box_and_narrow_box() {
    let s = granted();
    let lines = s.render_box(1, false, AgentState::Idle, &chars("x"), 6, 1);
    assert_eq!(lines.len(), 2);
    assert_eq!(text(&lines[1]), "\x1b[38;5;100m╰────╯\x1b[0m");
    let narrow = s.render_box(1, false, AgentState::Idle, &chars("x"), 2, 3);
    let got: Vec<String> = narrow.iter().map(|l| text(l)).collect();
    assert_eq!(got, vec!["  ", "  ", "  "]);
}

#[test]
fn glyph_channel_box() {
    let mut s = granted();
    s.style.state_style = Channels { fill: false, border: false, glyph: true };
    let lines = s.render_box(2, false, AgentState::Done, &chars("ok"), 10, 3);
    let bc = "\x1b[38;5;100m";
    assert_eq!(
        text(&lines[1]),
        format!("{}│\x1b[0m\x1b[38;5;2m●\x1b[39m 2 ok  \x1b[0m{}│\x1b[0m", bc, bc)
    );
}

#[test]
fn flashing_border_dims_on_odd_frames() {
    let mut s = granted();
    s.style.state_style = Channels { fill: false, border: true, glyph: false };
    s.style.focus_style = Channels { fill: true, border: false, glyph: false };
    s.frame = 1;
    let lines = s.render_box(1, false, AgentState::Error, &chars("e"), 6, 3);
    assert_eq!(text(&lines[0]), "\x1b[38;5;238m╭────╮\x1b[0m");
    s.frame = 2;
    let lines = s.render_box(1, false, AgentState::Error, &chars("e"), 6, 3);
    assert_eq!(text(&lines[0]), "\x1b[38;5;1m╭────╮\x1b[0m");
}

#[test]
fn lines_with_a_border() {
    let mut s = granted();
    s.style.border = chars("#[fg=240]|");
    let mut content = StyledText::new();
    content.push(chars("abcdef"), InlineStyle::plain());
    assert_eq!(text(&s.build_line(&content, 5, false)), "abcd\x1b[0m\x1b[38;5;240m|\x1b[0m");
    assert_eq!(text(&s.build_line(&content, 9, false)), "abcdef  \x1b[0m\x1b[38;5;240m|\x1b[0m");
    assert_eq!(text(&s.build_empty_line(4)), "   \x1b[0m\x1b[38;5;240m|\x1b[0m");
    s.style.border = Vec::new();
    assert_eq!(text(&s.build_empty_line(4)), "    ");
}

#[test]
fn selected_fill_lines_use_reverse_video() {
    let s = granted();
    let mut content = StyledText::new();
    content.push(chars("ab"), InlineStyle { bg: ColorSpec::EightBit(236), fill: true, ..InlineStyle::plain() });
    assert_eq!(
        text(&s.build_line(&content, 4, true)),
        "\x1b[7m\x1b[0m\x1b[7m\x1b[38;5;236mab  \x1b[0m"
    );
    assert_eq!(text(&s.build_line(&content, 4, false)), "\x1b[0m\x1b[48;5;236mab\x1b[0m  ");
}

#[test]
fn format_expansion() {
    let mut s = granted();
    s.update(Event::PaneUpdate(vec![(0, vec![pane(1, "nvim", true)])]));
    let t = TabView { is_fullscreen_active: true, ..tab(0, "Tab #1", true) };
    let st = s.expand_tmux_format(&chars("#[bold]{index}:{name} {indicators}|{=2:title}|{sync}{x}"), &t, 4);
    let got: Vec<String> = st.segments.iter().map(|g| text(&g.text)).collect();
    assert_eq!(got, vec!["4", ":", "nvim", " ", "Z*", "|", "..", "|", "{x}"]);
    assert!(st.segments.iter().all(|g| g.style.bold));
    assert_eq!(text(&s.expand_overflow_format(&chars("  ^ +{count}"), 12)), "  ^ +12");
}

#[test]
fn renaming_an_unnamed_tab_prompts() {
    let mut s = granted();
    s.update(Event::ModeUpdate(ModeView { rename_tab: true, ..mode() }, true));
    let t = tab(0, "", true);
    let st = s.expand_tmux_format(&chars("{name}"), &t, 1);
    assert_eq!(text(&st.segments[0].text), "Enter name...");
    let long = tab(0, "a-very-long-tab-name-here", false);
    let st = s.expand_tmux_format(&chars("{n}"), &long, 1);
    assert_eq!(text(&st.segments[0].text), "a-very-long-tab-n...");
}

#[test]
fn error_banner() {
    let rows = render_error(5, 24, &chars("state_style & focus_style both use the FILL"));
    assert_eq!(rows.len(), 5);
    let bg = "\x1b[48;5;196m";
    let fg = "\x1b[38;5;231m";
    let banner = |t: &str| {
        let w = UnicodeWidthStr::width(t);
        format!("{}{}{}{}\x1b[0m", bg, fg, t, " ".repeat(24 - w))
    };
    assert_eq!(text(&rows[0]), banner(" ⚠ agent-tabs config"));
    assert_eq!(text(&rows[1]), banner(" state_style &"));
    assert_eq!(text(&rows[2]), banner(" focus_style both use"));
    assert_eq!(text(&rows[3]), banner(" the FILL"));
    assert_eq!(text(&rows[4]), " ".repeat(24));
    // the whole message shows: it is wrapped one column narrower than the pane
    let rows = render_error(3, 10, &chars("abcde fghi"));
    let narrow = |t: &str| {
        let w = UnicodeWidthStr::width(t);
        format!("{}{}{}{}\x1b[0m", bg, fg, t, " ".repeat(10 - w))
    };
    assert_eq!(text(&rows[1]), narrow(" abcde"));
    assert_eq!(text(&rows[2]), narrow(" fghi"));
    let wrapped = wrap_message(&chars("  a  bb ccc "), 4);
    let got: Vec<String> = wrapped.iter().map(|l| text(l)).collect();
    assert_eq!(got, vec!["a bb", "ccc"]);
}

#[test]
fn rendering_the_plugin() {
    let mut s = PluginState::new(mode());
    assert!(s.render(5, 10).is_empty());
    assert_eq!(s.last_rows, 5);
    s.update(Event::PermissionResult(true));
    assert!(s.render(5, 10).is_empty());
    s.update(Event::TabUpdate(vec![tab(0, "one", true), tab(1, "two", false)], true));
    let rows = s.render(8, 10);
    assert_eq!(rows.len(), 8);
    assert!(rows.iter().all(|r| text(r).ends_with("\x1b[m")));
    assert_eq!(text(&rows[6]), "          \x1b[m");
    assert_eq!(s.tab_rows, vec![(0, 3, 1), (3, 6, 2)]);
    assert!(text(&rows[1]).contains(" 1 one"));
    assert!(text(&rows[4]).contains(" 2 two"));
    assert_eq!(s.get_tab_at_row(4), Some(2));
    assert_eq!(s.get_tab_at_row(6), None);
    let (r, a) = s.update(Event::LeftClick(4));
    assert!(r);
    assert!(matches!(a.as_slice(), [Action::SwitchTab(2)]));
}

#[test]
fn overflow_markers_when_tabs_do_not_fit() {
    let mut s = granted();
    let tabs: Vec<TabView> = (0..6).map(|i| tab(i, &format!("t{}", i), i == 3)).collect();
    s.update(Event::TabUpdate(tabs, true));
    let rows = s.render(9, 12);
    assert_eq!(rows.len(), 9);
    // 9 rows hold 3 boxes of 3 rows; with 6 tabs one box is shown between the markers
    assert_eq!(text(&rows[0]), "  ^ +3      \x1b[m");
    assert!(text(&rows[2]).contains(" 4 t3"));
    assert_eq!(text(&rows[4]), "  v +2      \x1b[m");
    assert_eq!(s.tab_rows, vec![(1, 4, 4)]);
}

#[test]
fn config_error_replaces_the_tab_bar() {
    let mut s = PluginState::new(mode());
    s.load(&vec![(chars("state_style"), chars("border"))]);
    s.update(Event::PermissionResult(true));
    s.update(Event::TabUpdate(vec![tab(0, "one", true)], true));
    // the banner keeps all its lines even when the pane is shorter
    let rows = s.render(3, 30);
    assert_eq!(rows.len(), 4);
    assert!(text(&rows[0]).contains("agent-tabs config"));
    assert!(text(&rows[1]).contains("state_style"));
    assert!(text(&rows[2]).contains("BORDER"));
    assert!(text(&rows[3]).contains("fill/glyph/none"));
    assert!(s.tab_rows.is_empty());
}

#[test]
fn unreadable_colour_in_an_overflow_line() {
    let mut s = granted();
    s.style.overflow_above = chars("#[fg=#éa]^");
    let tabs: Vec<TabView> = (0..6).map(|i| tab(i, "t", i == 5)).collect();
    s.update(Event::TabUpdate(tabs, true));
    let rows = s.render(9, 4);
    assert_eq!(text(&rows[0]), "^   \x1b[m");
}

#[test]
fn tab_numbers_wrap_past_the_largest_number() {
    let mut s = granted();
    s.style.start_index = usize::MAX;
    s.update(Event::TabUpdate(vec![tab(0, "a", true), tab(1, "b", false)], true));
    let rows = s.render(6, 40);
    assert!(text(&rows[1]).contains(&format!(" {} a", usize::MAX)));
    assert!(text(&rows[4]).contains(" 0 b"));
}

fn visible(s: &str) -> String {
    let mut out = String::new();
    let mut it = s.chars();
    while let Some(c) = it.next() {
        if c == '\x1b' {
            for d in it.by_ref() {
                if d == 'm' {
                    break;
                }
            }
        } else {
            out.push(c);
        }
    }
    out
}

#[test]
fn box_text_without_codes() {
    let mut s = granted();
    s.frame = 3;
    let lines = s.render_box(12, true, AgentState::Working, &chars("build"), 14, 4);
    let shown: Vec<String> = lines.iter().map(|l| visible(&text(l))).collect();
    assert_eq!(
        shown,
        vec!["╭────────────╮", "│ 12 build   │", "│            │", "╰────────────╯"]
    );
}

#[test]
fn tab_bar_fills_the_pane() {
    let mut s = granted();
    s.style.padding_top = 2;
    s.update(Event::TabUpdate(vec![tab(0, "one", true)], true));
    let rows = s.render(7, 8);
    assert_eq!(rows.len(), 7);
    assert_eq!(text(&rows[0]), "        \x1b[m");
    assert_eq!(text(&rows[1]), "        \x1b[m");
    assert!(rows.iter().all(|r| text(r).ends_with("\x1b[m")));
}

#[test]
fn active_box_is_whole_and_boxes_follow_each_other() {
    let mut s = granted();
    s.style.padding_top = 1;
    let tabs: Vec<TabView> = (0..7).map(|i| tab(i, &format!("t{}", i), i == 5)).collect();
    s.update(Event::TabUpdate(tabs, true));
    // 13 rows: one of padding, then room for four boxes of three rows
    let _rows = s.render(13, 10);
    let h = 3;
    assert!(s.tab_rows.iter().any(|r| r.2 == 6 && r.1 == r.0 + h));
    for w in s.tab_rows.windows(2) {
        assert_eq!(w[0].1, w[1].0);
        assert_eq!(w[1].2, w[0].2 + 1);
    }
    assert!(s.tab_rows.iter().all(|r| r.1 == r.0 + h && r.1 <= 13 && 1 <= r.2 && r.2 <= 7));
}

#[test]
fn clicks_outside_the_boxes_select_nothing() {
    let mut s = granted();
    s.style.padding_top = 1;
    let tabs: Vec<TabView> = (0..6).map(|i| tab(i, "t", i == 3)).collect();
    s.update(Event::TabUpdate(tabs, true));
    let rows = s.render(11, 8);
    // padding, the overflow line above, then boxes, then the overflow line below
    assert_eq!(s.tab_rows.first().map(|r| r.0), Some(2));
    for row in [0isize, 1] {
        let (_, a) = s.update(Event::LeftClick(row));
        assert!(a.is_empty());
    }
    let last_end = s.tab_rows.last().map(|r| r.1).unwrap();
    for row in last_end..rows.len() + 3 {
        assert_eq!(s.get_tab_at_row(row), None);
    }
    for r in s.tab_rows.clone() {
        for row in r.0..r.1 {
            assert_eq!(s.get_tab_at_row(row), Some(r.2));
        }
    }
}

#[test]
fn box_rows_are_printed_in_their_ranges() {
    let mut s = granted();
    s.update(Event::TabUpdate(vec![tab(0, "one", true), tab(1, "two", false)], true));
    let rows = s.render(8, 10);
    let second = s.render_box(2, false, AgentState::Idle, &chars("two"), 10, 3);
    let (from, to, t) = s.tab_rows[1];
    assert_eq!(t, 2);
    for row in from..to {
        assert_eq!(text(&rows[row]), format!("{}\x1b[m", text(&second[row - from])));
    }
}

#[test]
fn label_segments_take_the_last_directive() {
    let mut s = granted();
    let t = tab(0, "x", true);
    let segs = s.expand_tmux_format(&chars("a#[fg=red]b{index}#[bold]#[bg=blue]c"), &t, 4);
    let got: Vec<(String, InlineStyle)> =
        segs.segments.iter().map(|g| (text(&g.text), g.style)).collect();
    let red = InlineStyle { fg: ColorSpec::EightBit(196), ..InlineStyle::plain() };
    let last = InlineStyle { bg: ColorSpec::EightBit(33), ..InlineStyle::plain() };
    assert_eq!(got[0], ("a".to_string(), InlineStyle::plain()));
    assert_eq!(got[1], ("b".to_string(), red));
    assert_eq!(got[2], ("4".to_string(), red));
    assert_eq!(got[3], ("c".to_string(), last));
    assert!(got.iter().all(|g| !g.0.is_empty()));
}

#[test]
fn styled_text_shows_its_texts() {
    let mut t = StyledText::new();
    t.push(chars("ab"), InlineStyle::plain());
    t.push(chars("cd"), InlineStyle { bold: true, ..InlineStyle::plain() });
    let code = text(&t.to_ansi());
    assert_eq!(visible(&code), "abcd");
    assert_eq!(code, "ab\x1b[0m\x1b[1mcd\x1b[0m");
    let mut p = StyledText::new();
    p.push(chars("ab"), InlineStyle::plain());
    p.push(chars("cd"), InlineStyle::plain());
    assert_eq!(text(&p.to_ansi()), "abcd");
}

#[test]
fn truncation_keeps_the_start() {
    let mut t = StyledText::new();
    let bold = InlineStyle { bold: true, ..InlineStyle::plain() };
    t.push(chars("abc"), InlineStyle::plain());
    t.push(chars("defg"), bold);
    t.push(chars("hi"), InlineStyle::plain());
    let r = t.truncate(5);
    let got: Vec<(String, InlineStyle)> = r.segments.iter().map(|g| (text(&g.text), g.style)).collect();
    assert_eq!(got, vec![("abc".to_string(), InlineStyle::plain()), ("de".to_string(), bold)]);
    let whole = t.truncate(9);
    assert_eq!(whole.segments.len(), 3);
}

#[test]
fn ascii_lines_fill_their_columns() {
    let s = granted();
    let mut content = StyledText::new();
    content.push(chars("abc"), InlineStyle { bold: true, ..InlineStyle::plain() });
    content.push(chars("defghij"), InlineStyle::plain());
    for cols in 1..14 {
        let line = text(&s.build_line(&content, cols, false));
        assert_eq!(visible(&line).chars().count(), cols);
        assert_eq!(visible(&line).width(), cols);
    }
}

#[test]
fn ascii_banner_rows_fill_their_columns() {
    let rows = render_error(8, 12, &chars("state_style must be one of fill glyph none"));
    assert_eq!(rows.len(), 8);
    for r in rows.iter().skip(1) {
        assert_eq!(visible(&text(r)).chars().count(), 12);
    }
}

#[test]
fn ascii_box_rows_fill_their_columns() {
    let s = granted();
    for cols in 8..14 {
        let lines = s.render_box(7, false, AgentState::Idle, &chars("abc"), cols, 4);
        assert_eq!(lines.len(), 4);
        for l in &lines {
            assert_eq!(visible(&text(l)).chars().count(), cols);
        }
    }
}
