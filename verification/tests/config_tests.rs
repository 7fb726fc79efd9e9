use agent_tabs::agent::{AgentState, Anim, Channels};
use agent_tabs::color::ColorSpec;
use agent_tabs::config::{get_setting, parse_priority, StyleConfig};

fn chars(s: &str) -> Vec<char> {
    s.chars().collect()
}

fn text(v: &[char]) -> String {
    v.iter().collect()
}

fn cfg(pairs: &[(&str, &str)]) -> Vec<(Vec<char>, Vec<char>)> {
    pairs.iter().map(|(k, v)| (chars(k), chars(v))).collect()
}

#[test]
fn state_keywords() {
    assert_eq!(AgentState::parse(&chars("working")), AgentState::Working);
    assert_eq!(AgentState::parse(&chars("  WAITING ")), AgentState::Waiting);
    assert_eq!(AgentState::parse(&chars("Done")), AgentState::Done);
    assert_eq!(AgentState::parse(&chars("error")), AgentState::Error);
    assert_eq!(AgentState::parse(&chars("idle")), AgentState::Idle);
    assert_eq!(AgentState::parse(&chars("busy")), AgentState::Idle);
    for st in [AgentState::Idle, AgentState::Working, AgentState::Waiting, AgentState::Done, AgentState::Error] {
        assert_eq!(AgentState::parse(&chars(st.key())), st);
    }
    assert_eq!(AgentState::Working.key(), "working");
    assert_eq!(AgentState::Idle.key(), "idle");
}

#[test]
fn animation_keywords() {
    assert_eq!(Anim::parse(&chars("flash")), Anim::Flash);
    assert_eq!(Anim::parse(&chars(" Scroll")), Anim::Scroll);
    assert_eq!(Anim::parse(&chars("SOLID")), Anim::Solid);
    assert_eq!(Anim::parse(&chars("none")), Anim::Off);
    assert_eq!(Anim::parse(&chars("blink")), Anim::Off);
    assert!(Anim::Flash.is_animated());
    assert!(Anim::Scroll.is_animated());
    assert!(!Anim::Solid.is_animated());
    assert!(!Anim::Off.is_animated());
}

#[test]
fn channel_tokens() {
    assert_eq!(Channels::parse(&chars("fill")), Channels { fill: true, border: false, glyph: false });
    assert_eq!(Channels::parse(&chars("border+dot")), Channels { fill: false, border: true, glyph: true });
    assert_eq!(Channels::parse(&chars("both")), Channels { fill: true, border: true, glyph: false });
    assert_eq!(Channels::parse(&chars(" ALL ")), Channels { fill: true, border: true, glyph: true });
    assert_eq!(Channels::parse(&chars("none")), Channels { fill: false, border: false, glyph: false });
    assert_eq!(Channels::parse(&chars("glyph, fill")), Channels { fill: true, border: false, glyph: true });
}

#[test]
fn default_configuration() {
    let s = StyleConfig::default();
    assert_eq!(text(&s.format), "{index}:{name}");
    assert_eq!(text(&s.overflow_above), "  ^ +{count}");
    assert_eq!(s.tab_height, 3);
    assert_eq!(s.start_index, 1);
    assert_eq!(s.max_name_length, 20);
    assert_eq!(s.anim_interval_ms, 500);
    assert_eq!(
        s.state_priority,
        vec![AgentState::Error, AgentState::Waiting, AgentState::Working, AgentState::Done, AgentState::Idle]
    );
    assert_eq!(s.anim_for(AgentState::Working), Anim::Scroll);
    assert_eq!(s.anim_for(AgentState::Waiting), Anim::Flash);
    assert_eq!(s.anim_for(AgentState::Done), Anim::Solid);
    assert_eq!(s.anim_for(AgentState::Error), Anim::Flash);
    assert_eq!(s.anim_for(AgentState::Idle), Anim::Off);
    assert_eq!(s.state_style, Channels { fill: true, border: false, glyph: false });
    assert_eq!(s.focus_style, Channels { fill: false, border: true, glyph: false });
    assert_eq!(text(&s.state_glyph), "●");
    assert!(s.conflict().is_none());
}

#[test]
fn reading_settings() {
    let c = cfg(&[
        ("format", "{name}"),
        ("tab_height", "1"),
        ("anim_interval_ms", "10"),
        ("max_name_length", "x"),
        ("color_working", "#00ff00"),
        ("color_error", "red"),
        ("anim_done", "flash"),
        ("state_priority", "waiting  error"),
        ("border_char", "|"),
        ("state_style", "border"),
        ("state_glyph", "*"),
    ]);
    let mut s = StyleConfig::default();
    s.load(&c);
    assert_eq!(text(&s.format), "{name}");
    assert_eq!(s.tab_height, 2);
    assert_eq!(s.anim_interval_ms, 50);
    assert_eq!(s.max_name_length, 20);
    assert_eq!(s.color_working, Some(ColorSpec::Rgb(0, 255, 0)));
    assert_eq!(s.color_error, Some(ColorSpec::EightBit(196)));
    assert_eq!(s.color_done, None);
    assert_eq!(s.anim_done, Anim::Flash);
    assert_eq!(s.state_priority, vec![AgentState::Waiting, AgentState::Error]);
    assert_eq!(text(&s.border), "|");
    assert_eq!(s.state_style, Channels { fill: false, border: true, glyph: false });
    assert_eq!(text(&s.state_glyph), "*");
    // state and focus now both use the border
    let msg = s.conflict().expect("conflict");
    assert_eq!(text(&msg), "state_style & focus_style both use the BORDER — set one to fill/glyph/none");
}

#[test]
fn border_wins_over_border_char() {
    let c = cfg(&[("border", "#[fg=240]│"), ("border_char", "|")]);
    let mut s = StyleConfig::default();
    s.load(&c);
    assert_eq!(text(&s.border), "#[fg=240]│");
}

#[test]
fn empty_priority_keeps_the_default() {
    let c = cfg(&[("state_priority", "   ")]);
    let mut s = StyleConfig::default();
    s.load(&c);
    assert_eq!(s.state_priority.len(), 5);
    assert_eq!(parse_priority(&chars(" done bogus ")), vec![AgentState::Done, AgentState::Idle]);
}

#[test]
fn conflicts_between_channels() {
    let mut s = StyleConfig::default();
    s.focus_style = Channels { fill: true, border: false, glyph: false };
    assert_eq!(
        text(&s.conflict().unwrap()),
        "state_style & focus_style both use the FILL — set one to border/glyph/none"
    );
    s.state_style = Channels { fill: false, border: false, glyph: true };
    s.focus_style = Channels { fill: false, border: false, glyph: true };
    assert_eq!(
        text(&s.conflict().unwrap()),
        "state_style & focus_style both use the GLYPH — set one to fill/border/none"
    );
}

#[test]
fn setting_lookup() {
    let c = cfg(&[("a", "1"), ("b", "2")]);
    assert_eq!(get_setting(&c, "b").map(|v| text(&v)), Some("2".to_string()));
    assert_eq!(get_setting(&c, "c"), None);
}

#[test]
fn unreadable_colour_settings() {
    let mut s = StyleConfig::default();
    s.load(&cfg(&[("color_done", "#éa"), ("color_inactive_border", " #é0")]));
    assert_eq!(s.color_done, Some(ColorSpec::Default));
    assert_eq!(s.color_inactive_border, Some(ColorSpec::Default));
}

#[test]
fn keywords_in_any_ascii_case() {
    assert_eq!(AgentState::parse(&chars(" WORKING ")), AgentState::Working);
    assert_eq!(AgentState::parse(&chars("Idle")), AgentState::Idle);
    assert_eq!(Anim::parse(&chars("Scroll")), Anim::Scroll);
    let c = Channels::parse(&chars("Fill+BORDER"));
    assert!(c.fill && c.border && !c.glyph);
}
