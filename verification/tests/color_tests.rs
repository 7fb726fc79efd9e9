use agent_tabs::color::{color_from_name, parse_color_spec, parse_hex_color, parse_rgb_func, ColorSpec};

fn chars(s: &str) -> Vec<char> {
    s.chars().collect()
}

fn text(v: &[char]) -> String {
    v.iter().collect()
}

#[test]
fn fg_and_bg_codes() {
    assert_eq!(text(&ColorSpec::Default.to_ansi_fg()), "");
    assert_eq!(text(&ColorSpec::Default.to_ansi_bg()), "");
    assert_eq!(text(&ColorSpec::EightBit(238).to_ansi_fg()), "\x1b[38;5;238m");
    assert_eq!(text(&ColorSpec::EightBit(7).to_ansi_bg()), "\x1b[48;5;7m");
    assert_eq!(text(&ColorSpec::Rgb(1, 22, 255).to_ansi_fg()), "\x1b[38;2;1;22;255m");
    assert_eq!(text(&ColorSpec::Rgb(0, 0, 0).to_ansi_bg()), "\x1b[48;2;0;0;0m");
}

#[test]
fn default_colour_is_default() {
    assert!(ColorSpec::Default.is_default());
    assert!(!ColorSpec::EightBit(0).is_default());
    assert!(!ColorSpec::Rgb(0, 0, 0).is_default());
}

#[test]
fn hex_short_and_long() {
    assert_eq!(parse_hex_color(&chars("444")), Some((0x44, 0x44, 0x44)));
    assert_eq!(parse_hex_color(&chars("fA0")), Some((255, 170, 0)));
    assert_eq!(parse_hex_color(&chars("1a2B3c")), Some((0x1a, 0x2b, 0x3c)));
    assert_eq!(parse_hex_color(&chars("12345")), None);
    assert_eq!(parse_hex_color(&chars("gg0000")), None);
    assert_eq!(parse_hex_color(&chars("")), None);
}

#[test]
fn hex_digits_only() {
    assert_eq!(parse_hex_color(&chars("fFf")), Some((255, 255, 255)));
    assert_eq!(parse_hex_color(&chars("0a10ff")), Some((10, 16, 255)));
    assert_eq!(parse_hex_color(&chars("+f0000")), None);
    assert_eq!(parse_hex_color(&chars("+f+f+f")), None);
    assert_eq!(parse_hex_color(&chars("+ff")), None);
    assert_eq!(parse_hex_color(&chars(" 12345")), None);
}

#[test]
fn rgb_function_values() {
    assert_eq!(parse_rgb_func(&chars("68,68,68")), Some((68, 68, 68)));
    assert_eq!(parse_rgb_func(&chars(" 1 , 2,3 ")), Some((1, 2, 3)));
    assert_eq!(parse_rgb_func(&chars("1,2")), None);
    assert_eq!(parse_rgb_func(&chars("1,2,256")), None);
    assert_eq!(parse_rgb_func(&chars("1,2,3,4")), None);
}

#[test]
fn colour_values() {
    assert_eq!(parse_color_spec(&chars("#444444")), ColorSpec::Rgb(0x44, 0x44, 0x44));
    assert_eq!(parse_color_spec(&chars("  #abc ")), ColorSpec::Rgb(0xaa, 0xbb, 0xcc));
    assert_eq!(parse_color_spec(&chars("rgb(68,68,68)")), ColorSpec::Rgb(68, 68, 68));
    assert_eq!(parse_color_spec(&chars("238")), ColorSpec::EightBit(238));
    assert_eq!(parse_color_spec(&chars("256")), ColorSpec::Default);
    assert_eq!(parse_color_spec(&chars("Orange")), ColorSpec::EightBit(208));
    assert_eq!(parse_color_spec(&chars("GREEN")), ColorSpec::EightBit(82));
    assert_eq!(parse_color_spec(&chars("no-such-colour")), ColorSpec::Default);
    assert_eq!(parse_color_spec(&chars("#zzz")), ColorSpec::Default);
}

#[test]
fn colour_names() {
    assert_eq!(color_from_name(&chars("accent")), ColorSpec::EightBit(39));
    assert_eq!(color_from_name(&chars("primary")), ColorSpec::EightBit(39));
    assert_eq!(color_from_name(&chars("secondary")), ColorSpec::EightBit(75));
    assert_eq!(color_from_name(&chars("tertiary")), ColorSpec::EightBit(141));
    assert_eq!(color_from_name(&chars("muted")), ColorSpec::EightBit(245));
    assert_eq!(color_from_name(&chars("dimmed")), ColorSpec::EightBit(240));
    assert_eq!(color_from_name(&chars("black")), ColorSpec::EightBit(0));
    assert_eq!(color_from_name(&chars("warning")), ColorSpec::EightBit(196));
    assert_eq!(color_from_name(&chars("ok")), ColorSpec::EightBit(82));
    assert_eq!(color_from_name(&chars("yellow")), ColorSpec::EightBit(226));
    assert_eq!(color_from_name(&chars("blue")), ColorSpec::EightBit(33));
    assert_eq!(color_from_name(&chars("magenta")), ColorSpec::EightBit(201));
    assert_eq!(color_from_name(&chars("cyan")), ColorSpec::EightBit(51));
    assert_eq!(color_from_name(&chars("white")), ColorSpec::EightBit(15));
    assert_eq!(color_from_name(&chars("grey")), ColorSpec::EightBit(244));
    assert_eq!(color_from_name(&chars("pink")), ColorSpec::EightBit(213));
    assert_eq!(color_from_name(&chars("purple")), ColorSpec::EightBit(135));
    assert_eq!(color_from_name(&chars("reset")), ColorSpec::Default);
}

#[test]
fn multi_byte_hex_values_fall_back_to_the_default() {
    assert_eq!(parse_hex_color(&chars("éa")), None);
    assert_eq!(parse_hex_color(&chars("é4")), None);
    assert_eq!(parse_hex_color(&chars("aééa")), None);
    assert_eq!(parse_hex_color(&chars("ééé")), None);
    assert_eq!(parse_color_spec(&chars("#é4")), ColorSpec::Default);
    assert_eq!(parse_color_spec(&chars("#aééa")), ColorSpec::Default);
    assert_eq!(parse_color_spec(&chars("#+f+f+f")), ColorSpec::Default);
}

#[test]
fn colour_names_in_any_ascii_case() {
    assert_eq!(parse_color_spec(&chars(" RED ")), ColorSpec::EightBit(196));
    assert_eq!(parse_color_spec(&chars("Orange")), ColorSpec::EightBit(208));
}
