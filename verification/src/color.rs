//! Colours: the colour model, its ANSI escape codes, and the colour-value parser.

use vstd::prelude::*;

use crate::text::{
    all_ascii, ascii_lower, ascii_lower_char, decimal, decimal_chars, eq_lit, lemma_trim_ascii, lowercase, parse_unsigned, parse_unsigned_chars, push_all, push_lit,
    split_chars, split_on, starts_with_lit, sub_vec, to_lowercase_chars, trim, trim_chars, Sep,
};

verus! {

/// A colour: the terminal default, a 256-colour palette index, or true-colour RGB.
#[derive(Clone, Copy, PartialEq, Eq, Structural, Debug)]
pub enum ColorSpec {
    Default,
    EightBit(u8),
    Rgb(u8, u8, u8),
}

impl Default for ColorSpec {
    fn default() -> (r: Self)
        ensures
            r == ColorSpec::Default,
    {
        ColorSpec::Default
    }
}

impl ColorSpec {
    /// The escape sequence that selects this colour for the foreground.
    pub open spec fn fg_code(self) -> Seq<char> {
        match self {
            ColorSpec::Default => Seq::empty(),
            ColorSpec::EightBit(n) => "\x1b[38;5;"@ + decimal(n as nat) + "m"@,
            ColorSpec::Rgb(r, g, b) => "\x1b[38;2;"@ + decimal(r as nat) + ";"@ + decimal(
                g as nat,
            ) + ";"@ + decimal(b as nat) + "m"@,
        }
    }

    /// The escape sequence that selects this colour for the background.
    pub open spec fn bg_code(self) -> Seq<char> {
        match self {
            ColorSpec::Default => Seq::empty(),
            ColorSpec::EightBit(n) => "\x1b[48;5;"@ + decimal(n as nat) + "m"@,
            ColorSpec::Rgb(r, g, b) => "\x1b[48;2;"@ + decimal(r as nat) + ";"@ + decimal(
                g as nat,
            ) + ";"@ + decimal(b as nat) + "m"@,
        }
    }

    pub fn to_ansi_fg(self) -> (r: Vec<char>)
        ensures
            r@ == self.fg_code(),
    {
        let mut r: Vec<char> = Vec::new();
        match self {
            ColorSpec::Default => {},
            ColorSpec::EightBit(n) => {
                push_lit(&mut r, "\x1b[38;5;");
                push_all(&mut r, decimal_chars(n as u64).as_slice());
                push_lit(&mut r, "m");
            },
            ColorSpec::Rgb(red, g, b) => {
                push_lit(&mut r, "\x1b[38;2;");
                push_all(&mut r, decimal_chars(red as u64).as_slice());
                push_lit(&mut r, ";");
                push_all(&mut r, decimal_chars(g as u64).as_slice());
                push_lit(&mut r, ";");
                push_all(&mut r, decimal_chars(b as u64).as_slice());
                push_lit(&mut r, "m");
            },
        }
        assert(r@ =~= self.fg_code());
        r
    }

    pub fn to_ansi_bg(self) -> (r: Vec<char>)
        ensures
            r@ == self.bg_code(),
    {
        let mut r: Vec<char> = Vec::new();
        match self {
            ColorSpec::Default => {},
            ColorSpec::EightBit(n) => {
                push_lit(&mut r, "\x1b[48;5;");
                push_all(&mut r, decimal_chars(n as u64).as_slice());
                push_lit(&mut r, "m");
            },
            ColorSpec::Rgb(red, g, b) => {
                push_lit(&mut r, "\x1b[48;2;");
                push_all(&mut r, decimal_chars(red as u64).as_slice());
                push_lit(&mut r, ";");
                push_all(&mut r, decimal_chars(g as u64).as_slice());
                push_lit(&mut r, ";");
                push_all(&mut r, decimal_chars(b as u64).as_slice());
                push_lit(&mut r, "m");
            },
        }
        assert(r@ =~= self.bg_code());
        r
    }

    pub fn is_default(self) -> (r: bool)
        ensures
            r == (self == ColorSpec::Default),
    {
        matches!(self, ColorSpec::Default)
    }
}

// ---------- hex colours ----------

pub open spec fn is_hex(c: char) -> bool {
    ('0' <= c <= '9') || ('a' <= c <= 'f') || ('A' <= c <= 'F')
}

pub open spec fn hex_val(c: char) -> nat {
    if '0' <= c <= '9' {
        (c as u32 - '0' as u32) as nat
    } else if 'a' <= c <= 'f' {
        (c as u32 - 'a' as u32 + 10) as nat
    } else {
        (c as u32 - 'A' as u32 + 10) as nat
    }
}

pub open spec fn hex_pair_val(a: char, b: char) -> nat {
    16 * hex_val(a) + hex_val(b)
}

/// Every character of `h` is a hex digit.
pub open spec fn all_hex(h: Seq<char>) -> bool {
    forall|i: int| 0 <= i < h.len() ==> is_hex(#[trigger] h[i])
}

/// `parse_hex_color`: three hex digits `RGB` (each digit doubled) or six `RRGGBB`;
/// anything else, a character that is not a hex digit included, is no colour.
pub open spec fn hex_color(h: Seq<char>) -> Option<(u8, u8, u8)> {
    if h.len() == 3 && all_hex(h) {
        Some(
            (
                (17 * hex_val(h[0])) as u8,
                (17 * hex_val(h[1])) as u8,
                (17 * hex_val(h[2])) as u8,
            ),
        )
    } else if h.len() == 6 && all_hex(h) {
        Some(
            (
                hex_pair_val(h[0], h[1]) as u8,
                hex_pair_val(h[2], h[3]) as u8,
                hex_pair_val(h[4], h[5]) as u8,
            ),
        )
    } else {
        None
    }
}

fn hex_digit(c: char) -> (r: Option<u8>)
    ensures
        r is Some <==> is_hex(c),
        r matches Some(v) ==> v as nat == hex_val(c) && v < 16,
{
    if '0' <= c && c <= '9' {
        Some((c as u32 - '0' as u32) as u8)
    } else if 'a' <= c && c <= 'f' {
        Some((c as u32 - 'a' as u32 + 10) as u8)
    } else if 'A' <= c && c <= 'F' {
        Some((c as u32 - 'A' as u32 + 10) as u8)
    } else {
        None
    }
}

fn hex_pair(a: char, b: char) -> (r: Option<u8>)
    ensures
        r is Some <==> is_hex(a) && is_hex(b),
        r matches Some(v) ==> v as nat == hex_pair_val(a, b),
{
    let hi = hex_digit(a)?;
    let lo = hex_digit(b)?;
    Some(hi * 16 + lo)
}

/// Parses `RGB` or `RRGGBB` hex digits (the text after `#`).
pub fn parse_hex_color(hex: &[char]) -> (r: Option<(u8, u8, u8)>)
    ensures
        r == hex_color(hex@),
{
    if hex.len() == 3 {
        let r = hex_digit(hex[0]);
        let g = hex_digit(hex[1]);
        let b = hex_digit(hex[2]);
        match (r, g, b) {
            (Some(r), Some(g), Some(b)) => {
                assert(all_hex(hex@)) by {
                    assert forall|i: int| 0 <= i < hex@.len() implies is_hex(#[trigger] hex@[i]) by {
                        assert(i == 0 || i == 1 || i == 2);
                    }
                }
                Some((r * 17, g * 17, b * 17))
            },
            _ => None,
        }
    } else if hex.len() == 6 {
        let r = hex_pair(hex[0], hex[1]);
        let g = hex_pair(hex[2], hex[3]);
        let b = hex_pair(hex[4], hex[5]);
        match (r, g, b) {
            (Some(r), Some(g), Some(b)) => {
                assert(all_hex(hex@)) by {
                    assert forall|i: int| 0 <= i < hex@.len() implies is_hex(#[trigger] hex@[i]) by {
                        assert(0 <= i <= 5);
                    }
                }
                Some((r, g, b))
            },
            _ => None,
        }
    } else {
        None
    }
}

// ---------- rgb(r,g,b) ----------

/// `parse_rgb_func`: exactly three comma-separated decimal bytes, each trimmed.
pub open spec fn rgb_func(inner: Seq<char>) -> Option<(u8, u8, u8)> {
    let p = split_on(inner, Sep::Char(','));
    if p.len() == 3 && parse_unsigned(trim(p[0]), 255) is Some && parse_unsigned(trim(p[1]), 255)
        is Some && parse_unsigned(trim(p[2]), 255) is Some {
        Some(
            (
                parse_unsigned(trim(p[0]), 255)->0 as u8,
                parse_unsigned(trim(p[1]), 255)->0 as u8,
                parse_unsigned(trim(p[2]), 255)->0 as u8,
            ),
        )
    } else {
        None
    }
}

fn parse_byte(s: &[char]) -> (r: Option<u8>)
    ensures
        match parse_unsigned(trim(s@), 255) {
            Some(v) => r == Some(v as u8),
            None => r is None,
        },
{
    let t = trim_chars(s);
    match parse_unsigned_chars(t.as_slice(), 255) {
        Some(v) => Some(v as u8),
        None => None,
    }
}

/// Parses the `r,g,b` inside `rgb(...)`.
pub fn parse_rgb_func(inner: &[char]) -> (r: Option<(u8, u8, u8)>)
    ensures
        r == rgb_func(inner@),
{
    let parts = split_chars(inner, Sep::Char(','));
    if parts.len() != 3 {
        return None;
    }
    assert(parts[0]@ == parts.deep_view()[0]);
    assert(parts[1]@ == parts.deep_view()[1]);
    assert(parts[2]@ == parts.deep_view()[2]);
    let r = parse_byte(parts[0].as_slice())?;
    let g = parse_byte(parts[1].as_slice())?;
    let b = parse_byte(parts[2].as_slice())?;
    Some((r, g, b))
}

// ---------- named colours ----------

/// The colour a (lowercased) name stands for; unknown names give the default colour.
pub open spec fn named_color(n: Seq<char>) -> ColorSpec {
    if n == "none"@ || n == "default"@ || n == "reset"@ {
        ColorSpec::Default
    } else if n == "accent"@ || n == "primary"@ {
        ColorSpec::EightBit(39)
    } else if n == "secondary"@ {
        ColorSpec::EightBit(75)
    } else if n == "tertiary"@ {
        ColorSpec::EightBit(141)
    } else if n == "muted"@ || n == "quaternary"@ {
        ColorSpec::EightBit(245)
    } else if n == "dim"@ || n == "dimmed"@ {
        ColorSpec::EightBit(240)
    } else if n == "black"@ {
        ColorSpec::EightBit(0)
    } else if n == "red"@ || n == "error"@ || n == "warning"@ {
        ColorSpec::EightBit(196)
    } else if n == "green"@ || n == "success"@ || n == "ok"@ {
        ColorSpec::EightBit(82)
    } else if n == "yellow"@ {
        ColorSpec::EightBit(226)
    } else if n == "blue"@ {
        ColorSpec::EightBit(33)
    } else if n == "magenta"@ {
        ColorSpec::EightBit(201)
    } else if n == "cyan"@ {
        ColorSpec::EightBit(51)
    } else if n == "white"@ {
        ColorSpec::EightBit(15)
    } else if n == "orange"@ {
        ColorSpec::EightBit(208)
    } else if n == "gray"@ || n == "grey"@ {
        ColorSpec::EightBit(244)
    } else if n == "pink"@ {
        ColorSpec::EightBit(213)
    } else if n == "purple"@ {
        ColorSpec::EightBit(135)
    } else {
        ColorSpec::Default
    }
}

/// Looks a lowercased colour name up (see [`named_color`]).
pub fn color_from_name(n: &[char]) -> (r: ColorSpec)
    ensures
        r == named_color(n@),
{
    if eq_lit(n, "none") || eq_lit(n, "default") || eq_lit(n, "reset") {
        ColorSpec::Default
    } else if eq_lit(n, "accent") || eq_lit(n, "primary") {
        ColorSpec::EightBit(39)
    } else if eq_lit(n, "secondary") {
        ColorSpec::EightBit(75)
    } else if eq_lit(n, "tertiary") {
        ColorSpec::EightBit(141)
    } else if eq_lit(n, "muted") || eq_lit(n, "quaternary") {
        ColorSpec::EightBit(245)
    } else if eq_lit(n, "dim") || eq_lit(n, "dimmed") {
        ColorSpec::EightBit(240)
    } else if eq_lit(n, "black") {
        ColorSpec::EightBit(0)
    } else if eq_lit(n, "red") || eq_lit(n, "error") || eq_lit(n, "warning") {
        ColorSpec::EightBit(196)
    } else if eq_lit(n, "green") || eq_lit(n, "success") || eq_lit(n, "ok") {
        ColorSpec::EightBit(82)
    } else if eq_lit(n, "yellow") {
        ColorSpec::EightBit(226)
    } else if eq_lit(n, "blue") {
        ColorSpec::EightBit(33)
    } else if eq_lit(n, "magenta") {
        ColorSpec::EightBit(201)
    } else if eq_lit(n, "cyan") {
        ColorSpec::EightBit(51)
    } else if eq_lit(n, "white") {
        ColorSpec::EightBit(15)
    } else if eq_lit(n, "orange") {
        ColorSpec::EightBit(208)
    } else if eq_lit(n, "gray") || eq_lit(n, "grey") {
        ColorSpec::EightBit(244)
    } else if eq_lit(n, "pink") {
        ColorSpec::EightBit(213)
    } else if eq_lit(n, "purple") {
        ColorSpec::EightBit(135)
    } else {
        ColorSpec::Default
    }
}

// ---------- any colour value ----------

pub open spec fn is_rgb_call(t: Seq<char>) -> bool {
    t.len() >= 5 && t.take(4) == "rgb("@ && t.last() == ')'
}

/// The colour the trimmed setting `t` gives, where `lower` is `t` lowercased:
/// `#RGB`/`#RRGGBB`, `rgb(r,g,b)`, a palette index `0`..`255`, else a colour name.
pub open spec fn color_value(t: Seq<char>, lower: Seq<char>) -> ColorSpec {
    if t.len() > 0 && t[0] == '#' && hex_color(t.drop_first()) is Some {
        let (r, g, b) = hex_color(t.drop_first())->0;
        ColorSpec::Rgb(r, g, b)
    } else if is_rgb_call(t) && rgb_func(t.subrange(4, t.len() - 1)) is Some {
        let (r, g, b) = rgb_func(t.subrange(4, t.len() - 1))->0;
        ColorSpec::Rgb(r, g, b)
    } else if parse_unsigned(t, 255) is Some {
        ColorSpec::EightBit(parse_unsigned(t, 255)->0 as u8)
    } else {
        named_color(lower)
    }
}

/// The value of a colour setting: `#RGB`/`#RRGGBB`, `rgb(r,g,b)`, a palette index
/// `0`..`255`, or a colour name in any case; surrounding whitespace is ignored.
pub open spec fn color_spec(name: Seq<char>) -> ColorSpec {
    color_value(trim(name), lowercase(trim(name)))
}

/// Parses a colour value (see [`color_spec`]).
pub fn parse_color_spec(name: &[char]) -> (r: ColorSpec)
    ensures
        r == color_spec(name@),
        all_ascii(name@) ==> r == color_value(trim(name@), ascii_lower(trim(name@))),
{
    let t = trim_chars(name);
    proof {
        if all_ascii(name@) {
            lemma_trim_ascii(name@);
        }
    }
    let n = t.len();
    if n > 0 && t[0] == '#' {
        let hex = sub_vec(t.as_slice(), 1, n);
        assert(hex@ =~= t@.drop_first());
        if let Some((r, g, b)) = parse_hex_color(hex.as_slice()) {
            return ColorSpec::Rgb(r, g, b);
        }
    }
    if starts_with_lit(t.as_slice(), "rgb(") && n >= 5 && t[n - 1] == ')' {
        proof {
            reveal_strlit("rgb(");
        }
        let inner = sub_vec(t.as_slice(), 4, n - 1);
        if let Some((r, g, b)) = parse_rgb_func(inner.as_slice()) {
            return ColorSpec::Rgb(r, g, b);
        }
    }
    proof {
        reveal_strlit("rgb(");
    }
    if let Some(v) = parse_unsigned_chars(t.as_slice(), 255) {
        return ColorSpec::EightBit(v as u8);
    }
    let lower = to_lowercase_chars(t.as_slice());
    color_from_name(lower.as_slice())
}

/// A word of small letters is looked up as a colour name: it is no `#` colour, no
/// `rgb(...)` call and no palette index, whatever the case it was written in.
proof fn lemma_word_color(t: Seq<char>)
    requires
        ascii_lower(t).len() > 0,
        forall|i: int| 0 <= i < ascii_lower(t).len() ==> 'a' <= #[trigger] ascii_lower(t)[i] <= 'z',
    ensures
        color_value(t, ascii_lower(t)) == named_color(ascii_lower(t)),
{
    let n = ascii_lower(t);
    assert forall|i: int| 0 <= i < t.len() implies ('a' <= #[trigger] t[i] <= 'z' || 'A' <= t[i] <= 'Z') by {
        assert(n[i] == ascii_lower_char(t[i]));
        assert('a' <= n[i] <= 'z');
    }
    assert(t[0] != '#' && t[0] != '+' && !crate::text::is_digit(t[0]));
    assert(t[t.len() - 1] != ')');
    assert(!is_rgb_call(t));
    assert(crate::text::unsigned_body(t) == t);
    assert(!crate::text::all_digits(t));
    assert(parse_unsigned(t, 255) is None);
}

/// The colour names, in any ASCII case, give their colours: `none`, `default` and
/// `reset` the terminal default, `accent`/`primary` 39, `secondary` 75, `tertiary` 141,
/// `muted`/`quaternary` 245, `dim`/`dimmed` 240, `black` 0, `red`/`error`/`warning`
/// 196, `green`/`success`/`ok` 82, `yellow` 226, `blue` 33, `magenta` 201, `cyan` 51,
/// `white` 15, `orange` 208, `gray`/`grey` 244, `pink` 213 and `purple` 135 (palette
/// indices). With [`parse_color_spec`]'s contract this is what an ASCII setting whose
/// trimmed text is such a name gives.
pub proof fn lemma_color_names(t: Seq<char>)
    ensures
        ({
            let n = ascii_lower(t);
            &&& (n == "none"@ || n == "default"@ || n == "reset"@) ==> color_value(t, n) == ColorSpec::Default
            &&& (n == "accent"@ || n == "primary"@) ==> color_value(t, n) == ColorSpec::EightBit(39)
            &&& (n == "secondary"@) ==> color_value(t, n) == ColorSpec::EightBit(75)
            &&& (n == "tertiary"@) ==> color_value(t, n) == ColorSpec::EightBit(141)
            &&& (n == "muted"@ || n == "quaternary"@) ==> color_value(t, n) == ColorSpec::EightBit(245)
            &&& (n == "dim"@ || n == "dimmed"@) ==> color_value(t, n) == ColorSpec::EightBit(240)
            &&& (n == "black"@) ==> color_value(t, n) == ColorSpec::EightBit(0)
            &&& (n == "red"@ || n == "error"@ || n == "warning"@) ==> color_value(t, n) == ColorSpec::EightBit(196)
            &&& (n == "green"@ || n == "success"@ || n == "ok"@) ==> color_value(t, n) == ColorSpec::EightBit(82)
            &&& (n == "yellow"@) ==> color_value(t, n) == ColorSpec::EightBit(226)
            &&& (n == "blue"@) ==> color_value(t, n) == ColorSpec::EightBit(33)
            &&& (n == "magenta"@) ==> color_value(t, n) == ColorSpec::EightBit(201)
            &&& (n == "cyan"@) ==> color_value(t, n) == ColorSpec::EightBit(51)
            &&& (n == "white"@) ==> color_value(t, n) == ColorSpec::EightBit(15)
            &&& (n == "orange"@) ==> color_value(t, n) == ColorSpec::EightBit(208)
            &&& (n == "gray"@ || n == "grey"@) ==> color_value(t, n) == ColorSpec::EightBit(244)
            &&& (n == "pink"@) ==> color_value(t, n) == ColorSpec::EightBit(213)
            &&& (n == "purple"@) ==> color_value(t, n) == ColorSpec::EightBit(135)
        }),
{
    let n = ascii_lower(t);
    if n == "none"@ {
        reveal_strlit("none");
        lemma_word_color(t);
        assert(color_value(t, n) == ColorSpec::Default);
    }
    if n == "default"@ {
        reveal_strlit("default");
        lemma_word_color(t);
        assert(color_value(t, n) == ColorSpec::Default);
    }
    if n == "reset"@ {
        reveal_strlit("reset");
        lemma_word_color(t);
        assert(color_value(t, n) == ColorSpec::Default);
    }
    if n == "accent"@ {
        reveal_strlit("accent");
        reveal_strlit("none");
        assert("accent"@.len() != "none"@.len());
        reveal_strlit("default");
        assert("accent"@.len() != "default"@.len());
        reveal_strlit("reset");
        assert("accent"@.len() != "reset"@.len());
        lemma_word_color(t);
        assert(color_value(t, n) == ColorSpec::EightBit(39));
    }
    if n == "primary"@ {
        reveal_strlit("primary");
        reveal_strlit("none");
        assert("primary"@.len() != "none"@.len());
        reveal_strlit("default");
        assert("primary"@[0] != "default"@[0]);
        reveal_strlit("reset");
        assert("primary"@.len() != "reset"@.len());
        lemma_word_color(t);
        assert(color_value(t, n) == ColorSpec::EightBit(39));
    }
    if n == "secondary"@ {
        reveal_strlit("secondary");
        reveal_strlit("none");
        assert("secondary"@.len() != "none"@.len());
        reveal_strlit("default");
        assert("secondary"@.len() != "default"@.len());
        reveal_strlit("reset");
        assert("secondary"@.len() != "reset"@.len());
        reveal_strlit("accent");
        assert("secondary"@.len() != "accent"@.len());
        reveal_strlit("primary");
        assert("secondary"@.len() != "primary"@.len());
        lemma_word_color(t);
        assert(color_value(t, n) == ColorSpec::EightBit(75));
    }
    if n == "tertiary"@ {
        reveal_strlit("tertiary");
        reveal_strlit("none");
        assert("tertiary"@.len() != "none"@.len());
        reveal_strlit("default");
        assert("tertiary"@.len() != "default"@.len());
        reveal_strlit("reset");
        assert("tertiary"@.len() != "reset"@.len());
        reveal_strlit("accent");
        assert("tertiary"@.len() != "accent"@.len());
        reveal_strlit("primary");
        assert("tertiary"@.len() != "primary"@.len());
        reveal_strlit("secondary");
        assert("tertiary"@.len() != "secondary"@.len());
        lemma_word_color(t);
        assert(color_value(t, n) == ColorSpec::EightBit(141));
    }
    if n == "muted"@ {
        reveal_strlit("muted");
        reveal_strlit("none");
        assert("muted"@.len() != "none"@.len());
        reveal_strlit("default");
        assert("muted"@.len() != "default"@.len());
        reveal_strlit("reset");
        assert("muted"@[0] != "reset"@[0]);
        reveal_strlit("accent");
        assert("muted"@.len() != "accent"@.len());
        reveal_strlit("primary");
        assert("muted"@.len() != "primary"@.len());
        reveal_strlit("secondary");
        assert("muted"@.len() != "secondary"@.len());
        reveal_strlit("tertiary");
        assert("muted"@.len() != "tertiary"@.len());
        lemma_word_color(t);
        assert(color_value(t, n) == ColorSpec::EightBit(245));
    }
    if n == "quaternary"@ {
        reveal_strlit("quaternary");
        reveal_strlit("none");
        assert("quaternary"@.len() != "none"@.len());
        reveal_strlit("default");
        assert("quaternary"@.len() != "default"@.len());
        reveal_strlit("reset");
        assert("quaternary"@.len() != "reset"@.len());
        reveal_strlit("accent");
        assert("quaternary"@.len() != "accent"@.len());
        reveal_strlit("primary");
        assert("quaternary"@.len() != "primary"@.len());
        reveal_strlit("secondary");
        assert("quaternary"@.len() != "secondary"@.len());
        reveal_strlit("tertiary");
        assert("quaternary"@.len() != "tertiary"@.len());
        lemma_word_color(t);
        assert(color_value(t, n) == ColorSpec::EightBit(245));
    }
    if n == "dim"@ {
        reveal_strlit("dim");
        reveal_strlit("none");
        assert("dim"@.len() != "none"@.len());
        reveal_strlit("default");
        assert("dim"@.len() != "default"@.len());
        reveal_strlit("reset");
        assert("dim"@.len() != "reset"@.len());
        reveal_strlit("accent");
        assert("dim"@.len() != "accent"@.len());
        reveal_strlit("primary");
        assert("dim"@.len() != "primary"@.len());
        reveal_strlit("secondary");
        assert("dim"@.len() != "secondary"@.len());
        reveal_strlit("tertiary");
        assert("dim"@.len() != "tertiary"@.len());
        reveal_strlit("muted");
        assert("dim"@.len() != "muted"@.len());
        reveal_strlit("quaternary");
        assert("dim"@.len() != "quaternary"@.len());
        lemma_word_color(t);
        assert(color_value(t, n) == ColorSpec::EightBit(240));
    }
    if n == "dimmed"@ {
        reveal_strlit("dimmed");
        reveal_strlit("none");
        assert("dimmed"@.len() != "none"@.len());
        reveal_strlit("default");
        assert("dimmed"@.len() != "default"@.len());
        reveal_strlit("reset");
        assert("dimmed"@.len() != "reset"@.len());
        reveal_strlit("accent");
        assert("dimmed"@[0] != "accent"@[0]);
        reveal_strlit("primary");
        assert("dimmed"@.len() != "primary"@.len());
        reveal_strlit("secondary");
        assert("dimmed"@.len() != "secondary"@.len());
        reveal_strlit("tertiary");
        assert("dimmed"@.len() != "tertiary"@.len());
        reveal_strlit("muted");
        assert("dimmed"@.len() != "muted"@.len());
        reveal_strlit("quaternary");
        assert("dimmed"@.len() != "quaternary"@.len());
        lemma_word_color(t);
        assert(color_value(t, n) == ColorSpec::EightBit(240));
    }
    if n == "black"@ {
        reveal_strlit("black");
        reveal_strlit("none");
        assert("black"@.len() != "none"@.len());
        reveal_strlit("default");
        assert("black"@.len() != "default"@.len());
        reveal_strlit("reset");
        assert("black"@[0] != "reset"@[0]);
        reveal_strlit("accent");
        assert("black"@.len() != "accent"@.len());
        reveal_strlit("primary");
        assert("black"@.len() != "primary"@.len());
        reveal_strlit("secondary");
        assert("black"@.len() != "secondary"@.len());
        reveal_strlit("tertiary");
        assert("black"@.len() != "tertiary"@.len());
        reveal_strlit("muted");
        assert("black"@[0] != "muted"@[0]);
        reveal_strlit("quaternary");
        assert("black"@.len() != "quaternary"@.len());
        reveal_strlit("dim");
        assert("black"@.len() != "dim"@.len());
        reveal_strlit("dimmed");
        assert("black"@.len() != "dimmed"@.len());
        lemma_word_color(t);
        assert(color_value(t, n) == ColorSpec::EightBit(0));
    }
    if n == "red"@ {
        reveal_strlit("red");
        reveal_strlit("none");
        assert("red"@.len() != "none"@.len());
        reveal_strlit("default");
        assert("red"@.len() != "default"@.len());
        reveal_strlit("reset");
        assert("red"@.len() != "reset"@.len());
        reveal_strlit("accent");
        assert("red"@.len() != "accent"@.len());
        reveal_strlit("primary");
        assert("red"@.len() != "primary"@.len());
        reveal_strlit("secondary");
        assert("red"@.len() != "secondary"@.len());
        reveal_strlit("tertiary");
        assert("red"@.len() != "tertiary"@.len());
        reveal_strlit("muted");
        assert("red"@.len() != "muted"@.len());
        reveal_strlit("quaternary");
        assert("red"@.len() != "quaternary"@.len());
        reveal_strlit("dim");
        assert("red"@[0] != "dim"@[0]);
        reveal_strlit("dimmed");
        assert("red"@.len() != "dimmed"@.len());
        reveal_strlit("black");
        assert("red"@.len() != "black"@.len());
        lemma_word_color(t);
        assert(color_value(t, n) == ColorSpec::EightBit(196));
    }
    if n == "error"@ {
        reveal_strlit("error");
        reveal_strlit("none");
        assert("error"@.len() != "none"@.len());
        reveal_strlit("default");
        assert("error"@.len() != "default"@.len());
        reveal_strlit("reset");
        assert("error"@[0] != "reset"@[0]);
        reveal_strlit("accent");
        assert("error"@.len() != "accent"@.len());
        reveal_strlit("primary");
        assert("error"@.len() != "primary"@.len());
        reveal_strlit("secondary");
        assert("error"@.len() != "secondary"@.len());
        reveal_strlit("tertiary");
        assert("error"@.len() != "tertiary"@.len());
        reveal_strlit("muted");
        assert("error"@[0] != "muted"@[0]);
        reveal_strlit("quaternary");
        assert("error"@.len() != "quaternary"@.len());
        reveal_strlit("dim");
        assert("error"@.len() != "dim"@.len());
        reveal_strlit("dimmed");
        assert("error"@.len() != "dimmed"@.len());
        reveal_strlit("black");
        assert("error"@[0] != "black"@[0]);
        lemma_word_color(t);
        assert(color_value(t, n) == ColorSpec::EightBit(196));
    }
    if n == "warning"@ {
        reveal_strlit("warning");
        reveal_strlit("none");
        assert("warning"@.len() != "none"@.len());
        reveal_strlit("default");
        assert("warning"@[0] != "default"@[0]);
        reveal_strlit("reset");
        assert("warning"@.len() != "reset"@.len());
        reveal_strlit("accent");
        assert("warning"@.len() != "accent"@.len());
        reveal_strlit("primary");
        assert("warning"@[0] != "primary"@[0]);
        reveal_strlit("secondary");
        assert("warning"@.len() != "secondary"@.len());
        reveal_strlit("tertiary");
        assert("warning"@.len() != "tertiary"@.len());
        reveal_strlit("muted");
        assert("warning"@.len() != "muted"@.len());
        reveal_strlit("quaternary");
        assert("warning"@.len() != "quaternary"@.len());
        reveal_strlit("dim");
        assert("warning"@.len() != "dim"@.len());
        reveal_strlit("dimmed");
        assert("warning"@.len() != "dimmed"@.len());
        reveal_strlit("black");
        assert("warning"@.len() != "black"@.len());
        lemma_word_color(t);
        assert(color_value(t, n) == ColorSpec::EightBit(196));
    }
    if n == "green"@ {
        reveal_strlit("green");
        reveal_strlit("none");
        assert("green"@.len() != "none"@.len());
        reveal_strlit("default");
        assert("green"@.len() != "default"@.len());
        reveal_strlit("reset");
        assert("green"@[0] != "reset"@[0]);
        reveal_strlit("accent");
        assert("green"@.len() != "accent"@.len());
        reveal_strlit("primary");
        assert("green"@.len() != "primary"@.len());
        reveal_strlit("secondary");
        assert("green"@.len() != "secondary"@.len());
        reveal_strlit("tertiary");
        assert("green"@.len() != "tertiary"@.len());
        reveal_strlit("muted");
        assert("green"@[0] != "muted"@[0]);
        reveal_strlit("quaternary");
        assert("green"@.len() != "quaternary"@.len());
        reveal_strlit("dim");
        assert("green"@.len() != "dim"@.len());
        reveal_strlit("dimmed");
        assert("green"@.len() != "dimmed"@.len());
        reveal_strlit("black");
        assert("green"@[0] != "black"@[0]);
        reveal_strlit("red");
        assert("green"@.len() != "red"@.len());
        reveal_strlit("error");
        assert("green"@[0] != "error"@[0]);
        reveal_strlit("warning");
        assert("green"@.len() != "warning"@.len());
        lemma_word_color(t);
        assert(color_value(t, n) == ColorSpec::EightBit(82));
    }
    if n == "success"@ {
        reveal_strlit("success");
        reveal_strlit("none");
        assert("success"@.len() != "none"@.len());
        reveal_strlit("default");
        assert("success"@[0] != "default"@[0]);
        reveal_strlit("reset");
        assert("success"@.len() != "reset"@.len());
        reveal_strlit("accent");
        assert("success"@.len() != "accent"@.len());
        reveal_strlit("primary");
        assert("success"@[0] != "primary"@[0]);
        reveal_strlit("secondary");
        assert("success"@.len() != "secondary"@.len());
        reveal_strlit("tertiary");
        assert("success"@.len() != "tertiary"@.len());
        reveal_strlit("muted");
        assert("success"@.len() != "muted"@.len());
        reveal_strlit("quaternary");
        assert("success"@.len() != "quaternary"@.len());
        reveal_strlit("dim");
        assert("success"@.len() != "dim"@.len());
        reveal_strlit("dimmed");
        assert("success"@.len() != "dimmed"@.len());
        reveal_strlit("black");
        assert("success"@.len() != "black"@.len());
        reveal_strlit("red");
        assert("success"@.len() != "red"@.len());
        reveal_strlit("error");
        assert("success"@.len() != "error"@.len());
        reveal_strlit("warning");
        assert("success"@[0] != "warning"@[0]);
        lemma_word_color(t);
        assert(color_value(t, n) == ColorSpec::EightBit(82));
    }
    if n == "ok"@ {
        reveal_strlit("ok");
        reveal_strlit("none");
        assert("ok"@.len() != "none"@.len());
        reveal_strlit("default");
        assert("ok"@.len() != "default"@.len());
        reveal_strlit("reset");
        assert("ok"@.len() != "reset"@.len());
        reveal_strlit("accent");
        assert("ok"@.len() != "accent"@.len());
        reveal_strlit("primary");
        assert("ok"@.len() != "primary"@.len());
        reveal_strlit("secondary");
        assert("ok"@.len() != "secondary"@.len());
        reveal_strlit("tertiary");
        assert("ok"@.len() != "tertiary"@.len());
        reveal_strlit("muted");
        assert("ok"@.len() != "muted"@.len());
        reveal_strlit("quaternary");
        assert("ok"@.len() != "quaternary"@.len());
        reveal_strlit("dim");
        assert("ok"@.len() != "dim"@.len());
        reveal_strlit("dimmed");
        assert("ok"@.len() != "dimmed"@.len());
        reveal_strlit("black");
        assert("ok"@.len() != "black"@.len());
        reveal_strlit("red");
        assert("ok"@.len() != "red"@.len());
        reveal_strlit("error");
        assert("ok"@.len() != "error"@.len());
        reveal_strlit("warning");
        assert("ok"@.len() != "warning"@.len());
        lemma_word_color(t);
        assert(color_value(t, n) == ColorSpec::EightBit(82));
    }
    if n == "yellow"@ {
        reveal_strlit("yellow");
        reveal_strlit("none");
        assert("yellow"@.len() != "none"@.len());
        reveal_strlit("default");
        assert("yellow"@.len() != "default"@.len());
        reveal_strlit("reset");
        assert("yellow"@.len() != "reset"@.len());
        reveal_strlit("accent");
        assert("yellow"@[0] != "accent"@[0]);
        reveal_strlit("primary");
        assert("yellow"@.len() != "primary"@.len());
        reveal_strlit("secondary");
        assert("yellow"@.len() != "secondary"@.len());
        reveal_strlit("tertiary");
        assert("yellow"@.len() != "tertiary"@.len());
        reveal_strlit("muted");
        assert("yellow"@.len() != "muted"@.len());
        reveal_strlit("quaternary");
        assert("yellow"@.len() != "quaternary"@.len());
        reveal_strlit("dim");
        assert("yellow"@.len() != "dim"@.len());
        reveal_strlit("dimmed");
        assert("yellow"@[0] != "dimmed"@[0]);
        reveal_strlit("black");
        assert("yellow"@.len() != "black"@.len());
        reveal_strlit("red");
        assert("yellow"@.len() != "red"@.len());
        reveal_strlit("error");
        assert("yellow"@.len() != "error"@.len());
        reveal_strlit("warning");
        assert("yellow"@.len() != "warning"@.len());
        reveal_strlit("green");
        assert("yellow"@.len() != "green"@.len());
        reveal_strlit("success");
        assert("yellow"@.len() != "success"@.len());
        reveal_strlit("ok");
        assert("yellow"@.len() != "ok"@.len());
        lemma_word_color(t);
        assert(color_value(t, n) == ColorSpec::EightBit(226));
    }
    if n == "blue"@ {
        reveal_strlit("blue");
        reveal_strlit("none");
        assert("blue"@[0] != "none"@[0]);
        reveal_strlit("default");
        assert("blue"@.len() != "default"@.len());
        reveal_strlit("reset");
        assert("blue"@.len() != "reset"@.len());
        reveal_strlit("accent");
        assert("blue"@.len() != "accent"@.len());
        reveal_strlit("primary");
        assert("blue"@.len() != "primary"@.len());
        reveal_strlit("secondary");
        assert("blue"@.len() != "secondary"@.len());
        reveal_strlit("tertiary");
        assert("blue"@.len() != "tertiary"@.len());
        reveal_strlit("muted");
        assert("blue"@.len() != "muted"@.len());
        reveal_strlit("quaternary");
        assert("blue"@.len() != "quaternary"@.len());
        reveal_strlit("dim");
        assert("blue"@.len() != "dim"@.len());
        reveal_strlit("dimmed");
        assert("blue"@.len() != "dimmed"@.len());
        reveal_strlit("black");
        assert("blue"@.len() != "black"@.len());
        reveal_strlit("red");
        assert("blue"@.len() != "red"@.len());
        reveal_strlit("error");
        assert("blue"@.len() != "error"@.len());
        reveal_strlit("warning");
        assert("blue"@.len() != "warning"@.len());
        reveal_strlit("green");
        assert("blue"@.len() != "green"@.len());
        reveal_strlit("success");
        assert("blue"@.len() != "success"@.len());
        reveal_strlit("ok");
        assert("blue"@.len() != "ok"@.len());
        reveal_strlit("yellow");
        assert("blue"@.len() != "yellow"@.len());
        lemma_word_color(t);
        assert(color_value(t, n) == ColorSpec::EightBit(33));
    }
    if n == "magenta"@ {
        reveal_strlit("magenta");
        reveal_strlit("none");
        assert("magenta"@.len() != "none"@.len());
        reveal_strlit("default");
        assert("magenta"@[0] != "default"@[0]);
        reveal_strlit("reset");
        assert("magenta"@.len() != "reset"@.len());
        reveal_strlit("accent");
        assert("magenta"@.len() != "accent"@.len());
        reveal_strlit("primary");
        assert("magenta"@[0] != "primary"@[0]);
        reveal_strlit("secondary");
        assert("magenta"@.len() != "secondary"@.len());
        reveal_strlit("tertiary");
        assert("magenta"@.len() != "tertiary"@.len());
        reveal_strlit("muted");
        assert("magenta"@.len() != "muted"@.len());
        reveal_strlit("quaternary");
        assert("magenta"@.len() != "quaternary"@.len());
        reveal_strlit("dim");
        assert("magenta"@.len() != "dim"@.len());
        reveal_strlit("dimmed");
        assert("magenta"@.len() != "dimmed"@.len());
        reveal_strlit("black");
        assert("magenta"@.len() != "black"@.len());
        reveal_strlit("red");
        assert("magenta"@.len() != "red"@.len());
        reveal_strlit("error");
        assert("magenta"@.len() != "error"@.len());
        reveal_strlit("warning");
        assert("magenta"@[0] != "warning"@[0]);
        reveal_strlit("green");
        assert("magenta"@.len() != "green"@.len());
        reveal_strlit("success");
        assert("magenta"@[0] != "success"@[0]);
        reveal_strlit("ok");
        assert("magenta"@.len() != "ok"@.len());
        reveal_strlit("yellow");
        assert("magenta"@.len() != "yellow"@.len());
        reveal_strlit("blue");
        assert("magenta"@.len() != "blue"@.len());
        lemma_word_color(t);
        assert(color_value(t, n) == ColorSpec::EightBit(201));
    }
    if n == "cyan"@ {
        reveal_strlit("cyan");
        reveal_strlit("none");
        assert("cyan"@[0] != "none"@[0]);
        reveal_strlit("default");
        assert("cyan"@.len() != "default"@.len());
        reveal_strlit("reset");
        assert("cyan"@.len() != "reset"@.len());
        reveal_strlit("accent");
        assert("cyan"@.len() != "accent"@.len());
        reveal_strlit("primary");
        assert("cyan"@.len() != "primary"@.len());
        reveal_strlit("secondary");
        assert("cyan"@.len() != "secondary"@.len());
        reveal_strlit("tertiary");
        assert("cyan"@.len() != "tertiary"@.len());
        reveal_strlit("muted");
        assert("cyan"@.len() != "muted"@.len());
        reveal_strlit("quaternary");
        assert("cyan"@.len() != "quaternary"@.len());
        reveal_strlit("dim");
        assert("cyan"@.len() != "dim"@.len());
        reveal_strlit("dimmed");
        assert("cyan"@.len() != "dimmed"@.len());
        reveal_strlit("black");
        assert("cyan"@.len() != "black"@.len());
        reveal_strlit("red");
        assert("cyan"@.len() != "red"@.len());
        reveal_strlit("error");
        assert("cyan"@.len() != "error"@.len());
        reveal_strlit("warning");
        assert("cyan"@.len() != "warning"@.len());
        reveal_strlit("green");
        assert("cyan"@.len() != "green"@.len());
        reveal_strlit("success");
        assert("cyan"@.len() != "success"@.len());
        reveal_strlit("ok");
        assert("cyan"@.len() != "ok"@.len());
        reveal_strlit("yellow");
        assert("cyan"@.len() != "yellow"@.len());
        reveal_strlit("blue");
        assert("cyan"@[0] != "blue"@[0]);
        reveal_strlit("magenta");
        assert("cyan"@.len() != "magenta"@.len());
        lemma_word_color(t);
        assert(color_value(t, n) == ColorSpec::EightBit(51));
    }
    if n == "white"@ {
        reveal_strlit("white");
        reveal_strlit("none");
        assert("white"@.len() != "none"@.len());
        reveal_strlit("default");
        assert("white"@.len() != "default"@.len());
        reveal_strlit("reset");
        assert("white"@[0] != "reset"@[0]);
        reveal_strlit("accent");
        assert("white"@.len() != "accent"@.len());
        reveal_strlit("primary");
        assert("white"@.len() != "primary"@.len());
        reveal_strlit("secondary");
        assert("white"@.len() != "secondary"@.len());
        reveal_strlit("tertiary");
        assert("white"@.len() != "tertiary"@.len());
        reveal_strlit("muted");
        assert("white"@[0] != "muted"@[0]);
        reveal_strlit("quaternary");
        assert("white"@.len() != "quaternary"@.len());
        reveal_strlit("dim");
        assert("white"@.len() != "dim"@.len());
        reveal_strlit("dimmed");
        assert("white"@.len() != "dimmed"@.len());
        reveal_strlit("black");
        assert("white"@[0] != "black"@[0]);
        reveal_strlit("red");
        assert("white"@.len() != "red"@.len());
        reveal_strlit("error");
        assert("white"@[0] != "error"@[0]);
        reveal_strlit("warning");
        assert("white"@.len() != "warning"@.len());
        reveal_strlit("green");
        assert("white"@[0] != "green"@[0]);
        reveal_strlit("success");
        assert("white"@.len() != "success"@.len());
        reveal_strlit("ok");
        assert("white"@.len() != "ok"@.len());
        reveal_strlit("yellow");
        assert("white"@.len() != "yellow"@.len());
        reveal_strlit("blue");
        assert("white"@.len() != "blue"@.len());
        reveal_strlit("magenta");
        assert("white"@.len() != "magenta"@.len());
        reveal_strlit("cyan");
        assert("white"@.len() != "cyan"@.len());
        lemma_word_color(t);
        assert(color_value(t, n) == ColorSpec::EightBit(15));
    }
    if n == "orange"@ {
        reveal_strlit("orange");
        reveal_strlit("none");
        assert("orange"@.len() != "none"@.len());
        reveal_strlit("default");
        assert("orange"@.len() != "default"@.len());
        reveal_strlit("reset");
        assert("orange"@.len() != "reset"@.len());
        reveal_strlit("accent");
        assert("orange"@[0] != "accent"@[0]);
        reveal_strlit("primary");
        assert("orange"@.len() != "primary"@.len());
        reveal_strlit("secondary");
        assert("orange"@.len() != "secondary"@.len());
        reveal_strlit("tertiary");
        assert("orange"@.len() != "tertiary"@.len());
        reveal_strlit("muted");
        assert("orange"@.len() != "muted"@.len());
        reveal_strlit("quaternary");
        assert("orange"@.len() != "quaternary"@.len());
        reveal_strlit("dim");
        assert("orange"@.len() != "dim"@.len());
        reveal_strlit("dimmed");
        assert("orange"@[0] != "dimmed"@[0]);
        reveal_strlit("black");
        assert("orange"@.len() != "black"@.len());
        reveal_strlit("red");
        assert("orange"@.len() != "red"@.len());
        reveal_strlit("error");
        assert("orange"@.len() != "error"@.len());
        reveal_strlit("warning");
        assert("orange"@.len() != "warning"@.len());
        reveal_strlit("green");
        assert("orange"@.len() != "green"@.len());
        reveal_strlit("success");
        assert("orange"@.len() != "success"@.len());
        reveal_strlit("ok");
        assert("orange"@.len() != "ok"@.len());
        reveal_strlit("yellow");
        assert("orange"@[0] != "yellow"@[0]);
        reveal_strlit("blue");
        assert("orange"@.len() != "blue"@.len());
        reveal_strlit("magenta");
        assert("orange"@.len() != "magenta"@.len());
        reveal_strlit("cyan");
        assert("orange"@.len() != "cyan"@.len());
        reveal_strlit("white");
        assert("orange"@.len() != "white"@.len());
        lemma_word_color(t);
        assert(color_value(t, n) == ColorSpec::EightBit(208));
    }
    if n == "gray"@ {
        reveal_strlit("gray");
        reveal_strlit("none");
        assert("gray"@[0] != "none"@[0]);
        reveal_strlit("default");
        assert("gray"@.len() != "default"@.len());
        reveal_strlit("reset");
        assert("gray"@.len() != "reset"@.len());
        reveal_strlit("accent");
        assert("gray"@.len() != "accent"@.len());
        reveal_strlit("primary");
        assert("gray"@.len() != "primary"@.len());
        reveal_strlit("secondary");
        assert("gray"@.len() != "secondary"@.len());
        reveal_strlit("tertiary");
        assert("gray"@.len() != "tertiary"@.len());
        reveal_strlit("muted");
        assert("gray"@.len() != "muted"@.len());
        reveal_strlit("quaternary");
        assert("gray"@.len() != "quaternary"@.len());
        reveal_strlit("dim");
        assert("gray"@.len() != "dim"@.len());
        reveal_strlit("dimmed");
        assert("gray"@.len() != "dimmed"@.len());
        reveal_strlit("black");
        assert("gray"@.len() != "black"@.len());
        reveal_strlit("red");
        assert("gray"@.len() != "red"@.len());
        reveal_strlit("error");
        assert("gray"@.len() != "error"@.len());
        reveal_strlit("warning");
        assert("gray"@.len() != "warning"@.len());
        reveal_strlit("green");
        assert("gray"@.len() != "green"@.len());
        reveal_strlit("success");
        assert("gray"@.len() != "success"@.len());
        reveal_strlit("ok");
        assert("gray"@.len() != "ok"@.len());
        reveal_strlit("yellow");
        assert("gray"@.len() != "yellow"@.len());
        reveal_strlit("blue");
        assert("gray"@[0] != "blue"@[0]);
        reveal_strlit("magenta");
        assert("gray"@.len() != "magenta"@.len());
        reveal_strlit("cyan");
        assert("gray"@[0] != "cyan"@[0]);
        reveal_strlit("white");
        assert("gray"@.len() != "white"@.len());
        reveal_strlit("orange");
        assert("gray"@.len() != "orange"@.len());
        lemma_word_color(t);
        assert(color_value(t, n) == ColorSpec::EightBit(244));
    }
    if n == "grey"@ {
        reveal_strlit("grey");
        reveal_strlit("none");
        assert("grey"@[0] != "none"@[0]);
        reveal_strlit("default");
        assert("grey"@.len() != "default"@.len());
        reveal_strlit("reset");
        assert("grey"@.len() != "reset"@.len());
        reveal_strlit("accent");
        assert("grey"@.len() != "accent"@.len());
        reveal_strlit("primary");
        assert("grey"@.len() != "primary"@.len());
        reveal_strlit("secondary");
        assert("grey"@.len() != "secondary"@.len());
        reveal_strlit("tertiary");
        assert("grey"@.len() != "tertiary"@.len());
        reveal_strlit("muted");
        assert("grey"@.len() != "muted"@.len());
        reveal_strlit("quaternary");
        assert("grey"@.len() != "quaternary"@.len());
        reveal_strlit("dim");
        assert("grey"@.len() != "dim"@.len());
        reveal_strlit("dimmed");
        assert("grey"@.len() != "dimmed"@.len());
        reveal_strlit("black");
        assert("grey"@.len() != "black"@.len());
        reveal_strlit("red");
        assert("grey"@.len() != "red"@.len());
        reveal_strlit("error");
        assert("grey"@.len() != "error"@.len());
        reveal_strlit("warning");
        assert("grey"@.len() != "warning"@.len());
        reveal_strlit("green");
        assert("grey"@.len() != "green"@.len());
        reveal_strlit("success");
        assert("grey"@.len() != "success"@.len());
        reveal_strlit("ok");
        assert("grey"@.len() != "ok"@.len());
        reveal_strlit("yellow");
        assert("grey"@.len() != "yellow"@.len());
        reveal_strlit("blue");
        assert("grey"@[0] != "blue"@[0]);
        reveal_strlit("magenta");
        assert("grey"@.len() != "magenta"@.len());
        reveal_strlit("cyan");
        assert("grey"@[0] != "cyan"@[0]);
        reveal_strlit("white");
        assert("grey"@.len() != "white"@.len());
        reveal_strlit("orange");
        assert("grey"@.len() != "orange"@.len());
        lemma_word_color(t);
        assert(color_value(t, n) == ColorSpec::EightBit(244));
    }
    if n == "pink"@ {
        reveal_strlit("pink");
        reveal_strlit("none");
        assert("pink"@[0] != "none"@[0]);
        reveal_strlit("default");
        assert("pink"@.len() != "default"@.len());
        reveal_strlit("reset");
        assert("pink"@.len() != "reset"@.len());
        reveal_strlit("accent");
        assert("pink"@.len() != "accent"@.len());
        reveal_strlit("primary");
        assert("pink"@.len() != "primary"@.len());
        reveal_strlit("secondary");
        assert("pink"@.len() != "secondary"@.len());
        reveal_strlit("tertiary");
        assert("pink"@.len() != "tertiary"@.len());
        reveal_strlit("muted");
        assert("pink"@.len() != "muted"@.len());
        reveal_strlit("quaternary");
        assert("pink"@.len() != "quaternary"@.len());
        reveal_strlit("dim");
        assert("pink"@.len() != "dim"@.len());
        reveal_strlit("dimmed");
        assert("pink"@.len() != "dimmed"@.len());
        reveal_strlit("black");
        assert("pink"@.len() != "black"@.len());
        reveal_strlit("red");
        assert("pink"@.len() != "red"@.len());
        reveal_strlit("error");
        assert("pink"@.len() != "error"@.len());
        reveal_strlit("warning");
        assert("pink"@.len() != "warning"@.len());
        reveal_strlit("green");
        assert("pink"@.len() != "green"@.len());
        reveal_strlit("success");
        assert("pink"@.len() != "success"@.len());
        reveal_strlit("ok");
        assert("pink"@.len() != "ok"@.len());
        reveal_strlit("yellow");
        assert("pink"@.len() != "yellow"@.len());
        reveal_strlit("blue");
        assert("pink"@[0] != "blue"@[0]);
        reveal_strlit("magenta");
        assert("pink"@.len() != "magenta"@.len());
        reveal_strlit("cyan");
        assert("pink"@[0] != "cyan"@[0]);
        reveal_strlit("white");
        assert("pink"@.len() != "white"@.len());
        reveal_strlit("orange");
        assert("pink"@.len() != "orange"@.len());
        reveal_strlit("gray");
        assert("pink"@[0] != "gray"@[0]);
        reveal_strlit("grey");
        assert("pink"@[0] != "grey"@[0]);
        lemma_word_color(t);
        assert(color_value(t, n) == ColorSpec::EightBit(213));
    }
    if n == "purple"@ {
        reveal_strlit("purple");
        reveal_strlit("none");
        assert("purple"@.len() != "none"@.len());
        reveal_strlit("default");
        assert("purple"@.len() != "default"@.len());
        reveal_strlit("reset");
        assert("purple"@.len() != "reset"@.len());
        reveal_strlit("accent");
        assert("purple"@[0] != "accent"@[0]);
        reveal_strlit("primary");
        assert("purple"@.len() != "primary"@.len());
        reveal_strlit("secondary");
        assert("purple"@.len() != "secondary"@.len());
        reveal_strlit("tertiary");
        assert("purple"@.len() != "tertiary"@.len());
        reveal_strlit("muted");
        assert("purple"@.len() != "muted"@.len());
        reveal_strlit("quaternary");
        assert("purple"@.len() != "quaternary"@.len());
        reveal_strlit("dim");
        assert("purple"@.len() != "dim"@.len());
        reveal_strlit("dimmed");
        assert("purple"@[0] != "dimmed"@[0]);
        reveal_strlit("black");
        assert("purple"@.len() != "black"@.len());
        reveal_strlit("red");
        assert("purple"@.len() != "red"@.len());
        reveal_strlit("error");
        assert("purple"@.len() != "error"@.len());
        reveal_strlit("warning");
        assert("purple"@.len() != "warning"@.len());
        reveal_strlit("green");
        assert("purple"@.len() != "green"@.len());
        reveal_strlit("success");
        assert("purple"@.len() != "success"@.len());
        reveal_strlit("ok");
        assert("purple"@.len() != "ok"@.len());
        reveal_strlit("yellow");
        assert("purple"@[0] != "yellow"@[0]);
        reveal_strlit("blue");
        assert("purple"@.len() != "blue"@.len());
        reveal_strlit("magenta");
        assert("purple"@.len() != "magenta"@.len());
        reveal_strlit("cyan");
        assert("purple"@.len() != "cyan"@.len());
        reveal_strlit("white");
        assert("purple"@.len() != "white"@.len());
        reveal_strlit("orange");
        assert("purple"@[0] != "orange"@[0]);
        reveal_strlit("gray");
        assert("purple"@.len() != "gray"@.len());
        reveal_strlit("grey");
        assert("purple"@.len() != "grey"@.len());
        reveal_strlit("pink");
        assert("purple"@.len() != "pink"@.len());
        lemma_word_color(t);
        assert(color_value(t, n) == ColorSpec::EightBit(135));
    }
}

} // verus!
