//! tmux-style format strings: `#[style]` directives, `{variable}` / `{=width:variable}` /
//! `#{variable}` references, and literal text.

use vstd::prelude::*;

use crate::color::{color_spec, parse_color_spec};
use crate::style::{plain_style, push_seg, InlineStyle, StyledText};
use crate::text::{
    eq_lit, has_prefix, parse_unsigned, parse_unsigned_chars, push_all, split_chars, split_on, starts_with_lit,
    sub_vec, trim, trim_chars, Sep,
};

verus! {

// ---------- scanning ----------

/// Index of the first `stop` in `s`, or `s.len()` when there is none.
pub open spec fn first_index(s: Seq<char>, stop: char) -> nat
    decreases s.len(),
{
    if s.len() == 0 {
        0
    } else if s[0] == stop {
        0
    } else {
        1 + first_index(s.drop_first(), stop)
    }
}

/// The text before the first `stop` (all of `s` when there is none).
pub open spec fn before_stop(s: Seq<char>, stop: char) -> Seq<char> {
    s.take(first_index(s, stop) as int)
}

/// The text after the first `stop` (nothing when there is none).
pub open spec fn after_stop(s: Seq<char>, stop: char) -> Seq<char> {
    let k = first_index(s, stop);
    if k < s.len() {
        s.skip(k as int + 1)
    } else {
        Seq::empty()
    }
}

pub proof fn lemma_first_index(s: Seq<char>, stop: char, k: int)
    requires
        0 <= k <= s.len(),
        forall|m: int| 0 <= m < k ==> s[m] != stop,
        k == s.len() || s[k] == stop,
    ensures
        first_index(s, stop) == k,
    decreases k,
{
    if k > 0 {
        lemma_first_index(s.drop_first(), stop, k - 1);
    }
}

pub proof fn lemma_first_index_bound(s: Seq<char>, stop: char)
    ensures
        first_index(s, stop) <= s.len(),
        first_index(s, stop) < s.len() ==> s[first_index(s, stop) as int] == stop,
        forall|m: int| 0 <= m < first_index(s, stop) ==> s[m] != stop,
    decreases s.len(),
{
    if s.len() > 0 && s[0] != stop {
        lemma_first_index_bound(s.drop_first(), stop);
        assert forall|m: int| 0 <= m < first_index(s, stop) implies s[m] != stop by {
            if m > 0 {
                assert(s[m] == s.drop_first()[m - 1]);
            }
        }
    }
}

/// Scans `s` from `from` to the first `stop`: the text before it and the index just
/// past it (or `s.len()` when there is none).
fn take_until(s: &[char], from: usize, stop: char) -> (r: (Vec<char>, usize))
    requires
        from <= s@.len(),
    ensures
        r.0@ == before_stop(s@.skip(from as int), stop),
        r.1 <= s@.len(),
        s@.skip(r.1 as int) == after_stop(s@.skip(from as int), stop),
{
    let mut j: usize = from;
    while j < s.len() && s[j] != stop
        invariant
            from <= j <= s@.len(),
            forall|m: int| from <= m < j ==> s@[m] != stop,
        decreases s.len() - j,
    {
        j = j + 1;
    }
    let ghost t = s@.skip(from as int);
    proof {
        assert forall|m: int| 0 <= m < j - from implies t[m] != stop by {
            assert(t[m] == s@[m + from]);
        }
        if j < s.len() {
            assert(t[j - from] == s@[j as int]);
        }
        lemma_first_index(t, stop, (j - from) as int);
    }
    let content = sub_vec(s, from, j);
    assert(content@ =~= before_stop(t, stop));
    if j < s.len() {
        assert(s@.skip(j + 1) =~= t.skip(j - from + 1));
        (content, j + 1)
    } else {
        assert(s@.skip(j as int) =~= Seq::<char>::empty());
        (content, j)
    }
}

/// A token before its contents are interpreted.
pub enum RawToken {
    Style(Seq<char>),
    Var(Seq<char>),
    Lit(Seq<char>),
}

pub open spec fn flush(lit: Seq<char>) -> Seq<RawToken> {
    if lit.len() > 0 {
        seq![RawToken::Lit(lit)]
    } else {
        Seq::empty()
    }
}

/// The tokens of `rest`, with `lit` the literal text gathered so far: `#[` opens a style
/// directive and `#{` or `{` a variable, each running to its closing bracket (or to the
/// end); any other character is literal text.
pub open spec fn raw_scan(rest: Seq<char>, lit: Seq<char>) -> Seq<RawToken>
    decreases rest.len(),
{
    if rest.len() == 0 {
        flush(lit)
    } else {
        let ch = rest[0];
        let r = rest.drop_first();
        if ch == '#' && r.len() > 0 && r[0] == '[' {
            let body = r.drop_first();
            proof {
                lemma_first_index_bound(body, ']');
            }
            flush(lit) + seq![RawToken::Style(before_stop(body, ']'))] + raw_scan(
                after_stop(body, ']'),
                Seq::empty(),
            )
        } else if ch == '#' && r.len() > 0 && r[0] == '{' {
            let body = r.drop_first();
            proof {
                lemma_first_index_bound(body, '}');
            }
            flush(lit) + seq![RawToken::Var(before_stop(body, '}'))] + raw_scan(
                after_stop(body, '}'),
                Seq::empty(),
            )
        } else if ch == '{' {
            proof {
                lemma_first_index_bound(r, '}');
            }
            flush(lit) + seq![RawToken::Var(before_stop(r, '}'))] + raw_scan(
                after_stop(r, '}'),
                Seq::empty(),
            )
        } else {
            raw_scan(r, lit.push(ch))
        }
    }
}

// ---------- style directives ----------

/// One comma-separated part of a style directive applied to `st`.
pub open spec fn apply_part(st: InlineStyle, part: Seq<char>) -> InlineStyle {
    let p = trim(part);
    if p.len() == 0 {
        st
    } else if has_prefix(p, "fg="@) {
        InlineStyle { fg: color_spec(p.skip(3)), ..st }
    } else if has_prefix(p, "bg="@) {
        InlineStyle { bg: color_spec(p.skip(3)), ..st }
    } else if p == "bold"@ {
        InlineStyle { bold: true, ..st }
    } else if p == "dim"@ {
        InlineStyle { dim: true, ..st }
    } else if p == "fill"@ {
        InlineStyle { fill: true, ..st }
    } else if p == "default"@ || p == "none"@ || p == "reset"@ {
        plain_style()
    } else {
        st
    }
}

pub open spec fn apply_parts(parts: Seq<Seq<char>>) -> InlineStyle
    decreases parts.len(),
{
    if parts.len() == 0 {
        plain_style()
    } else {
        apply_part(apply_parts(parts.drop_last()), parts.last())
    }
}

/// `parse_style_directive`: the parts `fg=`, `bg=`, `bold`, `dim`, `fill` and
/// `default`/`none`/`reset` read in order from the plain style.
pub open spec fn style_directive(content: Seq<char>) -> InlineStyle {
    apply_parts(split_on(content, Sep::Char(',')))
}

pub fn apply_style_part(st: InlineStyle, part: &[char]) -> (r: InlineStyle)
    ensures
        r == apply_part(st, part@),
{
    let p = trim_chars(part);
    let n = p.len();
    proof {
        reveal_strlit("fg=");
        reveal_strlit("bg=");
    }
    if n == 0 {
        st
    } else if starts_with_lit(p.as_slice(), "fg=") {
        let v = sub_vec(p.as_slice(), 3, n);
        assert(v@ =~= p@.skip(3));
        InlineStyle { fg: parse_color_spec(v.as_slice()), ..st }
    } else if starts_with_lit(p.as_slice(), "bg=") {
        let v = sub_vec(p.as_slice(), 3, n);
        assert(v@ =~= p@.skip(3));
        InlineStyle { bg: parse_color_spec(v.as_slice()), ..st }
    } else if eq_lit(p.as_slice(), "bold") {
        InlineStyle { bold: true, ..st }
    } else if eq_lit(p.as_slice(), "dim") {
        InlineStyle { dim: true, ..st }
    } else if eq_lit(p.as_slice(), "fill") {
        InlineStyle { fill: true, ..st }
    } else if eq_lit(p.as_slice(), "default") || eq_lit(p.as_slice(), "none") || eq_lit(
        p.as_slice(),
        "reset",
    ) {
        InlineStyle::plain()
    } else {
        st
    }
}

/// Parses the inside of a `#[...]` directive (see [`style_directive`]).
pub fn parse_style_directive(content: &[char]) -> (r: InlineStyle)
    ensures
        r == style_directive(content@),
{
    let parts = split_chars(content, Sep::Char(','));
    let ghost pv = parts.deep_view();
    let mut style = InlineStyle::plain();
    let mut i: usize = 0;
    assert(pv.take(0) =~= Seq::<Seq<char>>::empty());
    while i < parts.len()
        invariant
            i <= parts@.len(),
            pv == parts.deep_view(),
            pv == split_on(content@, Sep::Char(',')),
            style == apply_parts(pv.take(i as int)),
        decreases parts.len() - i,
    {
        assert(parts[i as int]@ == pv[i as int]);
        style = apply_style_part(style, parts[i].as_slice());
        assert(pv.take(i + 1).drop_last() =~= pv.take(i as int));
        i = i + 1;
    }
    assert(pv.take(i as int) =~= pv);
    style
}

// ---------- variables ----------

/// `parse_variable`: `=W:name` gives `name` with width `W` when `W` is a number; any
/// other content is a name without a width.
pub open spec fn variable_of(content: Seq<char>) -> (Seq<char>, Option<usize>) {
    let rest = content.drop_first();
    let k = first_index(rest, ':');
    if content.len() > 0 && content[0] == '=' && k < rest.len() && parse_unsigned(
        rest.take(k as int),
        usize::MAX as nat,
    ) is Some {
        (rest.skip(k as int + 1), Some(parse_unsigned(rest.take(k as int), usize::MAX as nat)->0 as usize))
    } else {
        (content, None)
    }
}

/// A token of a format string.
#[derive(Debug)]
pub enum FormatToken {
    Style(InlineStyle),
    Variable { name: Vec<char>, width: Option<usize> },
    Literal(Vec<char>),
}

/// What a token holds, as plain values.
pub enum TokenView {
    Style(InlineStyle),
    Variable(Seq<char>, Option<usize>),
    Literal(Seq<char>),
}

impl View for FormatToken {
    type V = TokenView;

    open spec fn view(&self) -> TokenView {
        match self {
            FormatToken::Style(s) => TokenView::Style(*s),
            FormatToken::Variable { name, width } => TokenView::Variable(name@, *width),
            FormatToken::Literal(t) => TokenView::Literal(t@),
        }
    }
}

pub open spec fn cook(t: RawToken) -> TokenView {
    match t {
        RawToken::Style(c) => TokenView::Style(style_directive(c)),
        RawToken::Var(c) => TokenView::Variable(variable_of(c).0, variable_of(c).1),
        RawToken::Lit(l) => TokenView::Literal(l),
    }
}

/// `parse_tmux_format`: the tokens of `s`.
pub open spec fn format_tokens(s: Seq<char>) -> Seq<TokenView> {
    raw_scan(s, Seq::empty()).map_values(|t: RawToken| cook(t))
}

/// Parses the content of a variable reference (see [`variable_of`]).
pub fn parse_variable(content: &[char]) -> (r: FormatToken)
    ensures
        r@ == TokenView::Variable(variable_of(content@).0, variable_of(content@).1),
{
    let n = content.len();
    if n > 0 && content[0] == '=' {
        let ghost rest = content@.drop_first();
        let (w, after) = take_until(content, 1, ':');
        assert(content@.skip(1) =~= rest);
        proof {
            lemma_first_index_bound(rest, ':');
        }
        let k = w.len();
        assert(k == first_index(rest, ':'));
        if 1 + k < n {
            if let Some(width) = parse_unsigned_chars(w.as_slice(), usize::MAX as u64) {
                let name = sub_vec(content, k + 2, n);
                assert(name@ =~= rest.skip(k + 1));
                return FormatToken::Variable { name, width: Some(width as usize) };
            }
        }
    }
    let name = sub_vec(content, 0, n);
    assert(name@ =~= content@);
    FormatToken::Variable { name, width: None }
}

/// Moves the gathered literal text, if any, into a token.
fn flush_literal(toks: &mut Vec<FormatToken>, lit: &mut Vec<char>, Ghost(done): Ghost<Seq<RawToken>>)
    requires
        old(toks)@.len() == done.len(),
        forall|k: int| 0 <= k < done.len() ==> (#[trigger] old(toks)@[k])@ == cook(done[k]),
    ensures
        final(lit)@ == Seq::<char>::empty(),
        final(toks)@.len() == (done + flush(old(lit)@)).len(),
        forall|k: int|
            0 <= k < (done + flush(old(lit)@)).len() ==> (#[trigger] final(toks)@[k])@ == cook(
                (done + flush(old(lit)@))[k],
            ),
{
    if lit.len() > 0 {
        let mut t: Vec<char> = Vec::new();
        std::mem::swap(&mut t, lit);
        let ghost tv = t@;
        toks.push(FormatToken::Literal(t));
        assert((done + flush(old(lit)@))[done.len() as int] == RawToken::Lit(tv));
    } else {
        assert(done + flush(old(lit)@) =~= done);
    }
}

/// Splits a format string into tokens (see [`format_tokens`]).
pub fn parse_tmux_format(s: &[char]) -> (r: Vec<FormatToken>)
    ensures
        r@.map_values(|t: FormatToken| t@) == format_tokens(s@),
{
    let n = s.len();
    let mut toks: Vec<FormatToken> = Vec::new();
    let mut lit: Vec<char> = Vec::new();
    let mut i: usize = 0;
    let ghost mut done: Seq<RawToken> = Seq::empty();
    let ghost whole = raw_scan(s@, Seq::empty());
    assert(s@.skip(0) =~= s@);
    assert(done + raw_scan(s@.skip(0), lit@) =~= whole);
    while i < n
        invariant
            i <= n == s@.len(),
            whole == raw_scan(s@, Seq::empty()),
            done + raw_scan(s@.skip(i as int), lit@) == whole,
            toks@.len() == done.len(),
            forall|k: int| 0 <= k < done.len() ==> (#[trigger] toks@[k])@ == cook(done[k]),
        decreases n - i,
    {
        let ch = s[i];
        let ghost rest = s@.skip(i as int);
        assert(rest[0] == ch);
        assert(rest.drop_first() =~= s@.skip(i + 1));
        if ch == '#' && i + 1 < n && s[i + 1] == '[' {
            let ghost body = s@.skip(i + 2);
            assert(rest.drop_first()[0] == s@[i + 1]);
            assert(rest.drop_first().drop_first() =~= body);
            let ghost lit0 = lit@;
            flush_literal(&mut toks, &mut lit, Ghost(done));
            let (content, next) = take_until(s, i + 2, ']');
            proof {
                let j = (done + flush(lit0)).len() as int;
                let tail = raw_scan(after_stop(body, ']'), Seq::empty());
                assert(whole =~= (done + flush(lit0) + seq![RawToken::Style(content@)]) + tail);
                assert(whole[j] == RawToken::Style(content@));
            }
            let st = parse_style_directive(content.as_slice());
            let ghost d2 = done + flush(lit0) + seq![RawToken::Style(content@)];
            toks.push(FormatToken::Style(st));
            proof {
                done = d2;
                assert(s@.skip(next as int) == after_stop(body, ']'));
                assert(lit@ == Seq::<char>::empty());
                assert(done + raw_scan(s@.skip(next as int), lit@) =~= whole);
            }
            i = next;
        } else if ch == '#' && i + 1 < n && s[i + 1] == '{' {
            let ghost body = s@.skip(i + 2);
            assert(rest.drop_first()[0] == s@[i + 1]);
            assert(rest.drop_first().drop_first() =~= body);
            let ghost lit0 = lit@;
            flush_literal(&mut toks, &mut lit, Ghost(done));
            let (content, next) = take_until(s, i + 2, '}');
            let tok = parse_variable(content.as_slice());
            let ghost d2 = done + flush(lit0) + seq![RawToken::Var(content@)];
            toks.push(tok);
            proof {
                done = d2;
                assert(done + raw_scan(s@.skip(next as int), lit@) =~= whole);
            }
            i = next;
        } else if ch == '{' {
            let ghost body = s@.skip(i + 1);
            let ghost lit0 = lit@;
            flush_literal(&mut toks, &mut lit, Ghost(done));
            let (content, next) = take_until(s, i + 1, '}');
            let tok = parse_variable(content.as_slice());
            let ghost d2 = done + flush(lit0) + seq![RawToken::Var(content@)];
            toks.push(tok);
            proof {
                done = d2;
                assert(done + raw_scan(s@.skip(next as int), lit@) =~= whole);
            }
            i = next;
        } else {
            lit.push(ch);
            i = i + 1;
        }
    }
    assert(s@.skip(i as int) =~= Seq::<char>::empty());
    let ghost lit0 = lit@;
    flush_literal(&mut toks, &mut lit, Ghost(done));
    assert(done + flush(lit0) =~= whole);
    assert(toks@.map_values(|t: FormatToken| t@) =~= format_tokens(s@));
    toks
}

// ---------- styled strings ----------

/// The text a token adds when a styled string is built: literal text as is, and a
/// variable written back as `{name}`.
pub open spec fn styled_pieces(toks: Seq<TokenView>) -> Seq<(Seq<char>, InlineStyle)>
    decreases toks.len(),
{
    styled_fold(toks, plain_style()).0
}

/// Reads `toks` in order from the style `cur`: a style token replaces the current style,
/// a literal is pushed in it, and a variable is pushed as `{name}`. Returns the segments
/// and the style in force at the end.
pub open spec fn styled_fold(toks: Seq<TokenView>, cur: InlineStyle) -> (
    Seq<(Seq<char>, InlineStyle)>,
    InlineStyle,
)
    decreases toks.len(),
{
    if toks.len() == 0 {
        (Seq::empty(), cur)
    } else {
        let (segs, st) = styled_fold(toks.drop_last(), cur);
        match toks.last() {
            TokenView::Style(s) => (segs, s),
            TokenView::Literal(t) => (push_seg(segs, t, st), st),
            TokenView::Variable(name, _) => (push_seg(segs, seq!['{'] + name + seq!['}'], st), st),
        }
    }
}

/// `parse_styled_string`: the segments of a border-like string, in which variables are
/// not expanded.
pub open spec fn styled_string(s: Seq<char>) -> Seq<(Seq<char>, InlineStyle)> {
    styled_pieces(format_tokens(s))
}

/// Parses a styled string such as `#[fg=240]│` (see [`styled_string`]).
pub fn parse_styled_string(s: &[char]) -> (r: StyledText)
    ensures
        r@ == styled_string(s@),
        r.wf(),
{
    let tokens = parse_tmux_format(s);
    let ghost tv = tokens@.map_values(|t: FormatToken| t@);
    let mut result = StyledText::new();
    let mut current = InlineStyle::plain();
    let mut i: usize = 0;
    assert(tv.take(0) =~= Seq::<TokenView>::empty());
    while i < tokens.len()
        invariant
            i <= tokens@.len(),
            tv == tokens@.map_values(|t: FormatToken| t@),
            (result@, current) == styled_fold(tv.take(i as int), plain_style()),
            result.wf(),
        decreases tokens.len() - i,
    {
        assert(tv.take(i + 1).drop_last() =~= tv.take(i as int));
        assert(tv.take(i + 1).last() == tokens@[i as int]@);
        match &tokens[i] {
            FormatToken::Style(st) => {
                current = *st;
            },
            FormatToken::Literal(text) => {
                result.push(sub_vec(text.as_slice(), 0, text.len()), current);
                assert(text@.subrange(0, text@.len() as int) =~= text@);
            },
            FormatToken::Variable { name, .. } => {
                let mut t: Vec<char> = Vec::new();
                t.push('{');
                push_all(&mut t, name.as_slice());
                t.push('}');
                assert(t@ =~= seq!['{'] + name@ + seq!['}']);
                result.push(t, current);
            },
        }
        i = i + 1;
    }
    assert(tv.take(i as int) =~= tv);
    result
}

} // verus!
