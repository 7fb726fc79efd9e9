//! What a terminal shows of a row: the row with its escape sequences removed.

use vstd::prelude::*;

use crate::color::ColorSpec;
use crate::screen::joined_texts;
use crate::style::{any_styled, segment_code, segments_code, text_code, InlineStyle};
use crate::text::{all_digits, decimal, lemma_decimal};

verus! {

/// The text after the first `m` of `s` (nothing when there is none): the rest of an
/// escape sequence and what follows it.
pub open spec fn after_code(s: Seq<char>) -> Seq<char>
    decreases s.len(),
{
    if s.len() == 0 {
        s
    } else if s[0] == 'm' {
        s.drop_first()
    } else {
        after_code(s.drop_first())
    }
}

/// Skipping an escape sequence never lengthens the text.
pub proof fn lemma_after_code_len(s: Seq<char>)
    ensures
        after_code(s).len() <= s.len(),
    decreases s.len(),
{
    if s.len() > 0 && s[0] != 'm' {
        lemma_after_code_len(s.drop_first());
    }
}

/// `s` as a terminal shows it: each escape sequence, from `ESC` to the next `m`, removed.
#[verifier::opaque]
pub open spec fn visible(s: Seq<char>) -> Seq<char>
    decreases s.len(),
{
    if s.len() == 0 {
        Seq::empty()
    } else if s[0] == '\x1b' {
        proof {
            lemma_after_code_len(s.drop_first());
        }
        visible(after_code(s.drop_first()))
    } else {
        seq![s[0]] + visible(s.drop_first())
    }
}

/// `c` is one escape sequence: `ESC`, then no `m` until the `m` that ends it.
pub open spec fn is_code(c: Seq<char>) -> bool {
    &&& c.len() >= 2
    &&& c[0] == '\x1b'
    &&& c.last() == 'm'
    &&& forall|i: int| 0 <= i < c.len() - 1 ==> c[i] != 'm'
}

/// `c` is nothing or one escape sequence.
pub open spec fn code_or_none(c: Seq<char>) -> bool {
    c.len() == 0 || is_code(c)
}

/// `p` holds no escape character.
pub open spec fn plain(p: Seq<char>) -> bool {
    forall|i: int| 0 <= i < p.len() ==> p[i] != '\x1b'
}

proof fn lemma_after_code_skips(body: Seq<char>, b: Seq<char>)
    requires
        forall|i: int| 0 <= i < body.len() ==> body[i] != 'm',
    ensures
        after_code(body + seq!['m'] + b) == b,
    decreases body.len(),
{
    if body.len() == 0 {
        assert((body + seq!['m'] + b).drop_first() =~= b);
    } else {
        lemma_after_code_skips(body.drop_first(), b);
        assert((body + seq!['m'] + b).drop_first() =~= body.drop_first() + seq!['m'] + b);
    }
}

/// Nothing shows nothing.
pub proof fn lemma_visible_empty()
    ensures
        visible(Seq::<char>::empty()) == Seq::<char>::empty(),
{
    reveal(visible);
}

/// Plain text shows as it is.
pub proof fn lemma_visible_plain(p: Seq<char>, b: Seq<char>)
    requires
        plain(p),
    ensures
        visible(p + b) == p + visible(b),
    decreases p.len(),
{
    reveal(visible);
    if p.len() == 0 {
        assert(p + b =~= b);
        assert(p + visible(b) =~= visible(b));
    } else {
        lemma_visible_plain(p.drop_first(), b);
        assert((p + b).drop_first() =~= p.drop_first() + b);
        assert(p + visible(b) =~= seq![p[0]] + (p.drop_first() + visible(b)));
    }
}

/// An escape sequence shows nothing.
pub proof fn lemma_visible_code(c: Seq<char>, b: Seq<char>)
    requires
        code_or_none(c),
    ensures
        visible(c + b) == visible(b),
{
    reveal(visible);
    if c.len() == 0 {
        assert(c + b =~= b);
    } else {
        let body = c.subrange(1, c.len() - 1);
        assert(c =~= seq!['\x1b'] + body + seq!['m']);
        assert((c + b).drop_first() =~= body + seq!['m'] + b);
        assert forall|i: int| 0 <= i < body.len() implies body[i] != 'm' by {
            assert(body[i] == c[i + 1]);
        }
        lemma_after_code_skips(body, b);
    }
}

proof fn lemma_prefixed_code(pre: Seq<char>, d: Seq<char>)
    requires
        pre.len() >= 1,
        pre[0] == '\x1b',
        forall|i: int| 0 <= i < pre.len() ==> pre[i] != 'm',
        forall|i: int| 0 <= i < d.len() ==> d[i] != 'm',
    ensures
        is_code(pre + d + seq!['m']),
{
    let c = pre + d + seq!['m'];
    assert forall|i: int| 0 <= i < c.len() - 1 implies c[i] != 'm' by {
        if i >= pre.len() {
            assert(c[i] == d[i - pre.len()]);
        } else {
            assert(c[i] == pre[i]);
        }
    }
}

proof fn lemma_number_text(n: nat)
    ensures
        forall|i: int| 0 <= i < decimal(n).len() ==> decimal(n)[i] != 'm',
{
    lemma_decimal(n);
    assert(all_digits(decimal(n)));
}

proof fn lemma_rgb_text(r: nat, g: nat, b: nat)
    ensures
        ({
            let d = decimal(r) + ";"@ + decimal(g) + ";"@ + decimal(b);
            forall|i: int| 0 <= i < d.len() ==> d[i] != 'm'
        }),
{
    reveal_strlit(";");
    lemma_number_text(r);
    lemma_number_text(g);
    lemma_number_text(b);
    let d = decimal(r) + ";"@ + decimal(g) + ";"@ + decimal(b);
    let l1 = decimal(r).len();
    let l2 = decimal(g).len();
    assert forall|i: int| 0 <= i < d.len() implies d[i] != 'm' by {
        if i < l1 {
            assert(d[i] == decimal(r)[i]);
        } else if i == l1 {
        } else if i < l1 + 1 + l2 {
            assert(d[i] == decimal(g)[i - l1 - 1]);
        } else if i == l1 + 1 + l2 {
        } else {
            assert(d[i] == decimal(b)[i - l1 - 2 - l2]);
        }
    }
}

proof fn lemma_prefix_ok(pre: Seq<char>)
    requires
        pre == "\x1b[38;5;"@ || pre == "\x1b[48;5;"@ || pre == "\x1b[38;2;"@ || pre == "\x1b[48;2;"@,
    ensures
        pre.len() >= 1,
        pre[0] == '\x1b',
        forall|i: int| 0 <= i < pre.len() ==> pre[i] != 'm',
{
    reveal_strlit("\x1b[38;5;");
    reveal_strlit("\x1b[48;5;");
    reveal_strlit("\x1b[38;2;");
    reveal_strlit("\x1b[48;2;");
}

/// The colour codes are each nothing or one escape sequence.
pub proof fn lemma_color_codes(c: ColorSpec)
    ensures
        code_or_none(c.fg_code()),
        code_or_none(c.bg_code()),
{
    reveal_strlit("m");
    assert("m"@ =~= seq!['m']);
    match c {
        ColorSpec::Default => {},
        ColorSpec::EightBit(n) => {
            lemma_number_text(n as nat);
            lemma_prefix_ok("\x1b[38;5;"@);
            lemma_prefix_ok("\x1b[48;5;"@);
            lemma_prefixed_code("\x1b[38;5;"@, decimal(n as nat));
            lemma_prefixed_code("\x1b[48;5;"@, decimal(n as nat));
        },
        ColorSpec::Rgb(r, g, b) => {
            lemma_rgb_text(r as nat, g as nat, b as nat);
            let d = decimal(r as nat) + ";"@ + decimal(g as nat) + ";"@ + decimal(b as nat);
            lemma_prefix_ok("\x1b[38;2;"@);
            lemma_prefix_ok("\x1b[48;2;"@);
            lemma_prefixed_code("\x1b[38;2;"@, d);
            lemma_prefixed_code("\x1b[48;2;"@, d);
            assert(c.fg_code() =~= "\x1b[38;2;"@ + d + seq!['m']);
            assert(c.bg_code() =~= "\x1b[48;2;"@ + d + seq!['m']);
        },
    }
}

/// The attribute codes that rows use are each one escape sequence.
pub proof fn lemma_attribute_codes()
    ensures
        is_code("\x1b[0m"@),
        is_code("\x1b[1m"@),
        is_code("\x1b[7m"@),
        is_code("\x1b[27m"@),
{
    reveal_strlit("\x1b[0m");
    reveal_strlit("\x1b[1m");
    reveal_strlit("\x1b[7m");
    reveal_strlit("\x1b[27m");
}

proof fn lemma_dim_code()
    ensures
        is_code("\x1b[2m"@),
{
    reveal_strlit("\x1b[2m");
}

/// A style's codes show nothing: `visible(code + b)` is `visible(b)`.
pub(crate) proof fn lemma_style_code_hidden(st: InlineStyle, b: Seq<char>)
    ensures
        visible(st.code() + b) == visible(b),
{
    lemma_attribute_codes();
    lemma_dim_code();
    lemma_color_codes(st.fg);
    lemma_color_codes(st.bg);
    let c1: Seq<char> = if st.bold {
        "\x1b[1m"@
    } else {
        Seq::empty()
    };
    let c2: Seq<char> = if st.dim {
        "\x1b[2m"@
    } else {
        Seq::empty()
    };
    let c3 = st.fg.fg_code();
    let c4 = st.bg.bg_code();
    assert(st.code() + b =~= c1 + (c2 + (c3 + (c4 + b))));
    lemma_visible_code(c1, c2 + (c3 + (c4 + b)));
    lemma_visible_code(c2, c3 + (c4 + b));
    lemma_visible_code(c3, c4 + b);
    lemma_visible_code(c4, b);
}

/// One segment shows its text.
proof fn lemma_segment_visible(seg: (Seq<char>, InlineStyle), b: Seq<char>)
    requires
        plain(seg.0),
    ensures
        visible(segment_code(seg) + b) == seg.0 + visible(b),
{
    lemma_visible_plain(seg.0, b);
    if seg.1.styled() {
        lemma_attribute_codes();
        assert(segment_code(seg) + b =~= "\x1b[0m"@ + (seg.1.code() + (seg.0 + b)));
        lemma_visible_code("\x1b[0m"@, seg.1.code() + (seg.0 + b));
        lemma_style_code_hidden(seg.1, seg.0 + b);
    } else {
        assert(segment_code(seg) + b =~= seg.0 + b);
    }
}

pub(crate) proof fn lemma_segments_visible(segs: Seq<(Seq<char>, InlineStyle)>, b: Seq<char>)
    requires
        forall|i: int| 0 <= i < segs.len() ==> plain(#[trigger] segs[i].0),
    ensures
        visible(segments_code(segs) + b) == joined_texts(segs) + visible(b),
    decreases segs.len(),
{
    if segs.len() == 0 {
        assert(segments_code(segs) + b =~= b);
        assert(joined_texts(segs) + visible(b) =~= visible(b));
    } else {
        let init = segs.drop_last();
        let last = segs.last();
        assert(plain(segs[segs.len() - 1].0));
        lemma_segments_visible(init, segment_code(last) + b);
        lemma_segment_visible(last, b);
        assert(segments_code(segs) + b =~= segments_code(init) + (segment_code(last) + b));
        assert(joined_texts(segs) + visible(b) =~= joined_texts(init) + (last.0 + visible(b)));
    }
}

proof fn lemma_plain_segments(segs: Seq<(Seq<char>, InlineStyle)>)
    requires
        !any_styled(segs),
    ensures
        segments_code(segs) == joined_texts(segs),
    decreases segs.len(),
{
    if segs.len() > 0 {
        let init = segs.drop_last();
        assert(!segs[segs.len() - 1].1.styled());
        assert(!any_styled(init)) by {
            assert forall|i: int| 0 <= i < init.len() implies !(#[trigger] init[i]).1.styled() by {
                assert(init[i] == segs[i]);
            }
        }
        lemma_plain_segments(init);
        assert(segment_code(segs.last()) =~= segs.last().0);
    }
}

proof fn lemma_segments_code_append(a: Seq<(Seq<char>, InlineStyle)>, b: Seq<(Seq<char>, InlineStyle)>)
    ensures
        segments_code(a + b) == segments_code(a) + segments_code(b),
    decreases b.len(),
{
    if b.len() == 0 {
        assert(a + b =~= a);
        assert(segments_code(a) + segments_code(b) =~= segments_code(a));
    } else {
        lemma_segments_code_append(a, b.drop_last());
        assert((a + b).drop_last() =~= a + b.drop_last());
        assert((a + b).last() == b.last());
        assert(segments_code(a) + segments_code(b) =~= segments_code(a) + segments_code(b.drop_last())
            + segment_code(b.last()));
    }
}

/// What a terminal shows of a styled text (`text_code`) is its segments' texts one after
/// the other, when no text holds an escape character. Without a styled segment the text
/// is printed as it is, with no code at all; with one, it ends in a reset. Each segment
/// is printed in place as its codes, a reset and the style's codes when it is styled,
/// then its text.
pub proof fn lemma_text_code_visible(segs: Seq<(Seq<char>, InlineStyle)>)
    requires
        forall|i: int| 0 <= i < segs.len() ==> plain(#[trigger] segs[i].0),
    ensures
        visible(text_code(segs)) == joined_texts(segs),
        !any_styled(segs) ==> text_code(segs) == joined_texts(segs),
        any_styled(segs) ==> text_code(segs) == segments_code(segs) + "\x1b[0m"@,
        forall|k: int|
            0 <= k < segs.len() ==> text_code(segs) == segments_code(segs.take(k)) + (if (
            #[trigger] segs[k]).1.styled() {
                "\x1b[0m"@ + segs[k].1.code()
            } else {
                Seq::empty()
            }) + segs[k].0 + segments_code(segs.skip(k + 1)) + (if any_styled(segs) {
                "\x1b[0m"@
            } else {
                Seq::empty()
            }),
{
    lemma_attribute_codes();
    let tail: Seq<char> = if any_styled(segs) {
        "\x1b[0m"@
    } else {
        Seq::empty()
    };
    lemma_segments_visible(segs, tail);
    lemma_visible_code(tail, Seq::empty());
    lemma_visible_empty();
    assert(tail + Seq::<char>::empty() =~= tail);
    assert(joined_texts(segs) + Seq::<char>::empty() =~= joined_texts(segs));
    if !any_styled(segs) {
        lemma_plain_segments(segs);
        assert(text_code(segs) =~= segments_code(segs));
    }
    assert forall|k: int| 0 <= k < segs.len() implies text_code(segs) == segments_code(segs.take(k)) + (
    if (#[trigger] segs[k]).1.styled() {
        "\x1b[0m"@ + segs[k].1.code()
    } else {
        Seq::empty()
    }) + segs[k].0 + segments_code(segs.skip(k + 1)) + tail by {
        let one = seq![segs[k]];
        assert(segs =~= segs.take(k) + one + segs.skip(k + 1));
        lemma_segments_code_append(segs.take(k) + one, segs.skip(k + 1));
        lemma_segments_code_append(segs.take(k), one);
        assert(one.drop_last() =~= Seq::<(Seq<char>, InlineStyle)>::empty());
        assert(one.last() == segs[k]);
        assert(segments_code(one.drop_last()) == Seq::<char>::empty());
        assert(segments_code(one) == segments_code(one.drop_last()) + segment_code(one.last()));
        assert(segments_code(one) =~= segment_code(segs[k]));
        assert(text_code(segs) =~= segments_code(segs.take(k)) + segment_code(segs[k]) + segments_code(
            segs.skip(k + 1),
        ) + tail);
    }
}

} // verus!
