//! Display width of text (through `unicode-width`) and width-bounded truncation.

use unicode_width::UnicodeWidthStr;
use vstd::prelude::*;

use crate::text::{push_lit, repeat_char, repeat_chars, sub_vec};

verus! {

/// Whether every character of `s` is printable ASCII (U+0020 to U+007E).
pub open spec fn printable_ascii(s: Seq<char>) -> bool {
    forall|i: int| 0 <= i < s.len() ==> ' ' <= #[trigger] s[i] <= '~'
}

/// What `truncate_string` gives a printable ASCII text, each of whose characters takes
/// one column: the text when it fits, `max` dots when `max <= 3`, else its first
/// `max - 3` characters and `...`.
pub open spec fn truncated_ascii(s: Seq<char>, max: nat) -> Seq<char> {
    if s.len() <= max {
        s
    } else if max <= 3 {
        repeat_char('.', max)
    } else {
        s.take(max - 3) + "..."@
    }
}

/// The number of terminal columns that `unicode-width` gives the string `s`.
pub uninterp spec fn str_display_width(s: Seq<char>) -> nat;

/// Calls `UnicodeWidthStr::width` of `unicode-width` on the string spelled by `s`.
/// The result is `str_display_width(s@)`, which depends on the text alone; a text made
/// only of printable ASCII characters (U+0020 to U+007E) is as wide as it is long, since
/// the crate's lookup gives each such character one column on a fixed path. What the
/// width tables give other characters, and how widths combine across characters, is not
/// stated.
#[verifier::external_body]
pub(crate) fn text_width(s: &[char]) -> (w: usize)
    ensures
        w as nat == str_display_width(s@),
        printable_ascii(s@) ==> w == s@.len(),
{
    let t: String = s.iter().collect();
    t.width()
}

/// The width of the one-character string `c` (`c.to_string().width()`).
pub open spec fn char_width(c: char) -> nat {
    str_display_width(seq![c])
}

pub fn char_width_of(c: char) -> (w: usize)
    ensures
        w as nat == char_width(c),
        ' ' <= c <= '~' ==> w == 1,
{
    let mut one: Vec<char> = Vec::new();
    one.push(c);
    assert(one@ =~= seq![c]);
    text_width(one.as_slice())
}

pub open spec fn ellipsis() -> Seq<char> {
    seq!['.', '.', '.']
}

/// The characters of `s` kept while the columns used so far (`used`), the next
/// character's width and a three-column ellipsis still fit in `max`; once the next
/// character would not fit, the ellipsis ends the text.
pub open spec fn ellipsize(s: Seq<char>, used: int, max: int) -> Seq<char>
    decreases s.len(),
{
    if s.len() == 0 {
        Seq::empty()
    } else if used + char_width(s[0]) + 3 > max {
        ellipsis()
    } else {
        seq![s[0]] + ellipsize(s.drop_first(), used + char_width(s[0]), max)
    }
}

/// `truncate_string`: `s` itself when it fits in `max` columns, else `max` dots when
/// `max <= 3`, else a prefix of `s` followed by `...`.
pub open spec fn truncated(s: Seq<char>, max: nat) -> Seq<char> {
    if str_display_width(s) <= max {
        s
    } else if max <= 3 {
        repeat_char('.', max)
    } else {
        ellipsize(s, 0, max as int)
    }
}

/// Shortens `s` to fit `max_width` columns, marking a cut with `...`.
pub fn truncate_string(s: &[char], max_width: usize) -> (r: Vec<char>)
    ensures
        r@ == truncated(s@, max_width as nat),
        printable_ascii(s@) ==> r@ == truncated_ascii(s@, max_width as nat) && r@.len() <= max_width
            && str_display_width(s@) == s@.len(),
{
    proof {
        reveal_strlit("...");
    }
    if text_width(s) <= max_width {
        return sub_vec(s, 0, s.len());
    }
    if max_width <= 3 {
        return repeat_chars('.', max_width);
    }
    let mut out: Vec<char> = Vec::new();
    let mut used: usize = 0;
    let mut i: usize = 0;
    assert(s@.skip(0) =~= s@);
    assert(out@ + ellipsize(s@, 0, max_width as int) =~= ellipsize(s@, 0, max_width as int));
    while i < s.len()
        invariant
            i <= s@.len(),
            used + 3 <= max_width,
            ellipsize(s@, 0, max_width as int) == truncated(s@, max_width as nat),
            out@ + ellipsize(s@.skip(i as int), used as int, max_width as int) == ellipsize(
                s@,
                0,
                max_width as int,
            ),
            printable_ascii(s@) ==> used == i && out@ == s@.take(i as int) && s@.len() > max_width
                && str_display_width(s@) == s@.len(),
        decreases s.len() - i,
    {
        let cw = char_width_of(s[i]);
        let ghost rest = s@.skip(i as int);
        assert(rest[0] == s@[i as int]);
        assert(rest.drop_first() =~= s@.skip(i + 1));
        if cw > max_width - 3 - used {
            let ghost before = out@;
            push_lit(&mut out, "...");
            proof {
                reveal_strlit("...");
                assert(out@ =~= before + ellipsis());
                assert(ellipsis() =~= "..."@);
            }
            return out;
        }
        let ghost before = out@;
        out.push(s[i]);
        used = used + cw;
        i = i + 1;
        assert(printable_ascii(s@) ==> out@ =~= s@.take(i as int));
        assert(out@ + ellipsize(s@.skip(i as int), used as int, max_width as int) =~= before
            + ellipsize(rest, (used - cw) as int, max_width as int));
    }
    assert(s@.skip(i as int) =~= Seq::<char>::empty());
    assert(out@ =~= out@ + ellipsize(s@.skip(i as int), used as int, max_width as int));
    out
}

/// The columns of `s` counted character by character.
pub open spec fn char_widths(s: Seq<char>) -> nat
    decreases s.len(),
{
    if s.len() == 0 {
        0
    } else {
        char_width(s[0]) + char_widths(s.drop_first())
    }
}

/// How many characters of `s` [`ellipsize`] keeps.
pub open spec fn kept_len(s: Seq<char>, used: int, max: int) -> nat
    decreases s.len(),
{
    if s.len() == 0 {
        0
    } else if used + char_width(s[0]) + 3 > max {
        0
    } else {
        1 + kept_len(s.drop_first(), used + char_width(s[0]), max)
    }
}

proof fn lemma_ellipsize_shape(s: Seq<char>, used: int, max: int)
    requires
        used + 3 <= max,
    ensures
        kept_len(s, used, max) <= s.len(),
        used + char_widths(s.take(kept_len(s, used, max) as int)) + 3 <= max,
        ellipsize(s, used, max) == s.take(kept_len(s, used, max) as int) + (if kept_len(s, used, max)
            < s.len() {
            ellipsis()
        } else {
            Seq::empty()
        }),
    decreases s.len(),
{
    let k = kept_len(s, used, max);
    if s.len() == 0 {
        assert(s.take(0) =~= Seq::<char>::empty());
        assert(ellipsize(s, used, max) =~= s.take(0) + Seq::<char>::empty());
    } else if used + char_width(s[0]) + 3 > max {
        assert(s.take(0) =~= Seq::<char>::empty());
        assert(char_widths(s.take(0)) == 0);
        assert(ellipsize(s, used, max) =~= s.take(0) + ellipsis());
    } else {
        let rest = s.drop_first();
        let u2 = used + char_width(s[0]);
        lemma_ellipsize_shape(rest, u2, max);
        let k2 = kept_len(rest, u2, max);
        let t = s.take(k as int);
        assert(t.drop_first() =~= rest.take(k2 as int));
        assert(t[0] == s[0]);
        assert(char_widths(t) == char_width(s[0]) + char_widths(rest.take(k2 as int)));
        assert(ellipsize(s, used, max) =~= t + (if k < s.len() {
            ellipsis()
        } else {
            Seq::empty()
        }));
    }
}

/// Shortening keeps the text when it fits; with at most three columns it gives that many
/// dots; otherwise it keeps a prefix of the text whose characters take, counted one by
/// one, at most three columns fewer than allowed, followed by `...` unless nothing was
/// cut.
pub proof fn lemma_truncated_fits(s: Seq<char>, max: nat)
    ensures
        str_display_width(s) <= max ==> truncated(s, max) == s,
        str_display_width(s) > max && max <= 3 ==> truncated(s, max) == repeat_char('.', max),
        str_display_width(s) > max && max > 3 ==> ({
            let k = kept_len(s, 0, max as int);
            &&& k <= s.len()
            &&& char_widths(s.take(k as int)) + 3 <= max
            &&& truncated(s, max) == s.take(k as int) + (if k < s.len() {
                "..."@
            } else {
                Seq::empty()
            })
        }),
{
    reveal_strlit("...");
    if str_display_width(s) > max && max > 3 {
        lemma_ellipsize_shape(s, 0, max as int);
        assert(ellipsis() =~= "..."@);
    }
}

} // verus!
