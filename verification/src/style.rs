//! Inline styles and styled text: segments of text, each with one style.

use vstd::prelude::*;

use crate::color::ColorSpec;
use crate::text::{push_all, push_lit, sub_vec};
use crate::width::{char_width, char_width_of, printable_ascii, str_display_width, text_width};

verus! {

/// The style a `#[...]` directive sets.
#[derive(Clone, Copy, PartialEq, Eq, Structural, Debug)]
pub struct InlineStyle {
    pub fg: ColorSpec,
    pub bg: ColorSpec,
    pub bold: bool,
    pub dim: bool,
    pub fill: bool,
}

pub open spec fn plain_style() -> InlineStyle {
    InlineStyle {
        fg: ColorSpec::Default,
        bg: ColorSpec::Default,
        bold: false,
        dim: false,
        fill: false,
    }
}

impl Default for InlineStyle {
    fn default() -> (r: Self)
        ensures
            r == plain_style(),
    {
        InlineStyle {
            fg: ColorSpec::Default,
            bg: ColorSpec::Default,
            bold: false,
            dim: false,
            fill: false,
        }
    }
}

impl InlineStyle {
    pub fn plain() -> (r: Self)
        ensures
            r == plain_style(),
    {
        InlineStyle {
            fg: ColorSpec::Default,
            bg: ColorSpec::Default,
            bold: false,
            dim: false,
            fill: false,
        }
    }

    /// The escape codes of this style: bold, dim, then the two colours.
    pub open spec fn code(self) -> Seq<char> {
        (if self.bold {
            "\x1b[1m"@
        } else {
            Seq::empty()
        }) + (if self.dim {
            "\x1b[2m"@
        } else {
            Seq::empty()
        }) + self.fg.fg_code() + self.bg.bg_code()
    }

    pub open spec fn styled(self) -> bool {
        self.fg != ColorSpec::Default || self.bg != ColorSpec::Default || self.bold || self.dim
            || self.fill
    }

    pub fn to_ansi(&self) -> (r: Vec<char>)
        ensures
            r@ == self.code(),
    {
        let mut r: Vec<char> = Vec::new();
        if self.bold {
            push_lit(&mut r, "\x1b[1m");
        }
        if self.dim {
            push_lit(&mut r, "\x1b[2m");
        }
        push_all(&mut r, self.fg.to_ansi_fg().as_slice());
        push_all(&mut r, self.bg.to_ansi_bg().as_slice());
        assert(r@ =~= self.code());
        r
    }

    pub fn has_any_style(&self) -> (r: bool)
        ensures
            r == self.styled(),
    {
        !self.fg.is_default() || !self.bg.is_default() || self.bold || self.dim || self.fill
    }
}

/// A piece of text with one style.
#[derive(Debug)]
pub struct StyledSegment {
    pub text: Vec<char>,
    pub style: InlineStyle,
}

impl View for StyledSegment {
    type V = (Seq<char>, InlineStyle);

    open spec fn view(&self) -> (Seq<char>, InlineStyle) {
        (self.text@, self.style)
    }
}

impl StyledSegment {
    pub fn display_width(&self) -> (w: usize)
        ensures
            w as nat == str_display_width(self.text@),
            printable_ascii(self.text@) ==> w == self.text@.len(),
    {
        text_width(self.text.as_slice())
    }

    pub fn copy(&self) -> (r: StyledSegment)
        ensures
            r@ == self@,
    {
        StyledSegment { text: sub_vec(self.text.as_slice(), 0, self.text.len()), style: self.style }
    }
}

/// Text made of styled segments.
#[derive(Debug)]
pub struct StyledText {
    pub segments: Vec<StyledSegment>,
}

impl View for StyledText {
    type V = Seq<(Seq<char>, InlineStyle)>;

    open spec fn view(&self) -> Seq<(Seq<char>, InlineStyle)> {
        self.segments@.map_values(|s: StyledSegment| s@)
    }
}

/// `segs` with `(text, style)` appended, unless `text` is empty.
pub open spec fn push_seg(
    segs: Seq<(Seq<char>, InlineStyle)>,
    text: Seq<char>,
    style: InlineStyle,
) -> Seq<(Seq<char>, InlineStyle)> {
    if text.len() > 0 {
        segs.push((text, style))
    } else {
        segs
    }
}

/// The number of characters in the segments' texts.
pub open spec fn texts_len(segs: Seq<(Seq<char>, InlineStyle)>) -> nat
    decreases segs.len(),
{
    if segs.len() == 0 {
        0
    } else {
        texts_len(segs.drop_last()) + segs.last().0.len()
    }
}

/// Whether every segment's text is printable ASCII, one column per character.
pub open spec fn printable_segments(segs: Seq<(Seq<char>, InlineStyle)>) -> bool {
    forall|i: int| 0 <= i < segs.len() ==> printable_ascii(#[trigger] segs[i].0)
}

proof fn lemma_texts_len_prefix(segs: Seq<(Seq<char>, InlineStyle)>, i: int)
    requires
        0 <= i <= segs.len(),
    ensures
        texts_len(segs.take(i)) <= texts_len(segs),
    decreases segs.len(),
{
    if i < segs.len() {
        lemma_texts_len_prefix(segs.drop_last(), i);
        assert(segs.drop_last().take(i) =~= segs.take(i));
    } else {
        assert(segs.take(i) =~= segs);
    }
}

proof fn lemma_texts_len_push(segs: Seq<(Seq<char>, InlineStyle)>, x: Seq<char>, st: InlineStyle)
    ensures
        texts_len(push_seg(segs, x, st)) == texts_len(segs) + x.len(),
{
    if x.len() > 0 {
        assert(push_seg(segs, x, st).drop_last() =~= segs);
    }
}

/// `a + b` in `usize`, wrapping around on overflow.
pub open spec fn wrap_add(a: usize, b: usize) -> usize {
    if a + b > usize::MAX {
        (a + b - usize::MAX - 1) as usize
    } else {
        (a + b) as usize
    }
}

/// The summed widths of the segments (in `usize`, which wraps on overflow).
pub open spec fn segments_width(segs: Seq<(Seq<char>, InlineStyle)>) -> usize
    decreases segs.len(),
{
    if segs.len() == 0 {
        0
    } else {
        wrap_add(
            segments_width(segs.drop_last()),
            str_display_width(segs.last().0) as usize,
        )
    }
}

/// The rendering of one segment: a reset and its codes when it is styled, then its text.
pub open spec fn segment_code(seg: (Seq<char>, InlineStyle)) -> Seq<char> {
    (if seg.1.styled() {
        "\x1b[0m"@ + seg.1.code()
    } else {
        Seq::empty()
    }) + seg.0
}

pub open spec fn segments_code(segs: Seq<(Seq<char>, InlineStyle)>) -> Seq<char>
    decreases segs.len(),
{
    if segs.len() == 0 {
        Seq::empty()
    } else {
        segments_code(segs.drop_last()) + segment_code(segs.last())
    }
}

pub open spec fn any_styled(segs: Seq<(Seq<char>, InlineStyle)>) -> bool {
    exists|i: int| 0 <= i < segs.len() && (#[trigger] segs[i]).1.styled()
}

/// `StyledText::to_ansi`: every segment, and a final reset when any segment is styled.
pub open spec fn text_code(segs: Seq<(Seq<char>, InlineStyle)>) -> Seq<char> {
    segments_code(segs) + (if any_styled(segs) {
        "\x1b[0m"@
    } else {
        Seq::empty()
    })
}

/// The longest prefix of `s` whose characters' widths add up to at most `room`.
pub open spec fn fit_prefix(s: Seq<char>, room: int) -> Seq<char>
    decreases s.len(),
{
    if s.len() == 0 || char_width(s[0]) > room {
        Seq::empty()
    } else {
        seq![s[0]] + fit_prefix(s.drop_first(), room - char_width(s[0]))
    }
}

/// Whole segments while they fit in `room` columns; the first one that does not fit is
/// cut to a prefix that does, and ends the text.
pub open spec fn fit_segments(segs: Seq<(Seq<char>, InlineStyle)>, room: int) -> Seq<
    (Seq<char>, InlineStyle),
>
    decreases segs.len(),
{
    if segs.len() == 0 || room == 0 {
        Seq::empty()
    } else if str_display_width(segs[0].0) <= room {
        push_seg(Seq::empty(), segs[0].0, segs[0].1) + fit_segments(
            segs.drop_first(),
            room - str_display_width(segs[0].0),
        )
    } else {
        push_seg(Seq::empty(), fit_prefix(segs[0].0, room), segs[0].1)
    }
}

/// `StyledText::truncate`: the text itself when it fits in `max` columns, else the
/// segments that fit.
pub open spec fn truncated_text(segs: Seq<(Seq<char>, InlineStyle)>, max: nat) -> Seq<
    (Seq<char>, InlineStyle),
> {
    if segments_width(segs) <= max {
        segs
    } else {
        fit_segments(segs, max as int)
    }
}

proof fn lemma_fit_prefix(s: Seq<char>, room: int)
    ensures
        fit_prefix(s, room).len() <= s.len(),
        fit_prefix(s, room) == s.take(fit_prefix(s, room).len() as int),
    decreases s.len(),
{
    if s.len() > 0 && char_width(s[0]) <= room {
        lemma_fit_prefix(s.drop_first(), room - char_width(s[0]));
        let p = fit_prefix(s.drop_first(), room - char_width(s[0]));
        assert(seq![s[0]] + p =~= s.take(p.len() + 1int));
    } else {
        assert(s.take(0) =~= Seq::<char>::empty());
    }
}

proof fn lemma_fit_segments_prefix(segs: Seq<(Seq<char>, InlineStyle)>, room: int)
    requires
        forall|i: int| 0 <= i < segs.len() ==> (#[trigger] segs[i]).0.len() > 0,
    ensures
        ({
            let r = fit_segments(segs, room);
            &&& r.len() <= segs.len()
            &&& forall|k: int|
                0 <= k < r.len() ==> (#[trigger] r[k]).1 == segs[k].1 && 0 < r[k].0.len() <= segs[k].0.len()
                    && r[k].0 == segs[k].0.take(r[k].0.len() as int)
            &&& forall|k: int| 0 <= k < r.len() - 1 ==> #[trigger] r[k] == segs[k]
        }),
    decreases segs.len(),
{
    if segs.len() == 0 || room == 0 {
    } else if str_display_width(segs[0].0) <= room {
        let tail = segs.drop_first();
        assert forall|i: int| 0 <= i < tail.len() implies (#[trigger] tail[i]).0.len() > 0 by {
            assert(tail[i] == segs[i + 1]);
        }
        lemma_fit_segments_prefix(tail, room - str_display_width(segs[0].0));
        let rest = fit_segments(tail, room - str_display_width(segs[0].0));
        let r = fit_segments(segs, room);
        assert(segs[0].0.len() > 0);
        assert(r == seq![segs[0]] + rest);
        assert(segs[0].0.take(segs[0].0.len() as int) =~= segs[0].0);
        assert forall|k: int| 0 <= k < r.len() implies (#[trigger] r[k]).1 == segs[k].1 && 0 < r[k].0.len()
            <= segs[k].0.len() && r[k].0 == segs[k].0.take(r[k].0.len() as int) by {
            if k > 0 {
                assert(r[k] == rest[k - 1]);
                assert(tail[k - 1] == segs[k]);
            }
        }
        assert forall|k: int| 0 <= k < r.len() - 1 implies #[trigger] r[k] == segs[k] by {
            if k > 0 {
                assert(r[k] == rest[k - 1]);
                assert(tail[k - 1] == segs[k]);
            }
        }
    } else {
        lemma_fit_prefix(segs[0].0, room);
    }
}

/// Shortening a text keeps its start: the kept segments are, in order, the text's own
/// segments in their own styles, whole but for the last, which may be cut to a prefix of
/// its text; nothing is added, no kept segment is empty, and a text that fits is kept
/// as it is.
pub proof fn lemma_truncated_prefix(segs: Seq<(Seq<char>, InlineStyle)>, max: nat)
    requires
        forall|i: int| 0 <= i < segs.len() ==> (#[trigger] segs[i]).0.len() > 0,
    ensures
        ({
            let r = truncated_text(segs, max);
            &&& segments_width(segs) <= max ==> r == segs
            &&& r.len() <= segs.len()
            &&& forall|k: int|
                0 <= k < r.len() ==> (#[trigger] r[k]).1 == segs[k].1 && 0 < r[k].0.len() <= segs[k].0.len()
                    && r[k].0 == segs[k].0.take(r[k].0.len() as int)
            &&& forall|k: int| 0 <= k < r.len() - 1 ==> #[trigger] r[k] == segs[k]
        }),
{
    if segments_width(segs) > max {
        lemma_fit_segments_prefix(segs, max as int);
    } else {
        assert forall|k: int| 0 <= k < segs.len() implies segs[k].0 == segs[k].0.take(
            segs[k].0.len() as int,
        ) by {
            assert(segs[k].0 =~= segs[k].0.take(segs[k].0.len() as int));
        }
    }
}

proof fn lemma_segments_code_push(
    segs: Seq<(Seq<char>, InlineStyle)>,
    seg: (Seq<char>, InlineStyle),
)
    ensures
        segments_code(segs.push(seg)) == segments_code(segs) + segment_code(seg),
{
    assert(segs.push(seg).drop_last() =~= segs);
}

impl StyledText {
    /// No segment is empty.
    pub open spec fn wf(&self) -> bool {
        forall|i: int| 0 <= i < self@.len() ==> (#[trigger] self@[i]).0.len() > 0
    }

    pub fn new() -> (r: Self)
        ensures
            r@ == Seq::<(Seq<char>, InlineStyle)>::empty(),
            r.wf(),
    {
        let r = StyledText { segments: Vec::new() };
        assert(r@ =~= Seq::<(Seq<char>, InlineStyle)>::empty());
        r
    }

    /// Appends `text` in `style`; empty text is dropped.
    pub fn push(&mut self, text: Vec<char>, style: InlineStyle)
        ensures
            final(self)@ == push_seg(old(self)@, text@, style),
            old(self).wf() ==> final(self).wf(),
    {
        if text.len() > 0 {
            let ghost before = self@;
            let ghost t = text@;
            self.segments.push(StyledSegment { text, style });
            assert(self@ =~= before.push((t, style)));
        }
    }

    pub fn display_width(&self) -> (w: usize)
        ensures
            w == segments_width(self@),
            printable_segments(self@) && texts_len(self@) <= usize::MAX ==> w == texts_len(self@),
    {
        let mut total: usize = 0;
        let mut i: usize = 0;
        assert(self@.take(0) =~= Seq::<(Seq<char>, InlineStyle)>::empty());
        while i < self.segments.len()
            invariant
                i <= self.segments@.len(),
                total == segments_width(self@.take(i as int)),
                printable_segments(self@) && texts_len(self@) <= usize::MAX ==> total == texts_len(
                    self@.take(i as int),
                ),
            decreases self.segments.len() - i,
        {
            let w = self.segments[i].display_width();
            assert(self@.take(i + 1).drop_last() =~= self@.take(i as int));
            assert(self@.take(i + 1).last() == self.segments@[i as int]@);
            proof {
                if printable_segments(self@) && texts_len(self@) <= usize::MAX {
                    assert(printable_ascii(self@[i as int].0));
                    lemma_texts_len_prefix(self@, i + 1);
                }
            }
            total = total.wrapping_add(w);
            i = i + 1;
        }
        assert(self@.take(i as int) =~= self@);
        total
    }

    /// The escape-coded rendering (see [`text_code`]).
    pub fn to_ansi(&self) -> (r: Vec<char>)
        ensures
            r@ == text_code(self@),
    {
        let mut result: Vec<char> = Vec::new();
        let mut any = false;
        let mut i: usize = 0;
        while i < self.segments.len()
            invariant
                i <= self.segments@.len(),
                result@ == segments_code(self@.take(i as int)),
                any == any_styled(self@.take(i as int)),
            decreases self.segments.len() - i,
        {
            let seg = &self.segments[i];
            let ghost sv = self@[i as int];
            assert(sv == seg@);
            proof {
                assert(self@.take(i + 1) =~= self@.take(i as int).push(sv));
                lemma_segments_code_push(self@.take(i as int), sv);
            }
            let ghost before = result@;
            if seg.style.has_any_style() {
                push_lit(&mut result, "\x1b[0m");
                push_all(&mut result, seg.style.to_ansi().as_slice());
                any = true;
            }
            push_all(&mut result, seg.text.as_slice());
            assert(result@ =~= before + segment_code(sv));
            proof {
                let p = self@.take(i + 1);
                if any {
                    if sv.1.styled() {
                        assert(p[i as int] == sv);
                    } else {
                        let k = choose|k: int|
                            0 <= k < i && (#[trigger] self@.take(i as int)[k]).1.styled();
                        assert(p[k] == self@.take(i as int)[k]);
                    }
                } else {
                    assert forall|k: int| 0 <= k < p.len() implies !(#[trigger] p[k]).1.styled() by {
                        if k < i {
                            assert(p[k] == self@.take(i as int)[k]);
                        }
                    }
                }
            }
            i = i + 1;
        }
        assert(self@.take(i as int) =~= self@);
        if any {
            push_lit(&mut result, "\x1b[0m");
        }
        result
    }

    pub fn copy(&self) -> (r: StyledText)
        ensures
            r@ == self@,
    {
        let mut segs: Vec<StyledSegment> = Vec::new();
        let mut i: usize = 0;
        while i < self.segments.len()
            invariant
                i <= self.segments@.len(),
                segs@.len() == i,
                segs@.map_values(|s: StyledSegment| s@) == self@.take(i as int),
            decreases self.segments.len() - i,
        {
            let ghost old_segs = segs@;
            let c = self.segments[i].copy();
            assert(c@ == self@[i as int]);
            segs.push(c);
            assert forall|k: int| 0 <= k <= i implies #[trigger] segs@[k]@ == self@.take(i + 1)[k] by {
                if k < i {
                    assert(segs@[k] == old_segs[k]);
                    assert(old_segs.map_values(|s: StyledSegment| s@)[k] == old_segs[k]@);
                }
            }
            assert(segs@.map_values(|s: StyledSegment| s@) =~= self@.take(i + 1));
            i = i + 1;
        }
        let r = StyledText { segments: segs };
        assert(self@.take(i as int) =~= self@);
        r
    }

    /// Shortens the text to fit `max_width` columns (see [`truncated_text`]).
    pub fn truncate(&self, max_width: usize) -> (r: StyledText)
        ensures
            r@ == truncated_text(self@, max_width as nat),
            printable_segments(self@) && texts_len(self@) <= usize::MAX ==> texts_len(r@) == (if texts_len(
                self@,
            ) <= max_width {
                texts_len(self@)
            } else {
                max_width as nat
            }),
    {
        if self.display_width() <= max_width {
            return self.copy();
        }
        let mut result = StyledText::new();
        let mut remaining: usize = max_width;
        let mut i: usize = 0;
        assert(self@.skip(0) =~= self@);
        assert(result@ + fit_segments(self@, max_width as int) =~= fit_segments(
            self@,
            max_width as int,
        ));
        while i < self.segments.len()
            invariant
                i <= self.segments@.len(),
                fit_segments(self@, max_width as int) == truncated_text(self@, max_width as nat),
                result@ + fit_segments(self@.skip(i as int), remaining as int) == fit_segments(
                    self@,
                    max_width as int,
                ),
                remaining <= max_width,
                printable_segments(self@) && texts_len(self@) <= usize::MAX ==> texts_len(self@)
                    > max_width && texts_len(result@) == texts_len(self@.take(i as int))
                    && remaining + texts_len(result@) == max_width,
            decreases self.segments.len() - i,
        {
            let ghost rest = self@.skip(i as int);
            assert(rest[0] == self.segments@[i as int]@);
            assert(rest.drop_first() =~= self@.skip(i + 1));
            if remaining == 0 {
                assert(result@ + fit_segments(rest, 0) =~= result@);
                return result;
            }
            let segment = &self.segments[i];
            let seg_width = segment.display_width();
            let ghost before = result@;
            proof {
                if printable_segments(self@) && texts_len(self@) <= usize::MAX {
                    assert(printable_ascii(self@[i as int].0));
                    assert(self@.take(i + 1).drop_last() =~= self@.take(i as int));
                    assert(self@.take(i + 1).last() == self@[i as int]);
                }
            }
            if seg_width <= remaining {
                result.push(sub_vec(segment.text.as_slice(), 0, segment.text.len()), segment.style);
                assert(segment.text@.subrange(0, segment.text@.len() as int) =~= segment.text@);
                proof {
                    lemma_texts_len_push(before, segment.text@, segment.style);
                }
                remaining = remaining - seg_width;
                i = i + 1;
                assert(result@ + fit_segments(self@.skip(i as int), remaining as int) =~= before
                    + fit_segments(rest, (remaining + seg_width) as int));
            } else {
                let t = fit_text(segment.text.as_slice(), remaining);
                let ghost tv = t@;
                result.push(t, segment.style);
                proof {
                    lemma_texts_len_push(before, tv, segment.style);
                }
                assert(result@ =~= before + fit_segments(rest, remaining as int));
                return result;
            }
        }
        assert(self@.skip(i as int) =~= Seq::<(Seq<char>, InlineStyle)>::empty());
        assert(result@ =~= result@ + fit_segments(self@.skip(i as int), remaining as int));
        assert(self@.take(i as int) =~= self@);
        result
    }
}

/// The longest prefix of `s` that fits in `room` columns (see [`fit_prefix`]).
pub fn fit_text(s: &[char], room: usize) -> (r: Vec<char>)
    ensures
        r@ == fit_prefix(s@, room as int),
        printable_ascii(s@) ==> r@ == s@.take(if room < s@.len() {
            room as int
        } else {
            s@.len() as int
        }),
{
    let mut out: Vec<char> = Vec::new();
    let mut width: usize = 0;
    let mut i: usize = 0;
    assert(s@.skip(0) =~= s@);
    assert(out@ + fit_prefix(s@, room as int) =~= fit_prefix(s@, room as int));
    while i < s.len()
        invariant
            i <= s@.len(),
            width <= room,
            out@ + fit_prefix(s@.skip(i as int), (room - width) as int) == fit_prefix(
                s@,
                room as int,
            ),
            printable_ascii(s@) ==> width == i && out@ == s@.take(i as int),
        decreases s.len() - i,
    {
        let ghost rest = s@.skip(i as int);
        assert(rest[0] == s@[i as int]);
        assert(rest.drop_first() =~= s@.skip(i + 1));
        let cw = char_width_of(s[i]);
        if cw > room - width {
            assert(out@ + fit_prefix(rest, (room - width) as int) =~= out@);
            return out;
        }
        let ghost before = out@;
        out.push(s[i]);
        width = width + cw;
        i = i + 1;
        assert(printable_ascii(s@) ==> out@ =~= s@.take(i as int));
        assert(out@ + fit_prefix(s@.skip(i as int), (room - width) as int) =~= before
            + fit_prefix(rest, (room - width + cw) as int));
    }
    assert(s@.skip(i as int) =~= Seq::<char>::empty());
    assert(out@ =~= out@ + fit_prefix(s@.skip(i as int), (room - width) as int));
    assert(s@.take(i as int) =~= s@);
    out
}

} // verus!
