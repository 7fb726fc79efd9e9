//! Whole-pane output: the configuration-error banner, the overflow lines and the tab bar.

use vstd::prelude::*;

use crate::color::ColorSpec;
use crate::plugin::PluginState;
use crate::format::{format_tokens, parse_styled_string, parse_tmux_format, styled_string, FormatToken, TokenView};
use crate::layout::{calculate_visible_range, lemma_visible_window, visible_range};
use crate::panes::{display_name, focused_pane_title, tab_agent_of, TabV, TabView};
use crate::style::{
    lemma_truncated_prefix, plain_style, printable_segments, push_seg, segments_width, text_code, texts_len,
    truncated_text, InlineStyle, StyledText,
};
use crate::visible::{
    lemma_attribute_codes, lemma_color_codes, lemma_segments_visible, lemma_style_code_hidden, lemma_text_code_visible,
    lemma_visible_code, lemma_visible_plain, plain, visible,
};
use crate::text::{
    decimal, decimal_chars, eq_lit, has_prefix, lit_chars, push_all, starts_with_lit, push_lit, repeat_char, repeat_chars, replace_all,
    replace_chars, split_on, split_words, sub_vec, words, nonempty_pieces, Sep,
};
use crate::width::{printable_ascii, str_display_width, text_width, truncate_string, truncated, truncated_ascii};

verus! {

/// Greedy word wrap to `cols` columns: the lines finished so far and the line being
/// filled, after the words `ws`.
pub open spec fn wrap_words(ws: Seq<Seq<char>>, cols: nat) -> (Seq<Seq<char>>, Seq<char>)
    decreases ws.len(),
{
    if ws.len() == 0 {
        (Seq::empty(), Seq::empty())
    } else {
        let (body, cur) = wrap_words(ws.drop_last(), cols);
        let w = ws.last();
        if cur.len() == 0 {
            (body, w)
        } else if str_display_width(cur) + 1 + str_display_width(w) <= cols {
            (body, cur + seq![' '] + w)
        } else {
            (body.push(cur), w)
        }
    }
}

/// The lines of `msg` wrapped to `cols` columns.
pub open spec fn wrapped(msg: Seq<char>, cols: nat) -> Seq<Seq<char>> {
    let (body, cur) = wrap_words(words(msg), cols);
    if cur.len() > 0 {
        body.push(cur)
    } else {
        body
    }
}

/// The texts `xs` joined by single spaces.
pub open spec fn spaced(xs: Seq<Seq<char>>) -> Seq<char>
    decreases xs.len(),
{
    if xs.len() == 0 {
        Seq::empty()
    } else if xs.len() == 1 {
        xs[0]
    } else {
        spaced(xs.drop_last()) + seq![' '] + xs.last()
    }
}

/// The lines that wrapping gives: the finished ones, then the one being filled unless it
/// is empty.
pub open spec fn wrap_result(r: (Seq<Seq<char>>, Seq<char>)) -> Seq<Seq<char>> {
    if r.1.len() > 0 {
        r.0.push(r.1)
    } else {
        r.0
    }
}

proof fn lemma_wrap_words_join(ws: Seq<Seq<char>>, cols: nat)
    requires
        forall|i: int| 0 <= i < ws.len() ==> (#[trigger] ws[i]).len() > 0,
    ensures
        spaced(wrap_result(wrap_words(ws, cols))) == spaced(ws),
        forall|i: int|
            0 <= i < wrap_result(wrap_words(ws, cols)).len() ==> (#[trigger] wrap_result(
                wrap_words(ws, cols),
            )[i]).len() > 0,
        wrap_words(ws, cols).1.len() == 0 ==> ws.len() == 0 && wrap_words(ws, cols).0.len() == 0,
    decreases ws.len(),
{
    if ws.len() > 0 {
        let init = ws.drop_last();
        let w = ws.last();
        assert(w.len() > 0);
        lemma_wrap_words_join(init, cols);
        let (body, cur) = wrap_words(init, cols);
        let before = wrap_result((body, cur));
        if cur.len() == 0 {
            assert(init.len() == 0);
            assert(ws =~= seq![w]);
            assert(wrap_result(wrap_words(ws, cols)) =~= seq![w]);
        } else {
            assert(init.len() > 0);
            assert(before == body.push(cur));
            let after = wrap_result(wrap_words(ws, cols));
            if str_display_width(cur) + 1 + str_display_width(w) <= cols {
                let joined = cur + seq![' '] + w;
                assert(after == body.push(joined));
                if body.len() == 0 {
                    assert(spaced(before) == cur);
                } else {
                    assert(before.drop_last() =~= body);
                    assert(after.drop_last() =~= body);
                }
                assert(spaced(after) =~= spaced(before) + seq![' '] + w);
                assert forall|i: int| 0 <= i < after.len() implies (#[trigger] after[i]).len() > 0 by {
                    if i < body.len() {
                        assert(after[i] == before[i]);
                    }
                }
            } else {
                assert(after == before.push(w));
                assert(after.drop_last() =~= before);
                assert forall|i: int| 0 <= i < after.len() implies (#[trigger] after[i]).len() > 0 by {
                    if i < before.len() {
                        assert(after[i] == before[i]);
                    }
                }
            }
            assert(ws.drop_last() == init);
        }
    }
}

proof fn lemma_words_nonempty(ps: Seq<Seq<char>>)
    ensures
        forall|i: int| 0 <= i < nonempty_pieces(ps).len() ==> (#[trigger] nonempty_pieces(ps)[i]).len() > 0,
    decreases ps.len(),
{
    if ps.len() > 0 {
        let init = ps.drop_last();
        lemma_words_nonempty(init);
        let r = nonempty_pieces(ps);
        assert forall|i: int| 0 <= i < r.len() implies (#[trigger] r[i]).len() > 0 by {
            if i < nonempty_pieces(init).len() {
                assert(r[i] == nonempty_pieces(init)[i]);
            }
        }
    }
}

/// Wrapping a message loses, adds and reorders no word: its lines, joined by single
/// spaces, are the message's words joined by single spaces, and no line is empty.
pub proof fn lemma_wrap_keeps_words(msg: Seq<char>, cols: nat)
    ensures
        spaced(wrapped(msg, cols)) == spaced(words(msg)),
        forall|i: int| 0 <= i < wrapped(msg, cols).len() ==> (#[trigger] wrapped(msg, cols)[i]).len() > 0,
{
    lemma_words_nonempty(split_on(msg, Sep::Whitespace));
    lemma_wrap_words_join(words(msg), cols);
    assert(wrapped(msg, cols) == wrap_result(wrap_words(words(msg), cols)));
}

proof fn lemma_split_printable(s: Seq<char>, sep: Sep)
    requires
        printable_ascii(s),
    ensures
        forall|k: int| 0 <= k < split_on(s, sep).len() ==> printable_ascii(#[trigger] split_on(s, sep)[k]),
    decreases s.len(),
{
    if s.len() > 0 {
        lemma_split_printable(s.drop_last(), sep);
        crate::text::lemma_split_on_nonempty(s.drop_last(), sep);
        let r = split_on(s.drop_last(), sep);
        assert(' ' <= s[s.len() - 1] <= '~');
        assert forall|k: int| 0 <= k < split_on(s, sep).len() implies printable_ascii(
            #[trigger] split_on(s, sep)[k],
        ) by {
            if k < r.len() - 1 || sep.separates(s.last()) {
                if k < r.len() {
                    assert(printable_ascii(r[k]));
                }
            } else {
                assert(printable_ascii(r[k]));
                let p = r.last().push(s.last());
                assert forall|j: int| 0 <= j < p.len() implies ' ' <= #[trigger] p[j] <= '~' by {
                    if j < r.last().len() {
                        assert(p[j] == r.last()[j]);
                    }
                }
            }
        }
    }
}

proof fn lemma_pieces_printable(ps: Seq<Seq<char>>)
    requires
        forall|k: int| 0 <= k < ps.len() ==> printable_ascii(#[trigger] ps[k]),
    ensures
        forall|k: int| 0 <= k < nonempty_pieces(ps).len() ==> printable_ascii(#[trigger] nonempty_pieces(ps)[k]),
    decreases ps.len(),
{
    if ps.len() > 0 {
        let init = ps.drop_last();
        assert forall|k: int| 0 <= k < init.len() implies printable_ascii(#[trigger] init[k]) by {
            assert(init[k] == ps[k]);
        }
        lemma_pieces_printable(init);
        assert(printable_ascii(ps[ps.len() - 1]));
        let r = nonempty_pieces(ps);
        assert forall|k: int| 0 <= k < r.len() implies printable_ascii(#[trigger] r[k]) by {
            if k < nonempty_pieces(init).len() {
                assert(r[k] == nonempty_pieces(init)[k]);
            }
        }
    }
}

proof fn lemma_wrap_words_printable(ws: Seq<Seq<char>>, cols: nat)
    requires
        forall|k: int| 0 <= k < ws.len() ==> printable_ascii(#[trigger] ws[k]),
    ensures
        forall|k: int|
            0 <= k < wrap_words(ws, cols).0.len() ==> printable_ascii(#[trigger] wrap_words(ws, cols).0[k]),
        printable_ascii(wrap_words(ws, cols).1),
    decreases ws.len(),
{
    if ws.len() > 0 {
        let init = ws.drop_last();
        assert forall|k: int| 0 <= k < init.len() implies printable_ascii(#[trigger] init[k]) by {
            assert(init[k] == ws[k]);
        }
        lemma_wrap_words_printable(init, cols);
        let (body, cur) = wrap_words(init, cols);
        let w = ws.last();
        assert(printable_ascii(ws[ws.len() - 1]));
        let j = cur + seq![' '] + w;
        assert forall|i: int| 0 <= i < j.len() implies ' ' <= #[trigger] j[i] <= '~' by {
            if i < cur.len() {
                assert(j[i] == cur[i]);
            } else if i > cur.len() {
                assert(j[i] == w[i - cur.len() - 1]);
            }
        }
        let out = wrap_words(ws, cols).0;
        assert forall|k: int| 0 <= k < out.len() implies printable_ascii(#[trigger] out[k]) by {
            if k < body.len() {
                assert(out[k] == body[k]);
            }
        }
    }
}

/// The lines of a printable ASCII message stay printable ASCII.
proof fn lemma_wrapped_printable(msg: Seq<char>, cols: nat)
    requires
        printable_ascii(msg),
    ensures
        forall|k: int| 0 <= k < wrapped(msg, cols).len() ==> printable_ascii(#[trigger] wrapped(msg, cols)[k]),
{
    lemma_split_printable(msg, Sep::Whitespace);
    lemma_pieces_printable(split_on(msg, Sep::Whitespace));
    lemma_wrap_words_printable(words(msg), cols);
    let (body, cur) = wrap_words(words(msg), cols);
    let r = wrapped(msg, cols);
    assert forall|k: int| 0 <= k < r.len() implies printable_ascii(#[trigger] r[k]) by {
        if k < body.len() {
            assert(r[k] == body[k]);
        }
    }
}

/// One banner row: white on red, cut and padded to `cols` columns.
pub open spec fn banner(text: Seq<char>, cols: nat) -> Seq<char> {
    let t = truncated(text, cols);
    ColorSpec::EightBit(196).bg_code() + ColorSpec::EightBit(231).fg_code() + (if str_display_width(
        t,
    ) < cols {
        t + repeat_char(' ', (cols - str_display_width(t)) as nat)
    } else {
        t
    }) + "\x1b[0m"@
}

/// `lines` followed by blank rows up to `rows`.
pub open spec fn fill_rows(lines: Seq<Seq<char>>, rows: nat, cols: nat) -> Seq<Seq<char>> {
    if lines.len() < rows {
        lines + Seq::new((rows - lines.len()) as nat, |i: int| repeat_char(' ', cols))
    } else {
        lines
    }
}

/// `render_error`: a title row, the whole message word-wrapped one column narrower than
/// the pane (each line indented by a space, so that it still fits), then blank rows.
pub open spec fn error_lines(rows: nat, cols: nat, msg: Seq<char>) -> Seq<Seq<char>> {
    let body = wrapped(msg, if cols >= 1 {
        (cols - 1) as nat
    } else {
        0
    });
    fill_rows(
        seq![banner(" ⚠ agent-tabs config"@, cols)] + Seq::new(
            body.len(),
            |i: int| banner(seq![' '] + body[i], cols),
        ),
        rows,
        cols,
    )
}

/// The error banner has a row for its title, then one for each line of the message
/// wrapped one column narrower than the pane (which together hold the message's words
/// in order, none lost), then blank rows down to `rows`: `max(rows, 1 + lines)` rows in
/// all.
pub proof fn lemma_error_banner_rows(rows: nat, cols: nat, msg: Seq<char>)
    ensures
        ({
            let body = wrapped(msg, if cols >= 1 {
                (cols - 1) as nat
            } else {
                0
            });
            let r = error_lines(rows, cols, msg);
            &&& spaced(body) == spaced(words(msg))
            &&& r.len() == (if rows > 1 + body.len() {
                rows
            } else {
                1 + body.len()
            })
            &&& r[0] == banner(" ⚠ agent-tabs config"@, cols)
            &&& forall|i: int| 0 <= i < body.len() ==> #[trigger] r[i + 1] == banner(seq![' '] + body[i], cols)
            &&& forall|j: int| 1 + body.len() <= j < r.len() ==> #[trigger] r[j] == repeat_char(' ', cols)
        }),
{
    let c = if cols >= 1 {
        (cols - 1) as nat
    } else {
        0
    };
    lemma_wrap_keeps_words(msg, c);
}

#[verifier::spinoff_prover]
#[verifier::rlimit(30)]
fn banner_line(text: &[char], cols: usize) -> (r: Vec<char>)
    ensures
        r@ == banner(text@, cols as nat),
        printable_ascii(text@) ==> visible(r@).len() == cols,
{
    let mut t = truncate_string(text, cols);
    let w = text_width(t.as_slice());
    let ghost t0 = t@;
    assert(printable_ascii(text@) ==> t0 == truncated_ascii(text@, cols as nat) && t0.len() <= cols);
    if w < cols {
        push_all(&mut t, repeat_chars(' ', cols - w).as_slice());
    }
    let mut out = ColorSpec::EightBit(196).to_ansi_bg();
    push_all(&mut out, ColorSpec::EightBit(231).to_ansi_fg().as_slice());
    push_all(&mut out, t.as_slice());
    push_lit(&mut out, "\x1b[0m");
    assert(out@ =~= banner(text@, cols as nat));
    proof {
        if printable_ascii(text@) {
            reveal_strlit("...");
            assert(printable_ascii(t0)) by {
                let n = text@.len();
                if n <= cols {
                } else if cols <= 3 {
                    assert forall|i: int| 0 <= i < t0.len() implies ' ' <= #[trigger] t0[i] <= '~' by {
                        assert(t0[i] == '.');
                    }
                } else {
                    assert forall|i: int| 0 <= i < t0.len() implies ' ' <= #[trigger] t0[i] <= '~' by {
                        if i < cols - 3 {
                            assert(t0[i] == text@[i]);
                        }
                    }
                }
            }
            let shown = t@;
            assert(plain(shown)) by {
                assert forall|i: int| 0 <= i < shown.len() implies shown[i] != '\x1b' by {
                    if i < t0.len() {
                        assert(shown[i] == t0[i]);
                    } else {
                        assert(shown[i] == ' ');
                    }
                }
            }
            let bg = ColorSpec::EightBit(196).bg_code();
            let fg = ColorSpec::EightBit(231).fg_code();
            lemma_color_codes(ColorSpec::EightBit(196));
            lemma_color_codes(ColorSpec::EightBit(231));
            lemma_attribute_codes();
            crate::visible::lemma_visible_empty();
            assert(out@ =~= bg + (fg + (shown + ("\x1b[0m"@ + Seq::<char>::empty()))));
            lemma_visible_code("\x1b[0m"@, Seq::<char>::empty());
            lemma_visible_plain(shown, "\x1b[0m"@ + Seq::<char>::empty());
            lemma_visible_code(fg, shown + ("\x1b[0m"@ + Seq::<char>::empty()));
            lemma_visible_code(bg, fg + (shown + ("\x1b[0m"@ + Seq::<char>::empty())));
            assert(shown + Seq::<char>::empty() =~= shown);
        }
    }
    out
}

fn push_line(lines: &mut Vec<Vec<char>>, line: Vec<char>)
    ensures
        final(lines).deep_view() == old(lines).deep_view().push(line@),
{
    let ghost before = lines.deep_view();
    let ghost lv = line@;
    assert(line.deep_view() =~= lv);
    lines.push(line);
    assert(lines.deep_view() =~= before.push(lv));
}

/// Appends blank rows up to `rows`.
fn pad_rows(lines: &mut Vec<Vec<char>>, rows: usize, cols: usize)
    ensures
        final(lines).deep_view() == fill_rows(old(lines).deep_view(), rows as nat, cols as nat),
{
    let ghost start = lines.deep_view();
    let ghost n0 = start.len();
    while lines.len() < rows
        invariant
            n0 == start.len(),
            n0 <= lines.deep_view().len(),
            lines.deep_view().len() <= (if n0 < rows { rows as nat } else { n0 }),
            lines.deep_view().len() == lines@.len(),
            lines.deep_view() == start + Seq::new(
                (lines.deep_view().len() - n0) as nat,
                |i: int| repeat_char(' ', cols as nat),
            ),
        decreases rows - lines.len(),
    {
        push_line(lines, repeat_chars(' ', cols));
        assert(lines.deep_view() =~= start + Seq::new(
            (lines.deep_view().len() - n0) as nat,
            |i: int| repeat_char(' ', cols as nat),
        ));
    }
    assert(lines.deep_view() =~= fill_rows(start, rows as nat, cols as nat));
}

/// The word-wrapped lines of `msg` (see [`wrapped`]).
pub fn wrap_message(msg: &[char], cols: usize) -> (r: Vec<Vec<char>>)
    ensures
        r.deep_view() == wrapped(msg@, cols as nat),
{
    let ws = split_words(msg);
    let ghost wv = ws.deep_view();
    let mut body: Vec<Vec<char>> = Vec::new();
    let mut cur: Vec<char> = Vec::new();
    let mut i: usize = 0;
    assert(wv.take(0) =~= Seq::<Seq<char>>::empty());
    while i < ws.len()
        invariant
            i <= ws@.len(),
            wv == ws.deep_view(),
            (body.deep_view(), cur@) == wrap_words(wv.take(i as int), cols as nat),
        decreases ws.len() - i,
    {
        let word = &ws[i];
        assert(wv.take(i + 1).drop_last() =~= wv.take(i as int));
        assert(wv.take(i + 1).last() == word@);
        let wword = sub_vec(word.as_slice(), 0, word.len());
        assert(wword@ =~= word@);
        if cur.len() == 0 {
            cur = wword;
        } else {
            let cw = text_width(cur.as_slice());
            let ww = text_width(word.as_slice());
            if cw < cols && ww <= cols - cw - 1 {
                cur.push(' ');
                push_all(&mut cur, word.as_slice());
            } else {
                let mut done: Vec<char> = Vec::new();
                std::mem::swap(&mut done, &mut cur);
                push_line(&mut body, done);
                cur = wword;
            }
        }
        i = i + 1;
    }
    assert(wv.take(i as int) =~= wv);
    if cur.len() > 0 {
        push_line(&mut body, cur);
    }
    body
}

/// The rows of the configuration-error banner (see [`error_lines`]).
pub fn render_error(rows: usize, cols: usize, msg: &[char]) -> (r: Vec<Vec<char>>)
    ensures
        r.deep_view() == error_lines(rows as nat, cols as nat, msg@),
        printable_ascii(msg@) ==> forall|i: int|
            1 <= i < r.deep_view().len() ==> (#[trigger] visible(r.deep_view()[i])).len() == cols,
{
    let width = if cols >= 1 {
        cols - 1
    } else {
        0
    };
    let body = wrap_message(msg, width);
    let ghost bv = body.deep_view();
    proof {
        if printable_ascii(msg@) {
            lemma_wrapped_printable(msg@, width as nat);
        }
    }
    let mut lines: Vec<Vec<char>> = Vec::new();
    let title = crate::text::lit_chars(" ⚠ agent-tabs config");
    push_line(&mut lines, banner_line(title.as_slice(), cols));
    let ghost head = lines.deep_view();
    let mut i: usize = 0;
    while i < body.len()
        invariant
            i <= body@.len(),
            bv == body.deep_view(),
            lines.deep_view() == head + Seq::new(
                i as nat,
                |k: int| banner(seq![' '] + bv[k], cols as nat),
            ),
            bv == wrapped(msg@, width as nat),
            printable_ascii(msg@) ==> forall|k: int|
                0 <= k < bv.len() ==> printable_ascii(#[trigger] bv[k]),
            printable_ascii(msg@) ==> forall|k: int|
                0 <= k < i ==> (#[trigger] visible(banner(seq![' '] + bv[k], cols as nat))).len() == cols,
        decreases body.len() - i,
    {
        let mut t: Vec<char> = Vec::new();
        t.push(' ');
        push_all(&mut t, body[i].as_slice());
        assert(t@ =~= seq![' '] + bv[i as int]);
        proof {
            if printable_ascii(msg@) {
                let b = bv[i as int];
                assert(printable_ascii(b));
                assert forall|j: int| 0 <= j < t@.len() implies ' ' <= #[trigger] t@[j] <= '~' by {
                    if j > 0 {
                        assert(t@[j] == b[j - 1]);
                    }
                }
            }
        }
        push_line(&mut lines, banner_line(t.as_slice(), cols));
        i = i + 1;
        assert(lines.deep_view() =~= head + Seq::new(
            i as nat,
            |k: int| banner(seq![' '] + bv[k], cols as nat),
        ));
    }
    let ghost before = lines.deep_view();
    assert(before =~= seq![banner(" ⚠ agent-tabs config"@, cols as nat)] + Seq::new(
        bv.len(),
        |k: int| banner(seq![' '] + bv[k], cols as nat),
    ));
    pad_rows(&mut lines, rows, cols);
    proof {
        if printable_ascii(msg@) {
            let r = lines.deep_view();
            assert forall|i: int| 1 <= i < r.len() implies (#[trigger] visible(r[i])).len() == cols by {
                if i < 1 + bv.len() {
                    assert(r[i] == before[i]);
                    assert(before[i] == banner(seq![' '] + bv[i - 1], cols as nat));
                } else {
                    let sp = repeat_char(' ', cols as nat);
                    assert(r[i] == sp);
                    assert(plain(sp));
                    lemma_visible_plain(sp, Seq::empty());
                    crate::visible::lemma_visible_empty();
                    assert(sp + Seq::<char>::empty() =~= sp);
                }
            }
        }
    }
    lines
}

// ---------- single rows ----------

/// A style with its colours swapped and without `fill` (for reverse video).
pub open spec fn swapped(st: InlineStyle) -> InlineStyle {
    InlineStyle { fg: st.bg, bg: st.fg, fill: false, ..st }
}

/// The segments drawn in reverse video: each styled one re-applies reverse and its
/// swapped colours.
pub open spec fn reverse_code(segs: Seq<(Seq<char>, InlineStyle)>) -> Seq<char>
    decreases segs.len(),
{
    if segs.len() == 0 {
        Seq::empty()
    } else {
        reverse_code(segs.drop_last()) + (if swapped(segs.last().1).styled() {
            "\x1b[0m\x1b[7m"@ + swapped(segs.last().1).code()
        } else {
            Seq::empty()
        }) + segs.last().0
    }
}

pub open spec fn has_fill_segment(segs: Seq<(Seq<char>, InlineStyle)>) -> bool {
    exists|i: int| 0 <= i < segs.len() && (#[trigger] segs[i]).1.fill
}

/// `build_line`: the content cut to the columns the border leaves, padded with spaces,
/// then the border. A selected line with a `fill` segment is drawn in reverse video so
/// that its background fills the row.
pub open spec fn line_of(
    content: Seq<(Seq<char>, InlineStyle)>,
    border: Seq<(Seq<char>, InlineStyle)>,
    cols: nat,
    is_selected: bool,
) -> Seq<char> {
    let bw = segments_width(border);
    let eff = if cols >= bw {
        (cols - bw) as nat
    } else {
        0
    };
    let c = truncated_text(content, eff);
    let cw = segments_width(c);
    let pad = if eff >= cw {
        (eff - cw) as nat
    } else {
        0
    };
    (if is_selected && has_fill_segment(c) {
        "\x1b[7m"@ + reverse_code(c) + repeat_char(' ', pad) + "\x1b[0m"@
    } else {
        text_code(c) + repeat_char(' ', pad)
    }) + (if bw > 0 {
        text_code(border)
    } else {
        Seq::empty()
    })
}

/// The joined texts are as long as the texts together.
proof fn lemma_joined_len(segs: Seq<(Seq<char>, InlineStyle)>)
    ensures
        joined_texts(segs).len() == texts_len(segs),
    decreases segs.len(),
{
    if segs.len() > 0 {
        lemma_joined_len(segs.drop_last());
    }
}

/// Printable ASCII texts hold no escape character.
proof fn lemma_printable_plain(segs: Seq<(Seq<char>, InlineStyle)>)
    requires
        printable_segments(segs),
    ensures
        forall|i: int| 0 <= i < segs.len() ==> plain(#[trigger] segs[i].0),
{
    assert forall|i: int| 0 <= i < segs.len() implies plain(#[trigger] segs[i].0) by {
        assert(printable_ascii(segs[i].0));
        assert forall|j: int| 0 <= j < segs[i].0.len() implies segs[i].0[j] != '\x1b' by {
            assert(' ' <= segs[i].0[j] <= '~');
        }
    }
}

/// Reverse video shows the segments' texts one after the other.
proof fn lemma_reverse_visible(segs: Seq<(Seq<char>, InlineStyle)>, b: Seq<char>)
    requires
        forall|i: int| 0 <= i < segs.len() ==> plain(#[trigger] segs[i].0),
    ensures
        visible(reverse_code(segs) + b) == joined_texts(segs) + visible(b),
    decreases segs.len(),
{
    if segs.len() == 0 {
        assert(reverse_code(segs) + b =~= b);
        assert(joined_texts(segs) + visible(b) =~= visible(b));
    } else {
        let init = segs.drop_last();
        let last = segs.last();
        assert(plain(segs[segs.len() - 1].0));
        let piece = (if swapped(last.1).styled() {
            "\x1b[0m\x1b[7m"@ + swapped(last.1).code()
        } else {
            Seq::empty()
        }) + last.0;
        lemma_reverse_visible(init, piece + b);
        lemma_visible_plain(last.0, b);
        if swapped(last.1).styled() {
            reveal_strlit("\x1b[0m\x1b[7m");
            reveal_strlit("\x1b[0m");
            reveal_strlit("\x1b[7m");
            lemma_attribute_codes();
            assert("\x1b[0m\x1b[7m"@ =~= "\x1b[0m"@ + "\x1b[7m"@);
            assert(piece + b =~= "\x1b[0m"@ + ("\x1b[7m"@ + (swapped(last.1).code() + (last.0 + b))));
            lemma_visible_code("\x1b[0m"@, "\x1b[7m"@ + (swapped(last.1).code() + (last.0 + b)));
            lemma_visible_code("\x1b[7m"@, swapped(last.1).code() + (last.0 + b));
            lemma_style_code_hidden(swapped(last.1), last.0 + b);
        } else {
            assert(piece + b =~= last.0 + b);
        }
        assert(reverse_code(segs) + b =~= reverse_code(init) + (piece + b));
        assert(joined_texts(segs) + visible(b) =~= joined_texts(init) + (last.0 + visible(b)));
    }
}

proof fn lemma_reversed_line_visible(c: Seq<(Seq<char>, InlineStyle)>, sp: Seq<char>, bt: Seq<char>)
    requires
        forall|k: int| 0 <= k < c.len() ==> plain(#[trigger] c[k].0),
        plain(sp),
    ensures
        visible("\x1b[7m"@ + reverse_code(c) + sp + "\x1b[0m"@ + bt) == joined_texts(c) + visible(sp + bt),
{
    reveal_strlit("\x1b[0m");
    lemma_attribute_codes();
    assert(visible(sp + ("\x1b[0m"@ + bt)) == visible(sp + bt)) by {
        lemma_visible_code("\x1b[0m"@, bt);
        lemma_visible_plain(sp, "\x1b[0m"@ + bt);
        lemma_visible_plain(sp, bt);
    }
    lemma_reverse_visible(c, sp + ("\x1b[0m"@ + bt));
    assert("\x1b[7m"@ + reverse_code(c) + sp + "\x1b[0m"@ + bt =~= "\x1b[7m"@ + (reverse_code(c) + (sp
        + ("\x1b[0m"@ + bt))));
    lemma_visible_code("\x1b[7m"@, reverse_code(c) + (sp + ("\x1b[0m"@ + bt)));
}

proof fn lemma_plain_line_visible(c: Seq<(Seq<char>, InlineStyle)>, sp: Seq<char>, bt: Seq<char>)
    requires
        forall|k: int| 0 <= k < c.len() ==> plain(#[trigger] c[k].0),
    ensures
        visible(text_code(c) + sp + bt) == joined_texts(c) + visible(sp + bt),
{
    lemma_attribute_codes();
    let tail: Seq<char> = if crate::style::any_styled(c) {
        "\x1b[0m"@
    } else {
        Seq::empty()
    };
    assert(text_code(c) == crate::style::segments_code(c) + tail);
    lemma_visible_code(tail, sp + bt);
    lemma_segments_visible(c, tail + (sp + bt));
    assert(text_code(c) + sp + bt =~= crate::style::segments_code(c) + (tail + (sp + bt)));
}

/// The texts of a cut text hold no escape character when the whole text's do not.
proof fn lemma_cut_plain(content: Seq<(Seq<char>, InlineStyle)>, eff: nat)
    requires
        forall|i: int| 0 <= i < content.len() ==> plain(#[trigger] content[i].0) && content[i].0.len() > 0,
    ensures
        forall|k: int|
            0 <= k < truncated_text(content, eff).len() ==> plain(
                #[trigger] truncated_text(content, eff)[k].0,
            ),
{
    let c = truncated_text(content, eff);
    lemma_truncated_prefix(content, eff);
    assert forall|k: int| 0 <= k < c.len() implies plain(#[trigger] c[k].0) by {
        assert(c[k].0 == content[k].0.take(c[k].0.len() as int));
        assert(plain(content[k].0));
        assert forall|j: int| 0 <= j < c[k].0.len() implies c[k].0[j] != '\x1b' by {
            assert(c[k].0[j] == content[k].0[j]);
        }
    }
}

/// What a terminal shows of a line (`build_line`): the texts of the content as cut to
/// the columns the border leaves, the padding spaces, then the border's texts, when no
/// text holds an escape character and no content segment is empty; the same with and
/// without the reverse video of a selected line.
#[verifier::spinoff_prover]
#[verifier::rlimit(30)]
pub proof fn lemma_line_visible(
    content: Seq<(Seq<char>, InlineStyle)>,
    border: Seq<(Seq<char>, InlineStyle)>,
    cols: nat,
    is_selected: bool,
)
    requires
        forall|i: int| 0 <= i < content.len() ==> plain(#[trigger] content[i].0) && content[i].0.len() > 0,
        forall|i: int| 0 <= i < border.len() ==> plain(#[trigger] border[i].0),
    ensures
        ({
            let bw = segments_width(border);
            let eff = if cols >= bw {
                (cols - bw) as nat
            } else {
                0
            };
            let c = truncated_text(content, eff);
            let cw = segments_width(c);
            let pad = if eff >= cw {
                (eff - cw) as nat
            } else {
                0
            };
            visible(line_of(content, border, cols, is_selected)) == joined_texts(c) + repeat_char(' ', pad)
                + (if bw > 0 {
                joined_texts(border)
            } else {
                Seq::empty()
            })
        }),
{
    let bw = segments_width(border);
    let eff = if cols >= bw {
        (cols - bw) as nat
    } else {
        0
    };
    let c = truncated_text(content, eff);
    let cw = segments_width(c);
    let pad = if eff >= cw {
        (eff - cw) as nat
    } else {
        0
    };
    lemma_cut_plain(content, eff);
    let sp = repeat_char(' ', pad);
    assert(plain(sp));
    let bt: Seq<char> = if bw > 0 {
        text_code(border)
    } else {
        Seq::empty()
    };
    let bv: Seq<char> = if bw > 0 {
        joined_texts(border)
    } else {
        Seq::empty()
    };
    assert(visible(sp + bt) == sp + bv) by {
        if bw > 0 {
            lemma_text_code_visible(border);
        } else {
            crate::visible::lemma_visible_empty();
        }
        lemma_visible_plain(sp, bt);
    }
    if is_selected && has_fill_segment(c) {
        lemma_reversed_line_visible(c, sp, bt);
        assert(line_of(content, border, cols, is_selected) =~= "\x1b[7m"@ + reverse_code(c) + sp
            + "\x1b[0m"@ + bt);
    } else {
        lemma_plain_line_visible(c, sp, bt);
        assert(line_of(content, border, cols, is_selected) =~= text_code(c) + sp + bt);
    }
    assert(joined_texts(c) + (sp + bv) =~= joined_texts(c) + sp + bv);
}

/// `build_empty_line`: spaces, then the border.
pub open spec fn empty_line_of(border: Seq<(Seq<char>, InlineStyle)>, cols: nat) -> Seq<char> {
    let bw = segments_width(border);
    if bw == 0 {
        repeat_char(' ', cols)
    } else {
        repeat_char(
            ' ',
            if cols >= bw {
                (cols - bw) as nat
            } else {
                0
            },
        ) + text_code(border)
    }
}

/// `expand_overflow_format`: `{count}` replaced by the number.
pub open spec fn overflow_text(format: Seq<char>, count: nat) -> Seq<char> {
    replace_all(format, "{count}"@, decimal(count))
}

fn reverse_video(c: &StyledText) -> (r: Vec<char>)
    ensures
        r@ == reverse_code(c@),
{
    let mut out: Vec<char> = Vec::new();
    let mut i: usize = 0;
    assert(c@.take(0) =~= Seq::<(Seq<char>, InlineStyle)>::empty());
    while i < c.segments.len()
        invariant
            i <= c.segments@.len(),
            out@ == reverse_code(c@.take(i as int)),
        decreases c.segments.len() - i,
    {
        let seg = &c.segments[i];
        let ghost t = c@.take(i + 1);
        assert(t.drop_last() =~= c@.take(i as int));
        assert(t.last() == seg@);
        let ghost before = out@;
        let mut st = seg.style;
        let tmp = st.fg;
        st.fg = st.bg;
        st.bg = tmp;
        st.fill = false;
        if st.has_any_style() {
            push_lit(&mut out, "\x1b[0m\x1b[7m");
            push_all(&mut out, st.to_ansi().as_slice());
        }
        push_all(&mut out, seg.text.as_slice());
        assert(out@ =~= reverse_code(t));
        i = i + 1;
    }
    assert(c@.take(i as int) =~= c@);
    out
}

fn any_fill(c: &StyledText) -> (r: bool)
    ensures
        r == has_fill_segment(c@),
{
    let mut i: usize = 0;
    while i < c.segments.len()
        invariant
            i <= c.segments@.len(),
            forall|k: int| 0 <= k < i ==> !(#[trigger] c@[k]).1.fill,
        decreases c.segments.len() - i,
    {
        assert(c@[i as int] == c.segments@[i as int]@);
        if c.segments[i].style.fill {
            return true;
        }
        i = i + 1;
    }
    false
}

impl PluginState {
    /// A full row: content, padding and border (see [`line_of`]).
    pub fn build_line(&self, content: &StyledText, cols: usize, is_selected: bool) -> (r: Vec<char>)
        ensures
            r@ == line_of(content@, styled_string(self.style.border@), cols as nat, is_selected),
            content.wf() && printable_segments(content@) && texts_len(content@) <= usize::MAX
                && printable_segments(styled_string(self.style.border@)) && texts_len(
                styled_string(self.style.border@),
            ) <= cols ==> visible(r@).len() == cols,
    {
        let border = parse_styled_string(self.style.border.as_slice());
        let border_width = border.display_width();
        let effective_cols = if cols >= border_width {
            cols - border_width
        } else {
            0
        };
        let content_in = content;
        let content = content.truncate(effective_cols);
        let content_width = content.display_width();
        let padding_needed = if effective_cols >= content_width {
            effective_cols - content_width
        } else {
            0
        };
        let has_fill = is_selected && any_fill(&content);
        let mut line: Vec<char> = Vec::new();
        if has_fill {
            push_lit(&mut line, "\x1b[7m");
            push_all(&mut line, reverse_video(&content).as_slice());
            push_all(&mut line, repeat_chars(' ', padding_needed).as_slice());
            push_lit(&mut line, "\x1b[0m");
        } else {
            push_all(&mut line, content.to_ansi().as_slice());
            push_all(&mut line, repeat_chars(' ', padding_needed).as_slice());
        }
        if border_width > 0 {
            push_all(&mut line, border.to_ansi().as_slice());
        }
        proof {
            let b = border@;
            if content_in.wf() && printable_segments(content_in@) && texts_len(content_in@) <= usize::MAX
                && printable_segments(b) && texts_len(b) <= cols {
                lemma_truncated_prefix(content_in@, effective_cols as nat);
                lemma_printable_plain(content_in@);
                lemma_printable_plain(b);
                assert(printable_segments(content@)) by {
                    assert forall|k: int| 0 <= k < content@.len() implies printable_ascii(
                        #[trigger] content@[k].0,
                    ) by {
                        assert(content@[k].0 == content_in@[k].0.take(content@[k].0.len() as int));
                        assert(printable_ascii(content_in@[k].0));
                        assert forall|j: int| 0 <= j < content@[k].0.len() implies ' ' <= #[trigger] content@[k].0[j]
                            <= '~' by {
                            assert(content@[k].0[j] == content_in@[k].0[j]);
                        }
                    }
                }
                lemma_joined_len(content@);
                lemma_joined_len(b);
                lemma_line_visible(content_in@, b, cols as nat, is_selected);
            }
        }
        line
    }

    /// A row with only the border (see [`empty_line_of`]).
    pub fn build_empty_line(&self, cols: usize) -> (r: Vec<char>)
        ensures
            r@ == empty_line_of(styled_string(self.style.border@), cols as nat),
    {
        let border = parse_styled_string(self.style.border.as_slice());
        let border_width = border.display_width();
        if border_width == 0 {
            return repeat_chars(' ', cols);
        }
        let effective_cols = if cols >= border_width {
            cols - border_width
        } else {
            0
        };
        let mut line = repeat_chars(' ', effective_cols);
        push_all(&mut line, border.to_ansi().as_slice());
        line
    }

    /// `{count}` in `format` replaced by `count` (see [`overflow_text`]).
    pub fn expand_overflow_format(&self, format: &[char], count: usize) -> (r: Vec<char>)
        ensures
            r@ == overflow_text(format@, count as nat),
    {
        let digits = decimal_chars(count as u64);
        replace_chars(format, "{count}", digits.as_slice())
    }
}

// ---------- tab labels from a format ----------

impl PluginState {
    /// The title shown for a tab's pane: its focused pane's title, else its name unless
    /// that is a placeholder, else `...`.
    pub open spec fn pane_title_for(&self, t: TabV) -> Seq<char> {
        match focused_pane_title(self.manifest(), t.position) {
            Some(x) => x,
            None => if !has_prefix(t.name, "Tab #"@) {
                t.name
            } else {
                "..."@
            },
        }
    }

    /// The indicators of a tab: fullscreen, sync, active, in that order.
    pub open spec fn indicators_of(&self, t: TabV) -> Seq<char> {
        (if t.is_fullscreen_active {
            self.style.indicator_fullscreen@
        } else {
            Seq::empty()
        }) + (if t.is_sync_panes_active {
            self.style.indicator_sync@
        } else {
            Seq::empty()
        }) + (if t.active {
            self.style.indicator_active@
        } else {
            Seq::empty()
        })
    }

    /// The value of a format variable for a tab; unknown names stay as `{name}`.
    pub open spec fn variable_value(&self, name: Seq<char>, t: TabV, index: nat) -> Seq<char> {
        if name == "index"@ || name == "i"@ {
            decimal(index)
        } else if name == "name"@ || name == "n"@ {
            if t.active && self.mode.rename_tab && t.name.len() == 0 {
                "Enter name..."@
            } else if !has_prefix(t.name, "Tab #"@) && t.name.len() > 0 {
                t.name
            } else {
                self.pane_title_for(t)
            }
        } else if name == "title"@ || name == "t"@ || name == "pane_title"@ {
            self.pane_title_for(t)
        } else if name == "indicators"@ {
            self.indicators_of(t)
        } else if name == "fullscreen"@ {
            if t.is_fullscreen_active {
                self.style.indicator_fullscreen@
            } else {
                Seq::empty()
            }
        } else if name == "sync"@ {
            if t.is_sync_panes_active {
                self.style.indicator_sync@
            } else {
                Seq::empty()
            }
        } else if name == "active"@ {
            if t.active {
                self.style.indicator_active@
            } else {
                Seq::empty()
            }
        } else {
            seq!['{'] + name + seq!['}']
        }
    }

    /// Reads the tokens in order: a style token sets the current style, a literal is
    /// pushed in it, a variable is pushed as its value cut to its width (or to
    /// `max_name_length`).
    pub open spec fn expand_fold(&self, toks: Seq<TokenView>, t: TabV, index: nat) -> (
        Seq<(Seq<char>, InlineStyle)>,
        InlineStyle,
    )
        decreases toks.len(),
    {
        if toks.len() == 0 {
            (Seq::empty(), plain_style())
        } else {
            let (segs, st) = self.expand_fold(toks.drop_last(), t, index);
            match toks.last() {
                TokenView::Style(s) => (segs, s),
                TokenView::Literal(x) => (push_seg(segs, x, st), st),
                TokenView::Variable(name, width) => {
                    let w = match width {
                        Some(w) => w as nat,
                        None => self.style.max_name_length as nat,
                    };
                    (push_seg(segs, truncated(self.variable_value(name, t, index), w), st), st)
                },
            }
        }
    }

    /// `expand_tmux_format`: the styled label of a tab.
    pub open spec fn expanded(&self, format: Seq<char>, t: TabV, index: nat) -> Seq<
        (Seq<char>, InlineStyle),
    > {
        self.expand_fold(format_tokens(format), t, index).0
    }

    fn pane_title_value(&self, tab: &TabView) -> (r: Vec<char>)
        ensures
            r@ == self.pane_title_for(tab@),
    {
        match self.get_focused_pane_title(tab.position) {
            Some(t) => t,
            None => if !starts_with_lit(tab.name.as_slice(), "Tab #") {
                sub_vec(tab.name.as_slice(), 0, tab.name.len())
            } else {
                lit_chars("...")
            },
        }
    }

    fn indicators(&self, tab: &TabView) -> (r: Vec<char>)
        ensures
            r@ == self.indicators_of(tab@),
    {
        let mut s: Vec<char> = Vec::new();
        if tab.is_fullscreen_active {
            push_all(&mut s, self.style.indicator_fullscreen.as_slice());
        }
        if tab.is_sync_panes_active {
            push_all(&mut s, self.style.indicator_sync.as_slice());
        }
        if tab.active {
            push_all(&mut s, self.style.indicator_active.as_slice());
        }
        assert(s@ =~= self.indicators_of(tab@));
        s
    }

    fn copy_or_empty(flag: bool, s: &Vec<char>) -> (r: Vec<char>)
        ensures
            r@ == (if flag {
                s@
            } else {
                Seq::empty()
            }),
    {
        if flag {
            let r = sub_vec(s.as_slice(), 0, s.len());
            assert(r@ =~= s@);
            r
        } else {
            Vec::new()
        }
    }

    /// The value of the variable `name` (see [`PluginState::variable_value`]).
    pub fn variable(&self, name: &[char], tab: &TabView, index: usize) -> (r: Vec<char>)
        ensures
            r@ == self.variable_value(name@, tab@, index as nat),
    {
        if eq_lit(name, "index") || eq_lit(name, "i") {
            decimal_chars(index as u64)
        } else if eq_lit(name, "name") || eq_lit(name, "n") {
            if tab.active && self.mode.rename_tab && tab.name.len() == 0 {
                lit_chars("Enter name...")
            } else if !starts_with_lit(tab.name.as_slice(), "Tab #") && tab.name.len() > 0 {
                let r = sub_vec(tab.name.as_slice(), 0, tab.name.len());
                assert(r@ =~= tab.name@);
                r
            } else {
                self.pane_title_value(tab)
            }
        } else if eq_lit(name, "title") || eq_lit(name, "t") || eq_lit(name, "pane_title") {
            self.pane_title_value(tab)
        } else if eq_lit(name, "indicators") {
            self.indicators(tab)
        } else if eq_lit(name, "fullscreen") {
            Self::copy_or_empty(tab.is_fullscreen_active, &self.style.indicator_fullscreen)
        } else if eq_lit(name, "sync") {
            Self::copy_or_empty(tab.is_sync_panes_active, &self.style.indicator_sync)
        } else if eq_lit(name, "active") {
            Self::copy_or_empty(tab.active, &self.style.indicator_active)
        } else {
            let mut r: Vec<char> = Vec::new();
            r.push('{');
            push_all(&mut r, name);
            r.push('}');
            assert(r@ =~= seq!['{'] + name@ + seq!['}']);
            r
        }
    }

    /// Expands a label format for a tab (see [`PluginState::expanded`]).
    pub fn expand_tmux_format(&self, format: &[char], tab: &TabView, index: usize) -> (r: StyledText)
        ensures
            r@ == self.expanded(format@, tab@, index as nat),
    {
        let tokens = parse_tmux_format(format);
        let ghost tv = tokens@.map_values(|t: FormatToken| t@);
        let mut result = StyledText::new();
        let mut current = InlineStyle::plain();
        let mut i: usize = 0;
        assert(tv.take(0) =~= Seq::<TokenView>::empty());
        while i < tokens.len()
            invariant
                i <= tokens@.len(),
                tv == tokens@.map_values(|t: FormatToken| t@),
                (result@, current) == self.expand_fold(tv.take(i as int), tab@, index as nat),
            decreases tokens.len() - i,
        {
            assert(tv.take(i + 1).drop_last() =~= tv.take(i as int));
            assert(tv.take(i + 1).last() == tokens@[i as int]@);
            match &tokens[i] {
                FormatToken::Style(st) => {
                    current = *st;
                },
                FormatToken::Variable { name, width } => {
                    let value = self.variable(name.as_slice(), tab, index);
                    let w = match width {
                        Some(w) => *w,
                        None => self.style.max_name_length,
                    };
                    result.push(truncate_string(value.as_slice(), w), current);
                },
                FormatToken::Literal(text) => {
                    let t = sub_vec(text.as_slice(), 0, text.len());
                    assert(t@ =~= text@);
                    result.push(t, current);
                },
            }
            i = i + 1;
        }
        assert(tv.take(i as int) =~= tv);
        result
    }
}

// ---------- the tab bar ----------

/// The number shown on the tab at position `i` (from 0) when numbering starts at
/// `start`; numbers past `usize::MAX` wrap around, as the arithmetic of a release build
/// does.
pub open spec fn tab_number(i: nat, start: usize) -> nat {
    if i + start > usize::MAX {
        (i + start - usize::MAX - 1) as nat
    } else {
        (i + start) as nat
    }
}

/// Each line with the attribute reset that ends every printed row.
pub open spec fn with_reset(lines: Seq<Seq<char>>) -> Seq<Seq<char>> {
    Seq::new(lines.len(), |i: int| lines[i] + "\x1b[m"@)
}

impl PluginState {
    pub open spec fn box_height(&self) -> nat {
        if self.style.tab_height < 2 {
            2
        } else {
            self.style.tab_height as nat
        }
    }

    /// The window of tabs shown for `rows` rows: `(start, end, tabs_above, tabs_below)`.
    pub open spec fn window(&self, rows: nat) -> (usize, usize, usize, usize) {
        let available = if rows >= self.style.padding_top {
            (rows - self.style.padding_top) as nat
        } else {
            0
        };
        let max_visible = if available / self.box_height() < 1 {
            1
        } else {
            available / self.box_height()
        };
        let active_index = if self.active_tab_idx >= 1 {
            (self.active_tab_idx - 1) as nat
        } else {
            0
        };
        visible_range(self.tabs@.len(), max_visible, active_index)
    }

    /// The name a tab box shows: the label of its aggregated state, else its display name.
    pub open spec fn box_name(&self, t: TabV) -> Seq<char> {
        match tab_agent_of(
            self.pane_agents@,
            self.style.state_priority@,
            self.manifest(),
            t.position,
        ).1 {
            Some(l) => l,
            None => display_name(self.manifest(), t),
        }
    }

    /// The boxes of the tabs `i..end` appended to `lines` while fewer than `rows` rows
    /// are used (a box may be cut at the bottom), with the row range of each box drawn.
    pub open spec fn boxes_from(
        &self,
        i: nat,
        end: nat,
        lines: Seq<Seq<char>>,
        rows: nat,
        cols: nat,
    ) -> (Seq<Seq<char>>, Seq<(usize, usize, usize)>)
        decreases end - i,
    {
        if i >= end || lines.len() >= rows {
            (lines, Seq::empty())
        } else if i >= self.tabs@.len() {
            self.boxes_from(i + 1, end, lines, rows, cols)
        } else {
            let t = self.tabs@[i as int]@;
            let st = tab_agent_of(
                self.pane_agents@,
                self.style.state_priority@,
                self.manifest(),
                t.position,
            ).0;
            let bl = self.box_lines(
                tab_number(i, self.style.start_index),
                t.active,
                st,
                self.box_name(t),
                cols,
                self.box_height(),
            );
            let room = (rows - lines.len()) as nat;
            let lines2 = lines + (if bl.len() <= room {
                bl
            } else {
                bl.take(room as int)
            });
            let rest = self.boxes_from(i + 1, end, lines2, rows, cols);
            (rest.0, seq![(lines.len() as usize, lines2.len() as usize, (i + 1) as usize)] + rest.1)
        }
    }

    /// The overflow line for `count` hidden tabs.
    pub open spec fn overflow_line(&self, format: Seq<char>, count: nat, cols: nat) -> Seq<char> {
        line_of(
            styled_string(overflow_text(format, count)),
            styled_string(self.style.border@),
            cols,
            false,
        )
    }

    /// `render_vertical`: the printed rows (each ending in an attribute reset) and the row
    /// ranges of the boxes drawn.
    pub open spec fn vertical(&self, rows: nat, cols: nat) -> (Seq<Seq<char>>, Seq<
        (usize, usize, usize),
    >) {
        let (start, end, above, below) = self.window(rows);
        let pad = Seq::new(self.style.padding_top as nat, |i: int| repeat_char(' ', cols));
        let l1 = if above > 0 {
            pad.push(self.overflow_line(self.style.overflow_above@, above as nat, cols))
        } else {
            pad
        };
        let (l2, tr) = self.boxes_from(start as nat, end as nat, l1, rows, cols);
        let l3 = if below > 0 && l2.len() < rows {
            l2.push(self.overflow_line(self.style.overflow_below@, below as nat, cols))
        } else {
            l2
        };
        (with_reset(fill_rows(l3, rows, cols)), tr)
    }
}

impl PluginState {
    /// The rows and box ranges of the tab bar (see [`PluginState::vertical`]).
    #[verifier::spinoff_prover]
    pub fn vertical_lines(&self, rows: usize, cols: usize) -> (r: (Vec<Vec<char>>, Vec<(usize, usize, usize)>))
        requires
            self.wf(),
        ensures
            r.0.deep_view() == self.vertical(rows as nat, cols as nat).0,
            r.1@ == self.vertical(rows as nat, cols as nat).1,
    {
        let top_padding = self.style.padding_top;
        let tab_h = if self.style.tab_height < 2 {
            2
        } else {
            self.style.tab_height
        };
        let tab_count = self.tabs.len();
        let active_index = if self.active_tab_idx >= 1 {
            self.active_tab_idx - 1
        } else {
            0
        };
        let available_rows = if rows >= top_padding {
            rows - top_padding
        } else {
            0
        };
        let max_visible = if available_rows / tab_h < 1 {
            1
        } else {
            available_rows / tab_h
        };
        let (start_index, end_index, tabs_above, tabs_below) = calculate_visible_range(
            tab_count,
            max_visible,
            active_index,
        );
        assert((start_index, end_index, tabs_above, tabs_below) == self.window(rows as nat));
        let mut lines: Vec<Vec<char>> = Vec::new();
        let mut p: usize = 0;
        while p < top_padding
            invariant
                p <= top_padding,
                lines.deep_view() == Seq::new(p as nat, |i: int| repeat_char(' ', cols as nat)),
            decreases top_padding - p,
        {
            push_line(&mut lines, repeat_chars(' ', cols));
            p = p + 1;
            assert(lines.deep_view() =~= Seq::new(p as nat, |i: int| repeat_char(' ', cols as nat)));
        }
        if tabs_above > 0 {
            let text = self.expand_overflow_format(self.style.overflow_above.as_slice(), tabs_above);
            let styled = parse_styled_string(text.as_slice());
            push_line(&mut lines, self.build_line(&styled, cols, false));
        }
        let ghost l1 = lines.deep_view();
        let ghost whole = self.boxes_from(start_index as nat, end_index as nat, l1, rows as nat, cols as nat);
        let mut tab_rows: Vec<(usize, usize, usize)> = Vec::new();
        let mut i: usize = start_index;
        assert(tab_rows@ + whole.1 =~= whole.1);
        while i < end_index
            invariant_except_break
                start_index <= i <= end_index,
                self.wf(),
                (start_index, end_index, tabs_above, tabs_below) == self.window(rows as nat),
                tab_h as nat == self.box_height(),
                whole == self.boxes_from(start_index as nat, end_index as nat, l1, rows as nat, cols as nat),
                whole.0 == self.boxes_from(i as nat, end_index as nat, lines.deep_view(), rows as nat, cols as nat).0,
                whole.1 == tab_rows@ + self.boxes_from(i as nat, end_index as nat, lines.deep_view(), rows as nat, cols as nat).1,
            ensures
                whole.0 == lines.deep_view(),
                whole.1 == tab_rows@,
            decreases end_index - i,
        {
            if lines.len() >= rows {
                assert(tab_rows@ + Seq::<(usize, usize, usize)>::empty() =~= tab_rows@);
                break;
            }
            if i < self.tabs.len() {
                let tab = &self.tabs[i];
                let (state, label) = self.tab_agent(tab.position);
                let name = match label {
                    Some(l) => l,
                    None => self.tab_display_name(tab),
                };
                assert(name@ == self.box_name(tab@));
                let boxes = self.render_box(i.wrapping_add(self.style.start_index), tab.active, state, name.as_slice(), cols, tab_h);
                let ghost bl = boxes.deep_view();
                let ghost before = lines.deep_view();
                let start_row = lines.len();
                let mut j: usize = 0;
                while j < boxes.len()
                    invariant_except_break
                        j <= boxes@.len(),
                        bl == boxes.deep_view(),
                        start_row == before.len(),
                        start_row < rows,
                        lines.deep_view() == before + bl.take(j as int),
                        lines.deep_view().len() == lines@.len(),
                        lines@.len() <= rows,
                    ensures
                        lines.deep_view() == before + (if bl.len() <= (rows - start_row) as nat {
                            bl
                        } else {
                            bl.take((rows - start_row) as int)
                        }),
                    decreases boxes.len() - j,
                {
                    if lines.len() >= rows {
                        assert(bl.take(j as int) =~= (if bl.len() <= (rows - start_row) as nat {
                            bl
                        } else {
                            bl.take((rows - start_row) as int)
                        }));
                        break;
                    }
                    let line = sub_vec(boxes[j].as_slice(), 0, boxes[j].len());
                    assert(line@ =~= bl[j as int]);
                    push_line(&mut lines, line);
                    j = j + 1;
                    assert(lines.deep_view() =~= before + bl.take(j as int));
                    if j == boxes.len() {
                        assert(bl.take(j as int) =~= bl);
                    }
                }
                let ghost rest = self.boxes_from((i + 1) as nat, end_index as nat, lines.deep_view(), rows as nat, cols as nat);
                let ghost tr0 = tab_rows@;
                tab_rows.push((start_row, lines.len(), i + 1));
                assert(tab_rows@ + rest.1 =~= tr0 + (seq![(start_row, lines.len(), (i + 1) as usize)] + rest.1));
            }
            i = i + 1;
        }
        let ghost l2 = lines.deep_view();
        if tabs_below > 0 && lines.len() < rows {
            let text = self.expand_overflow_format(self.style.overflow_below.as_slice(), tabs_below);
            let styled = parse_styled_string(text.as_slice());
            push_line(&mut lines, self.build_line(&styled, cols, false));
        }
        pad_rows(&mut lines, rows, cols);
        let ghost l4 = lines.deep_view();
        let mut out: Vec<Vec<char>> = Vec::new();
        let mut k: usize = 0;
        while k < lines.len()
            invariant
                k <= lines@.len(),
                l4 == lines.deep_view(),
                out.deep_view() == with_reset(l4.take(k as int)),
            decreases lines.len() - k,
        {
            let mut line = sub_vec(lines[k].as_slice(), 0, lines[k].len());
            push_lit(&mut line, "\x1b[m");
            assert(line@ =~= l4[k as int] + "\x1b[m"@);
            push_line(&mut out, line);
            k = k + 1;
            assert(out.deep_view() =~= with_reset(l4.take(k as int)));
        }
        assert(l4.take(k as int) =~= l4);
        (out, tab_rows)
    }
}

impl PluginState {
    /// The box of the tab at (0-based) position `i`, as the tab bar draws it.
    pub open spec fn tab_box(&self, i: nat, cols: nat) -> Seq<Seq<char>> {
        let t = self.tabs@[i as int]@;
        let st = tab_agent_of(
            self.pane_agents@,
            self.style.state_priority@,
            self.manifest(),
            t.position,
        ).0;
        self.box_lines(
            tab_number(i, self.style.start_index),
            t.active,
            st,
            self.box_name(t),
            cols,
            self.box_height(),
        )
    }

    /// The rows above the tab boxes: the top padding, then the overflow line when tabs
    /// are hidden above.
    pub open spec fn head_lines(&self, rows: nat, cols: nat) -> Seq<Seq<char>> {
        let (start, end, above, below) = self.window(rows);
        let pad = Seq::new(self.style.padding_top as nat, |i: int| repeat_char(' ', cols));
        if above > 0 {
            pad.push(self.overflow_line(self.style.overflow_above@, above as nat, cols))
        } else {
            pad
        }
    }

    /// The rows of the tab bar down to the last row of the last box drawn.
    pub open spec fn boxed_lines(&self, rows: nat, cols: nat) -> Seq<Seq<char>> {
        let (start, end, above, below) = self.window(rows);
        self.boxes_from(start as nat, end as nat, self.head_lines(rows, cols), rows, cols).0
    }

    pub(crate) proof fn lemma_boxes_bounded(
        &self,
        i: nat,
        end: nat,
        lines: Seq<Seq<char>>,
        rows: nat,
        cols: nat,
    )
        requires
            lines.len() <= rows,
        ensures
            lines.len() <= self.boxes_from(i, end, lines, rows, cols).0.len() <= rows,
            self.boxes_from(i, end, lines, rows, cols).0.take(lines.len() as int) == lines,
        decreases end - i,
    {
        if i >= end || lines.len() >= rows {
            assert(lines.take(lines.len() as int) =~= lines);
        } else if i >= self.tabs@.len() {
            self.lemma_boxes_bounded(i + 1, end, lines, rows, cols);
        } else {
            let t = self.tabs@[i as int]@;
            let st = tab_agent_of(
                self.pane_agents@,
                self.style.state_priority@,
                self.manifest(),
                t.position,
            ).0;
            let bl = self.box_lines(
                tab_number(i, self.style.start_index),
                t.active,
                st,
                self.box_name(t),
                cols,
                self.box_height(),
            );
            let room = (rows - lines.len()) as nat;
            let lines2 = lines + (if bl.len() <= room {
                bl
            } else {
                bl.take(room as int)
            });
            self.lemma_boxes_bounded(i + 1, end, lines2, rows, cols);
            let r = self.boxes_from(i + 1, end, lines2, rows, cols).0;
            assert(r.take(lines.len() as int) =~= r.take(lines2.len() as int).take(lines.len() as int));
            assert(lines2.take(lines.len() as int) =~= lines);
        }
    }

    /// The tab bar fills the pane when the top padding leaves a row: it has exactly `rows`
    /// rows, each ending in the attribute reset, and its first `padding_top` rows are
    /// blank.
    pub proof fn lemma_vertical_rows(&self, rows: nat, cols: nat)
        requires
            rows >= self.style.padding_top + 1,
        ensures
            self.vertical(rows, cols).0.len() == rows,
            forall|i: int|
                0 <= i < rows ==> (#[trigger] self.vertical(rows, cols).0[i]).len() >= 3
                    && self.vertical(rows, cols).0[i].skip(
                    self.vertical(rows, cols).0[i].len() - 3,
                ) == "\x1b[m"@,
            forall|i: int|
                0 <= i < self.style.padding_top ==> #[trigger] self.vertical(rows, cols).0[i]
                    == repeat_char(' ', cols) + "\x1b[m"@,
    {
        reveal_strlit("\x1b[m");
        let (start, end, above, below) = self.window(rows);
        let pad = Seq::new(self.style.padding_top as nat, |i: int| repeat_char(' ', cols));
        let l1 = if above > 0 {
            pad.push(self.overflow_line(self.style.overflow_above@, above as nat, cols))
        } else {
            pad
        };
        self.lemma_boxes_bounded(start as nat, end as nat, l1, rows, cols);
        let (l2, tr) = self.boxes_from(start as nat, end as nat, l1, rows, cols);
        let l3 = if below > 0 && l2.len() < rows {
            l2.push(self.overflow_line(self.style.overflow_below@, below as nat, cols))
        } else {
            l2
        };
        let l4 = fill_rows(l3, rows, cols);
        assert(l4.len() == rows);
        assert(self.vertical(rows, cols).0 == with_reset(l4));
        assert forall|i: int| 0 <= i < rows implies (#[trigger] self.vertical(rows, cols).0[i]).len()
            >= 3 && self.vertical(rows, cols).0[i].skip(self.vertical(rows, cols).0[i].len() - 3)
            == "\x1b[m"@ by {
            let x = self.vertical(rows, cols).0[i];
            assert(x == l4[i] + "\x1b[m"@);
            assert(x.skip(x.len() - 3) =~= "\x1b[m"@);
        }
        assert forall|i: int| 0 <= i < self.style.padding_top implies #[trigger] self.vertical(
            rows,
            cols,
        ).0[i] == repeat_char(' ', cols) + "\x1b[m"@ by {
            assert(l1[i] == pad[i]);
            assert(l2.take(l1.len() as int)[i] == l1[i]);
            assert(l3[i] == l2[i]);
            assert(l4[i] == l3[i]);
        }
    }

    /// Each kept row range holds the rows of the box drawn for its tab, from the box's
    /// first row on (a box cut at the bottom keeps its first rows).
    proof fn lemma_boxes_drawn(&self, i: nat, end: nat, lines: Seq<Seq<char>>, rows: nat, cols: nat)
        requires
            lines.len() <= rows <= usize::MAX,
        ensures
            ({
                let (out, tr) = self.boxes_from(i, end, lines, rows, cols);
                forall|k: int|
                    0 <= k < tr.len() ==> 1 <= (#[trigger] tr[k]).2 <= self.tabs@.len() && tr[k].0
                        <= tr[k].1 <= out.len() && tr[k].1 - tr[k].0 <= self.tab_box(
                        (tr[k].2 - 1) as nat,
                        cols,
                    ).len() && out.subrange(tr[k].0 as int, tr[k].1 as int) == self.tab_box(
                        (tr[k].2 - 1) as nat,
                        cols,
                    ).take(tr[k].1 - tr[k].0)
            }),
        decreases end - i,
    {
        if i >= end || lines.len() >= rows {
        } else if i >= self.tabs@.len() {
            self.lemma_boxes_drawn(i + 1, end, lines, rows, cols);
            assert(self.boxes_from(i, end, lines, rows, cols) == self.boxes_from(i + 1, end, lines, rows, cols));
        } else {
            assert(self.tabs@.len() == self.tabs.len());
            let bl = self.tab_box(i, cols);
            let room = (rows - lines.len()) as nat;
            let lines2 = lines + (if bl.len() <= room {
                bl
            } else {
                bl.take(room as int)
            });
            self.lemma_boxes_drawn(i + 1, end, lines2, rows, cols);
            self.lemma_boxes_bounded(i + 1, end, lines2, rows, cols);
            let rest = self.boxes_from(i + 1, end, lines2, rows, cols);
            let (out, tr) = self.boxes_from(i, end, lines, rows, cols);
            assert(out == rest.0);
            assert(tr == seq![(lines.len() as usize, lines2.len() as usize, (i + 1) as usize)] + rest.1);
            assert forall|k: int| 0 <= k < tr.len() implies 1 <= (#[trigger] tr[k]).2 <= self.tabs@.len()
                && tr[k].0 <= tr[k].1 <= out.len() && tr[k].1 - tr[k].0 <= self.tab_box(
                (tr[k].2 - 1) as nat,
                cols,
            ).len() && out.subrange(tr[k].0 as int, tr[k].1 as int) == self.tab_box(
                (tr[k].2 - 1) as nat,
                cols,
            ).take(tr[k].1 - tr[k].0) by {
                if k == 0 {
                    assert(out.subrange(lines.len() as int, lines2.len() as int) =~= lines2.subrange(
                        lines.len() as int,
                        lines2.len() as int,
                    )) by {
                        assert(out.take(lines2.len() as int) == lines2);
                        assert forall|j: int| lines.len() <= j < lines2.len() implies out[j] == lines2[j] by {
                            assert(out.take(lines2.len() as int)[j] == out[j]);
                        }
                    }
                    assert(lines2.subrange(lines.len() as int, lines2.len() as int) =~= bl.take(
                        lines2.len() - lines.len(),
                    ));
                } else {
                    assert(tr[k] == rest.1[k - 1]);
                }
            }
        }
    }

    /// The rows the tab bar prints in a kept row range are the rows of the box drawn for
    /// that range's tab, from the box's first row on, each ending in the attribute reset.
    pub proof fn lemma_box_rows_drawn(&self, rows: nat, cols: nat)
        requires
            rows <= usize::MAX,
        ensures
            ({
                let (lines, tr) = self.vertical(rows, cols);
                forall|k: int, row: int|
                    0 <= k < tr.len() && (#[trigger] tr[k]).0 <= row < tr[k].1 ==> 1 <= tr[k].2
                        <= self.tabs@.len() && row - tr[k].0 < self.tab_box((tr[k].2 - 1) as nat, cols).len()
                        && #[trigger] lines[row] == self.tab_box((tr[k].2 - 1) as nat, cols)[row
                        - tr[k].0] + "\x1b[m"@
            }),
    {
        let (start, end, above, below) = self.window(rows);
        let l1 = self.head_lines(rows, cols);
        let (l2, tr) = self.boxes_from(start as nat, end as nat, l1, rows, cols);
        assert(tr == self.vertical(rows, cols).1);
        if l1.len() <= rows {
            self.lemma_boxes_drawn(start as nat, end as nat, l1, rows, cols);
            self.lemma_boxes_bounded(start as nat, end as nat, l1, rows, cols);
            let l3 = if below > 0 && l2.len() < rows {
                l2.push(self.overflow_line(self.style.overflow_below@, below as nat, cols))
            } else {
                l2
            };
            let l4 = fill_rows(l3, rows, cols);
            assert(self.vertical(rows, cols).0 == with_reset(l4));
            assert forall|k: int, row: int|
                0 <= k < tr.len() && (#[trigger] tr[k]).0 <= row < tr[k].1 implies 1 <= tr[k].2
                    <= self.tabs@.len() && row - tr[k].0 < self.tab_box((tr[k].2 - 1) as nat, cols).len()
                    && #[trigger] self.vertical(rows, cols).0[row] == self.tab_box(
                    (tr[k].2 - 1) as nat,
                    cols,
                )[row - tr[k].0] + "\x1b[m"@ by {
                let b = self.tab_box((tr[k].2 - 1) as nat, cols);
                let sub = l2.subrange(tr[k].0 as int, tr[k].1 as int);
                assert(sub == b.take(tr[k].1 - tr[k].0));
                assert(sub[row - tr[k].0] == l2[row]);
                assert(l3[row] == l2[row]);
                assert(l4[row] == l3[row]);
            }
        }
    }

    /// Row `row` of the printed `lines` lies in the kept range `k` of `tr` and is the
    /// matching row that `render_box` draws for that range's tab, number, focus and
    /// aggregated state, named by the aggregated label when there is one and else by the
    /// tab's display name, followed by the attribute reset.
    pub open spec fn labelled_row(
        &self,
        lines: Seq<Seq<char>>,
        tr: Seq<(usize, usize, usize)>,
        k: int,
        row: int,
        cols: nat,
    ) -> bool {
        let i = tr[k].2 - 1;
        let t = self.tabs@[i]@;
        let agg = tab_agent_of(self.pane_agents@, self.style.state_priority@, self.manifest(), t.position);
        let name = match agg.1 {
            Some(l) => l,
            None => display_name(self.manifest(), t),
        };
        let b = self.box_lines(
            tab_number(i as nat, self.style.start_index),
            t.active,
            agg.0,
            name,
            cols,
            self.box_height(),
        );
        &&& 0 <= i < self.tabs@.len()
        &&& row - tr[k].0 < b.len()
        &&& lines[row] == b[row - tr[k].0] + "\x1b[m"@
    }

    /// Each drawn box is labelled with its tab's aggregated state label when the panes
    /// report one, and with the tab's display name only when they report none: every row
    /// the tab bar prints in a kept row range is a row that `render_box` draws for that
    /// tab with that name (see [`PluginState::labelled_row`]).
    pub proof fn lemma_box_label(&self, rows: nat, cols: nat)
        requires
            rows <= usize::MAX,
        ensures
            forall|k: int, row: int|
                0 <= k < self.vertical(rows, cols).1.len() && (#[trigger] self.vertical(rows, cols).1[k]).0
                    <= row < self.vertical(rows, cols).1[k].1 ==> #[trigger] self.labelled_row(
                    self.vertical(rows, cols).0,
                    self.vertical(rows, cols).1,
                    k,
                    row,
                    cols,
                ),
    {
        self.lemma_box_rows_drawn(rows, cols);
        let lines = self.vertical(rows, cols).0;
        let tr = self.vertical(rows, cols).1;
        assert forall|k: int, row: int|
            0 <= k < tr.len() && (#[trigger] tr[k]).0 <= row < tr[k].1 implies #[trigger] self.labelled_row(
            lines,
            tr,
            k,
            row,
            cols,
        ) by {
            let x = lines[row];
            assert(1 <= tr[k].2 <= self.tabs@.len());
        }
    }

    /// When the boxes of the tabs `i..end` all fit below `lines`, each is drawn whole:
    /// box `j` takes the `box_height` rows from `lines.len() + box_height * j` for the
    /// tab `i + j + 1`.
    proof fn lemma_boxes_full(&self, i: nat, end: nat, lines: Seq<Seq<char>>, rows: nat, cols: nat)
        requires
            i <= end <= self.tabs@.len(),
            lines.len() + self.box_height() * (end - i) <= rows <= usize::MAX,
        ensures
            self.boxes_from(i, end, lines, rows, cols).0.len() == lines.len() + self.box_height() * (
            end - i),
            self.boxes_from(i, end, lines, rows, cols).1 == Seq::new(
                (end - i) as nat,
                |j: int|
                    (
                        (lines.len() + self.box_height() * j) as usize,
                        (lines.len() + self.box_height() * (j + 1)) as usize,
                        (i + j + 1) as usize,
                    ),
            ),
        decreases end - i,
    {
        let h = self.box_height();
        let n = (end - i) as nat;
        if i >= end {
            assert(h * n == 0) by (nonlinear_arith)
                requires
                    n == 0,
            ;
            assert(self.boxes_from(i, end, lines, rows, cols).1 =~= Seq::new(
                n,
                |j: int|
                    (
                        (lines.len() + h * j) as usize,
                        (lines.len() + h * (j + 1)) as usize,
                        (i + j + 1) as usize,
                    ),
            ));
        } else {
            assert(h * n == h + h * (n - 1)) by (nonlinear_arith);
            assert(h * (n - 1) >= 0) by (nonlinear_arith)
                requires
                    n >= 1,
            ;
            let t = self.tabs@[i as int]@;
            let st = tab_agent_of(
                self.pane_agents@,
                self.style.state_priority@,
                self.manifest(),
                t.position,
            ).0;
            self.lemma_box_height(
                tab_number(i, self.style.start_index),
                t.active,
                st,
                self.box_name(t),
                cols,
                h,
            );
            let bl = self.box_lines(
                tab_number(i, self.style.start_index),
                t.active,
                st,
                self.box_name(t),
                cols,
                h,
            );
            assert(bl.len() == h);
            let lines2 = lines + bl;
            self.lemma_boxes_full(i + 1, end, lines2, rows, cols);
            let rest = self.boxes_from(i + 1, end, lines2, rows, cols);
            let tr = self.boxes_from(i, end, lines, rows, cols).1;
            assert(tr == seq![(lines.len() as usize, lines2.len() as usize, (i + 1) as usize)] + rest.1);
            let want = Seq::new(
                n,
                |j: int|
                    (
                        (lines.len() + h * j) as usize,
                        (lines.len() + h * (j + 1)) as usize,
                        (i + j + 1) as usize,
                    ),
            );
            assert forall|j: int| 0 <= j < n implies tr[j] == want[j] by {
                if j == 0 {
                    assert(h * 0 == 0 && h * 1 == h) by (nonlinear_arith);
                } else {
                    assert(tr[j] == rest.1[j - 1]);
                    assert(h * (j - 1) + h == h * j && h * j + h == h * (j + 1)) by (nonlinear_arith);
                }
            }
            assert(tr =~= want);
        }
    }

    /// The tab bar shows the active tab's whole box whenever a box fits below the top
    /// padding and either every tab fits or at least three boxes do: the kept row ranges
    /// are whole boxes (`box_height` rows each) of consecutive tabs, one under the other
    /// and inside the pane, and one of them is the active tab's.
    pub proof fn lemma_active_box_shown(&self, rows: usize, cols: usize)
        requires
            1 <= self.active_tab_idx <= self.tabs@.len(),
            ({
                let avail = if rows >= self.style.padding_top {
                    (rows - self.style.padding_top) as nat
                } else {
                    0nat
                };
                let m = avail / self.box_height();
                m >= 1 && (self.tabs@.len() <= m || m >= 3)
            }),
        ensures
            ({
                let tr = self.vertical(rows as nat, cols as nat).1;
                let h = self.box_height();
                &&& exists|k: int| 0 <= k < tr.len() && (#[trigger] tr[k]).2 == self.active_tab_idx
                &&& forall|k: int|
                    0 <= k < tr.len() ==> (#[trigger] tr[k]).1 == tr[k].0 + h && 1 <= tr[k].2
                        <= self.tabs@.len() && tr[k].1 <= rows
                &&& forall|k: int|
                    0 <= k < tr.len() - 1 ==> (#[trigger] tr[k]).1 == tr[k + 1].0 && tr[k + 1].2 == tr[k].2
                        + 1
            }),
    {
        let h = self.box_height();
        let len = self.tabs@.len();
        let avail = (rows - self.style.padding_top) as nat;
        let m = avail / h;
        let a = (self.active_tab_idx - 1) as nat;
        assert(h * m <= avail) by (nonlinear_arith)
            requires
                h > 0,
                m == avail / h,
        ;
        let (start, end, above, below) = self.window(rows as nat);
        let l1 = self.head_lines(rows as nat, cols as nat);
        if len <= m {
            assert(h * len <= h * m) by (nonlinear_arith)
                requires
                    len <= m,
            ;
            assert(start == 0 && end == len && above == 0);
        } else {
            assert(len == self.tabs.len());
            lemma_visible_window(len, m, a);
            assert(h * (end - start) <= h * (m - 2)) by (nonlinear_arith)
                requires
                    end - start <= m - 2,
                    h >= 0,
            ;
            assert(h * (m - 2) == h * m - 2 * h) by (nonlinear_arith);
        }
        assert(l1.len() <= self.style.padding_top + 1);
        assert(l1.len() + h * (end - start) <= rows);
        self.lemma_boxes_full(start as nat, end as nat, l1, rows as nat, cols as nat);
        let tr = self.vertical(rows as nat, cols as nat).1;
        assert(tr == self.boxes_from(start as nat, end as nat, l1, rows as nat, cols as nat).1);
        let k = a - start;
        assert(tr[k].2 == self.active_tab_idx);
        assert forall|j: int| 0 <= j < tr.len() implies (#[trigger] tr[j]).1 == tr[j].0 + h && 1 <= tr[j].2
            <= self.tabs@.len() && tr[j].1 <= rows by {
            assert(h * j + h == h * (j + 1)) by (nonlinear_arith);
            assert(h * (j + 1) <= h * (end - start)) by (nonlinear_arith)
                requires
                    j + 1 <= end - start,
                    h >= 0,
            ;
        }
        assert forall|j: int| 0 <= j < tr.len() - 1 implies (#[trigger] tr[j]).1 == tr[j + 1].0 && tr[j
            + 1].2 == tr[j].2 + 1 by {}

    }
}

/// The texts of `segs`, one after the other.
pub open spec fn joined_texts(segs: Seq<(Seq<char>, InlineStyle)>) -> Seq<char>
    decreases segs.len(),
{
    if segs.len() == 0 {
        Seq::empty()
    } else {
        joined_texts(segs.drop_last()) + segs.last().0
    }
}

proof fn lemma_joined_push(segs: Seq<(Seq<char>, InlineStyle)>, x: Seq<char>, st: InlineStyle)
    ensures
        joined_texts(push_seg(segs, x, st)) == joined_texts(segs) + x,
{
    if x.len() > 0 {
        assert(push_seg(segs, x, st).drop_last() =~= segs);
    } else {
        assert(joined_texts(segs) + x =~= joined_texts(segs));
    }
}

impl PluginState {
    /// The text a token adds to a tab label: nothing for a style, a literal as it is, and
    /// a variable's value cut to its width (or to `max_name_length`).
    pub open spec fn token_text(&self, tok: TokenView, t: TabV, index: nat) -> Seq<char> {
        match tok {
            TokenView::Style(_) => Seq::empty(),
            TokenView::Literal(x) => x,
            TokenView::Variable(name, width) => truncated(
                self.variable_value(name, t, index),
                match width {
                    Some(w) => w as nat,
                    None => self.style.max_name_length as nat,
                },
            ),
        }
    }

    /// The texts the tokens add, one after the other.
    pub open spec fn tokens_text(&self, toks: Seq<TokenView>, t: TabV, index: nat) -> Seq<char>
        decreases toks.len(),
    {
        if toks.len() == 0 {
            Seq::empty()
        } else {
            self.tokens_text(toks.drop_last(), t, index) + self.token_text(toks.last(), t, index)
        }
    }

    /// The style in force after the tokens: that of the last style token, plain before any.
    pub open spec fn style_after(toks: Seq<TokenView>) -> InlineStyle
        decreases toks.len(),
    {
        if toks.len() == 0 {
            plain_style()
        } else {
            match toks.last() {
                TokenView::Style(s) => s,
                _ => PluginState::style_after(toks.drop_last()),
            }
        }
    }

    /// The segments the tokens give: one for each token that adds text, holding that
    /// text in the style of the last style token before it (plain before any).
    pub open spec fn label_pieces(&self, toks: Seq<TokenView>, t: TabV, index: nat) -> Seq<
        (Seq<char>, InlineStyle),
    >
        decreases toks.len(),
    {
        if toks.len() == 0 {
            Seq::empty()
        } else {
            let init = toks.drop_last();
            let x = self.token_text(toks.last(), t, index);
            if x.len() > 0 {
                self.label_pieces(init, t, index).push((x, PluginState::style_after(init)))
            } else {
                self.label_pieces(init, t, index)
            }
        }
    }

    proof fn lemma_fold_text(&self, toks: Seq<TokenView>, t: TabV, index: nat)
        ensures
            self.expand_fold(toks, t, index).0 == self.label_pieces(toks, t, index),
            joined_texts(self.expand_fold(toks, t, index).0) == self.tokens_text(toks, t, index),
            self.expand_fold(toks, t, index).1 == PluginState::style_after(toks),
            forall|i: int|
                0 <= i < self.expand_fold(toks, t, index).0.len() ==> (#[trigger] self.expand_fold(
                    toks,
                    t,
                    index,
                ).0[i]).0.len() > 0,
        decreases toks.len(),
    {
        if toks.len() == 0 {
        } else {
            let init = toks.drop_last();
            self.lemma_fold_text(init, t, index);
            let (segs, st) = self.expand_fold(init, t, index);
            match toks.last() {
                TokenView::Style(_) => {
                    assert(self.tokens_text(toks, t, index) =~= self.tokens_text(init, t, index));
                },
                TokenView::Literal(x) => {
                    lemma_joined_push(segs, x, st);
                },
                TokenView::Variable(name, width) => {
                    let w = match width {
                        Some(w) => w as nat,
                        None => self.style.max_name_length as nat,
                    };
                    lemma_joined_push(segs, truncated(self.variable_value(name, t, index), w), st);
                },
            }
        }
    }

    /// A tab label, read without its styles, is the text of its format's tokens in order:
    /// literals as they are and each variable replaced by its value cut to its width; each
    /// segment is the text one token adds, in the style of the last style directive
    /// before that token (plain before any); and no segment is empty.
    pub proof fn lemma_label_text(&self, format: Seq<char>, t: TabV, index: nat)
        ensures
            self.expanded(format, t, index) == self.label_pieces(format_tokens(format), t, index),
            joined_texts(self.expanded(format, t, index)) == self.tokens_text(
                format_tokens(format),
                t,
                index,
            ),
            forall|i: int|
                0 <= i < self.expanded(format, t, index).len() ==> (#[trigger] self.expanded(
                    format,
                    t,
                    index,
                )[i]).0.len() > 0,
    {
        self.lemma_fold_text(format_tokens(format), t, index);
    }
}

} // verus!
