//! One tab drawn as a rounded box: border, fill and glyph carry the tab's state and focus.

use vstd::prelude::*;

use crate::agent::{AgentState, Anim};
use crate::color::ColorSpec;
use crate::plugin::PluginState;
use crate::text::{decimal, decimal_chars, lemma_decimal, push_all, push_lit, repeat_char, repeat_chars};
use crate::width::{printable_ascii, str_display_width, text_width, truncate_string, truncated};
use crate::visible::{
    code_or_none, lemma_attribute_codes, lemma_color_codes, lemma_visible_code, lemma_visible_empty, lemma_visible_plain, plain,
    visible,
};

verus! {

pub open spec fn reset_code() -> Seq<char> {
    "\x1b[0m"@
}

/// The cells of a horizontal border of `n` columns; the cell at `scroll` is a bold
/// heavy line.
pub open spec fn hbar_cells(n: nat, scroll: Option<nat>) -> Seq<char>
    decreases n,
{
    if n == 0 {
        Seq::empty()
    } else {
        hbar_cells((n - 1) as nat, scroll) + (if scroll == Some((n - 1) as nat) {
            "\x1b[1m━\x1b[22m"@
        } else {
            "─"@
        })
    }
}

/// A horizontal border line between the corners `left` and `right`.
pub open spec fn hbar(bc: Seq<char>, left: char, right: char, n: nat, scroll: Option<nat>) -> Seq<
    char,
> {
    bc + seq![left] + hbar_cells(n, scroll) + seq![right] + reset_code()
}

/// The cells of a content row: the glyph colour ends before position `glyph_end`, and
/// the cell at `scroll` is shown in reverse video.
pub open spec fn row_cells(chars: Seq<char>, glyph_end: Option<nat>, scroll: Option<nat>) -> Seq<
    char,
>
    decreases chars.len(),
{
    if chars.len() == 0 {
        Seq::empty()
    } else {
        let i = (chars.len() - 1) as nat;
        row_cells(chars.drop_last(), glyph_end, scroll) + (if glyph_end == Some(i) {
            "\x1b[39m"@
        } else {
            Seq::empty()
        }) + (if scroll == Some(i) {
            "\x1b[7m"@ + seq![chars.last()] + "\x1b[27m"@
        } else {
            seq![chars.last()]
        })
    }
}

/// A content row: side borders around the (optionally filled, bold, glyph-coloured) cells.
pub open spec fn content_row(
    bc: Seq<char>,
    fill: Seq<char>,
    bold: bool,
    glyph_fg: Seq<char>,
    chars: Seq<char>,
    glyph_end: Option<nat>,
    scroll: Option<nat>,
) -> Seq<char> {
    bc + "│"@ + reset_code() + fill + (if bold {
        "\x1b[1m"@
    } else {
        Seq::empty()
    }) + glyph_fg + row_cells(chars, glyph_end, scroll) + reset_code() + bc + "│"@ + reset_code()
}

/// `t` padded with spaces to `n` columns.
pub open spec fn padded(t: Seq<char>, n: nat) -> Seq<char> {
    if str_display_width(t) < n {
        t + repeat_char(' ', (n - str_display_width(t)) as nat)
    } else {
        t
    }
}

impl PluginState {
    pub open spec fn focus_color(&self, active: bool) -> ColorSpec {
        if active {
            self.border_active_spec()
        } else {
            self.border_inactive_spec()
        }
    }

    /// The border colour: the state's when it is drawn on the border (dimmed on the off
    /// frames of a flash), else the focus colour when focus is drawn there, else grey.
    pub open spec fn border_color_of(&self, active: bool, st: AgentState) -> ColorSpec {
        if st != AgentState::Idle && self.style.state_style.border {
            if self.style.anim_of(st) == Anim::Flash && self.frame % 2 != 0 {
                ColorSpec::EightBit(238)
            } else {
                self.state_color_spec(st)
            }
        } else if self.style.focus_style.border {
            self.focus_color(active)
        } else {
            ColorSpec::EightBit(240)
        }
    }

    pub open spec fn fill_state(&self, st: AgentState) -> bool {
        st != AgentState::Idle && self.style.state_style.fill
    }

    pub open spec fn fill_focus(&self, active: bool, st: AgentState) -> bool {
        st == AgentState::Idle && active && self.style.focus_style.fill
    }

    /// Whether the interior is filled: with the state (off on the odd frames of a flash),
    /// else with the focus colour on the active idle tab.
    pub open spec fn fill_on(&self, active: bool, st: AgentState) -> bool {
        if self.fill_state(st) {
            self.style.anim_of(st) != Anim::Flash || self.frame % 2 == 0
        } else {
            self.fill_focus(active, st)
        }
    }

    pub open spec fn fill_code(&self, active: bool, st: AgentState) -> Seq<char> {
        if self.fill_on(active, st) {
            if self.fill_state(st) {
                self.state_color_spec(st).bg_code()
            } else {
                self.focus_color(active).bg_code()
            }
        } else {
            Seq::empty()
        }
    }

    pub open spec fn glyph_state(&self, st: AgentState) -> bool {
        st != AgentState::Idle && self.style.state_style.glyph
    }

    pub open spec fn glyph_on(&self, active: bool, st: AgentState) -> bool {
        self.glyph_state(st) || (st == AgentState::Idle && active && self.style.focus_style.glyph)
    }

    pub open spec fn glyph_fg(&self, active: bool, st: AgentState) -> Seq<char> {
        if self.glyph_state(st) {
            self.state_color_spec(st).fg_code()
        } else {
            self.focus_color(active).fg_code()
        }
    }

    pub open spec fn glyph_width(&self, active: bool, st: AgentState) -> nat {
        if self.glyph_on(active, st) {
            str_display_width(self.style.state_glyph@)
        } else {
            0
        }
    }

    /// The interior text: the glyph and a space (or just a space), the index, a space
    /// and the name.
    pub open spec fn interior(&self, index: nat, name: Seq<char>, active: bool, st: AgentState) -> Seq<
        char,
    > {
        (if self.glyph_on(active, st) {
            self.style.state_glyph@ + " "@
        } else {
            " "@
        }) + decimal(index) + " "@ + name
    }

    pub open spec fn scroll_at(&self, inner: nat) -> nat {
        ((self.frame as usize) as nat) % inner
    }

    pub open spec fn border_scroll(&self, st: AgentState, inner: nat) -> Option<nat> {
        if st != AgentState::Idle && self.style.state_style.border && self.style.anim_of(st)
            == Anim::Scroll && inner > 0 {
            Some(self.scroll_at(inner))
        } else {
            None
        }
    }

    pub open spec fn fill_scroll(&self, st: AgentState, inner: nat) -> Option<nat> {
        if self.fill_state(st) && self.style.anim_of(st) == Anim::Scroll && inner > 0 {
            Some(self.scroll_at(inner))
        } else {
            None
        }
    }

    /// A content row of a box `inner` columns wide inside.
    #[verifier::opaque]
    pub open spec fn box_row(
        &self,
        index: nat,
        name: Seq<char>,
        active: bool,
        st: AgentState,
        inner: nat,
        with_content: bool,
    ) -> Seq<char> {
        let bc = self.border_color_of(active, st).fg_code();
        let show_glyph = with_content && self.glyph_on(active, st);
        content_row(
            bc,
            self.fill_code(active, st),
            with_content && active,
            if show_glyph {
                self.glyph_fg(active, st)
            } else {
                Seq::empty()
            },
            if with_content {
                padded(truncated(self.interior(index, name, active, st), inner), inner)
            } else {
                repeat_char(' ', inner)
            },
            if show_glyph {
                Some(self.glyph_width(active, st))
            } else {
                None
            },
            self.fill_scroll(st, inner),
        )
    }

    /// `render_box`: the rows of one tab box `cols` wide and `height` (at least 2) high.
    pub open spec fn box_lines(
        &self,
        index: nat,
        active: bool,
        st: AgentState,
        name: Seq<char>,
        cols: nat,
        height: nat,
    ) -> Seq<Seq<char>> {
        let h = if height < 2 {
            2
        } else {
            height
        };
        if cols < 3 {
            Seq::new(h, |i: int| repeat_char(' ', cols))
        } else {
            let inner = (cols - 2) as nat;
            let bc = self.border_color_of(active, st).fg_code();
            let top = hbar(bc, '╭', '╮', inner, self.border_scroll(st, inner));
            let bottom = hbar(bc, '╰', '╯', inner, self.border_scroll(st, inner));
            if h == 2 {
                seq![self.box_row(index, name, active, st, inner, true), bottom]
            } else {
                seq![top, self.box_row(index, name, active, st, inner, true)] + Seq::new(
                    (h - 3) as nat,
                    |i: int| self.box_row(index, name, active, st, inner, false),
                ) + seq![bottom]
            }
        }
    }
}

fn hbar_line(bc: &[char], left: char, right: char, n: usize, scroll: Option<usize>) -> (r: Vec<char>)
    ensures
        r@ == hbar(
            bc@,
            left,
            right,
            n as nat,
            match scroll {
                Some(p) => Some(p as nat),
                None => None,
            },
        ),
{
    let ghost sc = match scroll {
        Some(p) => Some(p as nat),
        None => None,
    };
    let mut s: Vec<char> = Vec::new();
    push_all(&mut s, bc);
    s.push(left);
    let ghost head = s@;
    let mut i: usize = 0;
    while i < n
        invariant
            i <= n,
            s@ == head + hbar_cells(i as nat, sc),
            sc == match scroll {
                Some(p) => Some(p as nat),
                None => None,
            },
        decreases n - i,
    {
        let ghost before = s@;
        if scroll == Some(i) {
            push_lit(&mut s, "\x1b[1m━\x1b[22m");
        } else {
            push_lit(&mut s, "─");
        }
        i = i + 1;
        assert(s@ =~= head + hbar_cells(i as nat, sc));
    }
    s.push(right);
    push_lit(&mut s, "\x1b[0m");
    assert(s@ =~= hbar(bc@, left, right, n as nat, sc));
    s
}

fn content_line(
    bc: &[char],
    fill: &[char],
    bold: bool,
    glyph_fg: &[char],
    chars: &[char],
    glyph_end: Option<usize>,
    scroll: Option<usize>,
) -> (r: Vec<char>)
    ensures
        r@ == content_row(
            bc@,
            fill@,
            bold,
            glyph_fg@,
            chars@,
            opt_nat(glyph_end),
            opt_nat(scroll),
        ),
{
    let ghost ge = match glyph_end {
        Some(p) => Some(p as nat),
        None => None,
    };
    let ghost sc = match scroll {
        Some(p) => Some(p as nat),
        None => None,
    };
    let mut s: Vec<char> = Vec::new();
    push_all(&mut s, bc);
    push_lit(&mut s, "│");
    push_lit(&mut s, "\x1b[0m");
    push_all(&mut s, fill);
    if bold {
        push_lit(&mut s, "\x1b[1m");
    }
    push_all(&mut s, glyph_fg);
    let ghost head = s@;
    let mut i: usize = 0;
    assert(chars@.take(0) =~= Seq::<char>::empty());
    while i < chars.len()
        invariant
            i <= chars@.len(),
            s@ == head + row_cells(chars@.take(i as int), ge, sc),
            ge == match glyph_end {
                Some(p) => Some(p as nat),
                None => None,
            },
            sc == match scroll {
                Some(p) => Some(p as nat),
                None => None,
            },
        decreases chars.len() - i,
    {
        let ghost before = s@;
        let ch = chars[i];
        if glyph_end == Some(i) {
            push_lit(&mut s, "\x1b[39m");
        }
        if scroll == Some(i) {
            push_lit(&mut s, "\x1b[7m");
            s.push(ch);
            push_lit(&mut s, "\x1b[27m");
        } else {
            s.push(ch);
        }
        let ghost t = chars@.take(i + 1);
        assert(t.drop_last() =~= chars@.take(i as int));
        assert(t.last() == ch);
        i = i + 1;
        assert(s@ =~= head + row_cells(chars@.take(i as int), ge, sc));
    }
    assert(chars@.take(i as int) =~= chars@);
    push_lit(&mut s, "\x1b[0m");
    push_all(&mut s, bc);
    push_lit(&mut s, "│");
    push_lit(&mut s, "\x1b[0m");
    assert(s@ =~= content_row(bc@, fill@, bold, glyph_fg@, chars@, ge, sc));
    s
}

fn push_line(lines: &mut Vec<Vec<char>>, line: Vec<char>)
    ensures
        final(lines).deep_view() == old(lines).deep_view().push(line@),
{
    let ghost before = lines.deep_view();
    let ghost lv = line@;
    assert(line.deep_view() =~= lv);
    lines.push(line);
    assert(lines.deep_view() =~= before.push(lv));
}

fn copy_chars(s: &[char]) -> (r: Vec<char>)
    ensures
        r@ == s@,
{
    let mut r: Vec<char> = Vec::new();
    push_all(&mut r, s);
    assert(r@ =~= s@);
    r
}

pub open spec fn opt_nat(p: Option<usize>) -> Option<nat> {
    match p {
        Some(x) => Some(x as nat),
        None => None,
    }
}

impl PluginState {
    fn box_border_code(&self, is_active: bool, state: AgentState) -> (r: Vec<char>)
        ensures
            r@ == self.border_color_of(is_active, state).fg_code(),
    {
        let anim = self.style.anim_for(state);
        let border_color = if state != AgentState::Idle && self.style.state_style.border {
            if anim == Anim::Flash && self.frame % 2 != 0 {
                ColorSpec::EightBit(238)
            } else {
                self.state_color(state)
            }
        } else if self.style.focus_style.border {
            if is_active {
                self.border_active()
            } else {
                self.border_inactive()
            }
        } else {
            ColorSpec::EightBit(240)
        };
        border_color.to_ansi_fg()
    }

    fn box_fill_code(&self, is_active: bool, state: AgentState) -> (r: Vec<char>)
        ensures
            r@ == self.fill_code(is_active, state),
    {
        let has_state = state != AgentState::Idle;
        let anim = self.style.anim_for(state);
        let fill_state = has_state && self.style.state_style.fill;
        let fill_focus = !has_state && is_active && self.style.focus_style.fill;
        let fc = if is_active {
            self.border_active()
        } else {
            self.border_inactive()
        };
        let (fill_color, fill_on) = if fill_state {
            (self.state_color(state), anim != Anim::Flash || self.frame % 2 == 0)
        } else if fill_focus {
            (fc, true)
        } else {
            (ColorSpec::Default, false)
        };
        if fill_on {
            fill_color.to_ansi_bg()
        } else {
            Vec::new()
        }
    }

    /// The scroll positions on the border and in the fill.
    fn box_scrolls(&self, state: AgentState, inner: usize) -> (r: (Option<usize>, Option<usize>))
        ensures
            opt_nat(r.0) == self.border_scroll(state, inner as nat),
            opt_nat(r.1) == self.fill_scroll(state, inner as nat),
    {
        let anim = self.style.anim_for(state);
        let has_state = state != AgentState::Idle;
        let border_scroll = has_state && self.style.state_style.border && anim == Anim::Scroll
            && inner > 0;
        let fill_scroll = has_state && self.style.state_style.fill && anim == Anim::Scroll && inner
            > 0;
        let scroll_pos: Option<usize> = if border_scroll || fill_scroll {
            Some((self.frame as usize) % inner)
        } else {
            None
        };
        (
            if border_scroll {
                scroll_pos
            } else {
                None
            },
            if fill_scroll {
                scroll_pos
            } else {
                None
            },
        )
    }

    /// The glyph's colour code and width, when the glyph is shown.
    fn box_glyph(&self, is_active: bool, state: AgentState) -> (r: Option<(Vec<char>, usize)>)
        ensures
            self.glyph_on(is_active, state) ==> (r matches Some((code, w)) && code@ == self.glyph_fg(
                is_active,
                state,
            ) && w as nat == self.glyph_width(is_active, state)),
            !self.glyph_on(is_active, state) ==> r is None,
    {
        let has_state = state != AgentState::Idle;
        let glyph_state = has_state && self.style.state_style.glyph;
        let glyph_focus = !has_state && is_active && self.style.focus_style.glyph;
        if glyph_state || glyph_focus {
            let c = if glyph_state {
                self.state_color(state)
            } else if is_active {
                self.border_active()
            } else {
                self.border_inactive()
            };
            Some((c.to_ansi_fg(), text_width(self.style.state_glyph.as_slice())))
        } else {
            None
        }
    }

    /// The interior text, cut to `inner` columns and padded to them.
    fn box_text(&self, index: usize, name: &[char], is_active: bool, state: AgentState, inner: usize) -> (r: Vec<char>)
        ensures
            r@ == padded(
                truncated(self.interior(index as nat, name@, is_active, state), inner as nat),
                inner as nat,
            ),
            printable_ascii(self.interior(index as nat, name@, is_active, state)) ==> str_display_width(
                self.interior(index as nat, name@, is_active, state),
            ) == self.interior(index as nat, name@, is_active, state).len(),
    {
        let has_state = state != AgentState::Idle;
        let glyph_on = (has_state && self.style.state_style.glyph) || (!has_state && is_active
            && self.style.focus_style.glyph);
        let mut interior: Vec<char> = Vec::new();
        if glyph_on {
            push_all(&mut interior, self.style.state_glyph.as_slice());
            push_lit(&mut interior, " ");
        } else {
            push_lit(&mut interior, " ");
        }
        push_all(&mut interior, decimal_chars(index as u64).as_slice());
        push_lit(&mut interior, " ");
        push_all(&mut interior, name);
        assert(interior@ =~= self.interior(index as nat, name@, is_active, state));
        let mut inner_text = truncate_string(interior.as_slice(), inner);
        let w = text_width(inner_text.as_slice());
        let ghost t0 = inner_text@;
        if w < inner {
            push_all(&mut inner_text, repeat_chars(' ', inner - w).as_slice());
        }
        assert(inner_text@ =~= padded(t0, inner as nat));
        inner_text
    }

    /// One content row (see [`PluginState::box_row`]).
    fn build_row(
        &self,
        index: usize,
        name: &[char],
        is_active: bool,
        state: AgentState,
        inner: usize,
        with_content: bool,
    ) -> (r: Vec<char>)
        ensures
            r@ == self.box_row(index as nat, name@, is_active, state, inner as nat, with_content),
            with_content && printable_ascii(self.interior(index as nat, name@, is_active, state))
                ==> str_display_width(self.interior(index as nat, name@, is_active, state))
                == self.interior(index as nat, name@, is_active, state).len(),
    {
        reveal(PluginState::box_row);
        let bc = self.box_border_code(is_active, state);
        let fill_bg = self.box_fill_code(is_active, state);
        let (_, fill_sc) = self.box_scrolls(state, inner);
        let no_glyph: Vec<char> = Vec::new();
        assert(no_glyph@ =~= Seq::<char>::empty());
        if !with_content {
            let blank = repeat_chars(' ', inner);
            return content_line(
                bc.as_slice(),
                fill_bg.as_slice(),
                false,
                no_glyph.as_slice(),
                blank.as_slice(),
                None,
                fill_sc,
            );
        }
        let inner_text = self.box_text(index, name, is_active, state, inner);
        match self.box_glyph(is_active, state) {
            Some((code, w)) => content_line(
                bc.as_slice(),
                fill_bg.as_slice(),
                is_active,
                code.as_slice(),
                inner_text.as_slice(),
                Some(w),
                fill_sc,
            ),
            None => content_line(
                bc.as_slice(),
                fill_bg.as_slice(),
                is_active,
                no_glyph.as_slice(),
                inner_text.as_slice(),
                None,
                fill_sc,
            ),
        }
    }

    /// Draws one tab box (see [`PluginState::box_lines`]).
    pub fn render_box(
        &self,
        index: usize,
        is_active: bool,
        state: AgentState,
        name: &[char],
        cols: usize,
        height: usize,
    ) -> (r: Vec<Vec<char>>)
        ensures
            r.deep_view() == self.box_lines(
                index as nat,
                is_active,
                state,
                name@,
                cols as nat,
                height as nat,
            ),
            printable_ascii(name@) && cols >= 3 && height >= 3 && !self.glyph_on(is_active, state)
                && self.border_scroll(state, (cols - 2) as nat) is None && decimal(index as nat).len()
                + name@.len() + 2 <= cols - 2 ==> forall|i: int|
                0 <= i < r.deep_view().len() ==> (#[trigger] visible(r.deep_view()[i])).len() == cols,
    {
        let h = if height < 2 {
            2
        } else {
            height
        };
        let mut lines: Vec<Vec<char>> = Vec::new();
        if cols < 3 {
            let mut i: usize = 0;
            while i < h
                invariant
                    i <= h,
                    lines.deep_view() == Seq::new(i as nat, |k: int| repeat_char(' ', cols as nat)),
                decreases h - i,
            {
                push_line(&mut lines, repeat_chars(' ', cols));
                i = i + 1;
                assert(lines.deep_view() =~= Seq::new(
                    i as nat,
                    |k: int| repeat_char(' ', cols as nat),
                ));
            }
            return lines;
        }
        let inner = cols - 2;
        let bc = self.box_border_code(is_active, state);
        let (hb_scroll, _) = self.box_scrolls(state, inner);
        let top = hbar_line(bc.as_slice(), '╭', '╮', inner, hb_scroll);
        let bottom = hbar_line(bc.as_slice(), '╰', '╯', inner, hb_scroll);
        let first = self.build_row(index, name, is_active, state, inner, true);
        if h == 2 {
            push_line(&mut lines, first);
            push_line(&mut lines, bottom);
            assert(lines.deep_view() =~= self.box_lines(
                index as nat,
                is_active,
                state,
                name@,
                cols as nat,
                height as nat,
            ));
        } else {
            push_line(&mut lines, top);
            push_line(&mut lines, first);
            let ghost head = lines.deep_view();
            let ghost row = self.box_row(index as nat, name@, is_active, state, inner as nat, false);
            let mut i: usize = 0;
            while i < h - 3
                invariant
                    h >= 3,
                    i <= h - 3,
                    cols >= 3,
                    inner == cols - 2,
                    lines.deep_view() == head + Seq::new(i as nat, |k: int| row),
                    row == self.box_row(index as nat, name@, is_active, state, inner as nat, false),
                decreases h - 3 - i,
            {
                let line = self.build_row(index, name, is_active, state, inner, false);
                push_line(&mut lines, line);
                i = i + 1;
                assert(lines.deep_view() =~= head + Seq::new(i as nat, |k: int| row));
            }
            push_line(&mut lines, bottom);
            assert(lines.deep_view() =~= self.box_lines(
                index as nat,
                is_active,
                state,
                name@,
                cols as nat,
                height as nat,
            ));
            proof {
                let n = name@;
                let t = seq![' '] + decimal(index as nat) + seq![' '] + n;
                if printable_ascii(n) && height >= 3 && !self.glyph_on(is_active, state)
                    && self.border_scroll(state, inner as nat) is None && decimal(index as nat).len()
                    + n.len() + 2 <= cols - 2 {
                    reveal_strlit(" ");
                    lemma_decimal(index as nat);
                    assert(self.interior(index as nat, n, is_active, state) =~= t);
                    assert forall|j: int| 0 <= j < t.len() implies ' ' <= #[trigger] t[j] <= '~' by {
                        let d = decimal(index as nat);
                        if 1 <= j < 1 + d.len() {
                            assert(t[j] == d[j - 1]);
                            assert(crate::text::is_digit(d[j - 1]));
                        } else if j >= 2 + d.len() {
                            assert(t[j] == n[j - 2 - d.len()]);
                        }
                    }
                    assert(plain(n)) by {
                        assert forall|j: int| 0 <= j < n.len() implies n[j] != '\x1b' by {
                            assert(' ' <= n[j] <= '~');
                        }
                    }
                    self.lemma_box_text(index as nat, is_active, state, n, cols as nat, height as nat);
                    let r = lines.deep_view();
                    let w = (cols - 2) as nat;
                    assert forall|i: int| 0 <= i < r.len() implies (#[trigger] visible(r[i])).len() == cols by {
                        if 1 < i < height - 1 {
                            assert(visible(r[i]) == seq!['│'] + repeat_char(' ', w) + seq!['│']);
                        }
                    }
                }
            }
        }
        lines
    }
}

impl PluginState {
    /// A tab box has as many rows as asked for, and at least two.
    pub proof fn lemma_box_height(
        &self,
        index: nat,
        active: bool,
        st: AgentState,
        name: Seq<char>,
        cols: nat,
        height: nat,
    )
        ensures
            self.box_lines(index, active, st, name, cols, height).len() == (if height < 2 {
                2
            } else {
                height
            }),
    {
    }
}

proof fn lemma_plain_bar(n: nat)
    ensures
        hbar_cells(n, None) == repeat_char('─', n),
    decreases n,
{
    reveal_strlit("─");
    if n > 0 {
        lemma_plain_bar((n - 1) as nat);
        assert(repeat_char('─', n) =~= repeat_char('─', (n - 1) as nat) + "─"@);
    } else {
        assert(repeat_char('─', 0) =~= Seq::<char>::empty());
    }
}

proof fn lemma_visible_hbar(bc: Seq<char>, left: char, right: char, n: nat)
    requires
        code_or_none(bc),
        left != '\x1b',
        right != '\x1b',
    ensures
        visible(hbar(bc, left, right, n, None)) == seq![left] + repeat_char('─', n) + seq![right],
{
    lemma_plain_bar(n);
    lemma_attribute_codes();
    lemma_visible_empty();
    let e = Seq::<char>::empty();
    let p = seq![left] + repeat_char('─', n) + seq![right];
    assert(plain(p));
    let s1 = reset_code() + e;
    lemma_visible_code(reset_code(), e);
    let s2 = p + s1;
    lemma_visible_plain(p, s1);
    lemma_visible_code(bc, s2);
    assert(hbar(bc, left, right, n, None) =~= bc + s2);
    assert(p + e =~= p);
}

proof fn lemma_visible_cells(chars: Seq<char>, scroll: Option<nat>, b: Seq<char>)
    requires
        plain(chars),
    ensures
        visible(row_cells(chars, None, scroll) + b) == chars + visible(b),
    decreases chars.len(),
{
    if chars.len() == 0 {
        assert(row_cells(chars, None, scroll) + b =~= b);
        assert(chars + visible(b) =~= visible(b));
    } else {
        let i = (chars.len() - 1) as nat;
        let init = chars.drop_last();
        let c = chars.last();
        let piece = if scroll == Some(i) {
            "\x1b[7m"@ + seq![c] + "\x1b[27m"@
        } else {
            seq![c]
        };
        assert(row_cells(chars, None, scroll) =~= row_cells(init, None, scroll) + Seq::<char>::empty() + piece);
        assert(plain(init));
        lemma_visible_cells(init, scroll, piece + b);
        assert(row_cells(chars, None, scroll) + b =~= row_cells(init, None, scroll) + (piece + b));
        lemma_attribute_codes();
        if scroll == Some(i) {
            lemma_visible_code("\x1b[27m"@, b);
            lemma_visible_plain(seq![c], "\x1b[27m"@ + b);
            lemma_visible_code("\x1b[7m"@, seq![c] + ("\x1b[27m"@ + b));
            assert(piece + b =~= "\x1b[7m"@ + (seq![c] + ("\x1b[27m"@ + b)));
        } else {
            lemma_visible_plain(seq![c], b);
        }
        assert(chars =~= init + seq![c]);
        assert(chars + visible(b) =~= init + (seq![c] + visible(b)));
    }
}

#[verifier::rlimit(100)]
#[verifier::spinoff_prover]
proof fn lemma_visible_row(bc: Seq<char>, fill: Seq<char>, bold: bool, chars: Seq<char>, scroll: Option<nat>)
    requires
        code_or_none(bc),
        code_or_none(fill),
        plain(chars),
    ensures
        visible(content_row(bc, fill, bold, Seq::empty(), chars, None, scroll)) == seq!['│'] + chars
            + seq!['│'],
{
    reveal_strlit("│");
    lemma_attribute_codes();
    lemma_visible_empty();
    let e = Seq::<char>::empty();
    let r = reset_code();
    let bold_code = if bold {
        "\x1b[1m"@
    } else {
        Seq::empty()
    };
    let bar = seq!['│'];
    assert("│"@ =~= bar);
    let s1 = r + e;
    lemma_visible_code(r, e);
    let s2 = bar + s1;
    lemma_visible_plain(bar, s1);
    let s3 = bc + s2;
    lemma_visible_code(bc, s2);
    let s4 = r + s3;
    lemma_visible_code(r, s3);
    assert(bar + e =~= bar);
    let s5 = row_cells(chars, None, scroll) + s4;
    lemma_visible_cells(chars, scroll, s4);
    let s6 = bold_code + s5;
    lemma_visible_code(bold_code, s5);
    let s7 = fill + s6;
    lemma_visible_code(fill, s6);
    let s8 = r + s7;
    lemma_visible_code(r, s7);
    let s9 = bar + s8;
    lemma_visible_plain(bar, s8);
    let s10 = bc + s9;
    lemma_visible_code(bc, s9);
    assert(content_row(bc, fill, bold, Seq::empty(), chars, None, scroll) =~= s10);
    assert(seq!['│'] + chars + seq!['│'] =~= bar + (chars + bar));
}

impl PluginState {
    /// What a terminal shows of a tab box drawn without a glyph and without a runner
    /// on its border, whose label fits: the top border, the label row (`" {index} {name}"`
    /// padded with spaces), blank rows, and the bottom border, each as wide inside as the
    /// box. A name must hold no escape character.
    #[verifier::spinoff_prover]
    pub proof fn lemma_box_text(
        &self,
        index: nat,
        active: bool,
        st: AgentState,
        name: Seq<char>,
        cols: nat,
        height: nat,
    )
        requires
            cols >= 3,
            height >= 3,
            !self.glyph_on(active, st),
            self.border_scroll(st, (cols - 2) as nat) is None,
            str_display_width(seq![' '] + decimal(index) + seq![' '] + name) <= cols - 2,
            plain(name),
        ensures
            ({
                let r = self.box_lines(index, active, st, name, cols, height);
                let w = (cols - 2) as nat;
                let t = seq![' '] + decimal(index) + seq![' '] + name;
                &&& r.len() == height
                &&& visible(r[0]) == seq!['╭'] + repeat_char('─', w) + seq!['╮']
                &&& visible(r[1]) == seq!['│'] + t + repeat_char(' ', (w - str_display_width(t)) as nat)
                    + seq!['│']
                &&& forall|i: int|
                    1 < i < height - 1 ==> visible(#[trigger] r[i]) == seq!['│'] + repeat_char(' ', w)
                        + seq!['│']
                &&& visible(r[height - 1]) == seq!['╰'] + repeat_char('─', w) + seq!['╯']
            }),
    {
        reveal(PluginState::box_row);
        reveal_strlit(" ");
        let w = (cols - 2) as nat;
        let t = seq![' '] + decimal(index) + seq![' '] + name;
        let r = self.box_lines(index, active, st, name, cols, height);
        let bc = self.border_color_of(active, st).fg_code();
        lemma_color_codes(self.border_color_of(active, st));
        let fill = self.fill_code(active, st);
        if self.fill_on(active, st) {
            if self.fill_state(st) {
                lemma_color_codes(self.state_color_spec(st));
            } else {
                lemma_color_codes(self.focus_color(active));
            }
        }
        assert(code_or_none(fill));
        lemma_visible_hbar(bc, '╭', '╮', w);
        lemma_visible_hbar(bc, '╰', '╯', w);
        assert(self.interior(index, name, active, st) =~= t);
        assert(truncated(t, w) == t);
        let chars = padded(t, w);
        lemma_decimal(index);
        assert(plain(t)) by {
            assert forall|i: int| 0 <= i < t.len() implies t[i] != '\x1b' by {
                let d = decimal(index);
                if 1 <= i < 1 + d.len() {
                    assert(t[i] == d[i - 1]);
                } else if i >= 2 + d.len() {
                    assert(t[i] == name[i - 2 - d.len()]);
                }
            }
        }
        if str_display_width(t) < w {
            assert(chars == t + repeat_char(' ', (w - str_display_width(t)) as nat));
        } else {
            assert(repeat_char(' ', (w - str_display_width(t)) as nat) =~= Seq::<char>::empty());
            assert(chars =~= t + repeat_char(' ', (w - str_display_width(t)) as nat));
        }
        assert(plain(chars));
        lemma_visible_row(bc, fill, active, chars, self.fill_scroll(st, w));
        lemma_visible_row(bc, fill, false, repeat_char(' ', w), self.fill_scroll(st, w));
        assert(seq!['│'] + chars + seq!['│'] =~= seq!['│'] + t + repeat_char(
            ' ',
            (w - str_display_width(t)) as nat,
        ) + seq!['│']);
        assert forall|i: int| 1 < i < height - 1 implies visible(#[trigger] r[i]) == seq!['│']
            + repeat_char(' ', w) + seq!['│'] by {
            assert(r[i] == self.box_row(index, name, active, st, w, false));
        }
    }
}

impl PluginState {
    /// A state drawn on the fill channel fills its box: whenever its animation is not a
    /// flash, and on the even frames when it is, every content row of the box (the label
    /// row and the blank rows under it) carries the state colour's background code right
    /// after the left border and a reset, whatever the tab's focus, name or size.
    #[verifier::spinoff_prover]
    pub proof fn lemma_state_fill(
        &self,
        index: nat,
        active: bool,
        st: AgentState,
        name: Seq<char>,
        cols: nat,
        height: nat,
    )
        requires
            cols >= 3,
            st != AgentState::Idle,
            self.style.state_style.fill,
            self.style.anim_of(st) != Anim::Flash || self.frame % 2 == 0,
        ensures
            ({
                let r = self.box_lines(index, active, st, name, cols, height);
                let h = if height < 2 {
                    2
                } else {
                    height
                };
                let pre = self.border_color_of(active, st).fg_code() + "│"@ + "\x1b[0m"@
                    + self.state_color_spec(st).bg_code();
                forall|k: int|
                    (if h == 2 {
                        k == 0
                    } else {
                        1 <= k < h - 1
                    }) ==> pre.len() <= (#[trigger] r[k]).len() && r[k].take(pre.len() as int) == pre
            }),
    {
        reveal(PluginState::box_row);
        let r = self.box_lines(index, active, st, name, cols, height);
        let h = if height < 2 {
            2
        } else {
            height
        };
        let inner = (cols - 2) as nat;
        let pre = self.border_color_of(active, st).fg_code() + "│"@ + "\x1b[0m"@
            + self.state_color_spec(st).bg_code();
        assert(self.fill_code(active, st) == self.state_color_spec(st).bg_code());
        assert forall|wc: bool| #![auto]
            pre.len() <= self.box_row(index, name, active, st, inner, wc).len()
                && self.box_row(index, name, active, st, inner, wc).take(pre.len() as int) == pre by {
            let row = self.box_row(index, name, active, st, inner, wc);
            let rest = row.skip(pre.len() as int);
            assert(row =~= pre + rest);
            assert(row.take(pre.len() as int) =~= pre);
        }
        assert forall|k: int|
            (if h == 2 {
                k == 0
            } else {
                1 <= k < h - 1
            }) implies pre.len() <= (#[trigger] r[k]).len() && r[k].take(pre.len() as int) == pre by {
            if h == 2 {
                assert(r[k] == self.box_row(index, name, active, st, inner, true));
            } else if k == 1 {
                assert(r[k] == self.box_row(index, name, active, st, inner, true));
            } else {
                assert(r[k] == self.box_row(index, name, active, st, inner, false));
            }
        }
    }
}

proof fn lemma_hbar_starts(bc: Seq<char>, left: char, right: char, n: nat, scroll: Option<nat>)
    ensures
        bc.len() <= hbar(bc, left, right, n, scroll).len(),
        hbar(bc, left, right, n, scroll).take(bc.len() as int) == bc,
{
    let h = hbar(bc, left, right, n, scroll);
    assert(h =~= bc + h.skip(bc.len() as int));
    assert(h.take(bc.len() as int) =~= bc);
}

impl PluginState {
    /// A state drawn on the border colours every row of its box from the left border
    /// on: in the state's colour, except on the odd frames of a flash, where the border
    /// is dimmed to palette colour 238.
    #[verifier::spinoff_prover]
    pub proof fn lemma_state_border(
        &self,
        index: nat,
        active: bool,
        st: AgentState,
        name: Seq<char>,
        cols: nat,
        height: nat,
    )
        requires
            cols >= 3,
            st != AgentState::Idle,
            self.style.state_style.border,
        ensures
            ({
                let r = self.box_lines(index, active, st, name, cols, height);
                let c = if self.style.anim_of(st) == Anim::Flash && self.frame % 2 != 0 {
                    ColorSpec::EightBit(238)
                } else {
                    self.state_color_spec(st)
                };
                let pre = c.fg_code();
                &&& r.len() == (if height < 2 {
                    2
                } else {
                    height
                })
                &&& forall|k: int|
                    0 <= k < r.len() ==> pre.len() <= (#[trigger] r[k]).len() && r[k].take(pre.len() as int)
                        == pre
            }),
    {
        let r = self.box_lines(index, active, st, name, cols, height);
        let inner = (cols - 2) as nat;
        let pre = self.border_color_of(active, st).fg_code();
        self.lemma_rows_start_with_border(index, active, st, name, inner);
        let sc = self.border_scroll(st, inner);
        lemma_hbar_starts(pre, '╭', '╮', inner, sc);
        lemma_hbar_starts(pre, '╰', '╯', inner, sc);
        let h = if height < 2 {
            2
        } else {
            height
        };
        assert forall|k: int| 0 <= k < r.len() implies pre.len() <= (#[trigger] r[k]).len() && r[k].take(
            pre.len() as int,
        ) == pre by {
            if h == 2 {
                if k == 0 {
                    assert(r[k] == self.box_row(index, name, active, st, inner, true));
                } else {
                    assert(r[k] == hbar(pre, '╰', '╯', inner, sc));
                }
            } else if k == 0 {
                assert(r[k] == hbar(pre, '╭', '╮', inner, sc));
            } else if k == 1 {
                assert(r[k] == self.box_row(index, name, active, st, inner, true));
            } else if k == h - 1 {
                assert(r[k] == hbar(pre, '╰', '╯', inner, sc));
            } else {
                assert(r[k] == self.box_row(index, name, active, st, inner, false));
            }
        }
    }

    proof fn lemma_rows_start_with_border(&self, index: nat, active: bool, st: AgentState, name: Seq<char>, inner: nat)
        ensures
            forall|wc: bool|
                #![auto]
                self.border_color_of(active, st).fg_code().len() <= self.box_row(index, name, active, st, inner, wc).len()
                    && self.box_row(index, name, active, st, inner, wc).take(
                    self.border_color_of(active, st).fg_code().len() as int,
                ) == self.border_color_of(active, st).fg_code(),
    {
        reveal(PluginState::box_row);
        let pre = self.border_color_of(active, st).fg_code();
        assert forall|wc: bool| #![auto]
            pre.len() <= self.box_row(index, name, active, st, inner, wc).len()
                && self.box_row(index, name, active, st, inner, wc).take(pre.len() as int) == pre by {
            let row = self.box_row(index, name, active, st, inner, wc);
            assert(row =~= pre + row.skip(pre.len() as int));
            assert(row.take(pre.len() as int) =~= pre);
        }
    }
}

} // verus!
