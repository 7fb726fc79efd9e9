//! The plugin's styling configuration: defaults and reading the plugin's settings.

use vstd::prelude::*;

use crate::agent::{AgentState, Anim, Channels};
use crate::color::{color_spec, parse_color_spec, ColorSpec};
use crate::text::{
    eq_lit, lit_chars, parse_unsigned, parse_unsigned_chars, split_chars, split_on, sub_vec, Sep,
};

verus! {

/// Styling configuration for the tab bar.
#[derive(Debug)]
pub struct StyleConfig {
    pub format: Vec<char>,
    pub format_active: Vec<char>,
    pub overflow_above: Vec<char>,
    pub overflow_below: Vec<char>,
    pub indicator_active: Vec<char>,
    pub indicator_fullscreen: Vec<char>,
    pub indicator_sync: Vec<char>,
    pub padding_top: usize,
    pub border: Vec<char>,
    pub max_name_length: usize,
    pub start_index: usize,
    pub activity_format: Vec<char>,
    /// Rows per tab box.
    pub tab_height: usize,
    /// State fill colours; `None` means: take it from the theme.
    pub color_working: Option<ColorSpec>,
    pub color_waiting: Option<ColorSpec>,
    pub color_done: Option<ColorSpec>,
    pub color_error: Option<ColorSpec>,
    pub anim_working: Anim,
    pub anim_waiting: Anim,
    pub anim_done: Anim,
    pub anim_error: Anim,
    /// Timer tick (ms) driving the animations.
    pub anim_interval_ms: u64,
    /// Aggregation order, highest priority first.
    pub state_priority: Vec<AgentState>,
    /// Idle border colours; `None` means: take it from the theme's frame colours.
    pub color_active_border: Option<ColorSpec>,
    pub color_inactive_border: Option<ColorSpec>,
    /// Channels the agent state is drawn on, and those the focus is drawn on.
    pub state_style: Channels,
    pub focus_style: Channels,
    /// Glyph drawn before the name on the glyph channel.
    pub state_glyph: Vec<char>,
}

pub open spec fn default_priority() -> Seq<AgentState> {
    seq![
        AgentState::Error,
        AgentState::Waiting,
        AgentState::Working,
        AgentState::Done,
        AgentState::Idle,
    ]
}

impl StyleConfig {
    /// The settings when the plugin is given none.
    pub open spec fn is_default(&self) -> bool {
        &&& self.format@ == "{index}:{name}"@
        &&& self.format_active@ == "{index}:{name} {indicators}"@
        &&& self.overflow_above@ == "  ^ +{count}"@
        &&& self.overflow_below@ == "  v +{count}"@
        &&& self.indicator_active@ == "*"@
        &&& self.indicator_fullscreen@ == "Z"@
        &&& self.indicator_sync@ == "S"@
        &&& self.max_name_length == 20
        &&& self.padding_top == 0
        &&& self.border@ == Seq::<char>::empty()
        &&& self.start_index == 1
        &&& self.activity_format@ == "#[fg=dim]{activity}"@
        &&& self.tab_height == 3
        &&& self.color_working is None
        &&& self.color_waiting is None
        &&& self.color_done is None
        &&& self.color_error is None
        &&& self.anim_working == Anim::Scroll
        &&& self.anim_waiting == Anim::Flash
        &&& self.anim_done == Anim::Solid
        &&& self.anim_error == Anim::Flash
        &&& self.anim_interval_ms == 500
        &&& self.state_priority@ == default_priority()
        &&& self.color_active_border is None
        &&& self.color_inactive_border is None
        &&& self.state_style == (Channels { fill: true, border: false, glyph: false })
        &&& self.focus_style == (Channels { fill: false, border: true, glyph: false })
        &&& self.state_glyph@ == "●"@
    }

    /// The animation configured for a state; `Idle` never animates.
    pub open spec fn anim_of(&self, s: AgentState) -> Anim {
        match s {
            AgentState::Working => self.anim_working,
            AgentState::Waiting => self.anim_waiting,
            AgentState::Done => self.anim_done,
            AgentState::Error => self.anim_error,
            AgentState::Idle => Anim::Off,
        }
    }

    pub fn anim_for(&self, s: AgentState) -> (r: Anim)
        ensures
            r == self.anim_of(s),
    {
        match s {
            AgentState::Working => self.anim_working,
            AgentState::Waiting => self.anim_waiting,
            AgentState::Done => self.anim_done,
            AgentState::Error => self.anim_error,
            AgentState::Idle => Anim::Off,
        }
    }
}

/// Which states animate under a configuration.
pub open spec fn anim_pred(style: &StyleConfig) -> spec_fn(AgentState) -> bool {
    |s: AgentState| style.anim_of(s).animated()
}

impl Default for StyleConfig {
    fn default() -> (r: Self)
        ensures
            r.is_default(),
    {
        let mut prio: Vec<AgentState> = Vec::new();
        prio.push(AgentState::Error);
        prio.push(AgentState::Waiting);
        prio.push(AgentState::Working);
        prio.push(AgentState::Done);
        prio.push(AgentState::Idle);
        assert(prio@ =~= default_priority());
        let border: Vec<char> = Vec::new();
        StyleConfig {
            format: lit_chars("{index}:{name}"),
            format_active: lit_chars("{index}:{name} {indicators}"),
            overflow_above: lit_chars("  ^ +{count}"),
            overflow_below: lit_chars("  v +{count}"),
            indicator_active: lit_chars("*"),
            indicator_fullscreen: lit_chars("Z"),
            indicator_sync: lit_chars("S"),
            max_name_length: 20,
            padding_top: 0,
            border,
            start_index: 1,
            activity_format: lit_chars("#[fg=dim]{activity}"),
            tab_height: 3,
            color_working: None,
            color_waiting: None,
            color_done: None,
            color_error: None,
            anim_working: Anim::Scroll,
            anim_waiting: Anim::Flash,
            anim_done: Anim::Solid,
            anim_error: Anim::Flash,
            anim_interval_ms: 500,
            state_priority: prio,
            color_active_border: None,
            color_inactive_border: None,
            state_style: Channels { fill: true, border: false, glyph: false },
            focus_style: Channels { fill: false, border: true, glyph: false },
            state_glyph: lit_chars("●"),
        }
    }
}

// ---------- reading settings ----------

/// The value of the first setting named `key`.
pub open spec fn setting(cfg: Seq<(Seq<char>, Seq<char>)>, key: Seq<char>) -> Option<Seq<char>>
    decreases cfg.len(),
{
    if cfg.len() == 0 {
        None
    } else if cfg[0].0 == key {
        Some(cfg[0].1)
    } else {
        setting(cfg.drop_first(), key)
    }
}

/// The value of the setting `key` (see [`setting`]).
pub fn get_setting(cfg: &[(Vec<char>, Vec<char>)], key: &str) -> (r: Option<Vec<char>>)
    ensures
        match setting(cfg.deep_view(), key@) {
            Some(v) => r is Some && r->0@ == v,
            None => r is None,
        },
{
    let ghost cv = cfg.deep_view();
    let mut i: usize = 0;
    assert(cv.skip(0) =~= cv);
    while i < cfg.len()
        invariant
            i <= cfg@.len(),
            cv == cfg.deep_view(),
            setting(cv, key@) == setting(cv.skip(i as int), key@),
        decreases cfg.len() - i,
    {
        let ghost rest = cv.skip(i as int);
        assert(rest[0] == (cfg@[i as int].0@, cfg@[i as int].1@));
        assert(rest.drop_first() =~= cv.skip(i + 1));
        if eq_lit(cfg[i].0.as_slice(), key) {
            return Some(sub_vec(cfg[i].1.as_slice(), 0, cfg[i].1.len()));
        }
        i = i + 1;
    }
    None
}

pub open spec fn opt_view(v: Option<Vec<char>>) -> Option<Seq<char>> {
    match v {
        Some(x) => Some(x@),
        None => None,
    }
}

pub open spec fn text_or(cur: Seq<char>, v: Option<Seq<char>>) -> Seq<char> {
    match v {
        Some(x) => x,
        None => cur,
    }
}

/// A count setting: its value when it is a `usize`, else `cur`.
pub open spec fn count_or(cur: usize, v: Option<Seq<char>>) -> usize {
    match v {
        Some(x) => match parse_unsigned(x, usize::MAX as nat) {
            Some(n) => n as usize,
            None => cur,
        },
        None => cur,
    }
}

pub open spec fn color_or(cur: Option<ColorSpec>, v: Option<Seq<char>>) -> Option<ColorSpec> {
    match v {
        Some(x) => Some(color_spec(x)),
        None => cur,
    }
}

pub open spec fn anim_or(cur: Anim, v: Option<Seq<char>>) -> Anim {
    match v {
        Some(x) => Anim::parsed(x),
        None => cur,
    }
}

pub open spec fn channels_or(cur: Channels, v: Option<Seq<char>>) -> Channels {
    match v {
        Some(x) => Channels::parsed(x),
        None => cur,
    }
}

/// `tab_height`: a number, raised to at least 2.
pub open spec fn height_or(cur: usize, v: Option<Seq<char>>) -> usize {
    match v {
        Some(x) => match parse_unsigned(x, usize::MAX as nat) {
            Some(n) => if n < 2 {
                2
            } else {
                n as usize
            },
            None => cur,
        },
        None => cur,
    }
}

/// `anim_interval_ms`: a number, raised to at least 50.
pub open spec fn interval_or(cur: u64, v: Option<Seq<char>>) -> u64 {
    match v {
        Some(x) => match parse_unsigned(x, u64::MAX as nat) {
            Some(n) => if n < 50 {
                50
            } else {
                n as u64
            },
            None => cur,
        },
        None => cur,
    }
}

/// The states named by the non-empty pieces, in order.
pub open spec fn parsed_states(ps: Seq<Seq<char>>) -> Seq<AgentState>
    decreases ps.len(),
{
    if ps.len() == 0 {
        Seq::empty()
    } else if ps.last().len() == 0 {
        parsed_states(ps.drop_last())
    } else {
        parsed_states(ps.drop_last()).push(AgentState::parsed(ps.last()))
    }
}

/// `state_priority`: the whitespace-separated states, unless there are none.
pub open spec fn priority_or(cur: Seq<AgentState>, v: Option<Seq<char>>) -> Seq<AgentState> {
    match v {
        Some(x) => {
            let order = parsed_states(split_on(x, Sep::Whitespace));
            if order.len() > 0 {
                order
            } else {
                cur
            }
        },
        None => cur,
    }
}

fn count_setting(cur: usize, v: Option<Vec<char>>) -> (r: usize)
    ensures
        r == count_or(cur, opt_view(v)),
{
    match v {
        Some(x) => match parse_unsigned_chars(x.as_slice(), usize::MAX as u64) {
            Some(n) => n as usize,
            None => cur,
        },
        None => cur,
    }
}

fn color_setting(cur: Option<ColorSpec>, v: Option<Vec<char>>) -> (r: Option<ColorSpec>)
    ensures
        r == color_or(cur, opt_view(v)),
{
    match v {
        Some(x) => Some(parse_color_spec(x.as_slice())),
        None => cur,
    }
}

fn anim_setting(cur: Anim, v: Option<Vec<char>>) -> (r: Anim)
    ensures
        r == anim_or(cur, opt_view(v)),
{
    match v {
        Some(x) => Anim::parse(x.as_slice()),
        None => cur,
    }
}

fn channels_setting(cur: Channels, v: Option<Vec<char>>) -> (r: Channels)
    ensures
        r == channels_or(cur, opt_view(v)),
{
    match v {
        Some(x) => Channels::parse(x.as_slice()),
        None => cur,
    }
}

fn priority_setting(cur: Vec<AgentState>, v: Option<Vec<char>>) -> (r: Vec<AgentState>)
    ensures
        r@ == priority_or(cur@, opt_view(v)),
{
    match v {
        Some(x) => {
            let order = parse_priority(x.as_slice());
            if order.len() > 0 {
                order
            } else {
                cur
            }
        },
        None => cur,
    }
}

fn text_setting(cur: Vec<char>, v: Option<Vec<char>>) -> (r: Vec<char>)
    ensures
        r@ == text_or(cur@, opt_view(v)),
{
    match v {
        Some(x) => x,
        None => cur,
    }
}

/// The states of a `state_priority` value (see [`parsed_states`]).
pub fn parse_priority(x: &[char]) -> (r: Vec<AgentState>)
    ensures
        r@ == parsed_states(split_on(x@, Sep::Whitespace)),
{
    let words = split_chars(x, Sep::Whitespace);
    let ghost wv = words.deep_view();
    let mut order: Vec<AgentState> = Vec::new();
    let mut i: usize = 0;
    assert(wv.take(0) =~= Seq::<Seq<char>>::empty());
    while i < words.len()
        invariant
            i <= words@.len(),
            wv == words.deep_view(),
            order@ == parsed_states(wv.take(i as int)),
        decreases words.len() - i,
    {
        assert(wv.take(i + 1).drop_last() =~= wv.take(i as int));
        assert(wv.take(i + 1).last() == words@[i as int]@);
        if words[i].len() > 0 {
            order.push(AgentState::parse(words[i].as_slice()));
        }
        i = i + 1;
    }
    assert(wv.take(i as int) =~= wv);
    order
}

impl StyleConfig {
    /// The text settings of `c` applied to `base`.
    pub open spec fn texts_from(&self, base: &StyleConfig, c: Seq<(Seq<char>, Seq<char>)>) -> bool {
        &&& self.format@ == text_or(base.format@, setting(c, "format"@))
        &&& self.format_active@ == text_or(base.format_active@, setting(c, "format_active"@))
        &&& self.overflow_above@ == text_or(base.overflow_above@, setting(c, "overflow_above"@))
        &&& self.overflow_below@ == text_or(base.overflow_below@, setting(c, "overflow_below"@))
        &&& self.indicator_active@ == text_or(
            base.indicator_active@,
            setting(c, "indicator_active"@),
        )
        &&& self.indicator_fullscreen@ == text_or(
            base.indicator_fullscreen@,
            setting(c, "indicator_fullscreen"@),
        )
        &&& self.indicator_sync@ == text_or(base.indicator_sync@, setting(c, "indicator_sync"@))
        &&& self.border@ == (if setting(c, "border"@) is Some {
            setting(c, "border"@)->0
        } else {
            text_or(base.border@, setting(c, "border_char"@))
        })
        &&& self.activity_format@ == text_or(
            base.activity_format@,
            setting(c, "activity_format"@),
        )
        &&& self.state_glyph@ == text_or(base.state_glyph@, setting(c, "state_glyph"@))
    }

    /// The numeric settings of `c` applied to `base`.
    pub open spec fn numbers_from(&self, base: &StyleConfig, c: Seq<(Seq<char>, Seq<char>)>) -> bool {
        &&& self.max_name_length == count_or(base.max_name_length, setting(c, "max_name_length"@))
        &&& self.padding_top == count_or(base.padding_top, setting(c, "padding_top"@))
        &&& self.start_index == count_or(base.start_index, setting(c, "start_index"@))
        &&& self.tab_height == height_or(base.tab_height, setting(c, "tab_height"@))
        &&& self.anim_interval_ms == interval_or(
            base.anim_interval_ms,
            setting(c, "anim_interval_ms"@),
        )
    }

    /// The colour settings of `c` applied to `base`.
    pub open spec fn colors_from(&self, base: &StyleConfig, c: Seq<(Seq<char>, Seq<char>)>) -> bool {
        &&& self.color_working == color_or(base.color_working, setting(c, "color_working"@))
        &&& self.color_waiting == color_or(base.color_waiting, setting(c, "color_waiting"@))
        &&& self.color_done == color_or(base.color_done, setting(c, "color_done"@))
        &&& self.color_error == color_or(base.color_error, setting(c, "color_error"@))
        &&& self.color_active_border == color_or(
            base.color_active_border,
            setting(c, "color_active_border"@),
        )
        &&& self.color_inactive_border == color_or(
            base.color_inactive_border,
            setting(c, "color_inactive_border"@),
        )
    }

    /// The animation, priority and channel settings of `c` applied to `base`.
    pub open spec fn modes_from(&self, base: &StyleConfig, c: Seq<(Seq<char>, Seq<char>)>) -> bool {
        &&& self.anim_working == anim_or(base.anim_working, setting(c, "anim_working"@))
        &&& self.anim_waiting == anim_or(base.anim_waiting, setting(c, "anim_waiting"@))
        &&& self.anim_done == anim_or(base.anim_done, setting(c, "anim_done"@))
        &&& self.anim_error == anim_or(base.anim_error, setting(c, "anim_error"@))
        &&& self.state_priority@ == priority_or(
            base.state_priority@,
            setting(c, "state_priority"@),
        )
        &&& self.state_style == channels_or(base.state_style, setting(c, "state_style"@))
        &&& self.focus_style == channels_or(base.focus_style, setting(c, "focus_style"@))
    }

    /// This configuration is `base` with the settings `c` applied.
    pub open spec fn loaded_from(&self, base: &StyleConfig, c: Seq<(Seq<char>, Seq<char>)>) -> bool {
        &&& self.texts_from(base, c)
        &&& self.numbers_from(base, c)
        &&& self.colors_from(base, c)
        &&& self.modes_from(base, c)
    }

    pub open spec fn same_texts(&self, o: &StyleConfig) -> bool {
        &&& self.format == o.format
        &&& self.format_active == o.format_active
        &&& self.overflow_above == o.overflow_above
        &&& self.overflow_below == o.overflow_below
        &&& self.indicator_active == o.indicator_active
        &&& self.indicator_fullscreen == o.indicator_fullscreen
        &&& self.indicator_sync == o.indicator_sync
        &&& self.border == o.border
        &&& self.activity_format == o.activity_format
        &&& self.state_glyph == o.state_glyph
    }

    pub open spec fn same_numbers(&self, o: &StyleConfig) -> bool {
        &&& self.max_name_length == o.max_name_length
        &&& self.padding_top == o.padding_top
        &&& self.start_index == o.start_index
        &&& self.tab_height == o.tab_height
        &&& self.anim_interval_ms == o.anim_interval_ms
    }

    pub open spec fn same_colors(&self, o: &StyleConfig) -> bool {
        &&& self.color_working == o.color_working
        &&& self.color_waiting == o.color_waiting
        &&& self.color_done == o.color_done
        &&& self.color_error == o.color_error
        &&& self.color_active_border == o.color_active_border
        &&& self.color_inactive_border == o.color_inactive_border
    }

    pub open spec fn same_modes(&self, o: &StyleConfig) -> bool {
        &&& self.anim_working == o.anim_working
        &&& self.anim_waiting == o.anim_waiting
        &&& self.anim_done == o.anim_done
        &&& self.anim_error == o.anim_error
        &&& self.state_priority == o.state_priority
        &&& self.state_style == o.state_style
        &&& self.focus_style == o.focus_style
    }

    fn load_texts(&mut self, cfg: &[(Vec<char>, Vec<char>)])
        ensures
            final(self).texts_from(old(self), cfg.deep_view()),
            final(self).same_numbers(old(self)),
            final(self).same_colors(old(self)),
            final(self).same_modes(old(self)),
    {
        let mut tmp: Vec<char> = Vec::new();
        std::mem::swap(&mut tmp, &mut self.format);
        self.format = text_setting(tmp, get_setting(cfg, "format"));
        let mut tmp: Vec<char> = Vec::new();
        std::mem::swap(&mut tmp, &mut self.format_active);
        self.format_active = text_setting(tmp, get_setting(cfg, "format_active"));
        let mut tmp: Vec<char> = Vec::new();
        std::mem::swap(&mut tmp, &mut self.overflow_above);
        self.overflow_above = text_setting(tmp, get_setting(cfg, "overflow_above"));
        let mut tmp: Vec<char> = Vec::new();
        std::mem::swap(&mut tmp, &mut self.overflow_below);
        self.overflow_below = text_setting(tmp, get_setting(cfg, "overflow_below"));
        let mut tmp: Vec<char> = Vec::new();
        std::mem::swap(&mut tmp, &mut self.indicator_active);
        self.indicator_active = text_setting(tmp, get_setting(cfg, "indicator_active"));
        let mut tmp: Vec<char> = Vec::new();
        std::mem::swap(&mut tmp, &mut self.indicator_fullscreen);
        self.indicator_fullscreen = text_setting(tmp, get_setting(cfg, "indicator_fullscreen"));
        let mut tmp: Vec<char> = Vec::new();
        std::mem::swap(&mut tmp, &mut self.indicator_sync);
        self.indicator_sync = text_setting(tmp, get_setting(cfg, "indicator_sync"));
        match get_setting(cfg, "border") {
            Some(v) => {
                self.border = v;
            },
            None => {
                let mut tmp: Vec<char> = Vec::new();
                std::mem::swap(&mut tmp, &mut self.border);
                self.border = text_setting(tmp, get_setting(cfg, "border_char"));
            },
        }
        let mut tmp: Vec<char> = Vec::new();
        std::mem::swap(&mut tmp, &mut self.activity_format);
        self.activity_format = text_setting(tmp, get_setting(cfg, "activity_format"));
        let mut tmp: Vec<char> = Vec::new();
        std::mem::swap(&mut tmp, &mut self.state_glyph);
        self.state_glyph = text_setting(tmp, get_setting(cfg, "state_glyph"));
    }

    fn load_numbers(&mut self, cfg: &[(Vec<char>, Vec<char>)])
        ensures
            final(self).numbers_from(old(self), cfg.deep_view()),
            final(self).same_texts(old(self)),
            final(self).same_colors(old(self)),
            final(self).same_modes(old(self)),
    {
        self.max_name_length = count_setting(self.max_name_length, get_setting(cfg, "max_name_length"));
        self.padding_top = count_setting(self.padding_top, get_setting(cfg, "padding_top"));
        self.start_index = count_setting(self.start_index, get_setting(cfg, "start_index"));
        match get_setting(cfg, "tab_height") {
            Some(v) => match parse_unsigned_chars(v.as_slice(), usize::MAX as u64) {
                Some(n) => {
                    self.tab_height = if n < 2 {
                        2
                    } else {
                        n as usize
                    };
                },
                None => {},
            },
            None => {},
        }
        match get_setting(cfg, "anim_interval_ms") {
            Some(v) => match parse_unsigned_chars(v.as_slice(), u64::MAX) {
                Some(n) => {
                    self.anim_interval_ms = if n < 50 {
                        50
                    } else {
                        n
                    };
                },
                None => {},
            },
            None => {},
        }
    }

    fn load_colors(&mut self, cfg: &[(Vec<char>, Vec<char>)])
        ensures
            final(self).colors_from(old(self), cfg.deep_view()),
            final(self).same_texts(old(self)),
            final(self).same_numbers(old(self)),
            final(self).same_modes(old(self)),
    {
        self.color_working = color_setting(self.color_working, get_setting(cfg, "color_working"));
        self.color_waiting = color_setting(self.color_waiting, get_setting(cfg, "color_waiting"));
        self.color_done = color_setting(self.color_done, get_setting(cfg, "color_done"));
        self.color_error = color_setting(self.color_error, get_setting(cfg, "color_error"));
        self.color_active_border = color_setting(
            self.color_active_border,
            get_setting(cfg, "color_active_border"),
        );
        self.color_inactive_border = color_setting(
            self.color_inactive_border,
            get_setting(cfg, "color_inactive_border"),
        );
    }

    fn load_modes(&mut self, cfg: &[(Vec<char>, Vec<char>)])
        ensures
            final(self).modes_from(old(self), cfg.deep_view()),
            final(self).same_texts(old(self)),
            final(self).same_numbers(old(self)),
            final(self).same_colors(old(self)),
    {
        self.anim_working = anim_setting(self.anim_working, get_setting(cfg, "anim_working"));
        self.anim_waiting = anim_setting(self.anim_waiting, get_setting(cfg, "anim_waiting"));
        self.anim_done = anim_setting(self.anim_done, get_setting(cfg, "anim_done"));
        self.anim_error = anim_setting(self.anim_error, get_setting(cfg, "anim_error"));
        let mut tmp: Vec<AgentState> = Vec::new();
        std::mem::swap(&mut tmp, &mut self.state_priority);
        self.state_priority = priority_setting(tmp, get_setting(cfg, "state_priority"));
        self.state_style = channels_setting(self.state_style, get_setting(cfg, "state_style"));
        self.focus_style = channels_setting(self.focus_style, get_setting(cfg, "focus_style"));
    }

    /// Applies the plugin's settings on top of this configuration.
    pub fn load(&mut self, cfg: &[(Vec<char>, Vec<char>)])
        ensures
            final(self).loaded_from(old(self), cfg.deep_view()),
    {
        self.load_texts(cfg);
        self.load_numbers(cfg);
        self.load_colors(cfg);
        self.load_modes(cfg);
    }
}

/// The complaint shown when the state and the focus are routed to the same channel.
pub open spec fn conflict_message(s: Channels, f: Channels) -> Option<Seq<char>> {
    if s.border && f.border {
        Some("state_style & focus_style both use the BORDER — set one to fill/glyph/none"@)
    } else if s.fill && f.fill {
        Some("state_style & focus_style both use the FILL — set one to border/glyph/none"@)
    } else if s.glyph && f.glyph {
        Some("state_style & focus_style both use the GLYPH — set one to fill/border/none"@)
    } else {
        None
    }
}

impl StyleConfig {
    /// The configuration error, if the state and focus channels overlap.
    pub fn conflict(&self) -> (r: Option<Vec<char>>)
        ensures
            match conflict_message(self.state_style, self.focus_style) {
                Some(m) => r is Some && r->0@ == m,
                None => r is None,
            },
    {
        let s = self.state_style;
        let f = self.focus_style;
        if s.border && f.border {
            Some(lit_chars("state_style & focus_style both use the BORDER — set one to fill/glyph/none"))
        } else if s.fill && f.fill {
            Some(lit_chars("state_style & focus_style both use the FILL — set one to border/glyph/none"))
        } else if s.glyph && f.glyph {
            Some(lit_chars("state_style & focus_style both use the GLYPH — set one to fill/border/none"))
        } else {
            None
        }
    }
}

/// No setting in `c` has the key `key`.
pub open spec fn absent(c: Seq<(Seq<char>, Seq<char>)>, key: Seq<char>) -> bool {
    forall|j: int| 0 <= j < c.len() ==> c[j].0 != key
}

/// The setting at `j` is the first in `c` whose key is `key`.
pub open spec fn first_at(c: Seq<(Seq<char>, Seq<char>)>, key: Seq<char>, j: int) -> bool {
    &&& 0 <= j < c.len()
    &&& c[j].0 == key
    &&& forall|i: int| 0 <= i < j ==> c[i].0 != key
}

/// `field` is what the setting `key` gives: `f` of the value of the first setting with
/// that exact key, or `base` when there is none.
pub open spec fn read_from<T>(
    c: Seq<(Seq<char>, Seq<char>)>,
    key: Seq<char>,
    base: T,
    field: T,
    f: spec_fn(Seq<char>) -> T,
) -> bool {
    &&& absent(c, key) ==> field == base
    &&& forall|j: int| #[trigger] first_at(c, key, j) ==> field == f(c[j].1)
}

proof fn lemma_setting_first(c: Seq<(Seq<char>, Seq<char>)>, key: Seq<char>)
    ensures
        absent(c, key) ==> setting(c, key) is None,
        forall|j: int| #[trigger] first_at(c, key, j) ==> setting(c, key) == Some(c[j].1),
    decreases c.len(),
{
    if c.len() > 0 {
        let rest = c.drop_first();
        lemma_setting_first(rest, key);
        if absent(c, key) {
            assert forall|j: int| 0 <= j < rest.len() implies rest[j].0 != key by {
                assert(rest[j] == c[j + 1]);
            }
        }
        assert forall|j: int| #[trigger] first_at(c, key, j) implies setting(c, key) == Some(c[j].1) by {
            if j > 0 {
                assert(c[0].0 != key);
                assert(rest[j - 1] == c[j]);
                assert forall|i: int| 0 <= i < j - 1 implies rest[i].0 != key by {
                    assert(rest[i] == c[i + 1]);
                }
                assert(first_at(rest, key, j - 1));
            }
        }
    }
}

proof fn lemma_read_from<T>(
    c: Seq<(Seq<char>, Seq<char>)>,
    key: Seq<char>,
    base: T,
    field: T,
    f: spec_fn(Seq<char>) -> T,
)
    requires
        field == match setting(c, key) {
            Some(v) => f(v),
            None => base,
        },
    ensures
        read_from(c, key, base, field, f),
{
    lemma_setting_first(c, key);
}

/// Loading reads each setting from its own key: every field of the loaded
/// configuration is what the first setting with exactly that field's name gives (a
/// text as it is, a number, colour, animation, channel list or priority list as
/// parsed), and stays as it was when no setting has that name; `border` falls back to
/// `border_char` only when there is no `border` setting.
pub proof fn lemma_load_reads_own_keys(after: StyleConfig, base: StyleConfig, c: Seq<(Seq<char>, Seq<char>)>)
    requires
        after.loaded_from(&base, c),
    ensures
        read_from(c, "format"@, base.format@, after.format@, |v: Seq<char>| v),
        read_from(c, "format_active"@, base.format_active@, after.format_active@, |v: Seq<char>| v),
        read_from(c, "overflow_above"@, base.overflow_above@, after.overflow_above@, |v: Seq<char>| v),
        read_from(c, "overflow_below"@, base.overflow_below@, after.overflow_below@, |v: Seq<char>| v),
        read_from(c, "indicator_active"@, base.indicator_active@, after.indicator_active@, |v: Seq<char>| v),
        read_from(c, "indicator_fullscreen"@, base.indicator_fullscreen@, after.indicator_fullscreen@, |v: Seq<char>| v),
        read_from(c, "indicator_sync"@, base.indicator_sync@, after.indicator_sync@, |v: Seq<char>| v),
        read_from(c, "activity_format"@, base.activity_format@, after.activity_format@, |v: Seq<char>| v),
        read_from(c, "state_glyph"@, base.state_glyph@, after.state_glyph@, |v: Seq<char>| v),
        read_from(c, "max_name_length"@, base.max_name_length, after.max_name_length, |v: Seq<char>| count_or(base.max_name_length, Some(v))),
        read_from(c, "padding_top"@, base.padding_top, after.padding_top, |v: Seq<char>| count_or(base.padding_top, Some(v))),
        read_from(c, "start_index"@, base.start_index, after.start_index, |v: Seq<char>| count_or(base.start_index, Some(v))),
        read_from(c, "tab_height"@, base.tab_height, after.tab_height, |v: Seq<char>| height_or(base.tab_height, Some(v))),
        read_from(c, "anim_interval_ms"@, base.anim_interval_ms, after.anim_interval_ms, |v: Seq<char>| interval_or(base.anim_interval_ms, Some(v))),
        read_from(c, "color_working"@, base.color_working, after.color_working, |v: Seq<char>| Some(color_spec(v))),
        read_from(c, "color_waiting"@, base.color_waiting, after.color_waiting, |v: Seq<char>| Some(color_spec(v))),
        read_from(c, "color_done"@, base.color_done, after.color_done, |v: Seq<char>| Some(color_spec(v))),
        read_from(c, "color_error"@, base.color_error, after.color_error, |v: Seq<char>| Some(color_spec(v))),
        read_from(c, "color_active_border"@, base.color_active_border, after.color_active_border, |v: Seq<char>| Some(color_spec(v))),
        read_from(c, "color_inactive_border"@, base.color_inactive_border, after.color_inactive_border, |v: Seq<char>| Some(color_spec(v))),
        read_from(c, "anim_working"@, base.anim_working, after.anim_working, |v: Seq<char>| Anim::parsed(v)),
        read_from(c, "anim_waiting"@, base.anim_waiting, after.anim_waiting, |v: Seq<char>| Anim::parsed(v)),
        read_from(c, "anim_done"@, base.anim_done, after.anim_done, |v: Seq<char>| Anim::parsed(v)),
        read_from(c, "anim_error"@, base.anim_error, after.anim_error, |v: Seq<char>| Anim::parsed(v)),
        read_from(c, "state_style"@, base.state_style, after.state_style, |v: Seq<char>| Channels::parsed(v)),
        read_from(c, "focus_style"@, base.focus_style, after.focus_style, |v: Seq<char>| Channels::parsed(v)),
        read_from(c, "state_priority"@, base.state_priority@, after.state_priority@, |v: Seq<char>| priority_or(base.state_priority@, Some(v))),
        absent(c, "border"@) ==> read_from(c, "border_char"@, base.border@, after.border@, |v: Seq<char>| v),
        forall|j: int| #[trigger] first_at(c, "border"@, j) ==> after.border@ == c[j].1,
{
    lemma_read_from(c, "format"@, base.format@, after.format@, |v: Seq<char>| v);
    lemma_read_from(c, "format_active"@, base.format_active@, after.format_active@, |v: Seq<char>| v);
    lemma_read_from(c, "overflow_above"@, base.overflow_above@, after.overflow_above@, |v: Seq<char>| v);
    lemma_read_from(c, "overflow_below"@, base.overflow_below@, after.overflow_below@, |v: Seq<char>| v);
    lemma_read_from(c, "indicator_active"@, base.indicator_active@, after.indicator_active@, |v: Seq<char>| v);
    lemma_read_from(c, "indicator_fullscreen"@, base.indicator_fullscreen@, after.indicator_fullscreen@, |v: Seq<char>| v);
    lemma_read_from(c, "indicator_sync"@, base.indicator_sync@, after.indicator_sync@, |v: Seq<char>| v);
    lemma_read_from(c, "activity_format"@, base.activity_format@, after.activity_format@, |v: Seq<char>| v);
    lemma_read_from(c, "state_glyph"@, base.state_glyph@, after.state_glyph@, |v: Seq<char>| v);
    lemma_read_from(c, "max_name_length"@, base.max_name_length, after.max_name_length, |v: Seq<char>| count_or(base.max_name_length, Some(v)));
    lemma_read_from(c, "padding_top"@, base.padding_top, after.padding_top, |v: Seq<char>| count_or(base.padding_top, Some(v)));
    lemma_read_from(c, "start_index"@, base.start_index, after.start_index, |v: Seq<char>| count_or(base.start_index, Some(v)));
    lemma_read_from(c, "tab_height"@, base.tab_height, after.tab_height, |v: Seq<char>| height_or(base.tab_height, Some(v)));
    lemma_read_from(c, "anim_interval_ms"@, base.anim_interval_ms, after.anim_interval_ms, |v: Seq<char>| interval_or(base.anim_interval_ms, Some(v)));
    lemma_read_from(c, "color_working"@, base.color_working, after.color_working, |v: Seq<char>| Some(color_spec(v)));
    lemma_read_from(c, "color_waiting"@, base.color_waiting, after.color_waiting, |v: Seq<char>| Some(color_spec(v)));
    lemma_read_from(c, "color_done"@, base.color_done, after.color_done, |v: Seq<char>| Some(color_spec(v)));
    lemma_read_from(c, "color_error"@, base.color_error, after.color_error, |v: Seq<char>| Some(color_spec(v)));
    lemma_read_from(c, "color_active_border"@, base.color_active_border, after.color_active_border, |v: Seq<char>| Some(color_spec(v)));
    lemma_read_from(c, "color_inactive_border"@, base.color_inactive_border, after.color_inactive_border, |v: Seq<char>| Some(color_spec(v)));
    lemma_read_from(c, "anim_working"@, base.anim_working, after.anim_working, |v: Seq<char>| Anim::parsed(v));
    lemma_read_from(c, "anim_waiting"@, base.anim_waiting, after.anim_waiting, |v: Seq<char>| Anim::parsed(v));
    lemma_read_from(c, "anim_done"@, base.anim_done, after.anim_done, |v: Seq<char>| Anim::parsed(v));
    lemma_read_from(c, "anim_error"@, base.anim_error, after.anim_error, |v: Seq<char>| Anim::parsed(v));
    lemma_read_from(c, "state_style"@, base.state_style, after.state_style, |v: Seq<char>| Channels::parsed(v));
    lemma_read_from(c, "focus_style"@, base.focus_style, after.focus_style, |v: Seq<char>| Channels::parsed(v));
    lemma_read_from(c, "state_priority"@, base.state_priority@, after.state_priority@, |v: Seq<char>| priority_or(base.state_priority@, Some(v)));
    lemma_setting_first(c, "border"@);
    lemma_read_from(c, "border_char"@, base.border@, text_or(base.border@, setting(c, "border_char"@)), |v: Seq<char>| v);
}

} // verus!
