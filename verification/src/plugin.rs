//! The plugin's state and the decisions it takes on it.

use vstd::prelude::*;

use crate::agent::AgentState;
use crate::color::ColorSpec;
use crate::config::{anim_pred, StyleConfig};
use crate::panes::{
    any_animated_of, best_pane, display_name, focused_pane_title, focused_title, lemma_state_index, manifest_view, pane_state_of, panes_of, prio_of, tab_agent_of,
    ModeView, PaneV, PaneView, TabView,
};
use crate::store::AgentStore;
use crate::text::{lit_chars, starts_with_lit, sub_vec};

verus! {

/// The plugin's state.
#[derive(Debug)]
pub struct PluginState {
    pub tabs: Vec<TabView>,
    /// 1-based position of the active tab (0 before any tab update).
    pub active_tab_idx: usize,
    pub mode: ModeView,
    /// The pane manifest: tab position to its panes.
    pub panes: Vec<(usize, Vec<PaneView>)>,
    pub style: StyleConfig,
    pub last_rows: usize,
    pub permissions_granted: bool,
    pub is_selectable: bool,
    pub pending_events: Vec<Event>,
    pub own_session: Vec<char>,
    /// Latest reported agent state per pane id.
    pub pane_agents: AgentStore,
    /// Animation frame counter.
    pub frame: u64,
    /// Whether an animation timer is armed.
    pub timer_running: bool,
    /// Row ranges of the visible tab boxes: `(start, end_exclusive, tab_position)`.
    pub tab_rows: Vec<(usize, usize, usize)>,
    /// Set when the configuration is invalid.
    pub config_error: Option<Vec<char>>,
}

/// What Zellij reports to the plugin, as plain values.
#[derive(Debug)]
pub enum Event {
    PermissionResult(bool),
    /// The mode information as the plugin reads it, and whether Zellij's full mode
    /// information differs from the one reported before it (fields the plugin does not
    /// read included).
    ModeUpdate(ModeView, bool),
    /// The tabs as the plugin reads them, and whether Zellij's full tab list differs from
    /// the one reported before it.
    TabUpdate(Vec<TabView>, bool),
    PaneUpdate(Vec<(usize, Vec<PaneView>)>),
    Timer,
    LeftClick(isize),
    ScrollUp,
    ScrollDown,
    OtherMouse,
    /// The sessions: each one's name and whether it is the current session.
    SessionUpdate(Vec<(Vec<char>, bool)>),
    Other,
}

/// What the plugin asks Zellij to do.
#[derive(Debug)]
pub enum Action {
    SetSelectable(bool),
    SwitchTab(u32),
    /// Arm a timer that fires after this many milliseconds.
    SetTimeoutMs(u64),
    /// Ask the other copies of the plugin to send their state.
    RequestStateSync,
    /// Send this copy's full state dump to the other copies.
    BroadcastState(Vec<char>),
    /// Record an activity report, whose format belongs to the activity reporter.
    RecordActivity(Vec<char>),
}

impl PluginState {
    pub open spec fn wf(&self) -> bool {
        self.pane_agents.wf()
    }

    pub open spec fn manifest(&self) -> Seq<(usize, Seq<PaneV>)> {
        manifest_view(self.panes@)
    }

    pub open spec fn animates(&self) -> spec_fn(AgentState) -> bool {
        anim_pred(&self.style)
    }

    /// The state of one pane (see [`pane_state_of`]).
    pub fn pane_state(&self, pane: &PaneView) -> (r: Option<(AgentState, Vec<char>)>)
        requires
            self.wf(),
        ensures
            match pane_state_of(self.pane_agents@, pane@) {
                Some((s, l)) => r matches Some((rs, rl)) && rs == s && rl@ == l,
                None => r is None,
            },
    {
        if let Some(pa) = self.pane_agents.get(pane.id) {
            let label = sub_vec(pa.label.as_slice(), 0, pa.label.len());
            assert(label@ =~= pa.label@);
            return Some((pa.state, label));
        }
        if let Some(cmd) = &pane.terminal_command {
            let state = if pane.exited || pane.is_held {
                match pane.exit_status {
                    Some(code) => if code == 0 {
                        AgentState::Done
                    } else {
                        AgentState::Error
                    },
                    None => AgentState::Done,
                }
            } else {
                AgentState::Working
            };
            let c = sub_vec(cmd.as_slice(), 0, cmd.len());
            assert(c@ =~= cmd@);
            return Some((state, c));
        }
        None
    }

    /// Priority index of a state (lower wins; see [`prio_of`]).
    pub fn prio(&self, s: AgentState) -> (r: usize)
        ensures
            r == prio_of(self.style.state_priority@, s),
    {
        let order = &self.style.state_priority;
        let mut i: usize = 0;
        while i < order.len()
            invariant
                i <= order@.len(),
                order@ == self.style.state_priority@,
                forall|k: int| 0 <= k < i ==> order@[k] != s,
            decreases order.len() - i,
        {
            if order[i] == s {
                assert(order@[i as int] == s);
                proof {
                    lemma_state_index(order@, s, i as int);
                }
                return i;
            }
            i = i + 1;
        }
        proof {
            lemma_state_index(order@, s, i as int);
        }
        usize::MAX
    }

    pub open spec fn border_active_spec(&self) -> ColorSpec {
        match self.style.color_active_border {
            Some(c) => c,
            None => self.mode.colors.frame_selected,
        }
    }

    pub open spec fn border_inactive_spec(&self) -> ColorSpec {
        match self.style.color_inactive_border {
            Some(c) => c,
            None => match self.mode.colors.frame_unselected {
                Some(c) => c,
                None => ColorSpec::EightBit(240),
            },
        }
    }

    /// Fill colour of a state: the configured one, else the theme's success colour for
    /// `Working` and `Done`, its error colour for `Error`, palette orange (208) for `Waiting`.
    pub open spec fn state_color_spec(&self, s: AgentState) -> ColorSpec {
        match s {
            AgentState::Idle => ColorSpec::Default,
            AgentState::Working => match self.style.color_working {
                Some(c) => c,
                None => self.mode.colors.exit_code_success,
            },
            AgentState::Done => match self.style.color_done {
                Some(c) => c,
                None => self.mode.colors.exit_code_success,
            },
            AgentState::Error => match self.style.color_error {
                Some(c) => c,
                None => self.mode.colors.exit_code_error,
            },
            AgentState::Waiting => match self.style.color_waiting {
                Some(c) => c,
                None => ColorSpec::EightBit(208),
            },
        }
    }

    /// Idle border colour of the active tab.
    pub fn border_active(&self) -> (r: ColorSpec)
        ensures
            r == self.border_active_spec(),
    {
        match self.style.color_active_border {
            Some(c) => c,
            None => self.mode.colors.frame_selected,
        }
    }

    /// Idle border colour of the other tabs.
    pub fn border_inactive(&self) -> (r: ColorSpec)
        ensures
            r == self.border_inactive_spec(),
    {
        match self.style.color_inactive_border {
            Some(c) => c,
            None => match self.mode.colors.frame_unselected {
                Some(c) => c,
                None => ColorSpec::EightBit(240),
            },
        }
    }

    pub fn state_color(&self, s: AgentState) -> (r: ColorSpec)
        ensures
            r == self.state_color_spec(s),
    {
        let cfg = match s {
            AgentState::Working => self.style.color_working,
            AgentState::Waiting => self.style.color_waiting,
            AgentState::Done => self.style.color_done,
            AgentState::Error => self.style.color_error,
            AgentState::Idle => {
                return ColorSpec::Default;
            },
        };
        match cfg {
            Some(c) => c,
            None => match s {
                AgentState::Working | AgentState::Done => self.mode.colors.exit_code_success,
                AgentState::Error => self.mode.colors.exit_code_error,
                AgentState::Waiting => ColorSpec::EightBit(208),
                AgentState::Idle => ColorSpec::Default,
            },
        }
    }

    /// Index of the first manifest entry for tab position `pos`.
    fn manifest_entry(&self, pos: usize) -> (r: Option<usize>)
        ensures
            match r {
                Some(k) => k < self.panes@.len() && panes_of(self.manifest(), pos) == Some(
                    self.manifest()[k as int].1,
                ),
                None => panes_of(self.manifest(), pos) is None,
            },
    {
        let ghost m = self.manifest();
        let mut k: usize = 0;
        assert(m.skip(0) =~= m);
        while k < self.panes.len()
            invariant
                k <= self.panes@.len(),
                m == self.manifest(),
                m.len() == self.panes@.len(),
                panes_of(m, pos) == panes_of(m.skip(k as int), pos),
            decreases self.panes.len() - k,
        {
            let ghost rest = m.skip(k as int);
            assert(rest[0] == m[k as int]);
            assert(rest.drop_first() =~= m.skip(k + 1));
            if self.panes[k].0 == pos {
                return Some(k);
            }
            k = k + 1;
        }
        None
    }

    /// Aggregated state of the tab at `pos` (see [`tab_agent_of`]): the pane state with
    /// the best priority wins, the earliest such pane on a tie.
    pub fn tab_agent(&self, pos: usize) -> (r: (AgentState, Option<Vec<char>>))
        requires
            self.wf(),
        ensures
            r.0 == tab_agent_of(self.pane_agents@, self.style.state_priority@, self.manifest(), pos).0,
            match tab_agent_of(self.pane_agents@, self.style.state_priority@, self.manifest(), pos).1 {
                Some(l) => r.1 is Some && r.1->0@ == l,
                None => r.1 is None,
            },
    {
        let ghost agents = self.pane_agents@;
        let ghost order = self.style.state_priority@;
        let mut best: Option<(AgentState, Vec<char>)> = None;
        let ghost mut ps: Seq<PaneV> = Seq::empty();
        if let Some(k) = self.manifest_entry(pos) {
            let panes = &self.panes[k].1;
            proof {
                ps = self.manifest()[k as int].1;
                assert(ps =~= panes@.map_values(|p: PaneView| p@));
            }
            let mut i: usize = 0;
            assert(ps.take(0) =~= Seq::<PaneV>::empty());
            while i < panes.len()
                invariant
                    i <= panes@.len(),
                    self.wf(),
                    agents == self.pane_agents@,
                    order == self.style.state_priority@,
                    ps == panes@.map_values(|p: PaneView| p@),
                    match best_pane(agents, order, ps.take(i as int)) {
                        Some((s, l)) => best matches Some((bs, bl)) && bs == s && bl@ == l,
                        None => best is None,
                    },
                decreases panes.len() - i,
            {
                let pane = &panes[i];
                assert(ps.take(i + 1).drop_last() =~= ps.take(i as int));
                assert(ps.take(i + 1).last() == pane@);
                if !pane.is_plugin {
                    if let Some((state, label)) = self.pane_state(pane) {
                        let better = match &best {
                            None => true,
                            Some((bs, _)) => self.prio(state) < self.prio(*bs),
                        };
                        if better {
                            best = Some((state, label));
                        }
                    }
                }
                i = i + 1;
            }
            assert(ps.take(i as int) =~= ps);
        }
        match best {
            Some((s, label)) => {
                if label.len() == 0 {
                    (s, None)
                } else {
                    (s, Some(label))
                }
            },
            None => (AgentState::Idle, None),
        }
    }
}

impl PluginState {
    /// The title of the tab's focused pane (see [`focused_pane_title`]).
    pub fn get_focused_pane_title(&self, pos: usize) -> (r: Option<Vec<char>>)
        ensures
            match focused_pane_title(self.manifest(), pos) {
                Some(t) => r matches Some(x) && x@ == t,
                None => r is None,
            },
    {
        if let Some(k) = self.manifest_entry(pos) {
            let panes = &self.panes[k].1;
            let ghost ps = self.manifest()[k as int].1;
            assert(ps =~= panes@.map_values(|p: PaneView| p@));
            let mut i: usize = 0;
            assert(ps.skip(0) =~= ps);
            while i < panes.len()
                invariant
                    i <= panes@.len(),
                    ps == panes@.map_values(|p: PaneView| p@),
                    focused_pane_title(self.manifest(), pos) == focused_title(ps),
                    focused_title(ps) == focused_title(ps.skip(i as int)),
                decreases panes.len() - i,
            {
                let pane = &panes[i];
                let ghost rest = ps.skip(i as int);
                assert(rest[0] == pane@);
                assert(rest.drop_first() =~= ps.skip(i + 1));
                if pane.is_focused && !pane.is_plugin {
                    let title = &pane.title;
                    if starts_with_lit(title.as_slice(), "Pane #") || starts_with_lit(
                        title.as_slice(),
                        "Tab #",
                    ) || title.len() == 0 {
                        return None;
                    }
                    let t = sub_vec(title.as_slice(), 0, title.len());
                    assert(t@ =~= title@);
                    return Some(t);
                }
                i = i + 1;
            }
            assert(ps.skip(i as int) =~= Seq::<PaneV>::empty());
        }
        None
    }

    /// The name shown for a tab (see [`display_name`]).
    pub fn tab_display_name(&self, tab: &TabView) -> (r: Vec<char>)
        ensures
            r@ == display_name(self.manifest(), tab@),
    {
        if !starts_with_lit(tab.name.as_slice(), "Tab #") && tab.name.len() > 0 {
            let n = sub_vec(tab.name.as_slice(), 0, tab.name.len());
            assert(n@ =~= tab.name@);
            return n;
        }
        match self.get_focused_pane_title(tab.position) {
            Some(t) => t,
            None => lit_chars("…"),
        }
    }

    /// Whether any pane (not a plugin) is in a state that animates.
    pub fn any_animated(&self) -> (r: bool)
        requires
            self.wf(),
        ensures
            r == any_animated_of(self.pane_agents@, self.animates(), self.manifest()),
    {
        let ghost m = self.manifest();
        let ghost anim = self.animates();
        let mut t: usize = 0;
        while t < self.panes.len()
            invariant
                t <= self.panes@.len(),
                self.wf(),
                m == self.manifest(),
                anim == self.animates(),
                m.len() == self.panes@.len(),
                forall|tt: int, i: int|
                    0 <= tt < t && 0 <= i < m[tt].1.len() && !(#[trigger] m[tt].1[i]).is_plugin
                        ==> match pane_state_of(self.pane_agents@, m[tt].1[i]) {
                        Some((st, _)) => !anim(st),
                        None => true,
                    },
            decreases self.panes.len() - t,
        {
            let panes = &self.panes[t].1;
            assert(m[t as int].1 =~= panes@.map_values(|p: PaneView| p@));
            let mut i: usize = 0;
            while i < panes.len()
                invariant
                    i <= panes@.len(),
                    t < self.panes@.len(),
                    self.wf(),
                    m == self.manifest(),
                    anim == self.animates(),
                    m[t as int].1 == panes@.map_values(|p: PaneView| p@),
                    forall|k: int|
                        0 <= k < i && !(#[trigger] m[t as int].1[k]).is_plugin ==> match pane_state_of(
                            self.pane_agents@,
                            m[t as int].1[k],
                        ) {
                            Some((st, _)) => !anim(st),
                            None => true,
                        },
                decreases panes.len() - i,
            {
                let pane = &panes[i];
                assert(m[t as int].1[i as int] == pane@);
                if !pane.is_plugin {
                    if let Some((state, _)) = self.pane_state(pane) {
                        if self.style.anim_for(state).is_animated() {
                            assert(!m[t as int].1[i as int].is_plugin);
                            return true;
                        }
                    }
                }
                i = i + 1;
            }
            t = t + 1;
        }
        false
    }

    /// Arms the animation timer unless one is armed or nothing animates.
    pub fn arm_timer(&mut self) -> (r: Option<Action>)
        requires
            old(self).wf(),
        ensures
            final(self).wf(),
            ({
                let arm = !old(self).timer_running && any_animated_of(
                    old(self).pane_agents@,
                    old(self).animates(),
                    old(self).manifest(),
                );
                &&& final(self).timer_running == (old(self).timer_running || arm)
                &&& arm ==> (r matches Some(Action::SetTimeoutMs(ms)) && ms == old(self).style.anim_interval_ms)
                &&& !arm ==> r is None
            }),
            final(self).frame == old(self).frame,
            final(self).tabs == old(self).tabs,
            final(self).panes == old(self).panes,
            final(self).pane_agents == old(self).pane_agents,
            final(self).active_tab_idx == old(self).active_tab_idx,
            final(self).mode == old(self).mode,
            final(self).style == old(self).style,
            final(self).last_rows == old(self).last_rows,
            final(self).permissions_granted == old(self).permissions_granted,
            final(self).is_selectable == old(self).is_selectable,
            final(self).pending_events == old(self).pending_events,
            final(self).own_session == old(self).own_session,
            final(self).tab_rows == old(self).tab_rows,
            final(self).config_error == old(self).config_error,
    {
        if !self.timer_running && self.any_animated() {
            self.timer_running = true;
            Some(Action::SetTimeoutMs(self.style.anim_interval_ms))
        } else {
            None
        }
    }
}

} // verus!
