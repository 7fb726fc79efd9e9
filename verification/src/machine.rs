//! The plugin as a state machine: each event from Zellij or pipe message gives the next
//! state, whether to redraw, and the actions to perform.

use vstd::prelude::*;

use crate::config::{anim_pred, conflict_message, StyleConfig};
use crate::panes::{any_animated_of, manifest_view, tab_agent_of, ModeView, PaneV, TabV, TabView};
use crate::plugin::{Action, Event, PluginState};
use crate::store::{AgentStore, AgentView};
use crate::sync::{applied, applied_lines, clean_text, joined_lines, lemma_sync_round_trip, synced};
use crate::screen::{error_lines, render_error, tab_number};
use crate::text::{eq_lit, repeat_char, split_on, Sep};

verus! {

/// An event as plain values.
pub enum EventV {
    PermissionResult(bool),
    ModeUpdate(ModeView, bool),
    TabUpdate(Seq<TabV>, bool),
    PaneUpdate(Seq<(usize, Seq<PaneV>)>),
    Timer,
    LeftClick(isize),
    ScrollUp,
    ScrollDown,
    OtherMouse,
    SessionUpdate(Seq<(Seq<char>, bool)>),
    Other,
}

pub open spec fn sessions_view(ss: Seq<(Vec<char>, bool)>) -> Seq<(Seq<char>, bool)> {
    ss.map_values(|e: (Vec<char>, bool)| (e.0@, e.1))
}

/// The name of the first session marked current.
pub open spec fn current_session(ss: Seq<(Seq<char>, bool)>) -> Option<Seq<char>>
    decreases ss.len(),
{
    if ss.len() == 0 {
        None
    } else if ss[0].1 {
        Some(ss[0].0)
    } else {
        current_session(ss.drop_first())
    }
}

pub open spec fn tabs_view(ts: Seq<TabView>) -> Seq<TabV> {
    ts.map_values(|t: TabView| t@)
}

impl View for Event {
    type V = EventV;

    open spec fn view(&self) -> EventV {
        match self {
            Event::PermissionResult(g) => EventV::PermissionResult(*g),
            Event::ModeUpdate(m, d) => EventV::ModeUpdate(*m, *d),
            Event::TabUpdate(ts, d) => EventV::TabUpdate(tabs_view(ts@), *d),
            Event::PaneUpdate(m) => EventV::PaneUpdate(manifest_view(m@)),
            Event::Timer => EventV::Timer,
            Event::LeftClick(r) => EventV::LeftClick(*r),
            Event::ScrollUp => EventV::ScrollUp,
            Event::ScrollDown => EventV::ScrollDown,
            Event::OtherMouse => EventV::OtherMouse,
            Event::SessionUpdate(ss) => EventV::SessionUpdate(sessions_view(ss@)),
            Event::Other => EventV::Other,
        }
    }
}

/// An action as plain values.
pub enum ActionV {
    SetSelectable(bool),
    SwitchTab(u32),
    SetTimeoutMs(u64),
    RequestStateSync,
    BroadcastState(Seq<char>),
    RecordActivity(Seq<char>),
}

impl View for Action {
    type V = ActionV;

    open spec fn view(&self) -> ActionV {
        match self {
            Action::SetSelectable(b) => ActionV::SetSelectable(*b),
            Action::SwitchTab(t) => ActionV::SwitchTab(*t),
            Action::SetTimeoutMs(ms) => ActionV::SetTimeoutMs(*ms),
            Action::RequestStateSync => ActionV::RequestStateSync,
            Action::BroadcastState(p) => ActionV::BroadcastState(p@),
            Action::RecordActivity(p) => ActionV::RecordActivity(p@),
        }
    }
}

pub open spec fn actions_view(a: Seq<Action>) -> Seq<ActionV> {
    a.map_values(|x: Action| x@)
}

/// The parts of the plugin's state that events change, as plain values.
pub struct PluginView {
    pub tabs: Seq<TabV>,
    pub active_tab_idx: usize,
    pub mode: ModeView,
    pub manifest: Seq<(usize, Seq<PaneV>)>,
    pub permissions_granted: bool,
    pub is_selectable: bool,
    pub own_session: Seq<char>,
    pub agents: Map<u32, AgentView>,
    pub frame: u64,
    pub timer_running: bool,
    pub tab_rows: Seq<(usize, usize, usize)>,
}

impl View for PluginState {
    type V = PluginView;

    open spec fn view(&self) -> PluginView {
        PluginView {
            tabs: tabs_view(self.tabs@),
            active_tab_idx: self.active_tab_idx,
            mode: self.mode,
            manifest: self.manifest(),
            permissions_granted: self.permissions_granted,
            is_selectable: self.is_selectable,
            own_session: self.own_session@,
            agents: self.pane_agents@,
            frame: self.frame,
            timer_running: self.timer_running,
            tab_rows: self.tab_rows@,
        }
    }
}

/// Arms the animation timer unless one is armed or nothing animates.
pub open spec fn armed(v: PluginView, style: StyleConfig) -> (PluginView, Seq<ActionV>) {
    if !v.timer_running && any_animated_of(v.agents, anim_pred(&style), v.manifest) {
        (PluginView { timer_running: true, ..v }, seq![ActionV::SetTimeoutMs(style.anim_interval_ms)])
    } else {
        (v, Seq::empty())
    }
}

/// Index of the first active tab, or `ts.len()` when none is.
pub open spec fn first_active(ts: Seq<TabV>) -> nat
    decreases ts.len(),
{
    if ts.len() == 0 {
        0
    } else if ts[0].active {
        0
    } else {
        1 + first_active(ts.drop_first())
    }
}

/// The 1-based position of the tab whose box covers `row`.
pub open spec fn row_hit(tr: Seq<(usize, usize, usize)>, row: usize) -> Option<usize>
    decreases tr.len(),
{
    if tr.len() == 0 {
        None
    } else if tr[0].0 <= row < tr[0].1 {
        Some(tr[0].2)
    } else {
        row_hit(tr.drop_first(), row)
    }
}

/// An event handled once the plugin has its permissions: the next state, whether to
/// redraw, and the actions.
pub open spec fn handled(v: PluginView, style: StyleConfig, ev: EventV) -> (PluginView, bool, Seq<
    ActionV,
>) {
    match ev {
        EventV::PermissionResult(_) => (v, false, Seq::empty()),
        EventV::ModeUpdate(m, differs) => (PluginView { mode: m, ..v }, differs, Seq::empty()),
        EventV::TabUpdate(ts, differs) => {
            let k = first_active(ts);
            let idx = (if k < ts.len() {
                k
            } else {
                0
            }) + 1;
            (
                PluginView { active_tab_idx: idx as usize, tabs: ts, ..v },
                v.active_tab_idx != idx || differs,
                Seq::empty(),
            )
        },
        EventV::PaneUpdate(m) => {
            let (v2, a) = armed(PluginView { manifest: m, ..v }, style);
            (v2, true, a)
        },
        EventV::Timer => {
            let frame = if v.frame == u64::MAX {
                0
            } else {
                (v.frame + 1) as u64
            };
            let v1 = PluginView { timer_running: false, frame, ..v };
            if any_animated_of(v1.agents, anim_pred(&style), v1.manifest) {
                let (v2, a) = armed(v1, style);
                (v2, true, a)
            } else {
                (v1, false, Seq::empty())
            }
        },
        EventV::LeftClick(row) => match row_hit(v.tab_rows, row as usize) {
            Some(i) => (v, true, seq![ActionV::SwitchTab(i as u32)]),
            None => (v, true, Seq::empty()),
        },
        EventV::ScrollUp => {
            let prev = if v.active_tab_idx >= 2 {
                (v.active_tab_idx - 1) as nat
            } else {
                1
            };
            (v, false, seq![ActionV::SwitchTab(prev as u32)])
        },
        EventV::ScrollDown => {
            let next = if v.active_tab_idx + 1 <= v.tabs.len() {
                v.active_tab_idx + 1
            } else {
                v.tabs.len() as int
            };
            (v, false, seq![ActionV::SwitchTab(next as u32)])
        },
        EventV::OtherMouse => (v, false, Seq::empty()),
        EventV::SessionUpdate(ss) => match current_session(ss) {
            Some(name) => if v.own_session != name {
                (PluginView { own_session: name, ..v }, true, Seq::empty())
            } else {
                (v, false, Seq::empty())
            },
            None => (v, false, Seq::empty()),
        },
        EventV::Other => (v, false, Seq::empty()),
    }
}

/// The events `evs` handled in order: the final state and all their actions.
pub open spec fn replayed(v: PluginView, style: StyleConfig, evs: Seq<EventV>) -> (PluginView, Seq<
    ActionV,
>)
    decreases evs.len(),
{
    if evs.len() == 0 {
        (v, Seq::empty())
    } else {
        let (v1, a1) = replayed(v, style, evs.drop_last());
        let (v2, _, a2) = handled(v1, style, evs.last());
        (v2, a1 + a2)
    }
}

/// The parts of the state that events leave alone.
pub open spec fn same_setup(a: &PluginState, b: &PluginState) -> bool {
    &&& a.style == b.style
    &&& a.pending_events == b.pending_events
    &&& a.last_rows == b.last_rows
    &&& a.config_error == b.config_error
}

fn chars_eq(a: &[char], b: &[char]) -> (r: bool)
    ensures
        r == (a@ == b@),
{
    if a.len() != b.len() {
        return false;
    }
    let mut i: usize = 0;
    while i < a.len()
        invariant
            i <= a@.len() == b@.len(),
            forall|k: int| 0 <= k < i ==> a@[k] == b@[k],
        decreases a.len() - i,
    {
        if a[i] != b[i] {
            return false;
        }
        i = i + 1;
    }
    assert(a@ =~= b@);
    true
}

fn take_current_session(sessions: Vec<(Vec<char>, bool)>) -> (r: Option<Vec<char>>)
    ensures
        match current_session(sessions_view(sessions@)) {
            Some(n) => r is Some && r->0@ == n,
            None => r is None,
        },
{
    let ghost sv = sessions_view(sessions@);
    let mut list = sessions;
    let mut i: usize = 0;
    assert(sv.skip(0) =~= sv);
    while i < list.len()
        invariant
            i <= list@.len() == sv.len(),
            sv == sessions_view(list@),
            sv == sessions_view(sessions@),
            current_session(sv) == current_session(sv.skip(i as int)),
        decreases list.len() - i,
    {
        let ghost rest = sv.skip(i as int);
        assert(rest[0] == sv[i as int]);
        assert(rest.drop_first() =~= sv.skip(i + 1));
        if list[i].1 {
            let ghost e = list@[i as int];
            assert(sv[i as int] == (e.0@, e.1));
            assert(rest[0].1);
            assert(current_session(rest) == Some(rest[0].0));
            assert(current_session(sv) == Some(e.0@));
            let (name, _) = list.remove(i);
            assert(name == e.0);
            return Some(name);
        }
        i = i + 1;
    }
    assert(sv.skip(i as int) =~= Seq::<(Seq<char>, bool)>::empty());
    None
}

fn first_active_index(ts: &Vec<TabView>) -> (r: usize)
    ensures
        r == first_active(tabs_view(ts@)),
        r <= ts@.len(),
{
    let ghost tv = tabs_view(ts@);
    let mut i: usize = 0;
    assert(tv.skip(0) =~= tv);
    while i < ts.len()
        invariant
            i <= ts@.len(),
            tv == tabs_view(ts@),
            first_active(tv) == i + first_active(tv.skip(i as int)),
        decreases ts.len() - i,
    {
        let ghost rest = tv.skip(i as int);
        assert(rest[0] == ts@[i as int]@);
        assert(rest.drop_first() =~= tv.skip(i + 1));
        if ts[i].active {
            return i;
        }
        i = i + 1;
    }
    assert(tv.skip(i as int) =~= Seq::<TabV>::empty());
    i
}

impl PluginState {
    /// The 1-based position of the tab drawn at `row` (see [`row_hit`]).
    pub fn get_tab_at_row(&self, row: usize) -> (r: Option<usize>)
        ensures
            r == row_hit(self.tab_rows@, row),
    {
        let mut i: usize = 0;
        assert(self.tab_rows@.skip(0) =~= self.tab_rows@);
        while i < self.tab_rows.len()
            invariant
                i <= self.tab_rows@.len(),
                row_hit(self.tab_rows@, row) == row_hit(self.tab_rows@.skip(i as int), row),
            decreases self.tab_rows.len() - i,
        {
            let ghost rest = self.tab_rows@.skip(i as int);
            assert(rest[0] == self.tab_rows@[i as int]);
            assert(rest.drop_first() =~= self.tab_rows@.skip(i + 1));
            let (start, end, tab_index) = self.tab_rows[i];
            if row >= start && row < end {
                return Some(tab_index);
            }
            i = i + 1;
        }
        None
    }

    fn arm(&mut self) -> (r: Vec<Action>)
        requires
            old(self).wf(),
        ensures
            final(self).wf(),
            same_setup(final(self), old(self)),
            final(self)@ == armed(old(self)@, old(self).style).0,
            actions_view(r@) == armed(old(self)@, old(self).style).1,
    {
        let mut acts: Vec<Action> = Vec::new();
        match self.arm_timer() {
            Some(a) => {
                acts.push(a);
            },
            None => {},
        }
        assert(final(self)@ =~= armed(old(self)@, old(self).style).0) by {
            assert(self.tabs == old(self).tabs);
        }
        assert(actions_view(acts@) =~= armed(old(self)@, old(self).style).1);
        acts
    }

    /// Handles an event once the plugin has its permissions (see [`handled`]).
    pub fn handle_event(&mut self, ev: Event) -> (r: (bool, Vec<Action>))
        requires
            old(self).wf(),
        ensures
            final(self).wf(),
            same_setup(final(self), old(self)),
            final(self)@ == handled(old(self)@, old(self).style, ev@).0,
            r.0 == handled(old(self)@, old(self).style, ev@).1,
            actions_view(r.1@) == handled(old(self)@, old(self).style, ev@).2,
    {
        let ghost v = self@;
        let ghost evv = ev@;
        let mut acts: Vec<Action> = Vec::new();
        assert(actions_view(acts@) =~= Seq::<ActionV>::empty());
        match ev {
            Event::PermissionResult(_) => (false, acts),
            Event::ModeUpdate(m, differs) => {
                self.mode = m;
                assert(self@ =~= handled(v, self.style, evv).0);
                (differs, acts)
            },
            Event::TabUpdate(tabs, differs) => {
                let k = first_active_index(&tabs);
                let idx = if k < tabs.len() {
                    k + 1
                } else {
                    1
                };
                let changed = self.active_tab_idx != idx || differs;
                self.active_tab_idx = idx;
                self.tabs = tabs;
                assert(self@ =~= handled(v, self.style, evv).0);
                (changed, acts)
            },
            Event::PaneUpdate(m) => {
                self.panes = m;
                let a = self.arm();
                (true, a)
            },
            Event::Timer => {
                self.timer_running = false;
                self.frame = self.frame.wrapping_add(1);
                let ghost v1 = self@;
                if self.any_animated() {
                    let a = self.arm();
                    (true, a)
                } else {
                    (false, acts)
                }
            },
            Event::LeftClick(row) => {
                if let Some(idx) = self.get_tab_at_row(row as usize) {
                    acts.push(Action::SwitchTab(idx as u32));
                }
                assert(actions_view(acts@) =~= handled(v, self.style, evv).2);
                (true, acts)
            },
            Event::ScrollUp => {
                let prev = if self.active_tab_idx >= 2 {
                    self.active_tab_idx - 1
                } else {
                    1
                };
                acts.push(Action::SwitchTab(prev as u32));
                assert(actions_view(acts@) =~= handled(v, self.style, evv).2);
                (false, acts)
            },
            Event::ScrollDown => {
                let next = if self.active_tab_idx < self.tabs.len() {
                    self.active_tab_idx + 1
                } else {
                    self.tabs.len()
                };
                acts.push(Action::SwitchTab(next as u32));
                assert(actions_view(acts@) =~= handled(v, self.style, evv).2);
                (false, acts)
            },
            Event::OtherMouse => (false, acts),
            Event::SessionUpdate(sessions) => {
                match take_current_session(sessions) {
                    Some(n) => {
                        if !chars_eq(self.own_session.as_slice(), n.as_slice()) {
                            self.own_session = n;
                            assert(self@ =~= handled(v, self.style, evv).0);
                            (true, acts)
                        } else {
                            (false, acts)
                        }
                    },
                    None => (false, acts),
                }
            },
            Event::Other => (false, acts),
        }
    }
}

pub open spec fn events_view(evs: Seq<Event>) -> Seq<EventV> {
    evs.map_values(|e: Event| e@)
}

/// `update`: a permission result grants (replaying the queued events, then asking for a
/// redraw) or is ignored; any other event is queued until permission is granted, and
/// handled once it is.
pub open spec fn updated(
    v: PluginView,
    style: StyleConfig,
    pending: Seq<EventV>,
    ev: EventV,
) -> (PluginView, Seq<EventV>, bool, Seq<ActionV>) {
    match ev {
        EventV::PermissionResult(granted) => if granted {
            let v1 = PluginView { permissions_granted: true, is_selectable: false, ..v };
            let (v2, a) = replayed(v1, style, pending);
            (
                v2,
                Seq::empty(),
                true,
                seq![ActionV::SetSelectable(false), ActionV::RequestStateSync] + a,
            )
        } else {
            (v, pending, false, Seq::empty())
        },
        _ => if !v.permissions_granted {
            (v, pending.push(ev), false, Seq::empty())
        } else {
            let (v2, render, a) = handled(v, style, ev);
            (v2, pending, render, a)
        },
    }
}

impl PluginState {
    /// Handles an event from Zellij (see [`updated`]).
    pub fn update(&mut self, ev: Event) -> (r: (bool, Vec<Action>))
        requires
            old(self).wf(),
        ensures
            final(self).wf(),
            final(self).style == old(self).style,
            final(self).last_rows == old(self).last_rows,
            final(self).config_error == old(self).config_error,
            ({
                let u = updated(
                    old(self)@,
                    old(self).style,
                    events_view(old(self).pending_events@),
                    ev@,
                );
                &&& final(self)@ == u.0
                &&& events_view(final(self).pending_events@) == u.1
                &&& r.0 == u.2
                &&& actions_view(r.1@) == u.3
            }),
    {
        let ghost v = self@;
        let ghost pend = events_view(self.pending_events@);
        let ghost evv = ev@;
        match ev {
            Event::PermissionResult(granted) => {
                if granted {
                    self.permissions_granted = true;
                    self.is_selectable = false;
                    let mut acts: Vec<Action> = Vec::new();
                    acts.push(Action::SetSelectable(false));
                    acts.push(Action::RequestStateSync);
                    let ghost v1 = self@;
                    assert(v1 =~= PluginView { permissions_granted: true, is_selectable: false, ..v });
                    let ghost head = actions_view(acts@);
                    assert(head =~= seq![ActionV::SetSelectable(false), ActionV::RequestStateSync]);
                    let ghost style = self.style;
                    let ghost mut k: int = 0;
                    assert(pend.take(0) =~= Seq::<EventV>::empty());
                    assert(head + Seq::<ActionV>::empty() =~= head);
                    while self.pending_events.len() > 0
                        invariant
                            self.wf(),
                            self.style == style,
                            self.last_rows == old(self).last_rows,
                            self.config_error == old(self).config_error,
                            0 <= k <= pend.len(),
                            events_view(self.pending_events@) == pend.skip(k as int),
                            self@ == replayed(v1, style, pend.take(k as int)).0,
                            actions_view(acts@) == head + replayed(v1, style, pend.take(k as int)).1,
                        decreases self.pending_events.len(),
                    {
                        let ghost pv0 = self.pending_events@;
                        assert(events_view(pv0).len() == pv0.len());
                        assert(k < pend.len());
                        let e = self.pending_events.remove(0);
                        assert(e == pv0[0]);
                        assert(events_view(pv0)[0] == e@);
                        assert(pend.skip(k as int)[0] == pend[k as int]);
                        assert forall|i: int| 0 <= i < pend.len() - k - 1 implies #[trigger] events_view(self.pending_events@)[i] == pend.skip(k + 1)[i] by {
                            assert(self.pending_events@[i] == pv0[i + 1]);
                            assert(events_view(pv0)[i + 1] == pend.skip(k as int)[i + 1]);
                        }
                        assert(events_view(self.pending_events@) =~= pend.skip(k + 1));
                        let (_, a) = self.handle_event(e);
                        let mut a = a;
                        let ghost acts0 = acts@;
                        let ghost a0 = a@;
                        acts.append(&mut a);
                        assert(actions_view(acts@) =~= actions_view(acts0) + actions_view(a0));
                        assert(pend.take(k + 1).drop_last() =~= pend.take(k as int));
                        assert(pend.take(k + 1).last() == pend[k as int]);
                        proof {
                            k = k + 1;
                        }
                        assert(actions_view(acts@) =~= head + replayed(v1, style, pend.take(k as int)).1);
                    }
                    assert(pend.skip(k as int).len() == 0);
                    assert(pend.take(k as int) =~= pend);
                    assert(events_view(self.pending_events@) =~= Seq::<EventV>::empty());
                    (true, acts)
                } else {
                    let acts: Vec<Action> = Vec::new();
                    assert(actions_view(acts@) =~= Seq::<ActionV>::empty());
                    (false, acts)
                }
            },
            _ => {
                if !self.permissions_granted {
                    self.pending_events.push(ev);
                    assert(events_view(self.pending_events@) =~= pend.push(evv));
                    let acts: Vec<Action> = Vec::new();
                    assert(actions_view(acts@) =~= Seq::<ActionV>::empty());
                    (false, acts)
                } else {
                    self.handle_event(ev)
                }
            },
        }
    }
}

/// A pipe message: the state it leaves, whether to redraw, and the actions.
/// `listing` is the recorded agents in pane-id order (the source of a state dump).
pub open spec fn piped(
    v: PluginView,
    listing: Seq<(u32, AgentView)>,
    style: StyleConfig,
    name: Seq<char>,
    payload: Option<Seq<char>>,
) -> (PluginView, bool, Seq<ActionV>) {
    if name == "set_selectable"@ {
        match payload {
            Some(p) => if p == "true"@ {
                (PluginView { is_selectable: true, ..v }, false, seq![ActionV::SetSelectable(true)])
            } else if p == "false"@ {
                (PluginView { is_selectable: false, ..v }, false, seq![ActionV::SetSelectable(false)])
            } else {
                (v, false, Seq::empty())
            },
            None => (v, false, Seq::empty()),
        }
    } else if name == "toggle_selectable"@ {
        (
            PluginView { is_selectable: !v.is_selectable, ..v },
            false,
            seq![ActionV::SetSelectable(!v.is_selectable)],
        )
    } else if name == "activity"@ {
        match payload {
            Some(p) => (v, false, seq![ActionV::RecordActivity(p)]),
            None => (v, false, Seq::empty()),
        }
    } else if name == "agent_state"@ {
        match payload {
            Some(p) => {
                let (v2, a) = armed(PluginView { agents: applied(v.agents, p), ..v }, style);
                (v2, true, a)
            },
            None => (v, false, Seq::empty()),
        }
    } else if name == "zat_sync_request"@ {
        (
            v,
            false,
            if listing.len() > 0 {
                seq![ActionV::BroadcastState(joined_lines(listing))]
            } else {
                Seq::empty()
            },
        )
    } else if name == "zat_sync_state"@ {
        match payload {
            Some(p) => {
                let (v2, a) = armed(
                    PluginView { agents: applied_lines(v.agents, split_on(p, Sep::Char('\n'))), ..v },
                    style,
                );
                (v2, true, a)
            },
            None => (v, false, Seq::empty()),
        }
    } else {
        (v, false, Seq::empty())
    }
}

pub open spec fn payload_view(p: Option<Vec<char>>) -> Option<Seq<char>> {
    match p {
        Some(x) => Some(x@),
        None => None,
    }
}

impl PluginState {
    /// Handles a pipe message (see [`piped`]). An activity report is handed on as an
    /// action; whoever records it decides whether that needs a redraw.
    pub fn pipe(&mut self, name: &[char], payload: Option<Vec<char>>) -> (r: (bool, Vec<Action>))
        requires
            old(self).wf(),
        ensures
            final(self).wf(),
            same_setup(final(self), old(self)),
            ({
                let p = piped(
                    old(self)@,
                    old(self).pane_agents.listing(),
                    old(self).style,
                    name@,
                    payload_view(payload),
                );
                &&& final(self)@ == p.0
                &&& r.0 == p.1
                &&& actions_view(r.1@) == p.2
            }),
    {
        let ghost v = self@;
        let ghost pv = payload_view(payload);
        let mut acts: Vec<Action> = Vec::new();
        assert(actions_view(acts@) =~= Seq::<ActionV>::empty());
        if eq_lit(name, "set_selectable") {
            match payload {
                Some(p) => {
                    if eq_lit(p.as_slice(), "true") {
                        self.is_selectable = true;
                        acts.push(Action::SetSelectable(true));
                    } else if eq_lit(p.as_slice(), "false") {
                        self.is_selectable = false;
                        acts.push(Action::SetSelectable(false));
                    }
                },
                None => {},
            }
            assert(self@ =~= piped(v, old(self).pane_agents.listing(), self.style, name@, pv).0);
            assert(actions_view(acts@) =~= piped(v, old(self).pane_agents.listing(), self.style, name@, pv).2);
            (false, acts)
        } else if eq_lit(name, "toggle_selectable") {
            self.is_selectable = !self.is_selectable;
            acts.push(Action::SetSelectable(self.is_selectable));
            assert(self@ =~= piped(v, old(self).pane_agents.listing(), self.style, name@, pv).0);
            assert(actions_view(acts@) =~= piped(v, old(self).pane_agents.listing(), self.style, name@, pv).2);
            (false, acts)
        } else if eq_lit(name, "activity") {
            match payload {
                Some(p) => {
                    acts.push(Action::RecordActivity(p));
                },
                None => {},
            }
            assert(actions_view(acts@) =~= piped(v, old(self).pane_agents.listing(), self.style, name@, pv).2);
            (false, acts)
        } else if eq_lit(name, "agent_state") {
            match payload {
                Some(p) => {
                    self.pane_agents.apply_state_payload(p.as_slice());
                    assert(self@ =~= PluginView { agents: applied(v.agents, p@), ..v });
                    let a = self.arm();
                    (true, a)
                },
                None => (false, acts),
            }
        } else if eq_lit(name, "zat_sync_request") {
            match self.pane_agents.sync_payload() {
                Some(p) => {
                    acts.push(Action::BroadcastState(p));
                },
                None => {},
            }
            assert(actions_view(acts@) =~= piped(v, old(self).pane_agents.listing(), self.style, name@, pv).2);
            (false, acts)
        } else if eq_lit(name, "zat_sync_state") {
            match payload {
                Some(p) => {
                    self.pane_agents.apply_sync_state(p.as_slice());
                    assert(self@ =~= PluginView {
                        agents: applied_lines(v.agents, split_on(p@, Sep::Char('\n'))),
                        ..v
                    });
                    let a = self.arm();
                    (true, a)
                },
                None => (false, acts),
            }
        } else {
            (false, acts)
        }
    }
}

impl PluginState {
    /// A plugin that has just started: no tabs, panes or agents yet, the default style,
    /// and no permissions.
    pub fn new(mode: ModeView) -> (r: PluginState)
        ensures
            r.wf(),
            r.tabs@.len() == 0,
            r.active_tab_idx == 0,
            r.mode == mode,
            r.panes@.len() == 0,
            r.style.is_default(),
            r.last_rows == 0,
            !r.permissions_granted,
            !r.is_selectable,
            r.pending_events@.len() == 0,
            r.own_session@.len() == 0,
            r.pane_agents@ == Map::<u32, AgentView>::empty(),
            r.frame == 0,
            !r.timer_running,
            r.tab_rows@.len() == 0,
            r.config_error is None,
    {
        PluginState {
            tabs: Vec::new(),
            active_tab_idx: 0,
            mode,
            panes: Vec::new(),
            style: StyleConfig::default(),
            last_rows: 0,
            permissions_granted: false,
            is_selectable: false,
            pending_events: Vec::new(),
            own_session: Vec::new(),
            pane_agents: AgentStore::new(),
            frame: 0,
            timer_running: false,
            tab_rows: Vec::new(),
            config_error: None,
        }
    }

    /// Reads the plugin's settings (see [`StyleConfig::load`]) and records the
    /// configuration error that overlapping state and focus channels make.
    pub fn load(&mut self, cfg: &[(Vec<char>, Vec<char>)])
        requires
            old(self).wf(),
        ensures
            final(self).wf(),
            final(self)@ == old(self)@,
            final(self).style.loaded_from(&old(self).style, cfg.deep_view()),
            match conflict_message(final(self).style.state_style, final(self).style.focus_style) {
                Some(m) => final(self).config_error is Some && final(self).config_error->0@ == m,
                None => final(self).config_error is None,
            },
            final(self).pending_events == old(self).pending_events,
            final(self).last_rows == old(self).last_rows,
    {
        self.style.load(cfg);
        self.config_error = self.style.conflict();
    }

    /// Draws the plugin: nothing before permissions are granted, the error banner while
    /// the configuration is invalid, nothing without tabs, else the tab bar, whose box
    /// rows are kept for clicks. Returns the rows to print.
    pub fn render(&mut self, rows: usize, cols: usize) -> (r: Vec<Vec<char>>)
        requires
            old(self).wf(),
        ensures
            final(self).wf(),
            final(self).last_rows == rows,
            final(self)@ == (PluginView { tab_rows: final(self).tab_rows@, ..old(self)@ }),
            final(self).style == old(self).style,
            final(self).pending_events == old(self).pending_events,
            final(self).config_error == old(self).config_error,
            !old(self).permissions_granted ==> r@.len() == 0 && final(self).tab_rows@
                == old(self).tab_rows@,
            old(self).permissions_granted && old(self).config_error is Some ==> r.deep_view()
                == error_lines(rows as nat, cols as nat, old(self).config_error->0@)
                && final(self).tab_rows@ == old(self).tab_rows@,
            old(self).permissions_granted && old(self).config_error is None && old(self).tabs@.len()
                == 0 ==> r@.len() == 0 && final(self).tab_rows@ == old(self).tab_rows@,
            old(self).permissions_granted && old(self).config_error is None && old(self).tabs@.len()
                > 0 ==> r.deep_view() == old(self).vertical(rows as nat, cols as nat).0
                && final(self).tab_rows@ == old(self).vertical(rows as nat, cols as nat).1,
    {
        let out: Vec<Vec<char>>;
        if !self.permissions_granted {
            out = Vec::new();
        } else {
            match &self.config_error {
                Some(err) => {
                    out = render_error(rows, cols, err.as_slice());
                },
                None => {
                    if self.tabs.len() == 0 {
                        out = Vec::new();
                    } else {
                        let (lines, tr) = self.vertical_lines(rows, cols);
                        self.tab_rows = tr;
                        out = lines;
                    }
                },
            }
        }
        self.last_rows = rows;
        out
    }
}

/// Row ranges that start at or after `lo`, each ending where or before the next starts.
pub open spec fn ranges_ordered(tr: Seq<(usize, usize, usize)>, lo: nat) -> bool {
    &&& forall|j: int| 0 <= j < tr.len() ==> lo <= (#[trigger] tr[j]).0 <= tr[j].1
    &&& forall|j: int, k: int| 0 <= j < k < tr.len() ==> (#[trigger] tr[j]).1 <= (#[trigger] tr[k]).0
}

proof fn lemma_boxes_ordered(
    s: PluginState,
    i: nat,
    end: nat,
    lines: Seq<Seq<char>>,
    rows: nat,
    cols: nat,
)
    requires
        rows <= usize::MAX,
    ensures
        ranges_ordered(s.boxes_from(i, end, lines, rows, cols).1, lines.len()),
        forall|j: int|
            0 <= j < s.boxes_from(i, end, lines, rows, cols).1.len() ==> (#[trigger] s.boxes_from(
                i,
                end,
                lines,
                rows,
                cols,
            ).1[j]).1 <= s.boxes_from(i, end, lines, rows, cols).0.len(),
        forall|j: int|
            0 <= j < s.boxes_from(i, end, lines, rows, cols).1.len() ==> 1 <= (#[trigger] s.boxes_from(
                i,
                end,
                lines,
                rows,
                cols,
            ).1[j]).2 <= s.tabs@.len(),
    decreases end - i,
{
    if i >= end || lines.len() >= rows {
    } else if i >= s.tabs@.len() {
        lemma_boxes_ordered(s, i + 1, end, lines, rows, cols);
    } else {
        let t = s.tabs@[i as int]@;
        let st = tab_agent_of(s.pane_agents@, s.style.state_priority@, s.manifest(), t.position).0;
        let bl = s.box_lines(
            tab_number(i, s.style.start_index),
            t.active,
            st,
            s.box_name(t),
            cols,
            s.box_height(),
        );
        let room = (rows - lines.len()) as nat;
        let lines2 = lines + (if bl.len() <= room {
            bl
        } else {
            bl.take(room as int)
        });
        assert(lines2.len() <= rows);
        lemma_boxes_ordered(s, i + 1, end, lines2, rows, cols);
        s.lemma_boxes_bounded(i + 1, end, lines2, rows, cols);
        let rest = s.boxes_from(i + 1, end, lines2, rows, cols);
        assert(i + 1 <= s.tabs.len());
        let e = (lines.len() as usize, lines2.len() as usize, (i + 1) as usize);
        assert(e.2 == i + 1);
        let tr = seq![e] + rest.1;
        assert(s.boxes_from(i, end, lines, rows, cols).1 == tr);
        assert forall|j: int| 0 <= j < tr.len() implies lines.len() <= (#[trigger] tr[j]).0 <= tr[j].1
            && 1 <= tr[j].2 <= s.tabs@.len() && tr[j].1 <= rest.0.len() by {
            if j > 0 {
                assert(tr[j] == rest.1[j - 1]);
            }
        }
        assert forall|j: int, k: int| 0 <= j < k < tr.len() implies (#[trigger] tr[j]).1 <= (
        #[trigger] tr[k]).0 by {
            assert(tr[k] == rest.1[k - 1]);
            if j > 0 {
                assert(tr[j] == rest.1[j - 1]);
            }
        }
    }
}

proof fn lemma_row_hit_ordered(tr: Seq<(usize, usize, usize)>, lo: nat, k: int, row: usize)
    requires
        ranges_ordered(tr, lo),
        0 <= k < tr.len(),
        tr[k].0 <= row < tr[k].1,
    ensures
        row_hit(tr, row) == Some(tr[k].2),
    decreases k,
{
    if k > 0 {
        let rest = tr.drop_first();
        assert(tr[0].1 <= tr[k].0);
        assert(rest[k - 1] == tr[k]);
        assert(ranges_ordered(rest, lo)) by {
            assert forall|j: int| 0 <= j < rest.len() implies lo <= (#[trigger] rest[j]).0 <= rest[j].1 by {
                assert(rest[j] == tr[j + 1]);
            }
            assert forall|j: int, m: int| 0 <= j < m < rest.len() implies (#[trigger] rest[j]).1 <= (
            #[trigger] rest[m]).0 by {
                assert(rest[j] == tr[j + 1]);
                assert(rest[m] == tr[m + 1]);
            }
        }
        lemma_row_hit_ordered(rest, lo, k - 1, row);
    }
}

/// A row that the row ranges map to a tab lies in a range kept for that tab; a row in
/// no range maps to none.
proof fn lemma_row_hit_found(tr: Seq<(usize, usize, usize)>, row: usize)
    ensures
        row_hit(tr, row) is Some ==> exists|k: int|
            0 <= k < tr.len() && (#[trigger] tr[k]).0 <= row < tr[k].1 && tr[k].2 == row_hit(
                tr,
                row,
            )->0,
        (forall|k: int| 0 <= k < tr.len() ==> !((#[trigger] tr[k]).0 <= row < tr[k].1)) ==> row_hit(
            tr,
            row,
        ) is None,
    decreases tr.len(),
{
    if tr.len() > 0 {
        let rest = tr.drop_first();
        lemma_row_hit_found(rest, row);
        if !(tr[0].0 <= row < tr[0].1) && row_hit(tr, row) is Some {
            let k = choose|k: int|
                0 <= k < rest.len() && (#[trigger] rest[k]).0 <= row < rest[k].1 && rest[k].2 == row_hit(
                    rest,
                    row,
                )->0;
            assert(tr[k + 1] == rest[k]);
        }
        assert forall|k: int| 0 <= k < rest.len() implies rest[k] == tr[k + 1] by {}
    }
}

/// A click selects a tab only on a row of a box drawn for it, and nowhere else: a row
/// that the kept row ranges map to a tab lies in a range kept for that tab; the rows
/// above the boxes (the top padding, and the overflow line when tabs are hidden above)
/// and the rows from the end of the last box down (the overflow line when tabs are
/// hidden below, the blank filler rows, and any row past the pane) select nothing, so a
/// click there asks for no action.
pub proof fn lemma_click_outside_boxes(
    s: PluginState,
    rows: usize,
    cols: usize,
    click: isize,
    style: StyleConfig,
)
    ensures
        ({
            let tr = s.vertical(rows as nat, cols as nat).1;
            let v = PluginView { tab_rows: tr, ..s@ };
            let row = click as usize;
            &&& row_hit(tr, row) is Some ==> exists|k: int|
                0 <= k < tr.len() && (#[trigger] tr[k]).0 <= row < tr[k].1 && tr[k].2 == row_hit(
                    tr,
                    row,
                )->0
            &&& (row < s.head_lines(rows as nat, cols as nat).len() || row >= s.boxed_lines(
                rows as nat,
                cols as nat,
            ).len()) ==> row_hit(tr, row) is None && handled(v, style, EventV::LeftClick(click)).2
                == Seq::<ActionV>::empty()
            &&& s.head_lines(rows as nat, cols as nat).len() <= rows ==> s.boxed_lines(
                rows as nat,
                cols as nat,
            ).len() <= rows
        }),
{
    let (start, end, above, below) = s.window(rows as nat);
    let l1 = s.head_lines(rows as nat, cols as nat);
    lemma_boxes_ordered(s, start as nat, end as nat, l1, rows as nat, cols as nat);
    let tr = s.vertical(rows as nat, cols as nat).1;
    assert(tr == s.boxes_from(start as nat, end as nat, l1, rows as nat, cols as nat).1);
    lemma_row_hit_found(tr, click as usize);
    if l1.len() <= rows {
        s.lemma_boxes_bounded(start as nat, end as nat, l1, rows as nat, cols as nat);
    }
}

/// A left click on a row of a tab box that the tab bar drew (the row ranges that
/// rendering keeps) switches to that box's tab, a position among the plugin's tabs.
pub proof fn lemma_click_selects_drawn_tab(
    s: PluginState,
    rows: usize,
    cols: usize,
    k: int,
    click: isize,
    style: StyleConfig,
)
    requires
        0 <= k < s.vertical(rows as nat, cols as nat).1.len(),
        s.vertical(rows as nat, cols as nat).1[k].0 <= (click as usize) < s.vertical(
            rows as nat,
            cols as nat,
        ).1[k].1,
    ensures
        ({
            let tr = s.vertical(rows as nat, cols as nat).1;
            let v = PluginView { tab_rows: tr, ..s@ };
            &&& 1 <= tr[k].2 <= s.tabs@.len()
            &&& row_hit(tr, click as usize) == Some(tr[k].2)
            &&& handled(v, style, EventV::LeftClick(click)).2 == seq![ActionV::SwitchTab(tr[k].2 as u32)]
        }),
{
    let (start, end, above, below) = s.window(rows as nat);
    let pad = Seq::new(s.style.padding_top as nat, |i: int| repeat_char(' ', cols as nat));
    let l1 = if above > 0 {
        pad.push(s.overflow_line(s.style.overflow_above@, above as nat, cols as nat))
    } else {
        pad
    };
    lemma_boxes_ordered(s, start as nat, end as nat, l1, rows as nat, cols as nat);
    let tr = s.vertical(rows as nat, cols as nat).1;
    assert(tr == s.boxes_from(start as nat, end as nat, l1, rows as nat, cols as nat).1);
    lemma_row_hit_ordered(tr, l1.len(), k, click as usize);
}

/// Toggling selectability twice gives the state back, and each toggle asks Zellij for
/// the value it sets.
pub proof fn lemma_toggle_twice(
    v: PluginView,
    listing: Seq<(u32, AgentView)>,
    style: StyleConfig,
    payload: Option<Seq<char>>,
)
    ensures
        ({
            let once = piped(v, listing, style, "toggle_selectable"@, payload);
            let twice = piped(once.0, listing, style, "toggle_selectable"@, payload);
            &&& twice.0 == v
            &&& once.2 == seq![ActionV::SetSelectable(!v.is_selectable)]
            &&& twice.2 == seq![ActionV::SetSelectable(v.is_selectable)]
        }),
{
    reveal_strlit("toggle_selectable");
    reveal_strlit("set_selectable");
    assert("toggle_selectable"@ != "set_selectable"@) by {
        assert("toggle_selectable"@.len() != "set_selectable"@.len());
    }
    let once = piped(v, listing, style, "toggle_selectable"@, payload);
    assert(once.0 == PluginView { is_selectable: !v.is_selectable, ..v });
    assert(piped(once.0, listing, style, "toggle_selectable"@, payload).0 =~= v);
}

/// A copy of the plugin that asks for the others' state catches up: a peer answers the
/// request with its state dump (nothing when it records nothing), changing nothing of its
/// own, and the asking copy that reads the dump takes over every pane the peer records
/// (see [`synced`]), keeping the panes the peer does not know. Agent tags and labels must
/// not hold a field separator or a line break.
pub proof fn lemma_peer_catch_up(
    peer: PluginState,
    fresh: PluginView,
    fresh_listing: Seq<(u32, AgentView)>,
    style: StyleConfig,
    request: Option<Seq<char>>,
)
    requires
        peer.wf(),
        forall|i: int|
            0 <= i < peer.pane_agents.listing().len() ==> clean_text(
                (#[trigger] peer.pane_agents.listing()[i]).1.1,
            ) && clean_text(peer.pane_agents.listing()[i].1.2),
    ensures
        ({
            let l = peer.pane_agents.listing();
            let asked = piped(peer@, l, peer.style, "zat_sync_request"@, request);
            &&& asked.0 == peer@
            &&& !asked.1
            &&& l.len() == 0 ==> asked.2 == Seq::<ActionV>::empty()
            &&& l.len() > 0 ==> asked.2 == seq![ActionV::BroadcastState(joined_lines(l))]
            &&& l.len() > 0 ==> {
                let read = piped(fresh, fresh_listing, style, "zat_sync_state"@, Some(joined_lines(l)));
                &&& read.0.agents == synced(fresh.agents, peer.pane_agents@)
                &&& read.1
            }
        }),
{
    reveal_strlit("set_selectable");
    reveal_strlit("toggle_selectable");
    reveal_strlit("activity");
    reveal_strlit("agent_state");
    reveal_strlit("zat_sync_request");
    reveal_strlit("zat_sync_state");
    assert("zat_sync_request"@ != "set_selectable"@ && "zat_sync_request"@ != "toggle_selectable"@
        && "zat_sync_request"@ != "activity"@ && "zat_sync_request"@ != "agent_state"@) by {
        assert("zat_sync_request"@.len() != "set_selectable"@.len());
        assert("zat_sync_request"@.len() != "toggle_selectable"@.len());
        assert("zat_sync_request"@.len() != "activity"@.len());
        assert("zat_sync_request"@.len() != "agent_state"@.len());
    }
    assert("zat_sync_state"@ != "set_selectable"@ && "zat_sync_state"@ != "toggle_selectable"@
        && "zat_sync_state"@ != "activity"@ && "zat_sync_state"@ != "agent_state"@
        && "zat_sync_state"@ != "zat_sync_request"@) by {
        assert("zat_sync_state"@[0] != "set_selectable"@[0]);
        assert("zat_sync_state"@.len() != "toggle_selectable"@.len());
        assert("zat_sync_state"@.len() != "activity"@.len());
        assert("zat_sync_state"@.len() != "agent_state"@.len());
        assert("zat_sync_state"@.len() != "zat_sync_request"@.len());
    }
    let l = peer.pane_agents.listing();
    peer.pane_agents.lemma_sorted();
    if l.len() > 0 {
        lemma_sync_round_trip(fresh.agents, l);
        let read = piped(fresh, fresh_listing, style, "zat_sync_state"@, Some(joined_lines(l)));
        let v1 = PluginView {
            agents: applied_lines(fresh.agents, split_on(joined_lines(l), Sep::Char('\n'))),
            ..fresh
        };
        assert(read.0 == armed(v1, style).0);
        assert(armed(v1, style).0.agents == v1.agents);
    }
}

/// Timeouts never stack: arming the timer sets a timeout only when none is armed and
/// something animates, and arming it again at once sets none.
pub proof fn lemma_arm_twice(v: PluginView, style: StyleConfig)
    ensures
        ({
            let once = armed(v, style);
            let twice = armed(once.0, style);
            &&& once.1 == (if !v.timer_running && any_animated_of(v.agents, anim_pred(&style), v.manifest) {
                seq![ActionV::SetTimeoutMs(style.anim_interval_ms)]
            } else {
                Seq::<ActionV>::empty()
            })
            &&& once.0.timer_running == (v.timer_running || once.1.len() > 0)
            &&& twice.0 == once.0
            &&& twice.1 == Seq::<ActionV>::empty()
        }),
{
}

/// The animation timer is never counted as armed without a timeout being asked for.
/// Whenever a pipe message or an event leaves the timer running that was not running
/// before, its actions are exactly one request for a timeout of `anim_interval_ms`; a
/// timeout is asked for only when the timer ends up running (and, for a pipe message,
/// only when it was not running before). A state report or a state dump that is read
/// (with a payload) asks for a redraw and leaves the timer running exactly when it
/// was already running or some pane of the manifest now shows an animated state.
pub proof fn lemma_timer_armed_with_timeout(
    v: PluginView,
    listing: Seq<(u32, AgentView)>,
    style: StyleConfig,
    name: Seq<char>,
    payload: Option<Seq<char>>,
    ev: EventV,
)
    ensures
        ({
            let p = piped(v, listing, style, name, payload);
            let t = ActionV::SetTimeoutMs(style.anim_interval_ms);
            &&& !v.timer_running && p.0.timer_running ==> p.2 == seq![t]
            &&& p.2.contains(t) ==> p.0.timer_running && !v.timer_running
            &&& (name == "agent_state"@ || name == "zat_sync_state"@) && payload is Some ==> p.1
                && p.0.manifest == v.manifest && p.0.timer_running == (v.timer_running
                || any_animated_of(p.0.agents, anim_pred(&style), v.manifest))
        }),
        ({
            let h = handled(v, style, ev);
            let t = ActionV::SetTimeoutMs(style.anim_interval_ms);
            &&& !v.timer_running && h.0.timer_running ==> h.2 == seq![t]
            &&& h.2.contains(t) ==> h.0.timer_running
        }),
{
    let t = ActionV::SetTimeoutMs(style.anim_interval_ms);
    reveal_strlit("set_selectable");
    reveal_strlit("toggle_selectable");
    reveal_strlit("activity");
    reveal_strlit("agent_state");
    reveal_strlit("zat_sync_request");
    reveal_strlit("zat_sync_state");
    assert("agent_state"@ != "set_selectable"@ && "agent_state"@ != "toggle_selectable"@
        && "agent_state"@ != "activity"@) by {
        assert("agent_state"@.len() != "set_selectable"@.len());
        assert("agent_state"@.len() != "toggle_selectable"@.len());
        assert("agent_state"@.len() != "activity"@.len());
    }
    assert("zat_sync_state"@ != "set_selectable"@ && "zat_sync_state"@ != "toggle_selectable"@
        && "zat_sync_state"@ != "activity"@ && "zat_sync_state"@ != "agent_state"@
        && "zat_sync_state"@ != "zat_sync_request"@) by {
        assert("zat_sync_state"@[0] != "set_selectable"@[0]);
        assert("zat_sync_state"@.len() != "toggle_selectable"@.len());
        assert("zat_sync_state"@.len() != "activity"@.len());
        assert("zat_sync_state"@.len() != "agent_state"@.len());
        assert("zat_sync_state"@.len() != "zat_sync_request"@.len());
    }
    assert(seq![t].contains(t)) by {
        assert(seq![t][0] == t);
    }
    assert(!Seq::<ActionV>::empty().contains(t));
    let p = piped(v, listing, style, name, payload);
    if p.2.contains(t) {
        let k = choose|k: int| 0 <= k < p.2.len() && p.2[k] == t;
        assert(p.2[k] == t);
    }
    let h = handled(v, style, ev);
    if h.2.contains(t) {
        let k = choose|k: int| 0 <= k < h.2.len() && h.2[k] == t;
        assert(h.2[k] == t);
    }
}

} // verus!
