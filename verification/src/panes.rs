//! What the plugin reads of Zellij's panes, tabs and theme, as plain values, and the
//! rules that derive a pane's and a tab's state from them.

use vstd::prelude::*;

use crate::agent::AgentState;
use crate::color::ColorSpec;
use crate::store::AgentView;
use crate::text::has_prefix;

verus! {

/// The parts of a pane that the plugin reads.
#[derive(Debug)]
pub struct PaneView {
    pub id: u32,
    pub is_plugin: bool,
    pub is_focused: bool,
    pub title: Vec<char>,
    /// The command of a command pane.
    pub terminal_command: Option<Vec<char>>,
    pub exited: bool,
    pub is_held: bool,
    pub exit_status: Option<i32>,
}

/// A pane as plain values.
pub struct PaneV {
    pub id: u32,
    pub is_plugin: bool,
    pub is_focused: bool,
    pub title: Seq<char>,
    pub command: Option<Seq<char>>,
    pub exited: bool,
    pub is_held: bool,
    pub exit_status: Option<i32>,
}

impl View for PaneView {
    type V = PaneV;

    open spec fn view(&self) -> PaneV {
        PaneV {
            id: self.id,
            is_plugin: self.is_plugin,
            is_focused: self.is_focused,
            title: self.title@,
            command: match self.terminal_command {
                Some(c) => Some(c@),
                None => None,
            },
            exited: self.exited,
            is_held: self.is_held,
            exit_status: self.exit_status,
        }
    }
}

/// The parts of a tab that the plugin reads.
#[derive(Debug)]
pub struct TabView {
    pub position: usize,
    pub name: Vec<char>,
    pub active: bool,
    pub is_fullscreen_active: bool,
    pub is_sync_panes_active: bool,
}

/// A tab as plain values.
pub struct TabV {
    pub position: usize,
    pub name: Seq<char>,
    pub active: bool,
    pub is_fullscreen_active: bool,
    pub is_sync_panes_active: bool,
}

impl View for TabView {
    type V = TabV;

    open spec fn view(&self) -> TabV {
        TabV {
            position: self.position,
            name: self.name@,
            active: self.active,
            is_fullscreen_active: self.is_fullscreen_active,
            is_sync_panes_active: self.is_sync_panes_active,
        }
    }
}

/// The theme colours the plugin draws with (the `base` of each theme entry).
#[derive(Clone, Copy, PartialEq, Eq, Structural, Debug)]
pub struct ThemeColors {
    pub frame_selected: ColorSpec,
    pub frame_unselected: Option<ColorSpec>,
    pub exit_code_success: ColorSpec,
    pub exit_code_error: ColorSpec,
}

/// The parts of Zellij's mode information that the plugin reads.
#[derive(Clone, Copy, PartialEq, Eq, Structural, Debug)]
pub struct ModeView {
    /// Whether the input mode is `RenameTab`.
    pub rename_tab: bool,
    pub colors: ThemeColors,
}

/// The pane manifest: tab position to the panes of that tab.
pub open spec fn manifest_view(m: Seq<(usize, Vec<PaneView>)>) -> Seq<(usize, Seq<PaneV>)> {
    m.map_values(|e: (usize, Vec<PaneView>)| (e.0, e.1@.map_values(|p: PaneView| p@)))
}

/// The panes of the first manifest entry for `pos`, if any.
pub open spec fn panes_of(m: Seq<(usize, Seq<PaneV>)>, pos: usize) -> Option<Seq<PaneV>>
    decreases m.len(),
{
    if m.len() == 0 {
        None
    } else if m[0].0 == pos {
        Some(m[0].1)
    } else {
        panes_of(m.drop_first(), pos)
    }
}

/// `pane_state`: a state reported through the pipe wins (with its label); else a command
/// pane is `Working` while it runs, and once it exited or is held `Done` on exit status 0
/// or none, `Error` on any other (with the command as its label); other panes have none.
pub open spec fn pane_state_of(agents: Map<u32, AgentView>, p: PaneV) -> Option<
    (AgentState, Seq<char>),
> {
    if agents.contains_key(p.id) {
        Some((agents[p.id].0, agents[p.id].2))
    } else if p.command is Some {
        let st = if p.exited || p.is_held {
            match p.exit_status {
                Some(code) => if code == 0 {
                    AgentState::Done
                } else {
                    AgentState::Error
                },
                None => AgentState::Done,
            }
        } else {
            AgentState::Working
        };
        Some((st, p.command->0))
    } else {
        None
    }
}

/// Index of the first `s` in `order`, or `order.len()` when there is none.
pub open spec fn state_index(order: Seq<AgentState>, s: AgentState) -> nat
    decreases order.len(),
{
    if order.len() == 0 {
        0
    } else if order[0] == s {
        0
    } else {
        1 + state_index(order.drop_first(), s)
    }
}

pub proof fn lemma_state_index(order: Seq<AgentState>, s: AgentState, k: int)
    requires
        0 <= k <= order.len(),
        forall|m: int| 0 <= m < k ==> order[m] != s,
        k == order.len() || order[k] == s,
    ensures
        state_index(order, s) == k,
    decreases k,
{
    if k > 0 {
        lemma_state_index(order.drop_first(), s, k - 1);
    }
}

/// `prio`: the position of `s` in the priority order, or `usize::MAX` when absent.
pub open spec fn prio_of(order: Seq<AgentState>, s: AgentState) -> usize {
    if state_index(order, s) < order.len() {
        state_index(order, s) as usize
    } else {
        usize::MAX
    }
}

/// The best candidate among the panes `ps`: the first pane (not a plugin) with a state
/// whose priority no later pane beats strictly.
pub open spec fn best_pane(
    agents: Map<u32, AgentView>,
    order: Seq<AgentState>,
    ps: Seq<PaneV>,
) -> Option<(AgentState, Seq<char>)>
    decreases ps.len(),
{
    if ps.len() == 0 {
        None
    } else {
        let best = best_pane(agents, order, ps.drop_last());
        let p = ps.last();
        if p.is_plugin {
            best
        } else {
            match pane_state_of(agents, p) {
                Some((st, label)) => match best {
                    None => Some((st, label)),
                    Some((bs, bl)) => if prio_of(order, st) < prio_of(order, bs) {
                        Some((st, label))
                    } else {
                        Some((bs, bl))
                    },
                },
                None => best,
            }
        }
    }
}

/// `tab_agent`: the aggregated state of the tab at `pos` and its label (`None` when empty).
pub open spec fn tab_agent_of(
    agents: Map<u32, AgentView>,
    order: Seq<AgentState>,
    m: Seq<(usize, Seq<PaneV>)>,
    pos: usize,
) -> (AgentState, Option<Seq<char>>) {
    let best = match panes_of(m, pos) {
        Some(ps) => best_pane(agents, order, ps),
        None => None,
    };
    match best {
        Some((s, label)) => (
            s,
            if label.len() == 0 {
                None
            } else {
                Some(label)
            },
        ),
        None => (AgentState::Idle, None),
    }
}

/// Whether some pane (not a plugin) of the manifest has a state that animates under `anim`.
pub open spec fn any_animated_of(
    agents: Map<u32, AgentView>,
    anim: spec_fn(AgentState) -> bool,
    m: Seq<(usize, Seq<PaneV>)>,
) -> bool {
    exists|t: int, i: int|
        0 <= t < m.len() && 0 <= i < m[t].1.len() && !(#[trigger] m[t].1[i]).is_plugin
            && match pane_state_of(agents, m[t].1[i]) {
            Some((st, _)) => anim(st),
            None => false,
        }
}

/// The title of the first focused pane (not a plugin), unless it is a placeholder
/// (`Pane #…`, `Tab #…` or empty).
pub open spec fn focused_title(ps: Seq<PaneV>) -> Option<Seq<char>>
    decreases ps.len(),
{
    if ps.len() == 0 {
        None
    } else if ps[0].is_focused && !ps[0].is_plugin {
        let t = ps[0].title;
        if has_prefix(t, "Pane #"@) || has_prefix(t, "Tab #"@) || t.len() == 0 {
            None
        } else {
            Some(t)
        }
    } else {
        focused_title(ps.drop_first())
    }
}

/// `get_focused_pane_title` for the tab at `pos`.
pub open spec fn focused_pane_title(m: Seq<(usize, Seq<PaneV>)>, pos: usize) -> Option<Seq<char>> {
    match panes_of(m, pos) {
        Some(ps) => focused_title(ps),
        None => None,
    }
}

/// `tab_display_name`: an explicit tab name, else the focused pane's title, else `…`.
pub open spec fn display_name(m: Seq<(usize, Seq<PaneV>)>, t: TabV) -> Seq<char> {
    if !has_prefix(t.name, "Tab #"@) && t.name.len() > 0 {
        t.name
    } else {
        match focused_pane_title(m, t.position) {
            Some(x) => x,
            None => "…"@,
        }
    }
}

/// The pane at `i` counts for its tab's state: it is not a plugin and has a state.
pub open spec fn counts(agents: Map<u32, AgentView>, ps: Seq<PaneV>, i: int) -> bool {
    !ps[i].is_plugin && pane_state_of(agents, ps[i]) is Some
}

/// The state of a counting pane.
pub open spec fn state_at(agents: Map<u32, AgentView>, ps: Seq<PaneV>, i: int) -> AgentState {
    match pane_state_of(agents, ps[i]) {
        Some((st, _)) => st,
        None => AgentState::Idle,
    }
}

/// The label of a counting pane.
pub open spec fn label_at(agents: Map<u32, AgentView>, ps: Seq<PaneV>, i: int) -> Seq<char> {
    match pane_state_of(agents, ps[i]) {
        Some((_, l)) => l,
        None => Seq::empty(),
    }
}

/// The position of the best pane (see [`best_pane`]), or -1 when no pane counts.
pub open spec fn best_index(agents: Map<u32, AgentView>, order: Seq<AgentState>, ps: Seq<PaneV>) -> int
    decreases ps.len(),
{
    if ps.len() == 0 {
        -1
    } else {
        let qs = ps.drop_last();
        let n = ps.len() - 1;
        let b = best_index(agents, order, qs);
        if !counts(agents, ps, n) {
            b
        } else if b < 0 {
            n
        } else if prio_of(order, state_at(agents, ps, n)) < prio_of(order, state_at(agents, qs, b)) {
            n
        } else {
            b
        }
    }
}

proof fn lemma_prefix_panes(agents: Map<u32, AgentView>, ps: Seq<PaneV>)
    requires
        ps.len() > 0,
    ensures
        forall|j: int|
            0 <= j < ps.len() - 1 ==> #[trigger] counts(agents, ps, j) == counts(
                agents,
                ps.drop_last(),
                j,
            ) && state_at(agents, ps, j) == state_at(agents, ps.drop_last(), j) && ps[j]
                == ps.drop_last()[j],
{
}

proof fn lemma_best_index_found(agents: Map<u32, AgentView>, order: Seq<AgentState>, ps: Seq<PaneV>)
    ensures
        best_index(agents, order, ps) < ps.len(),
        best_index(agents, order, ps) >= 0 ==> counts(agents, ps, best_index(agents, order, ps)),
        best_index(agents, order, ps) < 0 ==> best_index(agents, order, ps) == -1,
        best_pane(agents, order, ps) == (if best_index(agents, order, ps) < 0 {
            None
        } else {
            pane_state_of(agents, ps[best_index(agents, order, ps)])
        }),
        best_index(agents, order, ps) < 0 <==> forall|j: int|
            0 <= j < ps.len() ==> !#[trigger] counts(agents, ps, j),
    decreases ps.len(),
{
    if ps.len() > 0 {
        let qs = ps.drop_last();
        let n = ps.len() - 1;
        lemma_best_index_found(agents, order, qs);
        lemma_prefix_panes(agents, ps);
        assert(ps.last() == ps[n]);
        let b = best_index(agents, order, qs);
        if b >= 0 {
            assert(counts(agents, ps, b));
            assert(ps[b] == qs[b]);
        }
        if best_index(agents, order, ps) < 0 {
            assert forall|j: int| 0 <= j < ps.len() implies !#[trigger] counts(agents, ps, j) by {
                if j < n {
                    assert(!counts(agents, qs, j));
                }
            }
        }
    }
}

proof fn lemma_best_index_least(agents: Map<u32, AgentView>, order: Seq<AgentState>, ps: Seq<PaneV>)
    ensures
        forall|j: int|
            0 <= j < ps.len() && counts(agents, ps, j) ==> prio_of(
                order,
                state_at(agents, ps, best_index(agents, order, ps)),
            ) <= prio_of(order, #[trigger] state_at(agents, ps, j)),
        forall|j: int|
            0 <= j < best_index(agents, order, ps) && counts(agents, ps, j) ==> prio_of(
                order,
                state_at(agents, ps, best_index(agents, order, ps)),
            ) < prio_of(order, #[trigger] state_at(agents, ps, j)),
    decreases ps.len(),
{
    if ps.len() > 0 {
        let qs = ps.drop_last();
        let n = ps.len() - 1;
        lemma_best_index_least(agents, order, qs);
        lemma_best_index_found(agents, order, qs);
        lemma_prefix_panes(agents, ps);
        let b = best_index(agents, order, qs);
        if b >= 0 {
            assert(state_at(agents, ps, b) == state_at(agents, qs, b));
        }
        assert forall|j: int| 0 <= j < ps.len() && counts(agents, ps, j) implies prio_of(
            order,
            state_at(agents, ps, best_index(agents, order, ps)),
        ) <= prio_of(order, #[trigger] state_at(agents, ps, j)) by {
            if j < n {
                assert(counts(agents, qs, j));
            }
        }
        assert forall|j: int| 0 <= j < best_index(agents, order, ps) && counts(agents, ps, j) implies prio_of(
            order,
            state_at(agents, ps, best_index(agents, order, ps)),
        ) < prio_of(order, #[trigger] state_at(agents, ps, j)) by {
            assert(counts(agents, qs, j));
        }
    }
}

/// The best pane is the first pane (not a plugin) with a state that no such pane
/// outranks in `order`: none has a strictly better priority, every one before it a strictly
/// worse one. Without such panes there is none.
pub proof fn lemma_best_pane(agents: Map<u32, AgentView>, order: Seq<AgentState>, ps: Seq<PaneV>)
    ensures
        ({
            let i = best_index(agents, order, ps);
            &&& best_pane(agents, order, ps) == (if i < 0 {
                None
            } else {
                pane_state_of(agents, ps[i])
            })
            &&& i < 0 <==> forall|j: int| 0 <= j < ps.len() ==> !#[trigger] counts(agents, ps, j)
            &&& i >= 0 ==> i < ps.len() && counts(agents, ps, i)
            &&& forall|j: int|
                0 <= j < ps.len() && counts(agents, ps, j) ==> prio_of(order, state_at(agents, ps, i))
                    <= prio_of(order, #[trigger] state_at(agents, ps, j))
            &&& forall|j: int|
                0 <= j < i && counts(agents, ps, j) ==> prio_of(order, state_at(agents, ps, i))
                    < prio_of(order, #[trigger] state_at(agents, ps, j))
        }),
{
    lemma_best_index_found(agents, order, ps);
    lemma_best_index_least(agents, order, ps);
}

/// A tab shows the most urgent state among its panes: the state of one of its panes
/// (not plugins) that none of them outranks in `order`, the first such pane on a tie, with
/// that pane's label when it has one; a tab without such panes is `Idle` and unlabelled.
pub proof fn lemma_tab_state_most_urgent(
    agents: Map<u32, AgentView>,
    order: Seq<AgentState>,
    m: Seq<(usize, Seq<PaneV>)>,
    pos: usize,
)
    ensures
        ({
            let r = tab_agent_of(agents, order, m, pos);
            match panes_of(m, pos) {
                Some(ps) => {
                    let i = best_index(agents, order, ps);
                    if i < 0 {
                        &&& forall|j: int| 0 <= j < ps.len() ==> !#[trigger] counts(agents, ps, j)
                        &&& r == (AgentState::Idle, None::<Seq<char>>)
                    } else {
                        &&& i < ps.len() && counts(agents, ps, i)
                        &&& r.0 == state_at(agents, ps, i)
                        &&& r.1 == (if label_at(agents, ps, i).len() == 0 {
                            None
                        } else {
                            Some(label_at(agents, ps, i))
                        })
                        &&& forall|j: int|
                            0 <= j < ps.len() && counts(agents, ps, j) ==> prio_of(order, r.0)
                                <= prio_of(order, #[trigger] state_at(agents, ps, j))
                        &&& forall|j: int|
                            0 <= j < i && counts(agents, ps, j) ==> prio_of(order, r.0) < prio_of(
                                order,
                                #[trigger] state_at(agents, ps, j),
                            )
                    }
                },
                None => r == (AgentState::Idle, None::<Seq<char>>),
            }
        }),
{
    match panes_of(m, pos) {
        Some(ps) => {
            lemma_best_pane(agents, order, ps);
        },
        None => {},
    }
}

/// A state reported through the pipe for a pane wins over what Zellij's pane
/// information would give it, and the tab label is the reported one.
pub proof fn lemma_report_overrides_native(agents: Map<u32, AgentView>, p: PaneV)
    requires
        agents.contains_key(p.id),
    ensures
        pane_state_of(agents, p) == Some((agents[p.id].0, agents[p.id].2)),
{
}

} // verus!
