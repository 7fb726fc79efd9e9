//! The `agent_state` protocol: reading a state report into the store, and the full-state
//! dump one copy of the plugin sends so that a newly loaded copy can catch up.

use vstd::prelude::*;

use crate::agent::{lemma_key_parses, state_key, AgentState};
use crate::store::{has_id, lemma_listing_push, listing_map, sorted_ids, AgentStore, AgentView, PaneAgent};
use crate::text::{
    decimal, decimal_chars, is_digit, lemma_decimal, lemma_parse_decimal, lemma_split_concat,
    lemma_split_none, parse_unsigned, parse_unsigned_chars, push_all, push_lit, split_chars,
    split_on, sub_vec, trim, trim_chars, Sep,
};

verus! {

/// The separator of the fields of a report (ASCII unit separator).
pub open spec fn unit_sep() -> char {
    '\u{1f}'
}

/// The store after the report `payload` (`<pane_id>\x1f<state>\x1f<agent>\x1f<label>`):
/// an `idle` (or unknown) state forgets the pane, any other state records it with the
/// agent and label (empty when missing); a report without a numeric pane id and a state
/// changes nothing.
pub open spec fn applied(m: Map<u32, AgentView>, payload: Seq<char>) -> Map<u32, AgentView> {
    let parts = split_on(payload, Sep::Char(unit_sep()));
    if parts.len() >= 2 && parse_unsigned(trim(parts[0]), u32::MAX as nat) is Some {
        let pid = parse_unsigned(trim(parts[0]), u32::MAX as nat)->0 as u32;
        let st = AgentState::parsed(parts[1]);
        if st == AgentState::Idle {
            m.remove(pid)
        } else {
            m.insert(
                pid,
                (
                    st,
                    if parts.len() > 2 {
                        parts[2]
                    } else {
                        Seq::empty()
                    },
                    if parts.len() > 3 {
                        parts[3]
                    } else {
                        Seq::empty()
                    },
                ),
            )
        }
    } else {
        m
    }
}

/// The store after the reports `lines`, in order.
pub open spec fn applied_lines(m: Map<u32, AgentView>, lines: Seq<Seq<char>>) -> Map<
    u32,
    AgentView,
>
    decreases lines.len(),
{
    if lines.len() == 0 {
        m
    } else {
        applied(applied_lines(m, lines.drop_last()), lines.last())
    }
}

fn copy_chars(s: &[char]) -> (r: Vec<char>)
    ensures
        r@ == s@,
{
    let r = sub_vec(s, 0, s.len());
    assert(r@ =~= s@);
    r
}

impl AgentStore {
    /// Reads one state report (see [`applied`]).
    pub fn apply_state_payload(&mut self, payload: &[char])
        requires
            old(self).wf(),
        ensures
            final(self).wf(),
            final(self)@ == applied(old(self)@, payload@),
    {
        let parts = split_chars(payload, Sep::Char('\u{1f}'));
        let ghost pv = parts.deep_view();
        if parts.len() >= 2 {
            assert(parts[0]@ == pv[0]);
            assert(parts[1]@ == pv[1]);
            let t = trim_chars(parts[0].as_slice());
            if let Some(pid) = parse_unsigned_chars(t.as_slice(), 0xffff_ffffu64) {
                let state = AgentState::parse(parts[1].as_slice());
                if state == AgentState::Idle {
                    self.remove(pid as u32);
                } else {
                    let agent = if parts.len() > 2 {
                        assert(parts[2]@ == pv[2]);
                        copy_chars(parts[2].as_slice())
                    } else {
                        Vec::new()
                    };
                    let label = if parts.len() > 3 {
                        assert(parts[3]@ == pv[3]);
                        copy_chars(parts[3].as_slice())
                    } else {
                        Vec::new()
                    };
                    assert(agent@ =~= (if pv.len() > 2 { pv[2] } else { Seq::empty() }));
                    assert(label@ =~= (if pv.len() > 3 { pv[3] } else { Seq::empty() }));
                    self.insert(pid as u32, PaneAgent { state, agent, label });
                }
            }
        }
    }

    /// Reads a full-state dump: newline-separated reports (see [`applied_lines`]).
    pub fn apply_sync_state(&mut self, payload: &[char])
        requires
            old(self).wf(),
        ensures
            final(self).wf(),
            final(self)@ == applied_lines(old(self)@, split_on(payload@, Sep::Char('\n'))),
    {
        let lines = split_chars(payload, Sep::Char('\n'));
        let ghost lv = lines.deep_view();
        let mut i: usize = 0;
        assert(lv.take(0) =~= Seq::<Seq<char>>::empty());
        while i < lines.len()
            invariant
                i <= lines@.len(),
                lv == lines.deep_view(),
                self.wf(),
                self@ == applied_lines(old(self)@, lv.take(i as int)),
            decreases lines.len() - i,
        {
            assert(lv.take(i + 1).drop_last() =~= lv.take(i as int));
            assert(lv.take(i + 1).last() == lines@[i as int]@);
            self.apply_state_payload(lines[i].as_slice());
            i = i + 1;
        }
        assert(lv.take(i as int) =~= lv);
    }
}

// ---------- the state dump ----------

/// The report that re-creates one entry.
pub open spec fn state_line(e: (u32, AgentView)) -> Seq<char> {
    decimal(e.0 as nat) + seq![unit_sep()] + state_key(e.1.0) + seq![unit_sep()] + e.1.1 + seq![
        unit_sep(),
    ] + e.1.2
}

/// The reports of all entries, one per line.
pub open spec fn joined_lines(s: Seq<(u32, AgentView)>) -> Seq<char>
    decreases s.len(),
{
    if s.len() == 0 {
        Seq::empty()
    } else if s.len() == 1 {
        state_line(s[0])
    } else {
        joined_lines(s.drop_last()) + seq!['\n'] + state_line(s.last())
    }
}

impl AgentStore {
    /// The full-state dump, or `None` when nothing is recorded.
    pub fn sync_payload(&self) -> (r: Option<Vec<char>>)
        requires
            self.wf(),
        ensures
            match r {
                Some(p) => self.listing().len() > 0 && p@ == joined_lines(self.listing()),
                None => self.listing().len() == 0,
            },
    {
        if self.is_empty() {
            return None;
        }
        let entries = self.entries();
        let mut out: Vec<char> = Vec::new();
        let mut i: usize = 0;
        let n = entries.len();
        assert(self.listing().take(0) =~= Seq::<(u32, AgentView)>::empty());
        while i < n
            invariant
                i <= n == self.listing().len() == entries@.len(),
                forall|k: int| 0 <= k < entries@.len() ==> (#[trigger] entries@[k]).0 == self.listing()[k].0 && entries@[k].1@ == self.listing()[k].1,
                out@ == joined_lines(self.listing().take(i as int)),
            decreases n - i,
        {
            let (id, pa) = entries[i];
            assert(entries@[i as int].0 == self.listing()[i as int].0);
            let ghost before = out@;
            if i > 0 {
                out.push('\n');
            }
            push_all(&mut out, decimal_chars(id as u64).as_slice());
            out.push('\u{1f}');
            push_lit(&mut out, pa.state.key());
            out.push('\u{1f}');
            push_all(&mut out, pa.agent.as_slice());
            out.push('\u{1f}');
            push_all(&mut out, pa.label.as_slice());
            let ghost t = self.listing().take(i + 1);
            assert(t.drop_last() =~= self.listing().take(i as int));
            assert(t.last() == self.listing()[i as int]);
            if i == 0 {
                assert(out@ =~= state_line(t[0]));
            } else {
                assert(out@ =~= before + seq!['\n'] + state_line(t.last()));
            }
            i = i + 1;
        }
        assert(self.listing().take(n as int) =~= self.listing());
        Some(out)
    }
}

// ---------- the dump reads back ----------

/// Text that holds neither a field separator nor a line break.
pub open spec fn clean_text(t: Seq<char>) -> bool {
    forall|i: int| 0 <= i < t.len() ==> t[i] != unit_sep() && t[i] != '\n'
}

/// `target` after taking over every entry of `src`: an entry in the `Idle` state removes
/// the pane instead.
pub open spec fn synced(target: Map<u32, AgentView>, src: Map<u32, AgentView>) -> Map<
    u32,
    AgentView,
> {
    Map::new(
        |id: u32|
            if src.contains_key(id) {
                src[id].0 != AgentState::Idle
            } else {
                target.contains_key(id)
            },
        |id: u32|
            if src.contains_key(id) {
                src[id]
            } else {
                target[id]
            },
    )
}

proof fn lemma_key_plain(st: AgentState)
    ensures
        forall|i: int|
            0 <= i < state_key(st).len() ==> 'a' <= #[trigger] state_key(st)[i] <= 'z',
{
    reveal_strlit("working");
    reveal_strlit("waiting");
    reveal_strlit("done");
    reveal_strlit("error");
    reveal_strlit("idle");
}

proof fn lemma_line_fields(e: (u32, AgentView))
    requires
        clean_text(e.1.1),
        clean_text(e.1.2),
    ensures
        split_on(state_line(e), Sep::Char(unit_sep())) == seq![
            decimal(e.0 as nat),
            state_key(e.1.0),
            e.1.1,
            e.1.2,
        ],
        split_on(state_line(e), Sep::Char('\n')) == seq![state_line(e)],
{
    let d = decimal(e.0 as nat);
    let k = state_key(e.1.0);
    let a = e.1.1;
    let l = e.1.2;
    let u = unit_sep();
    let us = Sep::Char(u);
    lemma_decimal(e.0 as nat);
    lemma_key_plain(e.1.0);
    assert forall|i: int| 0 <= i < d.len() implies !us.separates(#[trigger] d[i]) && !Sep::Char(
        '\n',
    ).separates(d[i]) by {
        assert(is_digit(d[i]));
    }
    assert forall|i: int| 0 <= i < k.len() implies !us.separates(#[trigger] k[i]) && !Sep::Char(
        '\n',
    ).separates(k[i]) by {
        assert('a' <= k[i] <= 'z');
    }
    lemma_split_none(d, us);
    lemma_split_none(k, us);
    lemma_split_none(a, us);
    lemma_split_none(l, us);
    let x1 = d + seq![u] + k;
    let x2 = x1 + seq![u] + a;
    lemma_split_concat(d, k, us, u);
    lemma_split_concat(x1, a, us, u);
    lemma_split_concat(x2, l, us, u);
    assert(state_line(e) =~= x2 + seq![u] + l);
    assert(split_on(d, us) + split_on(k, us) + split_on(a, us) + split_on(l, us) =~= seq![
        d,
        k,
        a,
        l,
    ]);
    let line = state_line(e);
    assert forall|i: int| 0 <= i < line.len() implies !Sep::Char('\n').separates(
        #[trigger] line[i],
    ) by {
        if i < d.len() {
            assert(line[i] == d[i]);
        } else if i == d.len() {
        } else if i < d.len() + 1 + k.len() {
            assert(line[i] == k[i - d.len() - 1]);
        } else if i == d.len() + 1 + k.len() {
        } else if i < d.len() + 2 + k.len() + a.len() {
            assert(line[i] == a[i - d.len() - 2 - k.len()]);
        } else if i == d.len() + 2 + k.len() + a.len() {
        } else {
            assert(line[i] == l[i - d.len() - 3 - k.len() - a.len()]);
        }
    }
    lemma_split_none(line, Sep::Char('\n'));
}

/// A report of a pane's state, agent and label, read back, records them for the pane;
/// a report of the `Idle` state clears the pane instead. Agent tags and labels must not
/// hold a field separator or a line break.
pub proof fn lemma_report_read_back(m: Map<u32, AgentView>, e: (u32, AgentView))
    requires
        clean_text(e.1.1),
        clean_text(e.1.2),
    ensures
        applied(m, state_line(e)) == (if e.1.0 == AgentState::Idle {
            m.remove(e.0)
        } else {
            m.insert(e.0, e.1)
        }),
{
    lemma_line_fields(e);
    lemma_parse_decimal(e.0 as nat, u32::MAX as nat);
    lemma_key_parses(e.1.0);
}

/// Sending the state dump of a store and reading it back in another store hands that
/// store every recorded pane with its state, agent and label (a pane recorded as `Idle`
/// is removed); other panes keep their state. Agent tags and labels must not hold a
/// field separator or a line break, which would split the dump elsewhere.
pub proof fn lemma_sync_round_trip(target: Map<u32, AgentView>, s: Seq<(u32, AgentView)>)
    requires
        sorted_ids(s),
        forall|i: int| 0 <= i < s.len() ==> clean_text((#[trigger] s[i]).1.1) && clean_text(s[i].1.2),
    ensures
        applied_lines(target, split_on(joined_lines(s), Sep::Char('\n'))) == synced(
            target,
            listing_map(s),
        ),
    decreases s.len(),
{
    if s.len() == 0 {
        let lines = split_on(joined_lines(s), Sep::Char('\n'));
        assert(lines =~= seq![Seq::<char>::empty()]);
        assert(lines.drop_last() =~= Seq::<Seq<char>>::empty());
        assert(split_on(Seq::<char>::empty(), Sep::Char(unit_sep())).len() == 1);
        assert(listing_map(s) =~= Map::<u32, AgentView>::empty());
        assert(synced(target, listing_map(s)) =~= target);
        assert(lines.last() == Seq::<char>::empty());
        assert(applied(target, Seq::<char>::empty()) == target);
        assert(applied_lines(target, lines) == applied(
            applied_lines(target, Seq::<Seq<char>>::empty()),
            Seq::<char>::empty(),
        ));
    } else {
        let s0 = s.drop_last();
        let e = s.last();
        assert(e == s[s.len() - 1]);
        assert(sorted_ids(s0));
        lemma_sync_round_trip(target, s0);
        lemma_line_fields(e);
        let lines0 = split_on(joined_lines(s0), Sep::Char('\n'));
        let lines = split_on(joined_lines(s), Sep::Char('\n'));
        if s.len() == 1 {
            assert(s0 =~= Seq::<(u32, AgentView)>::empty());
            assert(joined_lines(s) == state_line(e));
            assert(lines == seq![state_line(e)]);
        } else {
            lemma_split_concat(joined_lines(s0), state_line(e), Sep::Char('\n'), '\n');
            assert(lines == lines0 + seq![state_line(e)]);
        }
        lemma_report_read_back(applied_lines(target, lines0), e);
        lemma_listing_push(s);
        let src0 = listing_map(s0);
        assert(!src0.contains_key(e.0)) by {
            if has_id(s0, e.0) {
                let i = choose|i: int| 0 <= i < s0.len() && (#[trigger] s0[i]).0 == e.0;
                assert(s[i].0 < s[s.len() - 1].0);
            }
        }
        let m1 = synced(target, src0);
        let expected = if e.1.0 == AgentState::Idle {
            m1.remove(e.0)
        } else {
            m1.insert(e.0, e.1)
        };
        assert(synced(target, src0.insert(e.0, e.1)) =~= expected);
        if s.len() == 1 {
            assert(lines0 =~= seq![Seq::<char>::empty()]);
            assert(applied_lines(target, lines0) == target) by {
                assert(lines0.drop_last() =~= Seq::<Seq<char>>::empty());
                assert(split_on(Seq::<char>::empty(), Sep::Char(unit_sep())).len() == 1);
            }
            assert(src0 =~= Map::<u32, AgentView>::empty());
            assert(m1 =~= target);
            assert(lines.drop_last() =~= Seq::<Seq<char>>::empty());
            assert(lines.last() == state_line(e));
            assert(applied_lines(target, lines.drop_last()) == target);
            assert(applied_lines(target, lines) == applied(target, state_line(e)));
        } else {
            assert(lines.drop_last() =~= lines0);
            assert(lines.last() == state_line(e));
            assert(applied_lines(target, lines) == applied(applied_lines(target, lines0), state_line(e)));
        }
        assert(applied_lines(target, lines) == expected);
        assert(listing_map(s) == src0.insert(e.0, e.1));
    }
}

} // verus!
