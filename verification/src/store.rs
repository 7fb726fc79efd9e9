//! The latest agent state reported for each pane, in a map ordered by pane id.

use std::collections::BTreeMap;
use vstd::prelude::*;
use vstd::std_specs::iter::IteratorSpec;

use crate::agent::AgentState;

verus! {

/// What a pane's reported state holds: the state, the agent tag and the label.
pub type AgentView = (AgentState, Seq<char>, Seq<char>);

/// The latest state reported for a single pane.
#[derive(Debug)]
pub struct PaneAgent {
    pub state: AgentState,
    pub agent: Vec<char>,
    pub label: Vec<char>,
}

impl View for PaneAgent {
    type V = AgentView;

    open spec fn view(&self) -> AgentView {
        (self.state, self.agent@, self.label@)
    }
}

/// Pane id to reported state.
#[derive(Debug)]
pub struct AgentStore {
    map: BTreeMap<u32, PaneAgent>,
}

/// The entries' ids rise strictly.
pub open spec fn sorted_ids(s: Seq<(u32, AgentView)>) -> bool {
    forall|i: int, j: int| 0 <= i < j < s.len() ==> s[i].0 < s[j].0
}

pub open spec fn has_id(s: Seq<(u32, AgentView)>, id: u32) -> bool {
    exists|i: int| 0 <= i < s.len() && (#[trigger] s[i]).0 == id
}

/// The map a sorted listing stands for.
pub open spec fn listing_map(s: Seq<(u32, AgentView)>) -> Map<u32, AgentView> {
    Map::new(
        |id: u32| has_id(s, id),
        |id: u32| s[choose|i: int| 0 <= i < s.len() && (#[trigger] s[i]).0 == id].1,
    )
}

pub proof fn lemma_listing_at(s: Seq<(u32, AgentView)>, i: int)
    requires
        sorted_ids(s),
        0 <= i < s.len(),
    ensures
        listing_map(s).contains_key(s[i].0),
        listing_map(s)[s[i].0] == s[i].1,
{
    let id = s[i].0;
    assert(has_id(s, id));
    let j = choose|j: int| 0 <= j < s.len() && (#[trigger] s[j]).0 == id;
    if j != i {
        if j < i {
            assert(s[j].0 < s[i].0);
        } else {
            assert(s[i].0 < s[j].0);
        }
    }
}

/// A listing holds a pane only once it holds it, the last entry of a sorted listing
/// included.
pub proof fn lemma_listing_push(s: Seq<(u32, AgentView)>)
    requires
        sorted_ids(s),
        s.len() > 0,
    ensures
        listing_map(s) == listing_map(s.drop_last()).insert(s.last().0, s.last().1),
        !listing_map(s.drop_last()).contains_key(s.last().0),
{
    let s0 = s.drop_last();
    let n = s.len() - 1;
    assert(sorted_ids(s0));
    assert forall|id: u32| #[trigger] listing_map(s).contains_key(id) == listing_map(s0).insert(
        s.last().0,
        s.last().1,
    ).contains_key(id) by {
        if has_id(s, id) && id != s.last().0 {
            let i = choose|i: int| 0 <= i < s.len() && (#[trigger] s[i]).0 == id;
            assert(i < n);
            assert(s0[i].0 == id);
        }
        if has_id(s0, id) {
            let i = choose|i: int| 0 <= i < s0.len() && (#[trigger] s0[i]).0 == id;
            assert(s[i].0 == id);
        }
        if id == s.last().0 {
            assert(s[n].0 == id);
        }
    }
    assert forall|id: u32| #[trigger] listing_map(s).contains_key(id) implies listing_map(s)[id]
        == listing_map(s0).insert(s.last().0, s.last().1)[id] by {
        let i = choose|i: int| 0 <= i < s.len() && (#[trigger] s[i]).0 == id;
        lemma_listing_at(s, i);
        if i < n {
            assert(s0[i] == s[i]);
            assert(s[i].0 < s[n].0);
            lemma_listing_at(s0, i);
        }
    }
    assert(listing_map(s) =~= listing_map(s0).insert(s.last().0, s.last().1));
    if has_id(s0, s.last().0) {
        let i = choose|i: int| 0 <= i < s0.len() && (#[trigger] s0[i]).0 == s.last().0;
        assert(s[i].0 < s[n].0);
    }
}

/// Two sorted listings of the same map are the same listing.
pub proof fn lemma_listing_unique(s1: Seq<(u32, AgentView)>, s2: Seq<(u32, AgentView)>)
    requires
        sorted_ids(s1),
        sorted_ids(s2),
        listing_map(s1) == listing_map(s2),
    ensures
        s1 == s2,
    decreases s1.len(),
{
    if s1.len() == 0 || s2.len() == 0 {
        if s1.len() > 0 {
            assert(has_id(s1, s1[0].0));
            assert(listing_map(s2).contains_key(s1[0].0));
        }
        if s2.len() > 0 {
            assert(has_id(s2, s2[0].0));
            assert(listing_map(s1).contains_key(s2[0].0));
        }
        assert(s1 =~= s2);
    } else {
        let n1 = s1.len() - 1;
        let n2 = s2.len() - 1;
        let k1 = s1[n1].0;
        let k2 = s2[n2].0;
        lemma_listing_at(s1, n1);
        lemma_listing_at(s2, n2);
        assert(has_id(s2, k1));
        let j2 = choose|j: int| 0 <= j < s2.len() && (#[trigger] s2[j]).0 == k1;
        if j2 < n2 {
            assert(s2[j2].0 < s2[n2].0);
        }
        assert(has_id(s1, k2));
        let j1 = choose|j: int| 0 <= j < s1.len() && (#[trigger] s1[j]).0 == k2;
        if j1 < n1 {
            assert(s1[j1].0 < s1[n1].0);
        }
        assert(k1 == k2);
        lemma_listing_push(s1);
        lemma_listing_push(s2);
        let m = listing_map(s1);
        assert(listing_map(s1.drop_last()) =~= m.remove(k1));
        assert(listing_map(s2.drop_last()) =~= m.remove(k1));
        assert(sorted_ids(s1.drop_last()));
        assert(sorted_ids(s2.drop_last()));
        lemma_listing_unique(s1.drop_last(), s2.drop_last());
        assert(s1 =~= s1.drop_last().push(s1.last()));
        assert(s2 =~= s2.drop_last().push(s2.last()));
    }
}

/// Every finite map has a sorted listing.
pub proof fn lemma_listing_exists(m: Map<u32, AgentView>)
    requires
        m.dom().finite(),
    ensures
        exists|s: Seq<(u32, AgentView)>| sorted_ids(s) && listing_map(s) == m,
    decreases m.dom().len(),
{
    if m.dom().len() == 0 {
        let s = Seq::<(u32, AgentView)>::empty();
        assert(m.dom() =~= Set::<u32>::empty()) by {
            if exists|k: u32| m.dom().contains(k) {
                let k = choose|k: u32| m.dom().contains(k);
                assert(m.dom().remove(k).len() < m.dom().len());
            }
        }
        assert(listing_map(s) =~= m);
    } else {
        let le = |a: u32, b: u32| a <= b;
        assert(vstd::relations::total_ordering(le));
        let top = m.dom().find_unique_maximal(le);
        m.dom().find_unique_maximal_ensures(le);
        assert(m.dom().contains(top));
        assert(vstd::relations::is_maximal(le, top, m.dom()));
        assert forall|x: u32| m.dom().contains(x) implies x <= top by {
            if !(x <= top) {
                assert(le(top, x));
                assert(le(x, top));
            }
        }
        let m0 = m.remove(top);
        assert(m0.dom() =~= m.dom().remove(top));
        lemma_listing_exists(m0);
        let s0 = choose|s: Seq<(u32, AgentView)>| sorted_ids(s) && listing_map(s) == m0;
        let s = s0.push((top, m[top]));
        assert forall|i: int| 0 <= i < s0.len() implies (#[trigger] s0[i]).0 < top by {
            lemma_listing_at(s0, i);
        }
        assert(sorted_ids(s)) by {
            assert forall|i: int, j: int| 0 <= i < j < s.len() implies s[i].0 < s[j].0 by {
                if j < s0.len() {
                    assert(s[i] == s0[i] && s[j] == s0[j]);
                } else {
                    assert(s[i] == s0[i]);
                }
            }
        }
        lemma_listing_push(s);
        assert(s.drop_last() =~= s0);
        assert(listing_map(s) =~= m);
    }
}

/// The sorted listing of `m`: its entries in increasing id order.
pub open spec fn sorted_listing(m: Map<u32, AgentView>) -> Seq<(u32, AgentView)> {
    choose|s: Seq<(u32, AgentView)>| sorted_ids(s) && listing_map(s) == m
}

proof fn lemma_sorted_listing(m: Map<u32, AgentView>)
    requires
        m.dom().finite(),
    ensures
        sorted_ids(sorted_listing(m)),
        listing_map(sorted_listing(m)) == m,
{
    lemma_listing_exists(m);
}

/// The keys of an ordered map walk rise strictly.
proof fn lemma_walk_rises(all: Seq<(&u32, &PaneAgent)>)
    requires
        vstd::std_specs::btree::key_obeys_cmp_spec::<u32>() ==> vstd::std_specs::btree::increasing_seq(
            all.map_values(|kv: (&u32, &PaneAgent)| *kv.0),
        ),
    ensures
        forall|i: int, j: int| 0 <= i < j < all.len() ==> *all[i].0 < *all[j].0,
{
    assert(vstd::laws_cmp::obeys_cmp::<u32>());
    assert(vstd::std_specs::btree::key_obeys_cmp_spec::<u32>());
    let ks = all.map_values(|kv: (&u32, &PaneAgent)| *kv.0);
    assert(vstd::std_specs::btree::increasing_seq(ks));
    assert forall|i: int, j: int| 0 <= i < j < all.len() implies *all[i].0 < *all[j].0 by {
        assert(ks[i] == *all[i].0);
        assert(ks[j] == *all[j].0);
        assert(vstd::std_specs::cmp::OrdSpec::cmp_spec(&ks[i], &ks[j]) is Less);
    }
}

impl AgentStore {
    /// Pane id to the reported state, agent and label.
    pub closed spec fn view(&self) -> Map<u32, AgentView> {
        self.map@.map_values(|p: PaneAgent| p@)
    }

    /// The entries in increasing id order.
    pub closed spec fn listing(&self) -> Seq<(u32, AgentView)> {
        sorted_listing(self@)
    }

    pub closed spec fn wf(&self) -> bool {
        &&& sorted_ids(self.listing())
        &&& listing_map(self.listing()) == self@
    }

    /// A well-formed store lists its entries, and only them, in strictly increasing id
    /// order.
    pub proof fn lemma_sorted(&self)
        requires
            self.wf(),
        ensures
            sorted_ids(self.listing()),
            listing_map(self.listing()) == self@,
    {
    }

    proof fn lemma_wf(&self)
        ensures
            self.wf(),
    {
        assert(self.map@.dom().finite());
        assert(self@.dom() =~= self.map@.dom());
        lemma_sorted_listing(self@);
    }

    pub fn new() -> (r: AgentStore)
        ensures
            r.wf(),
            r@ == Map::<u32, AgentView>::empty(),
            r.listing() == Seq::<(u32, AgentView)>::empty(),
    {
        let r = AgentStore { map: BTreeMap::new() };
        assert(r@ =~= Map::<u32, AgentView>::empty());
        proof {
            r.lemma_wf();
            let e = Seq::<(u32, AgentView)>::empty();
            assert(listing_map(e) =~= Map::<u32, AgentView>::empty());
            lemma_listing_unique(r.listing(), e);
        }
        r
    }

    pub fn len(&self) -> (n: usize)
        ensures
            n == self@.len(),
    {
        assert(self@.dom() =~= self.map@.dom());
        self.map.len()
    }

    pub fn is_empty(&self) -> (r: bool)
        requires
            self.wf(),
        ensures
            r == (self@ == Map::<u32, AgentView>::empty()),
            r == (self.listing().len() == 0),
    {
        let r = self.map.is_empty();
        proof {
            let l = self.listing();
            if r {
                assert(self@ =~= Map::<u32, AgentView>::empty());
                if l.len() > 0 {
                    assert(has_id(l, l[0].0));
                    assert(self@.contains_key(l[0].0));
                }
            } else {
                let k = choose|k: u32| self.map@.dom().contains(k);
                assert(self@.contains_key(k));
                assert(has_id(l, k));
            }
        }
        r
    }

    /// The entries in increasing id order (see [`AgentStore::listing`]).
    pub fn entries(&self) -> (r: Vec<(u32, &PaneAgent)>)
        requires
            self.wf(),
        ensures
            r@.len() == self.listing().len(),
            forall|i: int| 0 <= i < r@.len() ==> (#[trigger] r@[i]).0 == self.listing()[i].0 && r@[i].1@ == self.listing()[i].1,
    {
        let it = self.map.iter();
        let ghost all = it.remaining();
        let mut out: Vec<(u32, &PaneAgent)> = Vec::new();
        for kv in iter: it
            invariant
                out@.len() == iter.index(),
                iter.seq() == all,
                forall|i: int| 0 <= i < out@.len() ==> (#[trigger] out@[i]).0 == *all[i].0 && out@[i].1 == all[i].1,
        {
            out.push((*kv.0, kv.1));
        }
        proof {
            lemma_walk_rises(all);
            let s0 = Seq::new(all.len(), |i: int| (*all[i].0, (*all[i].1)@));
            assert(sorted_ids(s0));
            assert forall|k: u32| #[trigger] listing_map(s0).contains_key(k) == self@.contains_key(k) by {
                if has_id(s0, k) {
                    let i = choose|i: int| 0 <= i < s0.len() && (#[trigger] s0[i]).0 == k;
                    assert(self.map@.contains_key(*all[i].0));
                }
                if self@.contains_key(k) {
                    assert(self.map@.contains_key(k));
                    assert(all.contains((&k, &self.map@[k])));
                    let i = choose|i: int| 0 <= i < all.len() && all[i] == (&k, &self.map@[k]);
                    assert(s0[i].0 == k);
                }
            }
            assert forall|k: u32| #[trigger] listing_map(s0).contains_key(k) implies listing_map(s0)[k] == self@[k] by {
                let i = choose|i: int| 0 <= i < s0.len() && (#[trigger] s0[i]).0 == k;
                lemma_listing_at(s0, i);
                assert(self.map@[*all[i].0] == *all[i].1);
            }
            assert(listing_map(s0) =~= self@);
            self.lemma_wf();
            lemma_listing_unique(self.listing(), s0);
            assert(out@.len() == all.len());
        }
        out
    }

    pub fn get(&self, id: u32) -> (r: Option<&PaneAgent>)
        ensures
            match r {
                Some(pa) => self@.contains_key(id) && self@[id] == pa@,
                None => !self@.contains_key(id),
            },
    {
        self.map.get(&id)
    }

    /// Sets the state of pane `id`.
    pub fn insert(&mut self, id: u32, pa: PaneAgent)
        requires
            old(self).wf(),
        ensures
            final(self).wf(),
            final(self)@ == old(self)@.insert(id, pa@),
    {
        let ghost v = pa@;
        self.map.insert(id, pa);
        assert(self@ =~= old(self)@.insert(id, v));
        proof {
            self.lemma_wf();
        }
    }

    /// Forgets the state of pane `id`.
    pub fn remove(&mut self, id: u32)
        requires
            old(self).wf(),
        ensures
            final(self).wf(),
            final(self)@ == old(self)@.remove(id),
    {
        self.map.remove(&id);
        assert(self@ =~= old(self)@.remove(id));
        proof {
            self.lemma_wf();
        }
    }
}

} // verus!
