//! Finite sets of directed edges between entities that are named by their ids.

use vstd::prelude::*;

verus! {

/// Whether edge `e` starts at `source` (if one is given) and ends at `target`
/// (if one is given).
pub open spec fn edge_matches(e: (u64, u64), source: Option<u64>, target: Option<u64>) -> bool {
    &&& (source matches Some(a) ==> e.0 == a)
    &&& (target matches Some(b) ==> e.1 == b)
}

/// A set of edges `(source, target)`. The edges carry nothing but their
/// endpoints, so the set is its whole meaning.
pub struct EdgeSet {
    items: Vec<(u64, u64)>,
}

impl View for EdgeSet {
    type V = Set<(u64, u64)>;

    closed spec fn view(&self) -> Set<(u64, u64)> {
        self.items@.to_set()
    }
}

impl EdgeSet {
    /// The empty edge set.
    pub fn new() -> (r: Self)
        ensures
            r@ == Set::<(u64, u64)>::empty(),
    {
        let r = EdgeSet { items: Vec::new() };
        assert(r@ =~= Set::<(u64, u64)>::empty());
        r
    }

    /// Whether the edge `source -> target` is in the set.
    pub fn contains(&self, source: u64, target: u64) -> (r: bool)
        ensures
            r == self@.contains((source, target)),
    {
        let mut i: usize = 0;
        while i < self.items.len()
            invariant
                i <= self.items.len(),
                forall|k: int| 0 <= k < i ==> self.items@[k] != (source, target),
            decreases self.items.len() - i,
        {
            let e = self.items[i];
            if e.0 == source && e.1 == target {
                assert(self.items@[i as int] == (source, target));
                return true;
            }
            i += 1;
        }
        false
    }

    /// Adds the edge `source -> target`. Adding an edge that is there already
    /// changes nothing.
    pub fn insert(&mut self, source: u64, target: u64)
        ensures
            final(self)@ == old(self)@.insert((source, target)),
    {
        if !self.contains(source, target) {
            self.items.push((source, target));
            assert(self@ =~= old(self)@.insert((source, target))) by {
                assert(self.items@ == old(self).items@.push((source, target)));
                assert forall|e: (u64, u64)| self.items@.contains(e) <==> (old(self).items@.contains(e)
                    || e == (source, target)) by {
                    if old(self).items@.contains(e) {
                        let k = choose|k: int| 0 <= k < old(self).items@.len()
                            && old(self).items@[k] == e;
                        assert(self.items@[k] == e);
                    }
                    if e == (source, target) {
                        assert(self.items@[old(self).items@.len() as int] == e);
                    }
                }
            }
        } else {
            assert(self@ =~= old(self)@.insert((source, target)));
        }
    }

    /// Removes every edge that starts at `source` (if given) and ends at
    /// `target` (if given); all other edges stay.
    pub fn remove_matching(&mut self, source: Option<u64>, target: Option<u64>)
        ensures
            final(self)@ == old(self)@.filter(|e: (u64, u64)| !edge_matches(e, source, target)),
    {
        let mut kept: Vec<(u64, u64)> = Vec::new();
        let mut i: usize = 0;
        while i < self.items.len()
            invariant
                i <= self.items.len(),
                self.items@ == old(self).items@,
                forall|k: int|
                    0 <= k < i && !edge_matches(self.items@[k], source, target) ==> kept@.contains(
                        #[trigger] self.items@[k],
                    ),
                forall|j: int|
                    0 <= j < kept@.len() ==> !edge_matches(#[trigger] kept@[j], source, target)
                        && self.items@.contains(kept@[j]),
            decreases self.items.len() - i,
        {
            let e = self.items[i];
            let hit_source = match source {
                Some(a) => e.0 == a,
                None => true,
            };
            let hit_target = match target {
                Some(b) => e.1 == b,
                None => true,
            };
            if !(hit_source && hit_target) {
                let ghost before = kept@;
                kept.push(e);
                proof {
                    assert forall|k: int|
                        0 <= k < i + 1
                            && !edge_matches(self.items@[k], source, target) implies kept@.contains(
                        #[trigger] self.items@[k],
                    ) by {
                        if k < i {
                            let j = choose|j: int| 0 <= j < before.len()
                                && before[j] == self.items@[k];
                            assert(kept@[j] == self.items@[k]);
                        } else {
                            assert(kept@[before.len() as int] == self.items@[k]);
                        }
                    }
                }
            }
            i += 1;
        }
        self.items = kept;
        assert(self@ =~= old(self)@.filter(|e: (u64, u64)| !edge_matches(e, source, target)));
    }

    /// Removes the edge `source -> target`, if it is there.
    pub fn remove(&mut self, source: u64, target: u64)
        ensures
            final(self)@ == old(self)@.remove((source, target)),
    {
        self.remove_matching(Some(source), Some(target));
        assert(self@ =~= old(self)@.remove((source, target)));
    }

    /// The targets of the edges that start at `source`, each once.
    pub fn targets(&self, source: u64) -> (r: Vec<u64>)
        ensures
            r@.no_duplicates(),
            r@.to_set() == Set::new(|t: u64| self@.contains((source, t))),
    {
        let mut out: Vec<u64> = Vec::new();
        let mut i: usize = 0;
        while i < self.items.len()
            invariant
                i <= self.items.len(),
                out@.no_duplicates(),
                forall|k: int|
                    0 <= k < i && self.items@[k].0 == source ==> out@.contains(
                        (#[trigger] self.items@[k]).1,
                    ),
                forall|j: int|
                    0 <= j < out@.len() ==> self.items@.contains((source, #[trigger] out@[j])),
            decreases self.items.len() - i,
        {
            let e = self.items[i];
            if e.0 == source && !has_id(&out, e.1) {
                let ghost before = out@;
                out.push(e.1);
                proof {
                    assert forall|k: int|
                        0 <= k < i + 1 && self.items@[k].0 == source implies out@.contains(
                        (#[trigger] self.items@[k]).1,
                    ) by {
                        if k < i {
                            let j = choose|j: int| 0 <= j < before.len()
                                && before[j] == self.items@[k].1;
                            assert(out@[j] == self.items@[k].1);
                        } else {
                            assert(out@[before.len() as int] == self.items@[k].1);
                        }
                    }
                    assert(self.items@[i as int] == (source, e.1));
                }
            }
            i += 1;
        }
        proof {
            assert forall|t: u64| out@.contains(t) <==> self.items@.contains((source, t)) by {
                if self.items@.contains((source, t)) {
                    let k = choose|k: int| 0 <= k < self.items@.len()
                        && self.items@[k] == (source, t);
                    assert(out@.contains(self.items@[k].1));
                }
            }
            assert(out@.to_set() =~= Set::new(|t: u64| self@.contains((source, t))));
        }
        out
    }
}

/// Whether `id` occurs in `ids`.
pub fn has_id(ids: &Vec<u64>, id: u64) -> (r: bool)
    ensures
        r == ids@.contains(id),
{
    let mut i: usize = 0;
    while i < ids.len()
        invariant
            i <= ids.len(),
            forall|k: int| 0 <= k < i ==> ids@[k] != id,
        decreases ids.len() - i,
    {
        if ids[i] == id {
            return true;
        }
        i += 1;
    }
    false
}

} // verus!
