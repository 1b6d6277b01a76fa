//! The index of an analysis: the ids of the tasks or experiments in the
//! order that gives each its bit, with a table to look a position up.
use vstd::prelude::*;
use std::collections::HashMap;

verus! {

broadcast use vstd::std_specs::hash::group_hash_axioms;

/// The position of `id` in `ids`, if it occurs there.
pub open spec fn position_of(ids: Seq<i32>, id: i32) -> Option<usize> {
    if ids.contains(id) {
        Some(ids.index_of(id) as usize)
    } else {
        None
    }
}

/// Ids in a fixed order, each once, with the position of each. The index is
/// built for one analysis and dropped with it.
pub struct Positions {
    ids: Vec<i32>,
    lookup: HashMap<i32, usize>,
}

impl View for Positions {
    type V = Seq<i32>;

    closed spec fn view(&self) -> Seq<i32> {
        self.ids@
    }
}

impl Positions {
    #[verifier::type_invariant]
    spec fn inv(self) -> bool {
        &&& self.ids@.no_duplicates()
        &&& forall|i: int|
            0 <= i < self.ids@.len() ==> self.lookup@.contains_key(#[trigger] self.ids@[i])
                && self.lookup@[self.ids@[i]] == i
        &&& forall|id: i32| self.lookup@.contains_key(id) ==> self.ids@.contains(id)
    }

    /// The index of the ids in the order given. An id that came before is
    /// left out.
    pub fn new(ids: &Vec<i32>) -> (r: Positions)
        ensures
            ids@.no_duplicates() ==> r@ == ids@,
            r@.no_duplicates(),
            forall|id: i32| r@.contains(id) <==> ids@.contains(id),
    {
        let mut kept: Vec<i32> = Vec::new();
        let mut lookup: HashMap<i32, usize> = HashMap::new();
        let mut i: usize = 0;
        while i < ids.len()
            invariant
                i <= ids.len(),
                kept@.len() <= i,
                kept@.no_duplicates(),
                forall|j: int|
                    0 <= j < kept@.len() ==> lookup@.contains_key(#[trigger] kept@[j]) && lookup@[kept@[j]]
                        == j,
                forall|id: i32| lookup@.contains_key(id) ==> kept@.contains(id),
                forall|id: i32| kept@.contains(id) <==> ids@.take(i as int).contains(id),
                ids@.no_duplicates() ==> kept@ == ids@.take(i as int),
            decreases ids.len() - i,
        {
            let id = ids[i];
            let ghost before = kept@;
            let ghost seen = ids@.take(i as int);
            let ghost more = ids@.take(i + 1);
            assert(more =~= seen.push(id));
            if !lookup.contains_key(&id) {
                lookup.insert(id, kept.len());
                kept.push(id);
                proof {
                    assert forall|x: i32| kept@.contains(x) <==> more.contains(x) by {
                        if before.contains(x) {
                            let j = choose|j: int| 0 <= j < before.len() && before[j] == x;
                            assert(kept@[j] == x);
                            let n = choose|n: int| 0 <= n < seen.len() && seen[n] == x;
                            assert(more[n] == x);
                        }
                        if x == id {
                            assert(kept@[before.len() as int] == x);
                            assert(more[i as int] == x);
                        }
                        if kept@.contains(x) {
                            let j = choose|j: int| 0 <= j < kept@.len() && kept@[j] == x;
                            if j < before.len() {
                                assert(before[j] == x);
                            }
                        }
                        if more.contains(x) {
                            let n = choose|n: int| 0 <= n < more.len() && more[n] == x;
                            if n < i {
                                assert(seen[n] == x);
                            }
                        }
                    }
                    assert forall|x: i32| lookup@.contains_key(x) implies kept@.contains(x) by {
                        if x != id {
                            assert(before.contains(x));
                            let j = choose|j: int| 0 <= j < before.len() && before[j] == x;
                            assert(kept@[j] == x);
                        } else {
                            assert(kept@[before.len() as int] == x);
                        }
                    }
                    assert(!before.contains(id));
                }
            } else {
                proof {
                    assert(before.contains(id));
                    let n = choose|n: int| 0 <= n < seen.len() && seen[n] == id;
                    assert(ids@[n] == id && ids@[i as int] == id);
                    assert forall|x: i32| kept@.contains(x) <==> more.contains(x) by {
                        if seen.contains(x) {
                            let n = choose|n: int| 0 <= n < seen.len() && seen[n] == x;
                            assert(more[n] == x);
                        }
                        if more.contains(x) {
                            let n = choose|n: int| 0 <= n < more.len() && more[n] == x;
                            if n < i {
                                assert(seen[n] == x);
                            }
                        }
                    }
                }
            }
            i += 1;
        }
        assert(ids@.take(ids.len() as int) =~= ids@);
        Positions { ids: kept, lookup }
    }

    /// The number of ids.
    pub fn len(&self) -> (n: usize)
        ensures
            n == self@.len(),
    {
        self.ids.len()
    }

    /// The position of an id.
    pub fn get(&self, id: i32) -> (r: Option<usize>)
        ensures
            r == position_of(self@, id),
            r matches Some(p) ==> p < self@.len() && self@[p as int] == id,
    {
        proof {
            use_type_invariant(self);
        }
        match self.lookup.get(&id) {
            Some(p) => {
                proof {
                    assert(self.ids@.contains(id));
                    let n = self.ids@.index_of(id);
                    let m = choose|m: int| 0 <= m < self.ids@.len() && self.ids@[m] == id;
                    assert(self.lookup@[self.ids@[n]] == n);
                }
                Some(*p)
            },
            None => {
                proof {
                    if self.ids@.contains(id) {
                        let m = choose|m: int| 0 <= m < self.ids@.len() && self.ids@[m] == id;
                        assert(self.lookup@.contains_key(self.ids@[m]));
                    }
                }
                None
            },
        }
    }
}

} // verus!
