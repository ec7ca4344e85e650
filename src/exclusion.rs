//! The targets under replacement right now. A replacement of a name and
//! type waits until no other replacement of the same name and type runs, so
//! that two delete-then-create sequences never interleave.

use vstd::prelude::*;
use crate::config::name_key;
use crate::types::Domain;
use crate::update::RecordType;

verus! {

/// The record sets being replaced, each held by one request.
#[derive(Debug)]
pub struct Exclusion {
    held: Vec<(Domain, RecordType)>,
}

impl View for Exclusion {
    type V = Set<(Seq<u32>, RecordType)>;

    closed spec fn view(&self) -> Set<(Seq<u32>, RecordType)> {
        Set::new(
            |k: (Seq<u32>, RecordType)|
                exists|i: int|
                    0 <= i < self.held@.len() && (name_key(self.held@[i].0@), self.held@[i].1) == k,
        )
    }
}

impl Exclusion {
    /// No target is held twice.
    pub closed spec fn wf(&self) -> bool {
        forall|i: int, j: int|
            0 <= i < self.held@.len() && 0 <= j < self.held@.len() && i != j ==> (
            name_key(self.held@[i].0@),
            self.held@[i].1,
            ) != (name_key(self.held@[j].0@), self.held@[j].1)
    }

    /// Nothing held.
    pub fn new() -> (r: Exclusion)
        ensures
            r.wf(),
            r@ == Set::<(Seq<u32>, RecordType)>::empty(),
    {
        let r = Exclusion { held: Vec::new() };
        assert(r@ =~= Set::<(Seq<u32>, RecordType)>::empty());
        r
    }

    fn position(&self, name: &Domain, rtype: RecordType) -> (r: Option<usize>)
        ensures
            r matches Some(i) ==> i < self.held@.len() && name_key(self.held@[i as int].0@)
                == name_key(name@) && self.held@[i as int].1 == rtype,
            r is None ==> !self@.contains((name_key(name@), rtype)),
    {
        let mut i: usize = 0;
        while i < self.held.len()
            invariant
                0 <= i <= self.held@.len(),
                forall|k: int|
                    0 <= k < i ==> (name_key(self.held@[k].0@), self.held@[k].1) != (
                    name_key(name@),
                    rtype,
                    ),
            decreases self.held@.len() - i,
        {
            if self.held[i].1 == rtype && self.held[i].0.same_as(name) {
                return Some(i);
            }
            i = i + 1;
        }
        None
    }

    /// Whether the record set of this name and type is held.
    pub fn is_held(&self, name: &Domain, rtype: RecordType) -> (r: bool)
        ensures
            r == self@.contains((name_key(name@), rtype)),
    {
        self.position(name, rtype).is_some()
    }

    /// Takes the record set of this name and type where nobody holds it;
    /// `false`, and nothing changed, where somebody does.
    pub fn claim(&mut self, name: &Domain, rtype: RecordType) -> (r: bool)
        requires
            old(self).wf(),
        ensures
            final(self).wf(),
            r == !old(self)@.contains((name_key(name@), rtype)),
            final(self)@ == old(self)@.insert((name_key(name@), rtype)),
    {
        let ghost k = (name_key(name@), rtype);
        match self.position(name, rtype) {
            Some(_) => {
                assert(self@ =~= old(self)@.insert(k));
                false
            },
            None => {
                self.held.push((Domain(name.0.clone()), rtype));
                assert forall|i: int| 0 <= i < self.held@.len() - 1 implies (
                    name_key(self.held@[i].0@),
                    self.held@[i].1,
                ) != k by {
                    assert(self.held@[i] == old(self).held@[i]);
                }
                assert(self@ =~= old(self)@.insert(k)) by {
                    assert((name_key(self.held@[self.held@.len() - 1].0@), self.held@[self.held@.len() - 1].1) == k);
                    assert forall|x: (Seq<u32>, RecordType)| old(self)@.contains(x) implies self@.contains(x) by {
                        let i = choose|i: int|
                            0 <= i < old(self).held@.len() && (name_key(old(self).held@[i].0@), old(self).held@[i].1) == x;
                        assert(self.held@[i] == old(self).held@[i]);
                    }
                }
                true
            },
        }
    }

    /// Gives the record set of this name and type back.
    pub fn release(&mut self, name: &Domain, rtype: RecordType)
        requires
            old(self).wf(),
        ensures
            final(self).wf(),
            final(self)@ == old(self)@.remove((name_key(name@), rtype)),
    {
        let ghost k = (name_key(name@), rtype);
        match self.position(name, rtype) {
            Some(i) => {
                let ghost before = self.held@;
                self.held.remove(i);
                assert(self@ =~= old(self)@.remove(k)) by {
                    assert forall|x: (Seq<u32>, RecordType)| self@.contains(x) implies old(self)@.contains(x) && x != k by {
                        let j = choose|j: int| 0 <= j < self.held@.len() && (name_key(self.held@[j].0@), self.held@[j].1) == x;
                        if j < i {
                            assert(self.held@[j] == before[j]);
                        } else {
                            assert(self.held@[j] == before[j + 1]);
                        }
                    }
                    assert forall|x: (Seq<u32>, RecordType)| old(self)@.contains(x) && x != k implies self@.contains(x) by {
                        let j = choose|j: int| 0 <= j < before.len() && (name_key(before[j].0@), before[j].1) == x;
                        assert(j != i);
                        if j < i {
                            assert(self.held@[j] == before[j]);
                        } else {
                            assert(self.held@[j - 1] == before[j]);
                        }
                    }
                }
            },
            None => {
                assert(self@ =~= old(self)@.remove(k));
            },
        }
    }
}

} // verus!
