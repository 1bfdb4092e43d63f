//! A pool of named records that manual directives claim from.
//!
//! Names are registered first; then each record of the data is offered under its
//! name, or under an alias when its name is not registered; finally each directive
//! claims its names. A claimed name cannot be claimed again.

use vstd::prelude::*;

verus! {

/// The state of one registered name.
#[derive(Clone, Copy, PartialEq, Eq, Structural, Debug)]
pub enum Slot {
    /// Registered, no record found for it yet.
    Waiting,
    /// The record at this index was found for it.
    Filled(usize),
    /// A directive has taken it.
    Claimed,
}

/// Why a claim failed.
#[derive(Clone, Copy, PartialEq, Eq, Structural, Debug)]
pub enum ClaimError {
    /// The name was claimed before, or was never registered.
    UsedMoreThanOnce,
    /// No record was found for the name.
    NotFound,
}

/// Two records of the data answer to one registered name.
#[derive(Clone, Copy, PartialEq, Eq, Structural, Debug)]
pub struct FoundTwice;

/// Registered names with the state of each.
pub struct ClaimPool {
    names: Vec<String>,
    slots: Vec<Slot>,
}

impl View for ClaimPool {
    type V = Map<Seq<char>, Slot>;

    closed spec fn view(&self) -> Map<Seq<char>, Slot> {
        Map::new(
            |n: Seq<char>| exists|i: int| 0 <= i < self.names.len() && #[trigger] self.names[i]@ == n,
            |n: Seq<char>| self.slots[choose|i: int| 0 <= i < self.names.len() && #[trigger] self.names[i]@ == n],
        )
    }
}

impl ClaimPool {
    /// Names are unique and each has a state.
    pub closed spec fn wf(&self) -> bool {
        &&& self.names.len() == self.slots.len()
        &&& forall|i: int, j: int|
            0 <= i < self.names.len() && 0 <= j < self.names.len() && #[trigger] self.names[i]@
                == #[trigger] self.names[j]@ ==> i == j
    }

    proof fn lemma_at(&self, i: int)
        requires
            self.wf(),
            0 <= i < self.names.len(),
        ensures
            self@.dom().contains(self.names[i]@),
            self@[self.names[i]@] == self.slots[i],
    {
        let n = self.names[i]@;
        assert(self@.dom().contains(n));
        let j = choose|j: int| 0 <= j < self.names.len() && #[trigger] self.names[j]@ == n;
        assert(self.names[j]@ == self.names[i]@);
    }

    /// An empty pool.
    pub fn new() -> (r: Self)
        ensures
            r.wf(),
            r@ == Map::<Seq<char>, Slot>::empty(),
    {
        let r = ClaimPool { names: Vec::new(), slots: Vec::new() };
        assert(r@ =~= Map::<Seq<char>, Slot>::empty());
        r
    }

    fn find(&self, name: &String) -> (r: Option<usize>)
        requires
            self.wf(),
        ensures
            match r {
                Some(i) => i < self.names.len() && self.names[i as int]@ == name@,
                None => !self@.dom().contains(name@),
            },
    {
        let mut i: usize = 0;
        while i < self.names.len()
            invariant
                self.wf(),
                i <= self.names.len(),
                forall|k: int| 0 <= k < i ==> self.names[k]@ != name@,
            decreases self.names.len() - i,
        {
            if self.names[i] == *name {
                return Some(i);
            }
            i = i + 1;
        }
        None
    }

    proof fn lemma_set(old_pool: &Self, new_pool: &Self, i: int, s: Slot)
        requires
            old_pool.wf(),
            0 <= i < old_pool.names.len(),
            new_pool.names@ == old_pool.names@,
            new_pool.slots@ == old_pool.slots@.update(i, s),
        ensures
            new_pool.wf(),
            new_pool@ == old_pool@.insert(old_pool.names[i]@, s),
    {
        let n = old_pool.names[i]@;
        assert forall|m: Seq<char>| #[trigger] new_pool@.dom().contains(m) implies new_pool@[m]
            == old_pool@.insert(n, s)[m] by {
            let j = choose|j: int| 0 <= j < new_pool.names.len() && #[trigger] new_pool.names[j]@ == m;
            new_pool.lemma_at(j);
            old_pool.lemma_at(j);
        }
        assert(old_pool@.dom().contains(n)) by { old_pool.lemma_at(i); }
        assert(new_pool@ =~= old_pool@.insert(n, s));
    }

    /// Registers `name`, waiting for its record; a name registered before is left as it is.
    pub fn register(&mut self, name: String)
        requires
            old(self).wf(),
        ensures
            final(self).wf(),
            final(self)@ == if old(self)@.dom().contains(name@) {
                old(self)@
            } else {
                old(self)@.insert(name@, Slot::Waiting)
            },
    {
        if self.find(&name).is_some() {
            return;
        }
        let ghost old_pool = *self;
        let ghost n = name@;
        self.names.push(name);
        self.slots.push(Slot::Waiting);
        let last = self.names.len() - 1;
        assert forall|i: int, j: int|
            0 <= i < self.names.len() && 0 <= j < self.names.len() && #[trigger] self.names[i]@
                == #[trigger] self.names[j]@ implies i == j by {
            if i < last && j == last {
                assert(old_pool@.dom().contains(old_pool.names[i]@)) by { old_pool.lemma_at(i); }
            }
            if j < last && i == last {
                assert(old_pool@.dom().contains(old_pool.names[j]@)) by { old_pool.lemma_at(j); }
            }
        }
        assert forall|m: Seq<char>| #[trigger] self@.dom().contains(m) implies self@[m]
            == old_pool@.insert(n, Slot::Waiting)[m] by {
            let j = choose|j: int| 0 <= j < self.names.len() && #[trigger] self.names[j]@ == m;
            self.lemma_at(j);
            if j < last {
                old_pool.lemma_at(j);
            }
        }
        assert forall|m: Seq<char>| #[trigger] old_pool@.dom().contains(m) implies self@.dom().contains(m) by {
            let j = choose|j: int| 0 <= j < old_pool.names.len() && #[trigger] old_pool.names[j]@ == m;
            assert(self.names[j]@ == m);
        }
        assert(self.names[last as int]@ == n);
        assert(self@ =~= old_pool@.insert(n, Slot::Waiting));
    }
    /// Offers the record at index `record` of the data, known as `name` and as `alias`.
    /// It goes to `name` when that is registered, else to `alias` when that is; it is
    /// taken (`Ok(true)`) when the slot was waiting, and is an error when the slot
    /// already had a record. A record that answers to no registered name is passed
    /// over (`Ok(false)`).
    pub fn offer(&mut self, name: &String, alias: &String, record: usize) -> (r: Result<bool, FoundTwice>)
        requires
            old(self).wf(),
        ensures
            final(self).wf(),
            ({
                let target = if old(self)@.dom().contains(name@) { name@ } else { alias@ };
                if !old(self)@.dom().contains(target) {
                    r == Ok::<bool, FoundTwice>(false) && final(self)@ == old(self)@
                } else if old(self)@[target] == Slot::Waiting {
                    r == Ok::<bool, FoundTwice>(true) && final(self)@ == old(self)@.insert(target, Slot::Filled(record))
                } else {
                    r == Err::<bool, FoundTwice>(FoundTwice) && final(self)@ == old(self)@
                }
            }),
    {
        let mut found = self.find(name);
        if found.is_none() {
            found = self.find(alias);
        }
        match found {
            None => Ok(false),
            Some(i) => {
                proof { self.lemma_at(i as int); }
                if self.slots[i] == Slot::Waiting {
                    let ghost old_pool = *self;
                    self.slots.set(i, Slot::Filled(record));
                    proof { Self::lemma_set(&old_pool, self, i as int, Slot::Filled(record)); }
                    Ok(true)
                } else {
                    Err(FoundTwice)
                }
            },
        }
    }

    /// Claims the record registered as `name`. On success the name is marked as taken.
    /// A name that is not registered or was taken before gives `UsedMoreThanOnce`; a
    /// name whose record never turned up gives `NotFound`, and is marked as taken too.
    pub fn claim(&mut self, name: &String) -> (r: Result<usize, ClaimError>)
        requires
            old(self).wf(),
        ensures
            final(self).wf(),
            !old(self)@.dom().contains(name@) || old(self)@[name@] == Slot::Claimed ==> r
                == Err::<usize, ClaimError>(ClaimError::UsedMoreThanOnce) && final(self)@ == old(self)@,
            old(self)@.dom().contains(name@) && old(self)@[name@] == Slot::Waiting ==> r
                == Err::<usize, ClaimError>(ClaimError::NotFound) && final(self)@ == old(self)@.insert(
                name@,
                Slot::Claimed,
            ),
            forall|k: usize|
                old(self)@.dom().contains(name@) && old(self)@[name@] == Slot::Filled(k) ==> r
                    == Ok::<usize, ClaimError>(k) && final(self)@ == old(self)@.insert(
                    name@,
                    Slot::Claimed,
                ),
    {
        match self.find(name) {
            None => Err(ClaimError::UsedMoreThanOnce),
            Some(i) => {
                proof { self.lemma_at(i as int); }
                let slot = self.slots[i];
                match slot {
                    Slot::Claimed => Err(ClaimError::UsedMoreThanOnce),
                    _ => {
                        let ghost old_pool = *self;
                        self.slots.set(i, Slot::Claimed);
                        proof { Self::lemma_set(&old_pool, self, i as int, Slot::Claimed); }
                        match slot {
                            Slot::Filled(k) => Ok(k),
                            _ => Err(ClaimError::NotFound),
                        }
                    },
                }
            },
        }
    }
}

} // verus!
