use vstd::prelude::*;

use crate::errors::ActorError;

verus! {

/// One directory entry: a unique live name and the handle it resolves to.
pub struct RegistryEntry {
    pub name: String,
    pub handle: u64,
}

/// The process-wide name-to-handle directory.
///
/// Registration is exclusive: at most one live actor per name. An actor handle
/// is an opaque token; here it is a numeric id handed out by the scheduler.
/// On supervised restart the entry is replaced atomically: a lookup sees
/// either the pre-crash handle or the new one, never an intermediate state.
pub struct Registry {
    entries: Vec<RegistryEntry>,
}

impl Registry {
    /// Whether some actor is registered under `n`.
    pub closed spec fn contains_name(&self, n: Seq<char>) -> bool {
        exists|k: int| 0 <= k < self.entries@.len() && self.entries@[k].name@ == n
    }

    /// The handle registered under `n` (meaningful when `contains_name(n)`).
    pub closed spec fn handle_of(&self, n: Seq<char>) -> u64 {
        self.entries@[choose|k: int|
            0 <= k < self.entries@.len() && self.entries@[k].name@ == n].handle
    }

    /// The directory as a mathematical map from name to handle.
    pub open spec fn as_map(&self) -> Map<Seq<char>, u64> {
        Map::new(|n: Seq<char>| self.contains_name(n), |n: Seq<char>| self.handle_of(n))
    }

    /// Names are unique: no two entries share one.
    pub closed spec fn wf(&self) -> bool {
        forall|k1: int, k2: int|
            0 <= k1 < k2 < self.entries@.len() ==> self.entries@[k1].name@ != self.entries@[
                k2
            ].name@
    }

    /// Any entry that carries name `n` carries the handle `handle_of(n)`.
    proof fn lemma_handle_at(&self, k: int)
        requires
            self.wf(),
            0 <= k < self.entries@.len(),
        ensures
            self.contains_name(self.entries@[k].name@),
            self.handle_of(self.entries@[k].name@) == self.entries@[k].handle,
    {
        let n = self.entries@[k].name@;
        assert(self.contains_name(n));
        let j = choose|j: int| 0 <= j < self.entries@.len() && self.entries@[j].name@ == n;
        if j < k {
            assert(self.entries@[j].name@ != self.entries@[k].name@);
        } else if k < j {
            assert(self.entries@[k].name@ != self.entries@[j].name@);
        }
    }

    /// Creates an empty directory.
    pub fn new() -> (r: Registry)
        ensures
            r.wf(),
            forall|n: Seq<char>| !r.contains_name(n),
    {
        Registry { entries: Vec::new() }
    }

    /// Resolves `name`; fails with `NotRegistered` exactly when no live actor
    /// carries that name.
    pub fn lookup(&self, name: &String) -> (r: Result<u64, ActorError>)
        requires
            self.wf(),
        ensures
            r is Ok <==> self.contains_name(name@),
            r is Ok ==> r->Ok_0 == self.handle_of(name@),
            r is Err ==> r == Err::<u64, ActorError>(ActorError::NotRegistered),
    {
        let n = self.entries.len();
        let mut i: usize = 0;
        while i < n
            invariant
                n == self.entries@.len(),
                i <= n,
                self.wf(),
                forall|k: int| 0 <= k < i ==> self.entries@[k].name@ != name@,
            decreases n - i,
        {
            if self.entries[i].name == *name {
                proof {
                    self.lemma_handle_at(i as int);
                }
                return Ok(self.entries[i].handle);
            }
            i = i + 1;
        }
        Err(ActorError::NotRegistered)
    }

    /// Registers `name` for `handle`; fails with `NameTaken` exactly when the
    /// name is already live, and then changes nothing.
    pub fn register(&mut self, name: String, handle: u64) -> (r: Result<(), ActorError>)
        requires
            old(self).wf(),
        ensures
            final(self).wf(),
            r is Ok <==> !old(self).contains_name(name@),
            r is Err ==> r == Err::<(), ActorError>(ActorError::NameTaken) && *final(self) == *old(
                self,
            ),
            r is Ok ==> final(self).contains_name(name@) && final(self).handle_of(name@) == handle,
            r is Ok ==> forall|n: Seq<char>|
                n != name@ ==> (final(self).contains_name(n) <==> old(self).contains_name(n)),
            r is Ok ==> forall|n: Seq<char>|
                n != name@ && old(self).contains_name(n) ==> final(self).handle_of(n) == old(
                    self,
                ).handle_of(n),
            r is Ok ==> final(self).as_map() =~= old(self).as_map().insert(name@, handle),
    {
        let found = self.lookup(&name);
        match found {
            Ok(_) => Err(ActorError::NameTaken),
            Err(_) => {
                let ghost prev = *self;
                self.entries.push(RegistryEntry { name, handle });
                proof {
                    prev.lemma_push_effect(*self, self.entries@[self.entries@.len() - 1]);
                    assert(self.as_map() =~= prev.as_map().insert(name@, handle));
                }
                Ok(())
            },
        }
    }

    /// What pushing one fresh entry does to the directory.
    proof fn lemma_push_effect(&self, new: Registry, e: RegistryEntry)
        requires
            self.wf(),
            !self.contains_name(e.name@),
            new.entries@ == self.entries@.push(e),
        ensures
            new.wf(),
            new.contains_name(e.name@),
            new.handle_of(e.name@) == e.handle,
            forall|n: Seq<char>|
                n != e.name@ ==> (new.contains_name(n) <==> self.contains_name(n)),
            forall|n: Seq<char>|
                n != e.name@ && self.contains_name(n) ==> new.handle_of(n) == self.handle_of(n),
    {
        let len = self.entries@.len() as int;
        assert forall|k1: int, k2: int|
            0 <= k1 < k2 < new.entries@.len() implies new.entries@[k1].name@ != new.entries@[
            k2
        ].name@ by {
            if k2 < len {
                assert(self.entries@[k1].name@ != self.entries@[k2].name@);
            } else {
                assert(new.entries@[k2].name@ == e.name@);
                assert(self.entries@[k1].name@ != e.name@);
            }
        }
        assert(new.entries@[len].name@ == e.name@);
        new.lemma_handle_at(len);
        assert forall|n: Seq<char>| n != e.name@ implies (new.contains_name(n)
            <==> self.contains_name(n)) by {
            if new.contains_name(n) {
                let k = choose|k: int|
                    0 <= k < new.entries@.len() && new.entries@[k].name@ == n;
                assert(k < len);
                assert(self.entries@[k].name@ == n);
            }
            if self.contains_name(n) {
                let k = choose|k: int|
                    0 <= k < self.entries@.len() && self.entries@[k].name@ == n;
                assert(new.entries@[k].name@ == n);
            }
        }
        assert forall|n: Seq<char>|
            n != e.name@ && self.contains_name(n) implies new.handle_of(n) == self.handle_of(
            n,
        ) by {
            let k = choose|k: int| 0 <= k < self.entries@.len() && self.entries@[k].name@ == n;
            self.lemma_handle_at(k);
            assert(new.entries@[k].name@ == n);
            new.lemma_handle_at(k);
        }
    }

    /// What removing the entry at `k` does to the directory.
    proof fn lemma_remove_effect(&self, new: Registry, k: int)
        requires
            self.wf(),
            0 <= k < self.entries@.len(),
            new.entries@ == self.entries@.remove(k),
        ensures
            new.wf(),
            !new.contains_name(self.entries@[k].name@),
            forall|n: Seq<char>|
                n != self.entries@[k].name@ ==> (new.contains_name(n) <==> self.contains_name(n)),
            forall|n: Seq<char>|
                n != self.entries@[k].name@ && self.contains_name(n) ==> new.handle_of(n)
                    == self.handle_of(n),
    {
        let name = self.entries@[k].name@;
        assert forall|j1: int, j2: int|
            0 <= j1 < j2 < new.entries@.len() implies new.entries@[j1].name@ != new.entries@[
            j2
        ].name@ by {
            let o1: int = if j1 < k {
                j1
            } else {
                j1 + 1
            };
            let o2: int = if j2 < k {
                j2
            } else {
                j2 + 1
            };
            assert(new.entries@[j1] == self.entries@[o1]);
            assert(new.entries@[j2] == self.entries@[o2]);
            assert(self.entries@[o1].name@ != self.entries@[o2].name@);
        }
        assert forall|j: int| 0 <= j < new.entries@.len() implies new.entries@[j].name@ != name by {
            let o: int = if j < k {
                j
            } else {
                j + 1
            };
            assert(new.entries@[j] == self.entries@[o]);
            assert(self.entries@[o].name@ != self.entries@[k].name@);
        }
        assert forall|n: Seq<char>| n != name implies (new.contains_name(n)
            <==> self.contains_name(n)) by {
            if new.contains_name(n) {
                let j = choose|j: int|
                    0 <= j < new.entries@.len() && new.entries@[j].name@ == n;
                let o: int = if j < k {
                    j
                } else {
                    j + 1
                };
                assert(self.entries@[o].name@ == n);
            }
            if self.contains_name(n) {
                let o = choose|o: int|
                    0 <= o < self.entries@.len() && self.entries@[o].name@ == n;
                let j: int = if o < k {
                    o
                } else {
                    o - 1
                };
                assert(new.entries@[j].name@ == n);
            }
        }
        assert forall|n: Seq<char>|
            n != name && self.contains_name(n) implies new.handle_of(n) == self.handle_of(n) by {
            let o = choose|o: int| 0 <= o < self.entries@.len() && self.entries@[o].name@ == n;
            self.lemma_handle_at(o);
            let j: int = if o < k {
                o
            } else {
                o - 1
            };
            assert(new.entries@[j] == self.entries@[o]);
            new.lemma_handle_at(j);
        }
    }

    /// Removes the entry under `name` (the actor terminated); reports whether
    /// an entry was there. Absence is not an error: deregistration is
    /// idempotent.
    pub fn deregister(&mut self, name: &String) -> (removed: bool)
        requires
            old(self).wf(),
        ensures
            final(self).wf(),
            removed <==> old(self).contains_name(name@),
            !final(self).contains_name(name@),
            forall|n: Seq<char>|
                n != name@ ==> (final(self).contains_name(n) <==> old(self).contains_name(n)),
            forall|n: Seq<char>|
                n != name@ && old(self).contains_name(n) ==> final(self).handle_of(n) == old(
                    self,
                ).handle_of(n),
            final(self).as_map() =~= old(self).as_map().remove(name@),
    {
        let n = self.entries.len();
        let mut i: usize = 0;
        while i < n
            invariant
                *self == *old(self),
                n == self.entries@.len(),
                i <= n,
                self.wf(),
                forall|k: int| 0 <= k < i ==> self.entries@[k].name@ != name@,
            decreases n - i,
        {
            if self.entries[i].name == *name {
                let ghost prev = *self;
                let _ = self.entries.remove(i);
                proof {
                    prev.lemma_remove_effect(*self, i as int);
                    assert(self.as_map() =~= prev.as_map().remove(name@));
                }
                return true;
            }
            i = i + 1;
        }
        false
    }

    /// Atomically replaces (or creates) the entry under `name` so that it
    /// resolves to `new_handle`: the step a supervisor takes when it restarts
    /// a registered child.
    pub fn replace(&mut self, name: String, new_handle: u64)
        requires
            old(self).wf(),
        ensures
            final(self).wf(),
            final(self).contains_name(name@),
            final(self).handle_of(name@) == new_handle,
            forall|n: Seq<char>|
                n != name@ ==> (final(self).contains_name(n) <==> old(self).contains_name(n)),
            forall|n: Seq<char>|
                n != name@ && old(self).contains_name(n) ==> final(self).handle_of(n) == old(
                    self,
                ).handle_of(n),
            final(self).as_map() =~= old(self).as_map().insert(name@, new_handle),
    {
        let _ = self.deregister(&name);
        let ghost mid = *self;
        let ghost key = name@;
        let registered = self.register(name, new_handle);
        proof {
            assert(registered is Ok);
            assert(self.as_map() =~= old(self).as_map().insert(key, new_handle));
        }
    }
}

} // verus!
