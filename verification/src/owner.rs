use vstd::prelude::*;
use crate::events::Event;
use crate::types::BindingError;
use crate::{managers_unique, Contract};

verus! {

impl Contract {
    /// `manager_id` is a manager afterwards; nothing else changed. Adding an
    /// account that already is a manager changes nothing at all.
    pub open spec fn manager_added(pre: Contract, post: Contract, m: Seq<char>) -> bool {
        &&& post.spec_is_manager(m)
        &&& forall|x: Seq<char>| x != m ==> #[trigger] post.spec_is_manager(x) == pre.spec_is_manager(x)
        &&& pre.spec_is_manager(m) ==> post.managers@ == pre.managers@
        &&& post.owner_id == pre.owner_id
        &&& post.proposals@ == pre.proposals@
        &&& post.bindings@ == pre.bindings@
    }

    /// `manager_id` is no manager afterwards; nothing else changed.
    pub open spec fn manager_removed(pre: Contract, post: Contract, m: Seq<char>) -> bool {
        &&& !post.spec_is_manager(m)
        &&& forall|x: Seq<char>| x != m ==> #[trigger] post.spec_is_manager(x) == pre.spec_is_manager(x)
        &&& !pre.spec_is_manager(m) ==> post.managers@ == pre.managers@
        &&& post.owner_id == pre.owner_id
        &&& post.proposals@ == pre.proposals@
        &&& post.bindings@ == pre.bindings@
    }

    /// Index of `account_id` in the manager set, if present.
    fn find_manager_index(&self, account_id: &String) -> (r: Option<usize>)
        ensures
            match r {
                Some(i) => i < self.managers@.len() && self.managers@[i as int]@ == account_id@,
                None => !self.spec_is_manager(account_id@),
            },
    {
        let n = self.managers.len();
        let mut i: usize = 0;
        while i < n
            invariant
                n == self.managers@.len(),
                i <= n,
                forall|j: int| 0 <= j < i ==> self.managers@[j]@ != account_id@,
            decreases n - i,
        {
            if self.managers[i] == *account_id {
                return Some(i);
            }
            i += 1;
        }
        None
    }

    /// Whether `account_id` is in the manager set.
    pub(crate) fn contains_manager(&self, account_id: &String) -> (r: bool)
        ensures
            r == self.spec_is_manager(account_id@),
    {
        self.find_manager_index(account_id).is_some()
    }

    /// The authorization check guarding owner-only operations.
    pub fn require_owner(&self, caller: &String) -> (r: Result<(), BindingError>)
        ensures
            r == if caller@ == self.spec_owner() {
                Ok::<(), BindingError>(())
            } else {
                Err::<(), BindingError>(BindingError::Unauthorized)
            },
    {
        if *caller == self.owner_id {
            Ok(())
        } else {
            Err(BindingError::Unauthorized)
        }
    }

    /// The authorization check guarding manager-only operations.
    pub fn require_manager(&self, caller: &String) -> (r: Result<(), BindingError>)
        ensures
            r == if self.spec_is_manager(caller@) {
                Ok::<(), BindingError>(())
            } else {
                Err::<(), BindingError>(BindingError::Unauthorized)
            },
    {
        if self.contains_manager(caller) {
            Ok(())
        } else {
            Err(BindingError::Unauthorized)
        }
    }

    /// Owner-only: hand the contract to a new owner.
    pub fn set_owner(&mut self, caller: String, new_owner_id: String) -> (r: Result<Event, BindingError>)
        requires
            old(self).wf(),
        ensures
            final(self).wf(),
            ({
                let pre = *old(self);
                let post = *final(self);
                if caller@ != pre.spec_owner() {
                    r matches Err(BindingError::Unauthorized) && post == pre
                } else {
                    r matches Ok(Event::ChangeOwner { old_owner_id: oid, new_owner_id: nid })
                        && oid@ == pre.spec_owner() && nid@ == new_owner_id@
                        && post.spec_owner() == new_owner_id@
                        && post.managers@ == pre.managers@
                        && post.proposals@ == pre.proposals@
                        && post.bindings@ == pre.bindings@
                }
            }),
    {
        match self.require_owner(&caller) {
            Err(e) => {
                return Err(e);
            },
            Ok(()) => {},
        }
        let prior = self.owner_id.clone();
        self.owner_id = new_owner_id.clone();
        Ok(Event::ChangeOwner { old_owner_id: prior, new_owner_id })
    }

    /// Owner-only, idempotent: put `manager_id` into the manager set.
    pub fn add_manager(&mut self, caller: String, manager_id: String) -> (r: Result<Event, BindingError>)
        requires
            old(self).wf(),
        ensures
            final(self).wf(),
            ({
                let pre = *old(self);
                let post = *final(self);
                if caller@ != pre.spec_owner() {
                    r matches Err(BindingError::Unauthorized) && post == pre
                } else {
                    r matches Ok(Event::AddManager { manager_id: m }) && m@ == manager_id@
                        && Contract::manager_added(pre, post, manager_id@)
                }
            }),
    {
        match self.require_owner(&caller) {
            Err(e) => {
                return Err(e);
            },
            Ok(()) => {},
        }
        let ghost pre = *self;
        if !self.contains_manager(&manager_id) {
            self.managers.push(manager_id.clone());
            proof {
                let t1 = pre.managers@;
                let t2 = self.managers@;
                let last = t1.len() as int;
                assert forall|x: int, y: int|
                    0 <= x < t2.len() && 0 <= y < t2.len() && x != y implies t2[x]@ != t2[y]@ by {
                    if x < last && y < last {
                        assert(t2[x] == t1[x]);
                        assert(t2[y] == t1[y]);
                    } else if x == last {
                        assert(t2[y] == t1[y]);
                    } else {
                        assert(t2[x] == t1[x]);
                    }
                };
                assert(managers_unique(t2));
                assert forall|x: Seq<char>| x != manager_id@
                    implies self.spec_is_manager(x) == pre.spec_is_manager(x) by {
                    if pre.spec_is_manager(x) {
                        let j = choose|j: int| 0 <= j < t1.len() && t1[j]@ == x;
                        assert(t2[j] == t1[j]);
                    }
                    if self.spec_is_manager(x) {
                        let k = choose|k: int| 0 <= k < t2.len() && t2[k]@ == x;
                        assert(k != last);
                        assert(t2[k] == t1[k]);
                    }
                };
                assert(self.managers@[last]@ == manager_id@);
            }
        }
        Ok(Event::AddManager { manager_id })
    }

    /// Owner-only: take `manager_id` out of the manager set; reports whether
    /// a manager was actually present and removed.
    pub fn remove_manager(&mut self, caller: String, manager_id: String) -> (r: Result<(bool, Event), BindingError>)
        requires
            old(self).wf(),
        ensures
            final(self).wf(),
            ({
                let pre = *old(self);
                let post = *final(self);
                if caller@ != pre.spec_owner() {
                    r matches Err(BindingError::Unauthorized) && post == pre
                } else {
                    r matches Ok((removed, Event::RemoveManager { manager_id: m })) && m@ == manager_id@
                        && removed == pre.spec_is_manager(manager_id@)
                        && Contract::manager_removed(pre, post, manager_id@)
                }
            }),
    {
        match self.require_owner(&caller) {
            Err(e) => {
                return Err(e);
            },
            Ok(()) => {},
        }
        let ghost pre = *self;
        let removed: bool;
        match self.find_manager_index(&manager_id) {
            None => {
                removed = false;
            },
            Some(i) => {
                self.managers.remove(i);
                removed = true;
                proof {
                    let io = i as int;
                    let t1 = pre.managers@;
                    let t2 = self.managers@;
                    t1.remove_ensures(io);
                    assert forall|x: int, y: int|
                        0 <= x < t2.len() && 0 <= y < t2.len() && x != y implies t2[x]@ != t2[y]@ by {
                        let xo = if x < io { x } else { x + 1 };
                        let yo = if y < io { y } else { y + 1 };
                        assert(t2[x] == t1[xo]);
                        assert(t2[y] == t1[yo]);
                    };
                    assert(managers_unique(t2));
                    assert forall|x: int| 0 <= x < t2.len() implies t2[x]@ != manager_id@ by {
                        let xo = if x < io { x } else { x + 1 };
                        assert(t2[x] == t1[xo]);
                        assert(t1[io]@ == manager_id@);
                    };
                    assert(!self.spec_is_manager(manager_id@));
                    assert forall|x: Seq<char>| x != manager_id@
                        implies self.spec_is_manager(x) == pre.spec_is_manager(x) by {
                        if pre.spec_is_manager(x) {
                            let j = choose|j: int| 0 <= j < t1.len() && t1[j]@ == x;
                            assert(j != io);
                            let j1 = if j < io { j } else { j - 1 };
                            assert(t2[j1] == t1[j]);
                        }
                        if self.spec_is_manager(x) {
                            let k = choose|k: int| 0 <= k < t2.len() && t2[k]@ == x;
                            let ko = if k < io { k } else { k + 1 };
                            assert(t2[k] == t1[ko]);
                        }
                    };
                }
            },
        }
        Ok((removed, Event::RemoveManager { manager_id }))
    }
}

} // verus!
