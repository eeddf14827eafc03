use vstd::prelude::*;

pub mod events;
pub mod laws;
pub mod owner;
pub mod types;
pub mod view;

pub use events::Event;
pub use types::{Binding, BindingError, BindingProposal, BindingView, Platform, ProposalView};
pub use view::Account;

verus! {

/// Deposit that must accompany a binding proposal, to discourage spam.
pub const PROPOSAL_STORAGE_COST: u128 = 10_000_000_000_000_000_000_000;

/// True when `s[i]` is a proposal of account `a` for platform `p`.
pub open spec fn has_proposal_at(s: Seq<BindingProposal>, i: int, a: Seq<char>, p: Platform) -> bool {
    0 <= i < s.len() && s[i].account_id@ == a && s[i].platform == p
}

/// True when `s[i]` is a binding of account `a` for platform `p`.
pub open spec fn has_binding_at(s: Seq<Binding>, i: int, a: Seq<char>, p: Platform) -> bool {
    0 <= i < s.len() && s[i].account_id@ == a && s[i].platform == p
}

/// True when `s[i]` claims handle `h` on platform `p`.
pub open spec fn claims_at(s: Seq<Binding>, i: int, p: Platform, h: Seq<char>) -> bool {
    0 <= i < s.len() && s[i].platform == p && s[i].handle@ == h
}

/// At most one proposal per (account, platform) pair.
pub open spec fn proposals_unique(s: Seq<BindingProposal>) -> bool {
    forall|i: int, j: int| #![trigger s[i], s[j]]
        0 <= i < s.len() && 0 <= j < s.len() && i != j
            ==> !(s[i].account_id@ == s[j].account_id@ && s[i].platform == s[j].platform)
}

/// At most one binding per (account, platform) pair.
pub open spec fn bindings_unique_by_account(s: Seq<Binding>) -> bool {
    forall|i: int, j: int| #![trigger s[i], s[j]]
        0 <= i < s.len() && 0 <= j < s.len() && i != j
            ==> !(s[i].account_id@ == s[j].account_id@ && s[i].platform == s[j].platform)
}

/// At most one account per (platform, handle) pair: the uniqueness guard.
pub open spec fn bindings_unique_by_handle(s: Seq<Binding>) -> bool {
    forall|i: int, j: int| #![trigger s[i], s[j]]
        0 <= i < s.len() && 0 <= j < s.len() && i != j
            ==> !(s[i].platform == s[j].platform && s[i].handle@ == s[j].handle@)
}

/// No two managers are the same account.
pub open spec fn managers_unique(s: Seq<String>) -> bool {
    forall|i: int, j: int| #![trigger s[i], s[j]]
        0 <= i < s.len() && 0 <= j < s.len() && i != j ==> s[i]@ != s[j]@
}

/// The identity-binding registry: one owner, a set of managers, pending
/// proposals, and the accepted bindings (kept as one table of triples; the
/// forward and reverse lookups are its two views).
pub struct Contract {
    pub owner_id: String,
    pub managers: Vec<String>,
    pub proposals: Vec<BindingProposal>,
    pub bindings: Vec<Binding>,
}

impl Contract {
    /// Well-formedness: the cross-table invariants that every operation
    /// preserves.
    pub open spec fn wf(self) -> bool {
        &&& proposals_unique(self.proposals@)
        &&& bindings_unique_by_account(self.bindings@)
        &&& bindings_unique_by_handle(self.bindings@)
        &&& managers_unique(self.managers@)
        // a binding forecloses further proposals for its (account, platform)
        &&& forall|i: int, j: int| #![trigger self.proposals@[i], self.bindings@[j]]
            0 <= i < self.proposals@.len() && 0 <= j < self.bindings@.len()
                ==> !(self.proposals@[i].account_id@ == self.bindings@[j].account_id@
                    && self.proposals@[i].platform == self.bindings@[j].platform)
        // handles are never empty
        &&& forall|i: int| 0 <= i < self.proposals@.len()
                ==> (#[trigger] self.proposals@[i]).handle@.len() > 0
        &&& forall|i: int| 0 <= i < self.bindings@.len()
                ==> (#[trigger] self.bindings@[i]).handle@.len() > 0
    }

    pub open spec fn spec_owner(self) -> Seq<char> {
        self.owner_id@
    }

    pub open spec fn spec_is_manager(self, a: Seq<char>) -> bool {
        exists|i: int| 0 <= i < self.managers@.len() && self.managers@[i]@ == a
    }

    pub open spec fn spec_has_proposal(self, a: Seq<char>, p: Platform) -> bool {
        exists|i: int| has_proposal_at(self.proposals@, i, a, p)
    }

    /// The pending proposal of `a` for `p` (meaningful only when
    /// `spec_has_proposal(a, p)`).
    pub open spec fn spec_proposal(self, a: Seq<char>, p: Platform) -> ProposalView {
        self.proposals@[choose|i: int| has_proposal_at(self.proposals@, i, a, p)]@
    }

    pub open spec fn spec_has_binding(self, a: Seq<char>, p: Platform) -> bool {
        exists|i: int| has_binding_at(self.bindings@, i, a, p)
    }

    /// The handle bound to `a` on `p` (meaningful only when
    /// `spec_has_binding(a, p)`).
    pub open spec fn spec_handle(self, a: Seq<char>, p: Platform) -> Seq<char> {
        self.bindings@[choose|i: int| has_binding_at(self.bindings@, i, a, p)].handle@
    }

    pub open spec fn spec_handle_claimed(self, p: Platform, h: Seq<char>) -> bool {
        exists|i: int| claims_at(self.bindings@, i, p, h)
    }

    /// The account holding `h` on `p` (meaningful only when
    /// `spec_handle_claimed(p, h)`).
    pub open spec fn spec_claimant(self, p: Platform, h: Seq<char>) -> Seq<char> {
        self.bindings@[choose|i: int| claims_at(self.bindings@, i, p, h)].account_id@
    }

    /// When some index holds a proposal of `a` for `p`, it is the index that
    /// `spec_proposal` speaks of.
    pub proof fn lemma_proposal_at(self, i: int, a: Seq<char>, p: Platform)
        requires
            proposals_unique(self.proposals@),
            has_proposal_at(self.proposals@, i, a, p),
        ensures
            self.spec_has_proposal(a, p),
            self.spec_proposal(a, p) == self.proposals@[i]@,
    {
        assert(self.spec_has_proposal(a, p));
        let j = choose|j: int| has_proposal_at(self.proposals@, j, a, p);
        assert(!(j != i && self.proposals@[j].account_id@ == self.proposals@[i].account_id@
            && self.proposals@[j].platform == self.proposals@[i].platform));
    }

    /// When some index holds a binding of `a` for `p`, it is the index that
    /// `spec_handle` speaks of.
    pub proof fn lemma_binding_at(self, i: int, a: Seq<char>, p: Platform)
        requires
            bindings_unique_by_account(self.bindings@),
            has_binding_at(self.bindings@, i, a, p),
        ensures
            self.spec_has_binding(a, p),
            self.spec_handle(a, p) == self.bindings@[i].handle@,
    {
        assert(self.spec_has_binding(a, p));
        let j = choose|j: int| has_binding_at(self.bindings@, j, a, p);
        assert(!(j != i && self.bindings@[j].account_id@ == self.bindings@[i].account_id@
            && self.bindings@[j].platform == self.bindings@[i].platform));
    }

    /// When some index claims `h` on `p`, it is the index that
    /// `spec_claimant` speaks of.
    pub proof fn lemma_claimant_at(self, i: int, p: Platform, h: Seq<char>)
        requires
            bindings_unique_by_handle(self.bindings@),
            claims_at(self.bindings@, i, p, h),
        ensures
            self.spec_handle_claimed(p, h),
            self.spec_claimant(p, h) == self.bindings@[i].account_id@,
    {
        assert(self.spec_handle_claimed(p, h));
        let j = choose|j: int| claims_at(self.bindings@, j, p, h);
        assert(!(j != i && self.bindings@[j].platform == self.bindings@[i].platform
            && self.bindings@[j].handle@ == self.bindings@[i].handle@));
    }

    /// Index of the pending proposal of `account_id` for `platform`, if any.
    fn find_proposal_index(&self, account_id: &String, platform: Platform) -> (r: Option<usize>)
        ensures
            match r {
                Some(i) => has_proposal_at(self.proposals@, i as int, account_id@, platform),
                None => !self.spec_has_proposal(account_id@, platform),
            },
    {
        let n = self.proposals.len();
        let mut i: usize = 0;
        while i < n
            invariant
                n == self.proposals@.len(),
                i <= n,
                forall|j: int| 0 <= j < i ==> !has_proposal_at(self.proposals@, j, account_id@, platform),
            decreases n - i,
        {
            if self.proposals[i].platform == platform && self.proposals[i].account_id == *account_id {
                return Some(i);
            }
            i += 1;
        }
        None
    }

    /// Index of the binding of `account_id` for `platform`, if any.
    fn find_binding_index(&self, account_id: &String, platform: Platform) -> (r: Option<usize>)
        ensures
            match r {
                Some(i) => has_binding_at(self.bindings@, i as int, account_id@, platform),
                None => !self.spec_has_binding(account_id@, platform),
            },
    {
        let n = self.bindings.len();
        let mut i: usize = 0;
        while i < n
            invariant
                n == self.bindings@.len(),
                i <= n,
                forall|j: int| 0 <= j < i ==> !has_binding_at(self.bindings@, j, account_id@, platform),
            decreases n - i,
        {
            if self.bindings[i].platform == platform && self.bindings[i].account_id == *account_id {
                return Some(i);
            }
            i += 1;
        }
        None
    }

    /// Index of the binding claiming `handle` on `platform`, if any.
    fn find_claimant_index(&self, platform: Platform, handle: &String) -> (r: Option<usize>)
        ensures
            match r {
                Some(i) => claims_at(self.bindings@, i as int, platform, handle@),
                None => !self.spec_handle_claimed(platform, handle@),
            },
    {
        let n = self.bindings.len();
        let mut i: usize = 0;
        while i < n
            invariant
                n == self.bindings@.len(),
                i <= n,
                forall|j: int| 0 <= j < i ==> !claims_at(self.bindings@, j, platform, handle@),
            decreases n - i,
        {
            if self.bindings[i].platform == platform && self.bindings[i].handle == *handle {
                return Some(i);
            }
            i += 1;
        }
        None
    }

    /// An empty registry owned by `owner_id`.
    pub fn new(owner_id: String) -> (r: Contract)
        ensures
            r.wf(),
            r.spec_owner() == owner_id@,
            forall|a: Seq<char>| !r.spec_is_manager(a),
            forall|a: Seq<char>, p: Platform| !r.spec_has_proposal(a, p),
            forall|a: Seq<char>, p: Platform| !r.spec_has_binding(a, p),
            forall|p: Platform, h: Seq<char>| !r.spec_handle_claimed(p, h),
    {
        Contract {
            owner_id,
            managers: Vec::new(),
            proposals: Vec::new(),
            bindings: Vec::new(),
        }
    }
    /// A proposal of `a` for `p` with handle `h` and creation time `t` is
    /// pending afterwards, overwriting any prior proposal for that pair;
    /// nothing else changed. Enabled only while the pair is unbound and the
    /// handle unclaimed.
    pub open spec fn propose_effect(pre: Contract, post: Contract, a: Seq<char>, p: Platform, h: Seq<char>, t: u64) -> bool {
        &&& h.len() > 0
        &&& !pre.spec_has_binding(a, p)
        &&& !pre.spec_handle_claimed(p, h)
        &&& post.spec_has_proposal(a, p)
        &&& post.spec_proposal(a, p) == (ProposalView { account_id: a, platform: p, handle: h, created_at: t })
        &&& forall|a2: Seq<char>, p2: Platform| !(a2 == a && p2 == p)
                ==> #[trigger] post.spec_has_proposal(a2, p2) == pre.spec_has_proposal(a2, p2)
        &&& forall|a2: Seq<char>, p2: Platform| !(a2 == a && p2 == p) && pre.spec_has_proposal(a2, p2)
                ==> #[trigger] post.spec_proposal(a2, p2) == pre.spec_proposal(a2, p2)
        &&& post.bindings@ == pre.bindings@
        &&& post.managers@ == pre.managers@
        &&& post.owner_id == pre.owner_id
    }

    /// The pending proposal of `a` for `p` is gone afterwards; nothing else
    /// changed.
    pub open spec fn proposal_removed(pre: Contract, post: Contract, a: Seq<char>, p: Platform) -> bool {
        &&& pre.spec_has_proposal(a, p)
        &&& !post.spec_has_proposal(a, p)
        &&& forall|a2: Seq<char>, p2: Platform| !(a2 == a && p2 == p)
                ==> #[trigger] post.spec_has_proposal(a2, p2) == pre.spec_has_proposal(a2, p2)
        &&& forall|a2: Seq<char>, p2: Platform| !(a2 == a && p2 == p) && pre.spec_has_proposal(a2, p2)
                ==> #[trigger] post.spec_proposal(a2, p2) == pre.spec_proposal(a2, p2)
        &&& post.bindings@ == pre.bindings@
        &&& post.managers@ == pre.managers@
        &&& post.owner_id == pre.owner_id
    }

    /// The proposal of `a` for `p` was consumed and turned into the binding
    /// `(a, p, h)`, visible in both lookup directions; nothing else changed.
    /// Enabled only while the pair is unbound and the handle unclaimed.
    pub open spec fn accept_effect(pre: Contract, post: Contract, a: Seq<char>, p: Platform, h: Seq<char>) -> bool {
        &&& pre.spec_has_proposal(a, p)
        &&& pre.spec_proposal(a, p).handle == h
        &&& !pre.spec_has_binding(a, p)
        &&& !pre.spec_handle_claimed(p, h)
        &&& !post.spec_has_proposal(a, p)
        &&& forall|a2: Seq<char>, p2: Platform| !(a2 == a && p2 == p)
                ==> #[trigger] post.spec_has_proposal(a2, p2) == pre.spec_has_proposal(a2, p2)
        &&& forall|a2: Seq<char>, p2: Platform| !(a2 == a && p2 == p) && pre.spec_has_proposal(a2, p2)
                ==> #[trigger] post.spec_proposal(a2, p2) == pre.spec_proposal(a2, p2)
        &&& post.spec_has_binding(a, p) && post.spec_handle(a, p) == h
        &&& post.spec_handle_claimed(p, h) && post.spec_claimant(p, h) == a
        &&& forall|a2: Seq<char>, p2: Platform| !(a2 == a && p2 == p)
                ==> #[trigger] post.spec_has_binding(a2, p2) == pre.spec_has_binding(a2, p2)
        &&& forall|a2: Seq<char>, p2: Platform| !(a2 == a && p2 == p) && pre.spec_has_binding(a2, p2)
                ==> #[trigger] post.spec_handle(a2, p2) == pre.spec_handle(a2, p2)
        &&& forall|p2: Platform, h2: Seq<char>| !(p2 == p && h2 == h)
                ==> #[trigger] post.spec_handle_claimed(p2, h2) == pre.spec_handle_claimed(p2, h2)
        &&& forall|p2: Platform, h2: Seq<char>| !(p2 == p && h2 == h) && pre.spec_handle_claimed(p2, h2)
                ==> #[trigger] post.spec_claimant(p2, h2) == pre.spec_claimant(p2, h2)
        &&& post.managers@ == pre.managers@
        &&& post.owner_id == pre.owner_id
    }

    /// Takes the pending proposal of `account_id` for `platform` out of the
    /// table and hands it back.
    fn internal_remove_proposal(&mut self, account_id: &String, platform: Platform) -> (r: Result<BindingProposal, BindingError>)
        requires
            old(self).wf(),
        ensures
            final(self).wf(),
            match r {
                Ok(bp) => old(self).spec_has_proposal(account_id@, platform)
                    && bp@ == old(self).spec_proposal(account_id@, platform)
                    && Contract::proposal_removed(*old(self), *final(self), account_id@, platform),
                Err(e) => e == BindingError::NoProposal
                    && !old(self).spec_has_proposal(account_id@, platform)
                    && *final(self) == *old(self),
            },
    {
        let i = match self.find_proposal_index(account_id, platform) {
            None => {
                return Err(BindingError::NoProposal);
            },
            Some(i) => i,
        };
        let ghost pre = *self;
        let ghost s0 = self.proposals@;
        let ghost a = account_id@;
        proof {
            pre.lemma_proposal_at(i as int, a, platform);
        }
        let bp = self.proposals.remove(i);
        proof {
            let io = i as int;
            s0.remove_ensures(io);
            let s1 = self.proposals@;
            assert forall|x: int, y: int|
                0 <= x < s1.len() && 0 <= y < s1.len() && x != y
                implies !(s1[x].account_id@ == s1[y].account_id@ && s1[x].platform == s1[y].platform) by {
                let xo = if x < io { x } else { x + 1 };
                let yo = if y < io { y } else { y + 1 };
                assert(s1[x] == s0[xo]);
                assert(s1[y] == s0[yo]);
            };
            assert(proposals_unique(s1));
            assert forall|x: int| 0 <= x < s1.len()
                implies !(s1[x].account_id@ == a && s1[x].platform == platform) by {
                let xo = if x < io { x } else { x + 1 };
                assert(s1[x] == s0[xo]);
                assert(has_proposal_at(s0, io, a, platform));
            };
            assert(!self.spec_has_proposal(a, platform));
            assert forall|a2: Seq<char>, p2: Platform| !(a2 == a && p2 == platform)
                implies self.spec_has_proposal(a2, p2) == pre.spec_has_proposal(a2, p2) by {
                if pre.spec_has_proposal(a2, p2) {
                    let j = choose|j: int| has_proposal_at(s0, j, a2, p2);
                    assert(j != io);
                    let j1 = if j < io { j } else { j - 1 };
                    assert(s1[j1] == s0[j]);
                    assert(has_proposal_at(s1, j1, a2, p2));
                }
                if self.spec_has_proposal(a2, p2) {
                    let k = choose|k: int| has_proposal_at(s1, k, a2, p2);
                    let ko = if k < io { k } else { k + 1 };
                    assert(s1[k] == s0[ko]);
                    assert(has_proposal_at(s0, ko, a2, p2));
                }
            };
            assert forall|a2: Seq<char>, p2: Platform| !(a2 == a && p2 == platform) && pre.spec_has_proposal(a2, p2)
                implies self.spec_proposal(a2, p2) == pre.spec_proposal(a2, p2) by {
                let j = choose|j: int| has_proposal_at(s0, j, a2, p2);
                assert(j != io);
                let j1 = if j < io { j } else { j - 1 };
                assert(s1[j1] == s0[j]);
                pre.lemma_proposal_at(j, a2, p2);
                self.lemma_proposal_at(j1, a2, p2);
            };
            assert forall|x: int, jb: int|
                0 <= x < s1.len() && 0 <= jb < self.bindings@.len()
                implies !(s1[x].account_id@ == self.bindings@[jb].account_id@
                    && s1[x].platform == self.bindings@[jb].platform) by {
                let xo = if x < io { x } else { x + 1 };
                assert(s1[x] == s0[xo]);
                assert(pre.proposals@[xo] == s0[xo]);
                assert(pre.bindings@[jb] == self.bindings@[jb]);
            };
            assert forall|x: int| 0 <= x < s1.len() implies (#[trigger] s1[x]).handle@.len() > 0 by {
                let xo = if x < io { x } else { x + 1 };
                assert(s1[x] == s0[xo]);
                assert(pre.proposals@[xo] == s0[xo]);
            };
            assert(self.wf());
        }
        Ok(bp)
    }


    /// Appends a fresh proposal for a pair that currently has none.
    fn push_proposal(&mut self, caller: &String, platform: Platform, handle: &String, now_ms: u64)
        requires
            old(self).wf(),
            handle@.len() > 0,
            !old(self).spec_has_proposal(caller@, platform),
            !old(self).spec_has_binding(caller@, platform),
        ensures
            final(self).wf(),
            final(self).spec_has_proposal(caller@, platform),
            final(self).spec_proposal(caller@, platform)
                == (ProposalView { account_id: caller@, platform, handle: handle@, created_at: now_ms }),
            forall|a2: Seq<char>, p2: Platform| !(a2 == caller@ && p2 == platform)
                ==> #[trigger] final(self).spec_has_proposal(a2, p2) == old(self).spec_has_proposal(a2, p2),
            forall|a2: Seq<char>, p2: Platform| !(a2 == caller@ && p2 == platform) && old(self).spec_has_proposal(a2, p2)
                ==> #[trigger] final(self).spec_proposal(a2, p2) == old(self).spec_proposal(a2, p2),
            final(self).bindings@ == old(self).bindings@,
            final(self).managers@ == old(self).managers@,
            final(self).owner_id == old(self).owner_id,
    {
        let ghost mid = *self;
        let bp = BindingProposal {
            account_id: caller.clone(),
            platform,
            handle: handle.clone(),
            created_at: now_ms,
        };
        self.proposals.push(bp);
        proof {
            let a = caller@;
            let s1 = mid.proposals@;
            let s2 = self.proposals@;
            let last = s1.len() as int;
            assert(s2[last].account_id@ == a && s2[last].platform == platform);
            assert(s2[last].handle@ == handle@ && s2[last].created_at == now_ms);
            assert forall|x: int, y: int|
                0 <= x < s2.len() && 0 <= y < s2.len() && x != y
                implies !(s2[x].account_id@ == s2[y].account_id@ && s2[x].platform == s2[y].platform) by {
                if x < last && y < last {
                    assert(s2[x] == s1[x]);
                    assert(s2[y] == s1[y]);
                } else if x == last {
                    assert(s2[y] == s1[y]);
                    assert(!has_proposal_at(s1, y, a, platform));
                } else {
                    assert(s2[x] == s1[x]);
                    assert(!has_proposal_at(s1, x, a, platform));
                }
            };
            assert(proposals_unique(s2));
            assert(has_proposal_at(s2, last, a, platform));
            self.lemma_proposal_at(last, a, platform);
            assert forall|a2: Seq<char>, p2: Platform| !(a2 == a && p2 == platform)
                implies self.spec_has_proposal(a2, p2) == mid.spec_has_proposal(a2, p2) by {
                if mid.spec_has_proposal(a2, p2) {
                    let j = choose|j: int| has_proposal_at(s1, j, a2, p2);
                    assert(s2[j] == s1[j]);
                    assert(has_proposal_at(s2, j, a2, p2));
                }
                if self.spec_has_proposal(a2, p2) {
                    let k = choose|k: int| has_proposal_at(s2, k, a2, p2);
                    assert(k != last);
                    assert(s2[k] == s1[k]);
                    assert(has_proposal_at(s1, k, a2, p2));
                }
            };
            assert forall|a2: Seq<char>, p2: Platform| !(a2 == a && p2 == platform) && mid.spec_has_proposal(a2, p2)
                implies self.spec_proposal(a2, p2) == mid.spec_proposal(a2, p2) by {
                let j = choose|j: int| has_proposal_at(s1, j, a2, p2);
                assert(s2[j] == s1[j]);
                mid.lemma_proposal_at(j, a2, p2);
                self.lemma_proposal_at(j, a2, p2);
            };
            assert forall|x: int, jb: int|
                0 <= x < s2.len() && 0 <= jb < self.bindings@.len()
                implies !(s2[x].account_id@ == self.bindings@[jb].account_id@
                    && s2[x].platform == self.bindings@[jb].platform) by {
                if x < last {
                    assert(s2[x] == s1[x]);
                    assert(mid.proposals@[x] == s1[x]);
                    assert(mid.bindings@[jb] == self.bindings@[jb]);
                } else {
                    assert(!has_binding_at(mid.bindings@, jb, a, platform));
                }
            };
            assert forall|x: int| 0 <= x < s2.len() implies (#[trigger] s2[x]).handle@.len() > 0 by {
                if x < last {
                    assert(s2[x] == s1[x]);
                    assert(mid.proposals@[x] == s1[x]);
                }
            };
            assert(self.wf());
        }
    }

    /// Appends a binding for a pair that currently has none, claiming a
    /// handle nobody holds, for an account whose proposal is already gone.
    fn push_binding(&mut self, account_id: &String, platform: Platform, handle: String)
        requires
            old(self).wf(),
            handle@.len() > 0,
            !old(self).spec_has_binding(account_id@, platform),
            !old(self).spec_handle_claimed(platform, handle@),
            !old(self).spec_has_proposal(account_id@, platform),
        ensures
            final(self).wf(),
            final(self).spec_has_binding(account_id@, platform),
            final(self).spec_handle(account_id@, platform) == handle@,
            final(self).spec_handle_claimed(platform, handle@),
            final(self).spec_claimant(platform, handle@) == account_id@,
            forall|a2: Seq<char>, p2: Platform| !(a2 == account_id@ && p2 == platform)
                ==> #[trigger] final(self).spec_has_binding(a2, p2) == old(self).spec_has_binding(a2, p2),
            forall|a2: Seq<char>, p2: Platform| !(a2 == account_id@ && p2 == platform) && old(self).spec_has_binding(a2, p2)
                ==> #[trigger] final(self).spec_handle(a2, p2) == old(self).spec_handle(a2, p2),
            forall|p2: Platform, h2: Seq<char>| !(p2 == platform && h2 == handle@)
                ==> #[trigger] final(self).spec_handle_claimed(p2, h2) == old(self).spec_handle_claimed(p2, h2),
            forall|p2: Platform, h2: Seq<char>| !(p2 == platform && h2 == handle@) && old(self).spec_handle_claimed(p2, h2)
                ==> #[trigger] final(self).spec_claimant(p2, h2) == old(self).spec_claimant(p2, h2),
            final(self).proposals@ == old(self).proposals@,
            final(self).managers@ == old(self).managers@,
            final(self).owner_id == old(self).owner_id,
    {
        let ghost mid = *self;
        let ghost h = handle@;
        let b = Binding { account_id: account_id.clone(), platform, handle };
        self.bindings.push(b);
        proof {
            let a = account_id@;
            let t1 = mid.bindings@;
            let t2 = self.bindings@;
            let last = t1.len() as int;
            assert(t2[last].account_id@ == a && t2[last].platform == platform && t2[last].handle@ == h);
            assert forall|x: int, y: int|
                0 <= x < t2.len() && 0 <= y < t2.len() && x != y
                implies !(t2[x].account_id@ == t2[y].account_id@ && t2[x].platform == t2[y].platform) by {
                if x < last && y < last {
                    assert(t2[x] == t1[x]);
                    assert(t2[y] == t1[y]);
                } else if x == last {
                    assert(t2[y] == t1[y]);
                    assert(!has_binding_at(t1, y, a, platform));
                } else {
                    assert(t2[x] == t1[x]);
                    assert(!has_binding_at(t1, x, a, platform));
                }
            };
            assert(bindings_unique_by_account(t2));
            assert forall|x: int, y: int|
                0 <= x < t2.len() && 0 <= y < t2.len() && x != y
                implies !(t2[x].platform == t2[y].platform && t2[x].handle@ == t2[y].handle@) by {
                if x < last && y < last {
                    assert(t2[x] == t1[x]);
                    assert(t2[y] == t1[y]);
                } else if x == last {
                    assert(t2[y] == t1[y]);
                    assert(!claims_at(t1, y, platform, h));
                } else {
                    assert(t2[x] == t1[x]);
                    assert(!claims_at(t1, x, platform, h));
                }
            };
            assert(bindings_unique_by_handle(t2));
            assert(has_binding_at(t2, last, a, platform));
            assert(claims_at(t2, last, platform, h));
            self.lemma_binding_at(last, a, platform);
            self.lemma_claimant_at(last, platform, h);
            assert forall|a2: Seq<char>, p2: Platform| !(a2 == a && p2 == platform)
                implies self.spec_has_binding(a2, p2) == mid.spec_has_binding(a2, p2) by {
                if mid.spec_has_binding(a2, p2) {
                    let j = choose|j: int| has_binding_at(t1, j, a2, p2);
                    assert(t2[j] == t1[j]);
                    assert(has_binding_at(t2, j, a2, p2));
                }
                if self.spec_has_binding(a2, p2) {
                    let k = choose|k: int| has_binding_at(t2, k, a2, p2);
                    assert(k != last);
                    assert(t2[k] == t1[k]);
                    assert(has_binding_at(t1, k, a2, p2));
                }
            };
            assert forall|a2: Seq<char>, p2: Platform| !(a2 == a && p2 == platform) && mid.spec_has_binding(a2, p2)
                implies self.spec_handle(a2, p2) == mid.spec_handle(a2, p2) by {
                let j = choose|j: int| has_binding_at(t1, j, a2, p2);
                assert(t2[j] == t1[j]);
                mid.lemma_binding_at(j, a2, p2);
                self.lemma_binding_at(j, a2, p2);
            };
            assert forall|p2: Platform, h2: Seq<char>| !(p2 == platform && h2 == h)
                implies self.spec_handle_claimed(p2, h2) == mid.spec_handle_claimed(p2, h2) by {
                if mid.spec_handle_claimed(p2, h2) {
                    let j = choose|j: int| claims_at(t1, j, p2, h2);
                    assert(t2[j] == t1[j]);
                    assert(claims_at(t2, j, p2, h2));
                }
                if self.spec_handle_claimed(p2, h2) {
                    let k = choose|k: int| claims_at(t2, k, p2, h2);
                    assert(k != last);
                    assert(t2[k] == t1[k]);
                    assert(claims_at(t1, k, p2, h2));
                }
            };
            assert forall|p2: Platform, h2: Seq<char>| !(p2 == platform && h2 == h) && mid.spec_handle_claimed(p2, h2)
                implies self.spec_claimant(p2, h2) == mid.spec_claimant(p2, h2) by {
                let j = choose|j: int| claims_at(t1, j, p2, h2);
                assert(t2[j] == t1[j]);
                mid.lemma_claimant_at(j, p2, h2);
                self.lemma_claimant_at(j, p2, h2);
            };
            assert forall|x: int, jb: int|
                0 <= x < self.proposals@.len() && 0 <= jb < t2.len()
                implies !(self.proposals@[x].account_id@ == t2[jb].account_id@
                    && self.proposals@[x].platform == t2[jb].platform) by {
                if jb < last {
                    assert(t2[jb] == t1[jb]);
                    assert(mid.proposals@[x] == self.proposals@[x]);
                    assert(mid.bindings@[jb] == t1[jb]);
                } else {
                    assert(!has_proposal_at(mid.proposals@, x, a, platform));
                }
            };
            assert forall|x: int| 0 <= x < t2.len() implies (#[trigger] t2[x]).handle@.len() > 0 by {
                if x < last {
                    assert(t2[x] == t1[x]);
                    assert(mid.bindings@[x] == t1[x]);
                }
            };
            assert(self.wf());
        }
    }

    /// Submit (or replace) the caller's proposal to bind its account to
    /// `handle` on `platform`. `deposit` is the value attached to the call;
    /// `now_ms` is the ledger time in milliseconds.
    pub fn propose_binding(&mut self, caller: String, deposit: u128, platform: Platform, handle: String, now_ms: u64) -> (r: Result<Event, BindingError>)
        requires
            old(self).wf(),
        ensures
            final(self).wf(),
            ({
                let pre = *old(self);
                let post = *final(self);
                if deposit < PROPOSAL_STORAGE_COST {
                    r matches Err(BindingError::InsufficientFee) && post == pre
                } else if handle@.len() == 0 {
                    r matches Err(BindingError::InvalidHandle) && post == pre
                } else if pre.spec_has_binding(caller@, platform) {
                    r matches Err(BindingError::AlreadyBound { handle: h })
                        && h@ == pre.spec_handle(caller@, platform)
                        && post == pre
                } else if pre.spec_handle_claimed(platform, handle@) {
                    r matches Err(BindingError::HandleTaken { account_id: ca })
                        && ca@ == pre.spec_claimant(platform, handle@)
                        && post == pre
                } else {
                    r matches Ok(Event::ProposeBinding { account_id: ea, platform: ep, handle: eh, created_at: et })
                        && ea@ == caller@ && ep == platform && eh@ == handle@ && et == now_ms
                        && Contract::propose_effect(pre, post, caller@, platform, handle@, now_ms)
                }
            }),
    {
        if deposit < PROPOSAL_STORAGE_COST {
            return Err(BindingError::InsufficientFee);
        }
        if handle.as_str().is_empty() {
            return Err(BindingError::InvalidHandle);
        }
        if let Some(bi) = self.find_binding_index(&caller, platform) {
            proof {
                self.lemma_binding_at(bi as int, caller@, platform);
            }
            return Err(BindingError::AlreadyBound { handle: self.bindings[bi].handle.clone() });
        }
        if let Some(ci) = self.find_claimant_index(platform, &handle) {
            proof {
                self.lemma_claimant_at(ci as int, platform, handle@);
            }
            return Err(BindingError::HandleTaken { account_id: self.bindings[ci].account_id.clone() });
        }
        let ghost pre = *self;
        let _ = self.internal_remove_proposal(&caller, platform);
        let ghost mid = *self;
        proof {
            assert(mid.bindings@ == pre.bindings@);
            assert(!mid.spec_has_proposal(caller@, platform));
            assert(!mid.spec_has_binding(caller@, platform));
        }
        self.push_proposal(&caller, platform, &handle, now_ms);
        proof {
            let a = caller@;
            assert forall|a2: Seq<char>, p2: Platform| !(a2 == a && p2 == platform)
                implies self.spec_has_proposal(a2, p2) == pre.spec_has_proposal(a2, p2) by {
                assert(self.spec_has_proposal(a2, p2) == mid.spec_has_proposal(a2, p2));
                assert(mid.spec_has_proposal(a2, p2) == pre.spec_has_proposal(a2, p2));
            };
            assert forall|a2: Seq<char>, p2: Platform| !(a2 == a && p2 == platform) && pre.spec_has_proposal(a2, p2)
                implies self.spec_proposal(a2, p2) == pre.spec_proposal(a2, p2) by {
                assert(mid.spec_has_proposal(a2, p2) == pre.spec_has_proposal(a2, p2));
                assert(mid.spec_proposal(a2, p2) == pre.spec_proposal(a2, p2));
                assert(self.spec_proposal(a2, p2) == mid.spec_proposal(a2, p2));
            };
            assert(Contract::propose_effect(pre, *self, a, platform, handle@, now_ms));
        }
        Ok(Event::ProposeBinding { account_id: caller, platform, handle, created_at: now_ms })
    }

    /// Withdraw the caller's pending proposal for `platform`.
    pub fn cancel_binding_proposal(&mut self, caller: String, platform: Platform) -> (r: Result<Event, BindingError>)
        requires
            old(self).wf(),
        ensures
            final(self).wf(),
            ({
                let pre = *old(self);
                let post = *final(self);
                if !pre.spec_has_proposal(caller@, platform) {
                    r matches Err(BindingError::NoProposal) && post == pre
                } else {
                    let pv = pre.spec_proposal(caller@, platform);
                    r matches Ok(Event::CancelBindingProposal { account_id: ea, platform: ep, handle: eh, created_at: et })
                        && ea@ == pv.account_id && ep == pv.platform && eh@ == pv.handle && et == pv.created_at
                        && Contract::proposal_removed(pre, post, caller@, platform)
                }
            }),
    {
        match self.internal_remove_proposal(&caller, platform) {
            Err(e) => Err(e),
            Ok(bp) => Ok(Event::CancelBindingProposal {
                account_id: bp.account_id,
                platform: bp.platform,
                handle: bp.handle,
                created_at: bp.created_at,
            }),
        }
    }

    /// Manager-only: approve the pending proposal of `account_id` for
    /// `platform`, turning it into a binding. `proposal_created_at` must be
    /// the exact creation time of the proposal being approved, and strictly
    /// in the past of `now_ms`, the ledger time in milliseconds.
    pub fn accept_binding(&mut self, caller: String, account_id: String, platform: Platform, proposal_created_at: u64, now_ms: u64) -> (r: Result<Event, BindingError>)
        requires
            old(self).wf(),
        ensures
            final(self).wf(),
            ({
                let pre = *old(self);
                let post = *final(self);
                if !pre.spec_is_manager(caller@) {
                    r matches Err(BindingError::Unauthorized) && post == pre
                } else if proposal_created_at >= now_ms {
                    r matches Err(BindingError::InvalidTimestamp) && post == pre
                } else if !pre.spec_has_proposal(account_id@, platform) {
                    r matches Err(BindingError::NoProposal) && post == pre
                } else if pre.spec_proposal(account_id@, platform).created_at != proposal_created_at {
                    r matches Err(BindingError::StaleProposal) && post == pre
                } else if pre.spec_has_binding(account_id@, platform) {
                    r matches Err(BindingError::AlreadyBound { handle: h })
                        && h@ == pre.spec_handle(account_id@, platform)
                        && post == pre
                } else if pre.spec_handle_claimed(platform, pre.spec_proposal(account_id@, platform).handle) {
                    r matches Err(BindingError::HandleTaken { account_id: ca })
                        && ca@ == pre.spec_claimant(platform, pre.spec_proposal(account_id@, platform).handle)
                        && post == pre
                } else {
                    r matches Ok(Event::BindAccount { account_id: ea, platform: ep, handle: eh })
                        && ea@ == account_id@ && ep == platform
                        && eh@ == pre.spec_proposal(account_id@, platform).handle
                        && Contract::accept_effect(pre, post, account_id@, platform, pre.spec_proposal(account_id@, platform).handle)
                }
            }),
    {
        match self.require_manager(&caller) {
            Err(e) => {
                return Err(e);
            },
            Ok(()) => {},
        }
        if proposal_created_at >= now_ms {
            return Err(BindingError::InvalidTimestamp);
        }
        let pi = match self.find_proposal_index(&account_id, platform) {
            None => {
                return Err(BindingError::NoProposal);
            },
            Some(i) => i,
        };
        proof {
            self.lemma_proposal_at(pi as int, account_id@, platform);
        }
        if self.proposals[pi].created_at != proposal_created_at {
            return Err(BindingError::StaleProposal);
        }
        if let Some(bi) = self.find_binding_index(&account_id, platform) {
            proof {
                self.lemma_binding_at(bi as int, account_id@, platform);
            }
            return Err(BindingError::AlreadyBound { handle: self.bindings[bi].handle.clone() });
        }
        if let Some(ci) = self.find_claimant_index(platform, &self.proposals[pi].handle) {
            proof {
                self.lemma_claimant_at(ci as int, platform, self.proposals@[pi as int].handle@);
            }
            return Err(BindingError::HandleTaken { account_id: self.bindings[ci].account_id.clone() });
        }
        let ghost pre = *self;
        let ghost h = pre.spec_proposal(account_id@, platform).handle;
        let bp = match self.internal_remove_proposal(&account_id, platform) {
            Err(e) => {
                return Err(e);
            },
            Ok(bp) => bp,
        };
        let ghost mid = *self;
        proof {
            assert(bp.handle@ == h);
            assert(mid.bindings@ == pre.bindings@);
            assert(!mid.spec_has_binding(account_id@, platform));
            assert(!mid.spec_handle_claimed(platform, h));
            assert(h.len() > 0);
        }
        self.push_binding(&account_id, platform, bp.handle.clone());
        proof {
            let a = account_id@;
            assert forall|a2: Seq<char>, p2: Platform| !(a2 == a && p2 == platform)
                implies self.spec_has_proposal(a2, p2) == pre.spec_has_proposal(a2, p2) by {
                assert(self.proposals@ == mid.proposals@);
                assert(mid.spec_has_proposal(a2, p2) == pre.spec_has_proposal(a2, p2));
            };
            assert forall|a2: Seq<char>, p2: Platform| !(a2 == a && p2 == platform) && pre.spec_has_proposal(a2, p2)
                implies self.spec_proposal(a2, p2) == pre.spec_proposal(a2, p2) by {
                assert(self.proposals@ == mid.proposals@);
                assert(mid.spec_has_proposal(a2, p2) == pre.spec_has_proposal(a2, p2));
                assert(mid.spec_proposal(a2, p2) == pre.spec_proposal(a2, p2));
            };
            assert(!self.spec_has_proposal(a, platform));
            assert forall|a2: Seq<char>, p2: Platform| !(a2 == a && p2 == platform)
                implies self.spec_has_binding(a2, p2) == pre.spec_has_binding(a2, p2) by {
                assert(self.spec_has_binding(a2, p2) == mid.spec_has_binding(a2, p2));
            };
            assert forall|a2: Seq<char>, p2: Platform| !(a2 == a && p2 == platform) && pre.spec_has_binding(a2, p2)
                implies self.spec_handle(a2, p2) == pre.spec_handle(a2, p2) by {
                assert(mid.spec_has_binding(a2, p2));
                assert(self.spec_handle(a2, p2) == mid.spec_handle(a2, p2));
            };
            assert forall|p2: Platform, h2: Seq<char>| !(p2 == platform && h2 == h)
                implies self.spec_handle_claimed(p2, h2) == pre.spec_handle_claimed(p2, h2) by {
                assert(self.spec_handle_claimed(p2, h2) == mid.spec_handle_claimed(p2, h2));
            };
            assert forall|p2: Platform, h2: Seq<char>| !(p2 == platform && h2 == h) && pre.spec_handle_claimed(p2, h2)
                implies self.spec_claimant(p2, h2) == pre.spec_claimant(p2, h2) by {
                assert(mid.spec_handle_claimed(p2, h2));
                assert(self.spec_claimant(p2, h2) == mid.spec_claimant(p2, h2));
            };
            assert(Contract::accept_effect(pre, *self, a, platform, h));
        }
        Ok(Event::BindAccount { account_id, platform, handle: bp.handle })
    }
}

} // verus!
