use vstd::prelude::*;
use crate::types::{Binding, BindingProposal, Platform};
use crate::{
    bindings_unique_by_account, has_binding_at, has_proposal_at, proposals_unique, Contract,
};

verus! {

/// Everything known about one account: its pending proposals and its
/// accepted bindings, one row per platform.
pub struct Account {
    pub account_id: String,
    pub proposals: Vec<BindingProposal>,
    pub bindings: Vec<Binding>,
}

/// What an [`Account`] returned for `aid` holds: exactly the rows of `c`
/// that belong to `aid`.
pub open spec fn account_ok(c: Contract, aid: Seq<char>, acc: Account) -> bool {
    &&& acc.account_id@ == aid
    &&& forall|j: int| 0 <= j < acc.proposals@.len()
            ==> (#[trigger] acc.proposals@[j]).account_id@ == aid
    &&& forall|j: int| 0 <= j < acc.proposals@.len()
            ==> c.spec_has_proposal(aid, (#[trigger] acc.proposals@[j]).platform)
    &&& forall|j: int| 0 <= j < acc.proposals@.len()
            ==> (#[trigger] acc.proposals@[j])@ == c.spec_proposal(aid, acc.proposals@[j].platform)
    &&& forall|p: Platform| #[trigger] c.spec_has_proposal(aid, p)
            ==> exists|j: int| 0 <= j < acc.proposals@.len() && (#[trigger] acc.proposals@[j]).platform == p
    &&& proposals_unique(acc.proposals@)
    &&& forall|j: int| 0 <= j < acc.bindings@.len()
            ==> (#[trigger] acc.bindings@[j]).account_id@ == aid
    &&& forall|j: int| 0 <= j < acc.bindings@.len()
            ==> c.spec_has_binding(aid, (#[trigger] acc.bindings@[j]).platform)
    &&& forall|j: int| 0 <= j < acc.bindings@.len()
            ==> (#[trigger] acc.bindings@[j]).handle@ == c.spec_handle(aid, acc.bindings@[j].platform)
    &&& forall|p: Platform| #[trigger] c.spec_has_binding(aid, p)
            ==> exists|j: int| 0 <= j < acc.bindings@.len() && (#[trigger] acc.bindings@[j]).platform == p
    &&& bindings_unique_by_account(acc.bindings@)
}

/// The distinct accounts holding at least one binding, in order of first
/// appearance in the binding table.
pub open spec fn spec_account_ids(s: Seq<Binding>) -> Seq<Seq<char>>
    decreases s.len(),
{
    if s.len() == 0 {
        Seq::empty()
    } else {
        let rest = spec_account_ids(s.drop_last());
        if rest.contains(s.last().account_id@) {
            rest
        } else {
            rest.push(s.last().account_id@)
        }
    }
}

/// `spec_account_ids` lists each account with a binding exactly once.
pub proof fn lemma_account_ids(s: Seq<Binding>)
    ensures
        forall|a: Seq<char>| #[trigger] spec_account_ids(s).contains(a)
            <==> exists|i: int| 0 <= i < s.len() && (#[trigger] s[i]).account_id@ == a,
        spec_account_ids(s).no_duplicates(),
    decreases s.len(),
{
    if s.len() == 0 {
    } else {
        let rest = spec_account_ids(s.drop_last());
        let out = spec_account_ids(s);
        lemma_account_ids(s.drop_last());
        assert forall|a: Seq<char>| #[trigger] out.contains(a)
            implies exists|i: int| 0 <= i < s.len() && (#[trigger] s[i]).account_id@ == a by {
            if rest.contains(a) {
                let i = choose|i: int| 0 <= i < s.drop_last().len() && (#[trigger] s.drop_last()[i]).account_id@ == a;
                assert(s[i] == s.drop_last()[i]);
            } else {
                let j = choose|j: int| 0 <= j < out.len() && out[j] == a;
                assert(out == rest.push(s.last().account_id@));
                assert(j == out.len() - 1);
                assert(s[s.len() - 1].account_id@ == a);
            }
        };
        assert forall|a: Seq<char>| (exists|i: int| 0 <= i < s.len() && (#[trigger] s[i]).account_id@ == a)
            implies #[trigger] out.contains(a) by {
            let i = choose|i: int| 0 <= i < s.len() && (#[trigger] s[i]).account_id@ == a;
            if i < s.len() - 1 {
                assert(s.drop_last()[i] == s[i]);
                assert(rest.contains(a));
                if !rest.contains(s.last().account_id@) {
                    let j = choose|j: int| 0 <= j < rest.len() && rest[j] == a;
                    assert(out[j] == a);
                }
            } else {
                if rest.contains(s.last().account_id@) {
                    assert(out == rest);
                } else {
                    assert(out[out.len() - 1] == a);
                }
            }
        };
        if !rest.contains(s.last().account_id@) {
            assert forall|x: int, y: int| 0 <= x < out.len() && 0 <= y < out.len() && x != y
                implies out[x] != out[y] by {
                if x < rest.len() && y < rest.len() {
                    assert(out[x] == rest[x]);
                    assert(out[y] == rest[y]);
                } else if x == rest.len() {
                    assert(out[y] == rest[y]);
                    assert(rest.contains(rest[y]));
                } else {
                    assert(out[x] == rest[x]);
                    assert(rest.contains(rest[x]));
                }
            };
            assert(out.no_duplicates());
        }
    }
}

impl Contract {
    /// The caller's rows of the proposal table.
    #[verifier::rlimit(100)]
    fn collect_proposals(&self, account_id: &String) -> (r: Vec<BindingProposal>)
        requires
            proposals_unique(self.proposals@),
        ensures
            forall|j: int| 0 <= j < r@.len() ==> (#[trigger] r@[j]).account_id@ == account_id@,
            forall|j: int| 0 <= j < r@.len()
                ==> self.spec_has_proposal(account_id@, (#[trigger] r@[j]).platform),
            forall|j: int| 0 <= j < r@.len()
                ==> (#[trigger] r@[j])@ == self.spec_proposal(account_id@, r@[j].platform),
            forall|p: Platform| #[trigger] self.spec_has_proposal(account_id@, p)
                ==> exists|j: int| 0 <= j < r@.len() && (#[trigger] r@[j]).platform == p,
            proposals_unique(r@),
    {
        let n = self.proposals.len();
        let mut out: Vec<BindingProposal> = Vec::new();
        let mut i: usize = 0;
        while i < n
            invariant
                proposals_unique(self.proposals@),
                n == self.proposals@.len(),
                i <= n,
                forall|j: int| 0 <= j < out@.len() ==> (#[trigger] out@[j]).account_id@ == account_id@,
                forall|j1: int, j2: int| #![trigger out@[j1], out@[j2]]
                    0 <= j1 < out@.len() && 0 <= j2 < out@.len() && j1 != j2
                        ==> out@[j1].platform != out@[j2].platform,
                forall|k: int| 0 <= k < i && (#[trigger] self.proposals@[k]).account_id@ == account_id@
                    ==> exists|j: int| 0 <= j < out@.len() && (#[trigger] out@[j]).platform == self.proposals@[k].platform,
                forall|j: int| #![trigger out@[j]] 0 <= j < out@.len()
                    ==> exists|k: int| 0 <= k < i && (#[trigger] self.proposals@[k])@ == out@[j]@,
            decreases n - i,
        {
            if self.proposals[i].account_id == *account_id {
                let ghost out0 = out@;
                let ghost p = self.proposals@[i as int].platform;
                proof {
                    assert forall|j: int| 0 <= j < out0.len()
                        implies (#[trigger] out0[j]).platform != p by {
                        if out0[j].platform == p {
                            let k = choose|k: int| 0 <= k < i && (#[trigger] self.proposals@[k])@ == out0[j]@;
                            assert(self.proposals@[k].account_id@ == account_id@
                                && self.proposals@[k].platform == p);
                            assert(self.proposals@[i as int].account_id@ == account_id@
                                && self.proposals@[i as int].platform == p);
                            assert(false);
                        }
                    };
                }
                out.push(self.proposals[i].clone());
                proof {
                    let lastj = out@.len() - 1;
                    assert(out@[lastj]@ == self.proposals@[i as int]@);
                    assert forall|k: int| 0 <= k < i + 1 && (#[trigger] self.proposals@[k]).account_id@ == account_id@
                        implies exists|j: int| 0 <= j < out@.len()
                            && (#[trigger] out@[j]).platform == self.proposals@[k].platform by {
                        if k < i {
                            let j0 = choose|j0: int| 0 <= j0 < out0.len()
                                && (#[trigger] out0[j0]).platform == self.proposals@[k].platform;
                            assert(out@[j0] == out0[j0]);
                        } else {
                            assert(out@[lastj].platform == self.proposals@[k].platform);
                        }
                    };
                    assert forall|j: int| #![trigger out@[j]] 0 <= j < out@.len()
                        implies exists|k: int| 0 <= k < i + 1 && (#[trigger] self.proposals@[k])@ == out@[j]@ by {
                        if j < lastj {
                            assert(out@[j] == out0[j]);
                            let k0 = choose|k0: int| 0 <= k0 < i && (#[trigger] self.proposals@[k0])@ == out0[j]@;
                            assert(self.proposals@[k0]@ == out@[j]@);
                        } else {
                            assert(self.proposals@[i as int]@ == out@[j]@);
                        }
                    };
                }
            }
            i += 1;
        }
        proof {
            assert forall|j: int| 0 <= j < out@.len()
                implies (#[trigger] out@[j]).account_id@ == account_id@
                    && self.spec_has_proposal(account_id@, out@[j].platform)
                    && out@[j]@ == self.spec_proposal(account_id@, out@[j].platform) by {
                let k = choose|k: int| 0 <= k < i && (#[trigger] self.proposals@[k])@ == out@[j]@;
                assert(has_proposal_at(self.proposals@, k, account_id@, out@[j].platform));
                self.lemma_proposal_at(k, account_id@, out@[j].platform);
            };
            assert(proposals_unique(out@));
            assert forall|p: Platform| #[trigger] self.spec_has_proposal(account_id@, p)
                implies exists|j: int| 0 <= j < out@.len() && (#[trigger] out@[j]).platform == p by {
                let k = choose|k: int| has_proposal_at(self.proposals@, k, account_id@, p);
                assert(self.proposals@[k].account_id@ == account_id@);
            };
        }
        out
    }

    /// The caller's rows of the binding table.
    #[verifier::rlimit(50)]
    fn collect_bindings(&self, account_id: &String) -> (r: Vec<Binding>)
        requires
            bindings_unique_by_account(self.bindings@),
        ensures
            forall|j: int| 0 <= j < r@.len() ==> (#[trigger] r@[j]).account_id@ == account_id@,
            forall|j: int| 0 <= j < r@.len()
                ==> self.spec_has_binding(account_id@, (#[trigger] r@[j]).platform),
            forall|j: int| 0 <= j < r@.len()
                ==> (#[trigger] r@[j]).handle@ == self.spec_handle(account_id@, r@[j].platform),
            forall|p: Platform| #[trigger] self.spec_has_binding(account_id@, p)
                ==> exists|j: int| 0 <= j < r@.len() && (#[trigger] r@[j]).platform == p,
            bindings_unique_by_account(r@),
    {
        let n = self.bindings.len();
        let mut out: Vec<Binding> = Vec::new();
        let mut i: usize = 0;
        while i < n
            invariant
                bindings_unique_by_account(self.bindings@),
                n == self.bindings@.len(),
                i <= n,
                forall|j: int| 0 <= j < out@.len() ==> (#[trigger] out@[j]).account_id@ == account_id@,
                forall|j1: int, j2: int| #![trigger out@[j1], out@[j2]]
                    0 <= j1 < out@.len() && 0 <= j2 < out@.len() && j1 != j2
                        ==> out@[j1].platform != out@[j2].platform,
                forall|k: int| 0 <= k < i && (#[trigger] self.bindings@[k]).account_id@ == account_id@
                    ==> exists|j: int| 0 <= j < out@.len() && (#[trigger] out@[j]).platform == self.bindings@[k].platform,
                forall|j: int| #![trigger out@[j]] 0 <= j < out@.len()
                    ==> exists|k: int| 0 <= k < i && (#[trigger] self.bindings@[k])@ == out@[j]@,
            decreases n - i,
        {
            if self.bindings[i].account_id == *account_id {
                let ghost out0 = out@;
                let ghost p = self.bindings@[i as int].platform;
                proof {
                    assert forall|j: int| 0 <= j < out0.len()
                        implies (#[trigger] out0[j]).platform != p by {
                        if out0[j].platform == p {
                            let k = choose|k: int| 0 <= k < i && (#[trigger] self.bindings@[k])@ == out0[j]@;
                            assert(self.bindings@[k].account_id@ == account_id@
                                && self.bindings@[k].platform == p);
                            assert(self.bindings@[i as int].account_id@ == account_id@
                                && self.bindings@[i as int].platform == p);
                            assert(false);
                        }
                    };
                }
                out.push(self.bindings[i].clone());
                proof {
                    let lastj = out@.len() - 1;
                    assert(out@[lastj]@ == self.bindings@[i as int]@);
                    assert forall|k: int| 0 <= k < i + 1 && (#[trigger] self.bindings@[k]).account_id@ == account_id@
                        implies exists|j: int| 0 <= j < out@.len()
                            && (#[trigger] out@[j]).platform == self.bindings@[k].platform by {
                        if k < i {
                            let j0 = choose|j0: int| 0 <= j0 < out0.len()
                                && (#[trigger] out0[j0]).platform == self.bindings@[k].platform;
                            assert(out@[j0] == out0[j0]);
                        } else {
                            assert(out@[lastj].platform == self.bindings@[k].platform);
                        }
                    };
                    assert forall|j: int| #![trigger out@[j]] 0 <= j < out@.len()
                        implies exists|k: int| 0 <= k < i + 1 && (#[trigger] self.bindings@[k])@ == out@[j]@ by {
                        if j < lastj {
                            assert(out@[j] == out0[j]);
                            let k0 = choose|k0: int| 0 <= k0 < i && (#[trigger] self.bindings@[k0])@ == out0[j]@;
                            assert(self.bindings@[k0]@ == out@[j]@);
                        } else {
                            assert(self.bindings@[i as int]@ == out@[j]@);
                        }
                    };
                }
            }
            i += 1;
        }
        proof {
            assert forall|j: int| 0 <= j < out@.len()
                implies (#[trigger] out@[j]).account_id@ == account_id@
                    && self.spec_has_binding(account_id@, out@[j].platform)
                    && out@[j].handle@ == self.spec_handle(account_id@, out@[j].platform) by {
                let k = choose|k: int| 0 <= k < n && (#[trigger] self.bindings@[k])@ == out@[j]@;
                assert(has_binding_at(self.bindings@, k, account_id@, out@[j].platform));
                self.lemma_binding_at(k, account_id@, out@[j].platform);
            };
            assert(bindings_unique_by_account(out@));
            assert forall|p: Platform| #[trigger] self.spec_has_binding(account_id@, p)
                implies exists|j: int| 0 <= j < out@.len() && (#[trigger] out@[j]).platform == p by {
                let k = choose|k: int| has_binding_at(self.bindings@, k, account_id@, p);
                assert(self.bindings@[k].account_id@ == account_id@);
            };
        }
        out
    }

    /// The distinct accounts holding at least one binding, in order of first
    /// appearance.
    fn collect_account_ids(&self) -> (r: Vec<String>)
        ensures
            r@.len() == spec_account_ids(self.bindings@).len(),
            forall|j: int| 0 <= j < r@.len()
                ==> (#[trigger] r@[j])@ == spec_account_ids(self.bindings@)[j],
    {
        let n = self.bindings.len();
        let mut out: Vec<String> = Vec::new();
        let mut i: usize = 0;
        proof {
            assert(self.bindings@.take(0) =~= Seq::<Binding>::empty());
        }
        while i < n
            invariant
                n == self.bindings@.len(),
                i <= n,
                out@.len() == spec_account_ids(self.bindings@.take(i as int)).len(),
                forall|j: int| 0 <= j < out@.len()
                    ==> (#[trigger] out@[j])@ == spec_account_ids(self.bindings@.take(i as int))[j],
            decreases n - i,
        {
            let ghost prefix = self.bindings@.take(i as int);
            let ghost next = self.bindings@.take(i as int + 1);
            proof {
                assert(next.drop_last() =~= prefix);
                assert(next.last() == self.bindings@[i as int]);
            }
            let mut seen = false;
            let mut j: usize = 0;
            let m = out.len();
            while j < m
                invariant
                    m == out@.len(),
                    j <= m,
                    seen == exists|x: int| 0 <= x < j && (#[trigger] out@[x])@ == self.bindings@[i as int].account_id@,
                    i < n,
                    n == self.bindings@.len(),
                decreases m - j,
            {
                if out[j] == self.bindings[i].account_id {
                    seen = true;
                    proof {
                        assert((#[trigger] out@[j as int])@ == self.bindings@[i as int].account_id@);
                    }
                }
                j += 1;
            }
            proof {
                let a = self.bindings@[i as int].account_id@;
                let ids = spec_account_ids(prefix);
                if seen {
                    let x = choose|x: int| 0 <= x < out@.len() && (#[trigger] out@[x])@ == a;
                    assert(ids[x] == a);
                    assert(ids.contains(a));
                    assert(spec_account_ids(next) == ids);
                } else {
                    if ids.contains(a) {
                        let x = choose|x: int| 0 <= x < ids.len() && ids[x] == a;
                        assert(out@[x]@ == a);
                        assert(false);
                    }
                    assert(spec_account_ids(next) == ids.push(a));
                }
            }
            if !seen {
                out.push(self.bindings[i].account_id.clone());
            }
            i += 1;
        }
        proof {
            assert(self.bindings@.take(n as int) =~= self.bindings@);
        }
        out
    }

    /// All stored facts about `account_id`.
    pub fn get_account(&self, account_id: String) -> (r: Account)
        requires
            self.wf(),
        ensures
            account_ok(*self, account_id@, r),
    {
        let proposals = self.collect_proposals(&account_id);
        let bindings = self.collect_bindings(&account_id);
        Account { account_id, proposals, bindings }
    }

    /// How many accounts hold at least one accepted binding.
    pub fn get_number_of_accounts(&self) -> (r: u64)
        ensures
            r == spec_account_ids(self.bindings@).len(),
    {
        let ids = self.collect_account_ids();
        ids.len() as u64
    }

    /// A page of the account listing: up to `limit` accounts starting at
    /// `from_index` in order of first binding.
    pub fn get_accounts(&self, from_index: u64, limit: u64) -> (r: Vec<Account>)
        requires
            self.wf(),
        ensures
            ({
                let ids = spec_account_ids(self.bindings@);
                let start = if from_index <= ids.len() { from_index as int } else { ids.len() as int };
                let count = if limit <= ids.len() - start { limit as int } else { ids.len() - start };
                r@.len() == count
                    && forall|k: int| 0 <= k < count ==> account_ok(*self, ids[start + k], #[trigger] r@[k])
            }),
    {
        let ids = self.collect_account_ids();
        let n = ids.len();
        let start: usize = if from_index >= n as u64 { n } else { from_index as usize };
        let remaining = n - start;
        let count: usize = if limit >= remaining as u64 { remaining } else { limit as usize };
        let mut out: Vec<Account> = Vec::new();
        let mut k: usize = 0;
        while k < count
            invariant
                self.wf(),
                count <= remaining,
                remaining == n - start,
                start <= n,
                n == ids@.len(),
                ids@.len() == spec_account_ids(self.bindings@).len(),
                forall|j: int| 0 <= j < ids@.len()
                    ==> (#[trigger] ids@[j])@ == spec_account_ids(self.bindings@)[j],
                k <= count,
                out@.len() == k,
                forall|x: int| 0 <= x < k
                    ==> account_ok(*self, spec_account_ids(self.bindings@)[start + x], #[trigger] out@[x]),
            decreases count - k,
        {
            let acc = self.get_account(ids[start + k].clone());
            out.push(acc);
            k += 1;
        }
        out
    }

    /// The pending proposal of `account_id` for `platform`, if any.
    pub fn get_proposal(&self, account_id: String, platform: Platform) -> (r: Option<BindingProposal>)
        requires
            self.wf(),
        ensures
            match r {
                Some(bp) => self.spec_has_proposal(account_id@, platform)
                    && bp@ == self.spec_proposal(account_id@, platform),
                None => !self.spec_has_proposal(account_id@, platform),
            },
    {
        match self.find_proposal_index(&account_id, platform) {
            None => None,
            Some(i) => {
                proof {
                    self.lemma_proposal_at(i as int, account_id@, platform);
                }
                Some(self.proposals[i].clone())
            },
        }
    }

    /// The handle bound to `account_id` on `platform`, if any.
    pub fn get_handle(&self, account_id: String, platform: Platform) -> (r: Option<String>)
        requires
            self.wf(),
        ensures
            match r {
                Some(h) => self.spec_has_binding(account_id@, platform)
                    && h@ == self.spec_handle(account_id@, platform),
                None => !self.spec_has_binding(account_id@, platform),
            },
    {
        match self.find_binding_index(&account_id, platform) {
            None => None,
            Some(i) => {
                proof {
                    self.lemma_binding_at(i as int, account_id@, platform);
                }
                Some(self.bindings[i].handle.clone())
            },
        }
    }

    /// The account that claimed `handle` on `platform`, if any.
    pub fn lookup_account(&self, platform: Platform, handle: String) -> (r: Option<String>)
        requires
            self.wf(),
        ensures
            match r {
                Some(a) => self.spec_handle_claimed(platform, handle@)
                    && a@ == self.spec_claimant(platform, handle@),
                None => !self.spec_handle_claimed(platform, handle@),
            },
    {
        match self.find_claimant_index(platform, &handle) {
            None => None,
            Some(i) => {
                proof {
                    self.lemma_claimant_at(i as int, platform, handle@);
                }
                Some(self.bindings[i].account_id.clone())
            },
        }
    }

    /// The current owner.
    pub fn get_owner_id(&self) -> (r: String)
        ensures
            r@ == self.spec_owner(),
    {
        self.owner_id.clone()
    }

    /// Whether `account_id` is a manager.
    pub fn is_manager(&self, account_id: String) -> (r: bool)
        ensures
            r == self.spec_is_manager(account_id@),
    {
        self.contains_manager(&account_id)
    }
}

} // verus!
