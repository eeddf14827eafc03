use vstd::prelude::*;
use crate::types::{Platform, ProposalView};
use crate::Contract;

verus! {

/// Some call changed the owner and touched nothing else.
pub open spec fn owner_changed(pre: Contract, post: Contract) -> bool {
    &&& post.managers@ == pre.managers@
    &&& post.proposals@ == pre.proposals@
    &&& post.bindings@ == pre.bindings@
}

/// Any single call of the registry: a rejected call leaves it unchanged; a
/// successful call makes exactly one of the described transitions.
pub open spec fn step(pre: Contract, post: Contract) -> bool {
    ||| post == pre
    ||| owner_changed(pre, post)
    ||| exists|m: Seq<char>| #[trigger] Contract::manager_added(pre, post, m)
    ||| exists|m: Seq<char>| #[trigger] Contract::manager_removed(pre, post, m)
    ||| exists|a: Seq<char>, p: Platform, h: Seq<char>, t: u64|
            #[trigger] Contract::propose_effect(pre, post, a, p, h, t)
    ||| exists|a: Seq<char>, p: Platform| #[trigger] Contract::proposal_removed(pre, post, a, p)
    ||| exists|a: Seq<char>, p: Platform, h: Seq<char>|
            #[trigger] Contract::accept_effect(pre, post, a, p, h)
}

/// A second proposal for the same pair overwrites the first: afterwards only
/// the later handle and creation time are retrievable.
pub proof fn lemma_propose_overwrites(
    pre: Contract, mid: Contract, post: Contract,
    a: Seq<char>, p: Platform, h1: Seq<char>, t1: u64, h2: Seq<char>, t2: u64,
)
    requires
        Contract::propose_effect(pre, mid, a, p, h1, t1),
        Contract::propose_effect(mid, post, a, p, h2, t2),
    ensures
        post.spec_has_proposal(a, p),
        post.spec_proposal(a, p) == (ProposalView { account_id: a, platform: p, handle: h2, created_at: t2 }),
{
}

/// A bound pair admits no further proposal: `propose_binding` must reject it.
pub proof fn lemma_bound_blocks_propose(pre: Contract, a: Seq<char>, p: Platform)
    requires
        pre.spec_has_binding(a, p),
    ensures
        forall|post: Contract, h: Seq<char>, t: u64| !Contract::propose_effect(pre, post, a, p, h, t),
{
}

/// An accepted binding is terminal: no call of the registry removes it or
/// changes its handle.
pub proof fn lemma_binding_terminal(pre: Contract, post: Contract, a: Seq<char>, p: Platform)
    requires
        pre.spec_has_binding(a, p),
        step(pre, post),
    ensures
        post.spec_has_binding(a, p),
        post.spec_handle(a, p) == pre.spec_handle(a, p),
{
    if post == pre {
    } else if owner_changed(pre, post) {
        assert(post.bindings@ == pre.bindings@);
    } else if exists|m: Seq<char>| Contract::manager_added(pre, post, m) {
        let m = choose|m: Seq<char>| Contract::manager_added(pre, post, m);
        assert(post.bindings@ == pre.bindings@);
    } else if exists|m: Seq<char>| Contract::manager_removed(pre, post, m) {
        let m = choose|m: Seq<char>| Contract::manager_removed(pre, post, m);
        assert(post.bindings@ == pre.bindings@);
    } else if exists|a2: Seq<char>, p2: Platform, h2: Seq<char>, t2: u64|
        Contract::propose_effect(pre, post, a2, p2, h2, t2) {
        let (a2, p2, h2, t2) = choose|a2: Seq<char>, p2: Platform, h2: Seq<char>, t2: u64|
            Contract::propose_effect(pre, post, a2, p2, h2, t2);
        assert(post.bindings@ == pre.bindings@);
    } else if exists|a2: Seq<char>, p2: Platform| Contract::proposal_removed(pre, post, a2, p2) {
        let (a2, p2) = choose|a2: Seq<char>, p2: Platform| Contract::proposal_removed(pre, post, a2, p2);
        assert(post.bindings@ == pre.bindings@);
    } else {
        let (a2, p2, h2) = choose|a2: Seq<char>, p2: Platform, h2: Seq<char>|
            Contract::accept_effect(pre, post, a2, p2, h2);
        if a2 == a && p2 == p {
            assert(false);
        } else {
            assert(post.spec_has_binding(a, p) == pre.spec_has_binding(a, p));
            assert(post.spec_handle(a, p) == pre.spec_handle(a, p));
        }
    }
}

/// The two lookup directions agree: `h` resolves to `a` on platform `p`
/// exactly when `a` is bound to `h` there.
pub proof fn lemma_binding_bijection(c: Contract, a: Seq<char>, p: Platform, h: Seq<char>)
    requires
        c.wf(),
    ensures
        (c.spec_handle_claimed(p, h) && c.spec_claimant(p, h) == a)
            <==> (c.spec_has_binding(a, p) && c.spec_handle(a, p) == h),
{
    if c.spec_handle_claimed(p, h) && c.spec_claimant(p, h) == a {
        let i = choose|i: int| crate::claims_at(c.bindings@, i, p, h);
        assert(crate::has_binding_at(c.bindings@, i, a, p));
        c.lemma_binding_at(i, a, p);
    }
    if c.spec_has_binding(a, p) && c.spec_handle(a, p) == h {
        let i = choose|i: int| crate::has_binding_at(c.bindings@, i, a, p);
        assert(crate::claims_at(c.bindings@, i, p, h));
        c.lemma_claimant_at(i, p, h);
    }
}

/// Contention: when two accounts race for one handle and the first accept
/// wins, the loser's proposal survives untouched, and no accept of it can
/// succeed while the handle stays claimed.
pub proof fn lemma_accept_excludes_second(
    pre: Contract, mid: Contract,
    a1: Seq<char>, a2: Seq<char>, p: Platform, h: Seq<char>,
)
    requires
        a1 != a2,
        Contract::accept_effect(pre, mid, a1, p, h),
        pre.spec_has_proposal(a2, p),
        pre.spec_proposal(a2, p).handle == h,
    ensures
        mid.spec_has_proposal(a2, p),
        mid.spec_proposal(a2, p) == pre.spec_proposal(a2, p),
        mid.spec_handle_claimed(p, h),
        mid.spec_claimant(p, h) == a1,
        forall|post: Contract| !Contract::accept_effect(mid, post, a2, p, h),
{
}

/// Replay defense: after a proposal is overwritten, the old creation time no
/// longer matches, so an accept that still carries it must be rejected as
/// stale.
pub proof fn lemma_replay_rejected(
    pre: Contract, post: Contract,
    a: Seq<char>, p: Platform, h2: Seq<char>, t_new: u64, t_old: u64,
)
    requires
        Contract::propose_effect(pre, post, a, p, h2, t_new),
        t_old != t_new,
    ensures
        post.spec_has_proposal(a, p),
        post.spec_proposal(a, p).created_at != t_old,
{
}

/// Adding a manager is idempotent: adding the same account again changes
/// nothing.
pub proof fn lemma_add_manager_idempotent(pre: Contract, mid: Contract, post: Contract, m: Seq<char>)
    requires
        Contract::manager_added(pre, mid, m),
        Contract::manager_added(mid, post, m),
    ensures
        post.managers@ == mid.managers@,
        forall|x: Seq<char>| #[trigger] post.spec_is_manager(x) == mid.spec_is_manager(x),
{
    assert forall|x: Seq<char>| #[trigger] post.spec_is_manager(x) == mid.spec_is_manager(x) by {
        assert(post.managers@ == mid.managers@);
    };
}

} // verus!
