use account_binding::{BindingError, Contract, Event, Platform, PROPOSAL_STORAGE_COST};

const FEE: u128 = PROPOSAL_STORAGE_COST;
const T1: u64 = 1_600_000_000_000;
const T2: u64 = 1_600_000_000_500;
const T3: u64 = 1_600_000_001_000;

fn s(x: &str) -> String {
    x.to_string()
}

fn registry_with_manager() -> Contract {
    let mut c = Contract::new(s("owner.near"));
    c.add_manager(s("owner.near"), s("manager.near")).unwrap();
    c
}

#[test]
fn propose_then_get_proposal() {
    let mut c = registry_with_manager();
    c.propose_binding(s("alice.near"), FEE, Platform::Twitter, s("alice001"), T1)
        .unwrap();
    let bp = c.get_proposal(s("alice.near"), Platform::Twitter).unwrap();
    assert_eq!(bp.account_id, "alice.near");
    assert!(matches!(bp.platform, Platform::Twitter));
    assert_eq!(bp.handle, "alice001");
    assert_eq!(bp.created_at, T1);
}

#[test]
fn second_propose_overwrites_first() {
    let mut c = registry_with_manager();
    c.propose_binding(s("alice.near"), FEE, Platform::Twitter, s("alice001"), T1)
        .unwrap();
    c.propose_binding(s("alice.near"), FEE, Platform::Twitter, s("alice002"), T2)
        .unwrap();
    let bp = c.get_proposal(s("alice.near"), Platform::Twitter).unwrap();
    assert_eq!(bp.handle, "alice002");
    assert_eq!(bp.created_at, T2);
}

#[test]
fn accept_is_terminal_for_the_pair() {
    let mut c = registry_with_manager();
    c.propose_binding(s("alice.near"), FEE, Platform::Twitter, s("alice001"), T1)
        .unwrap();
    c.accept_binding(s("manager.near"), s("alice.near"), Platform::Twitter, T1, T2)
        .unwrap();
    let e = c
        .propose_binding(s("alice.near"), FEE, Platform::Twitter, s("other"), T3)
        .unwrap_err();
    assert!(matches!(e, BindingError::AlreadyBound { handle } if handle == "alice001"));
    assert_eq!(
        c.get_handle(s("alice.near"), Platform::Twitter),
        Some(s("alice001"))
    );
}

#[test]
fn lookup_and_handle_agree() {
    let mut c = registry_with_manager();
    c.propose_binding(s("alice.near"), FEE, Platform::GitHub, s("alice-gh"), T1)
        .unwrap();
    c.accept_binding(s("manager.near"), s("alice.near"), Platform::GitHub, T1, T2)
        .unwrap();
    assert_eq!(
        c.lookup_account(Platform::GitHub, s("alice-gh")),
        Some(s("alice.near"))
    );
    assert_eq!(
        c.get_handle(s("alice.near"), Platform::GitHub),
        Some(s("alice-gh"))
    );
    assert_eq!(c.lookup_account(Platform::Twitter, s("alice-gh")), None);
}

#[test]
fn contention_second_accept_fails_and_keeps_proposal() {
    let mut c = registry_with_manager();
    c.propose_binding(s("a1.near"), FEE, Platform::Twitter, s("coolname"), T1)
        .unwrap();
    c.propose_binding(s("a2.near"), FEE, Platform::Twitter, s("coolname"), T1)
        .unwrap();
    c.accept_binding(s("manager.near"), s("a1.near"), Platform::Twitter, T1, T2)
        .unwrap();
    let e = c
        .accept_binding(s("manager.near"), s("a2.near"), Platform::Twitter, T1, T2)
        .unwrap_err();
    assert!(matches!(e, BindingError::HandleTaken { account_id } if account_id == "a1.near"));
    // the loser's proposal was not consumed
    let bp = c.get_proposal(s("a2.near"), Platform::Twitter).unwrap();
    assert_eq!(bp.handle, "coolname");
    assert_eq!(bp.created_at, T1);
}

#[test]
fn replay_with_old_timestamp_is_stale() {
    let mut c = registry_with_manager();
    c.propose_binding(s("alice.near"), FEE, Platform::Twitter, s("h1"), T1)
        .unwrap();
    c.propose_binding(s("alice.near"), FEE, Platform::Twitter, s("h2"), T2)
        .unwrap();
    let e = c
        .accept_binding(s("manager.near"), s("alice.near"), Platform::Twitter, T1, T3)
        .unwrap_err();
    assert!(matches!(e, BindingError::StaleProposal));
}

#[test]
fn scenario_alice_twitter() {
    let mut c = registry_with_manager();
    c.propose_binding(s("alice.near"), FEE, Platform::Twitter, s("alice001"), T1)
        .unwrap();
    let bp = c.get_proposal(s("alice.near"), Platform::Twitter).unwrap();
    assert_eq!(bp.account_id, "alice.near");
    assert_eq!(bp.handle, "alice001");
    assert_eq!(bp.created_at, T1);
    let ev = c
        .accept_binding(s("manager.near"), s("alice.near"), Platform::Twitter, T1, T2)
        .unwrap();
    assert!(matches!(
        ev,
        Event::BindAccount { account_id, handle, .. } if account_id == "alice.near" && handle == "alice001"
    ));
    assert_eq!(
        c.get_handle(s("alice.near"), Platform::Twitter),
        Some(s("alice001"))
    );
    assert_eq!(
        c.lookup_account(Platform::Twitter, s("alice001")),
        Some(s("alice.near"))
    );
    c.propose_binding(s("bob.near"), FEE, Platform::Twitter, s("alice001"), T2)
        .unwrap_err();
}

#[test]
fn owner_gate_and_manager_idempotence() {
    let mut c = Contract::new(s("owner.near"));
    let e = c.add_manager(s("mallory.near"), s("mallory.near")).unwrap_err();
    assert!(matches!(e, BindingError::Unauthorized));
    assert!(!c.is_manager(s("mallory.near")));
    c.add_manager(s("owner.near"), s("m.near")).unwrap();
    c.add_manager(s("owner.near"), s("m.near")).unwrap();
    assert!(c.is_manager(s("m.near")));
    let (removed, _) = c.remove_manager(s("owner.near"), s("m.near")).unwrap();
    assert!(removed);
    assert!(!c.is_manager(s("m.near")));
    let (removed_again, _) = c.remove_manager(s("owner.near"), s("m.near")).unwrap();
    assert!(!removed_again);
}

#[test]
fn set_owner_changes_owner() {
    let mut c = Contract::new(s("owner.near"));
    assert_eq!(c.get_owner_id(), "owner.near");
    let e = c.set_owner(s("bob.near"), s("bob.near")).unwrap_err();
    assert!(matches!(e, BindingError::Unauthorized));
    c.set_owner(s("owner.near"), s("dao.near")).unwrap();
    assert_eq!(c.get_owner_id(), "dao.near");
    c.add_manager(s("owner.near"), s("m.near")).unwrap_err();
    c.add_manager(s("dao.near"), s("m.near")).unwrap();
}

#[test]
fn propose_error_cases() {
    let mut c = registry_with_manager();
    let e = c
        .propose_binding(s("alice.near"), FEE - 1, Platform::Twitter, s("h"), T1)
        .unwrap_err();
    assert!(matches!(e, BindingError::InsufficientFee));
    let e = c
        .propose_binding(s("alice.near"), FEE, Platform::Twitter, s(""), T1)
        .unwrap_err();
    assert!(matches!(e, BindingError::InvalidHandle));
    // a handle bound to someone else cannot even be proposed
    c.propose_binding(s("a1.near"), FEE, Platform::Twitter, s("taken"), T1)
        .unwrap();
    c.accept_binding(s("manager.near"), s("a1.near"), Platform::Twitter, T1, T2)
        .unwrap();
    let e = c
        .propose_binding(s("a2.near"), FEE, Platform::Twitter, s("taken"), T2)
        .unwrap_err();
    assert!(matches!(e, BindingError::HandleTaken { account_id } if account_id == "a1.near"));
}

#[test]
fn accept_error_cases() {
    let mut c = registry_with_manager();
    c.propose_binding(s("alice.near"), FEE, Platform::Twitter, s("h"), T1)
        .unwrap();
    let e = c
        .accept_binding(s("nobody.near"), s("alice.near"), Platform::Twitter, T1, T2)
        .unwrap_err();
    assert!(matches!(e, BindingError::Unauthorized));
    let e = c
        .accept_binding(s("manager.near"), s("alice.near"), Platform::Twitter, T1, T1)
        .unwrap_err();
    assert!(matches!(e, BindingError::InvalidTimestamp));
    let e = c
        .accept_binding(s("manager.near"), s("bob.near"), Platform::Twitter, T1, T2)
        .unwrap_err();
    assert!(matches!(e, BindingError::NoProposal));
}

#[test]
fn cancel_removes_proposal() {
    let mut c = registry_with_manager();
    let e = c
        .cancel_binding_proposal(s("alice.near"), Platform::Twitter)
        .unwrap_err();
    assert!(matches!(e, BindingError::NoProposal));
    c.propose_binding(s("alice.near"), FEE, Platform::Twitter, s("h"), T1)
        .unwrap();
    let ev = c
        .cancel_binding_proposal(s("alice.near"), Platform::Twitter)
        .unwrap();
    assert!(matches!(
        ev,
        Event::CancelBindingProposal { handle, created_at, .. } if handle == "h" && created_at == T1
    ));
    assert!(c.get_proposal(s("alice.near"), Platform::Twitter).is_none());
    let e = c
        .accept_binding(s("manager.near"), s("alice.near"), Platform::Twitter, T1, T2)
        .unwrap_err();
    assert!(matches!(e, BindingError::NoProposal));
}

#[test]
fn account_views_and_pagination() {
    let mut c = registry_with_manager();
    assert_eq!(c.get_number_of_accounts(), 0);
    c.propose_binding(s("alice.near"), FEE, Platform::Twitter, s("a-tw"), T1)
        .unwrap();
    c.propose_binding(s("alice.near"), FEE, Platform::GitHub, s("a-gh"), T1)
        .unwrap();
    c.propose_binding(s("bob.near"), FEE, Platform::Twitter, s("b-tw"), T1)
        .unwrap();
    c.accept_binding(s("manager.near"), s("alice.near"), Platform::Twitter, T1, T2)
        .unwrap();
    c.accept_binding(s("manager.near"), s("bob.near"), Platform::Twitter, T1, T2)
        .unwrap();
    assert_eq!(c.get_number_of_accounts(), 2);

    let acc = c.get_account(s("alice.near"));
    assert_eq!(acc.account_id, "alice.near");
    assert_eq!(acc.proposals.len(), 1);
    assert_eq!(acc.proposals[0].handle, "a-gh");
    assert_eq!(acc.bindings.len(), 1);
    assert_eq!(acc.bindings[0].handle, "a-tw");

    let page = c.get_accounts(0, 10);
    assert_eq!(page.len(), 2);
    assert_eq!(page[0].account_id, "alice.near");
    assert_eq!(page[1].account_id, "bob.near");
    let page = c.get_accounts(1, 10);
    assert_eq!(page.len(), 1);
    assert_eq!(page[0].account_id, "bob.near");
    assert_eq!(c.get_accounts(5, 10).len(), 0);
}

#[test]
fn platform_lowercase_names() {
    assert_eq!(Platform::Twitter.lowercase(), "twitter");
    assert_eq!(Platform::GitHub.lowercase(), "github");
    assert_eq!(Platform::Steem.lowercase(), "steem");
}
