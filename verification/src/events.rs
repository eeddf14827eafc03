use vstd::prelude::*;
use crate::types::Platform;

verus! {

/// Record of one successful state transition, handed back to the caller so
/// the hosting environment can publish it. Events are observational: they are
/// never read back by the registry itself.
#[derive(Debug)]
pub enum Event {
    ProposeBinding {
        account_id: String,
        platform: Platform,
        handle: String,
        created_at: u64,
    },
    CancelBindingProposal {
        account_id: String,
        platform: Platform,
        handle: String,
        created_at: u64,
    },
    BindAccount {
        account_id: String,
        platform: Platform,
        handle: String,
    },
    ChangeOwner {
        old_owner_id: String,
        new_owner_id: String,
    },
    AddManager {
        manager_id: String,
    },
    RemoveManager {
        manager_id: String,
    },
}

} // verus!
