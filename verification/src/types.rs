use vstd::prelude::*;

verus! {

/// The closed set of external identity platforms on which a handle can be
/// claimed.
#[derive(Clone, Copy, PartialEq, Eq, Hash, Debug, Structural)]
pub enum Platform {
    Twitter,
    Facebook,
    Reddit,
    GitHub,
    Telegram,
    Discord,
    Instagram,
    Ethereum,
    Hive,
    Steem,
}

impl Platform {
    /// The lowercase name of the platform, as it appears in messages and
    /// event payloads.
    pub open spec fn spec_lowercase(self) -> Seq<char> {
        match self {
            Platform::Twitter => "twitter"@,
            Platform::Facebook => "facebook"@,
            Platform::Reddit => "reddit"@,
            Platform::GitHub => "github"@,
            Platform::Telegram => "telegram"@,
            Platform::Discord => "discord"@,
            Platform::Instagram => "instagram"@,
            Platform::Ethereum => "ethereum"@,
            Platform::Hive => "hive"@,
            Platform::Steem => "steem"@,
        }
    }

    /// Lowercase rendering of the platform name.
    pub fn lowercase(&self) -> (r: &'static str)
        ensures
            r@ == self.spec_lowercase(),
    {
        match self {
            Platform::Twitter => "twitter",
            Platform::Facebook => "facebook",
            Platform::Reddit => "reddit",
            Platform::GitHub => "github",
            Platform::Telegram => "telegram",
            Platform::Discord => "discord",
            Platform::Instagram => "instagram",
            Platform::Ethereum => "ethereum",
            Platform::Hive => "hive",
            Platform::Steem => "steem",
        }
    }
}

/// Mathematical value of a pending binding proposal.
pub ghost struct ProposalView {
    pub account_id: Seq<char>,
    pub platform: Platform,
    pub handle: Seq<char>,
    pub created_at: u64,
}

/// A timestamped declaration of intent to bind an account to a handle.
pub struct BindingProposal {
    pub account_id: String,
    pub platform: Platform,
    pub handle: String,
    /// Proposal creation time, in milliseconds of ledger time; the sole
    /// authenticator checked when the proposal is accepted.
    pub created_at: u64,
}

impl View for BindingProposal {
    type V = ProposalView;

    open spec fn view(&self) -> ProposalView {
        ProposalView {
            account_id: self.account_id@,
            platform: self.platform,
            handle: self.handle@,
            created_at: self.created_at,
        }
    }
}

impl Clone for BindingProposal {
    fn clone(&self) -> (r: Self)
        ensures
            r@ == self@,
    {
        BindingProposal {
            account_id: self.account_id.clone(),
            platform: self.platform,
            handle: self.handle.clone(),
            created_at: self.created_at,
        }
    }
}

/// Mathematical value of an accepted binding.
pub ghost struct BindingView {
    pub account_id: Seq<char>,
    pub platform: Platform,
    pub handle: Seq<char>,
}

/// An accepted, uniqueness-enforced account-to-handle link on a platform.
pub struct Binding {
    pub account_id: String,
    pub platform: Platform,
    pub handle: String,
}

impl View for Binding {
    type V = BindingView;

    open spec fn view(&self) -> BindingView {
        BindingView {
            account_id: self.account_id@,
            platform: self.platform,
            handle: self.handle@,
        }
    }
}

impl Clone for Binding {
    fn clone(&self) -> (r: Self)
        ensures
            r@ == self@,
    {
        Binding {
            account_id: self.account_id.clone(),
            platform: self.platform,
            handle: self.handle.clone(),
        }
    }
}

/// Why an operation was rejected. Every rejection leaves the registry
/// untouched; where useful, the conflicting existing value is carried so the
/// caller can self-diagnose without a secondary query.
#[derive(Debug)]
pub enum BindingError {
    /// The caller is not the owner, or not a manager, where that is required.
    Unauthorized,
    /// The proposed handle is empty.
    InvalidHandle,
    /// The supplied proposal creation time is not strictly in the past.
    InvalidTimestamp,
    /// The targeted account has no pending proposal for the platform.
    NoProposal,
    /// The supplied creation time does not match the stored proposal.
    StaleProposal,
    /// The account already holds a binding for the platform; carries the
    /// bound handle.
    AlreadyBound { handle: String },
    /// The handle is already claimed on the platform; carries the claiming
    /// account.
    HandleTaken { account_id: String },
    /// The attached deposit is below the proposal storage fee.
    InsufficientFee,
}

} // verus!
