use vstd::prelude::*;
use crate::amount::{Amount, value_from};

verus! {

/// The most bytes a principal can have.
pub const MAX_IDENT_LEN: usize = 29;

/// A principal (a user, a canister or a ledger), held as its raw bytes.
pub struct Ident {
    pub bytes: Vec<u8>,
}

impl View for Ident {
    type V = Seq<u8>;

    open spec fn view(&self) -> Seq<u8> {
        self.bytes@
    }
}

impl Ident {
    pub open spec fn wf(&self) -> bool {
        self@.len() <= MAX_IDENT_LEN
    }

    /// The anonymous principal: the single byte 4.
    pub fn anonymous() -> (r: Ident)
        ensures
            r@ == seq![4u8],
            r.wf(),
    {
        let mut bytes: Vec<u8> = Vec::new();
        bytes.push(4u8);
        let r = Ident { bytes };
        assert(r@ =~= seq![4u8]);
        r
    }

    pub fn same(&self, other: &Ident) -> (r: bool)
        ensures
            r == (self@ == other@),
    {
        if self.bytes.len() != other.bytes.len() {
            return false;
        }
        let mut i: usize = 0;
        while i < self.bytes.len()
            invariant
                self@.len() == other@.len(),
                i <= self@.len(),
                forall|j: int| 0 <= j < i ==> self@[j] == other@[j],
            decreases self@.len() - i,
        {
            if self.bytes[i] != other.bytes[i] {
                return false;
            }
            i = i + 1;
        }
        assert(self@ =~= other@);
        true
    }

    pub fn copy(&self) -> (r: Ident)
        ensures
            r@ == self@,
    {
        Ident { bytes: self.bytes.clone() }
    }
}

/// Where a bounty stands in its lifecycle.
#[derive(Clone, Copy, Debug, PartialEq, Eq, Structural)]
pub enum BountyStatus {
    PendingFunding,
    Active,
    Completed,
    Cancelled,
    Expired,
}

/// A candidate solution to a bounty.
pub struct Submission {
    pub submitter: Ident,
    pub pr_url: String,
    pub comment: String,
    pub submitted_at: u64,
}

impl Submission {
    pub fn copy(&self) -> (r: Submission)
        ensures
            r@ == self@,
    {
        Submission {
            submitter: self.submitter.copy(),
            pr_url: self.pr_url.clone(),
            comment: self.comment.clone(),
            submitted_at: self.submitted_at,
        }
    }
}

/// A funded reward for a piece of work, with its escrow subaccount.
pub struct Bounty {
    pub id: u64,
    pub creator: Ident,
    pub title: String,
    pub description: String,
    pub github_issue_url: String,
    pub prize_amount: Amount,
    pub token_ledger: Ident,
    pub status: BountyStatus,
    pub submissions: Vec<Submission>,
    pub winner: Option<Ident>,
    pub created_at: u64,
    pub escrow_subaccount: [u8; 32],
    pub deadline: Option<u64>,
}

/// The value of a submission.
pub struct SubmissionView {
    pub submitter: Seq<u8>,
    pub pr_url: Seq<char>,
    pub comment: Seq<char>,
    pub submitted_at: u64,
}

impl View for Submission {
    type V = SubmissionView;

    open spec fn view(&self) -> SubmissionView {
        SubmissionView {
            submitter: self.submitter@,
            pr_url: self.pr_url@,
            comment: self.comment@,
            submitted_at: self.submitted_at,
        }
    }
}

pub open spec fn opt_ident_view(o: Option<Ident>) -> Option<Seq<u8>> {
    match o {
        Some(i) => Some(i@),
        None => None,
    }
}

/// The value of a bounty.
pub struct BountyView {
    pub id: u64,
    pub creator: Seq<u8>,
    pub title: Seq<char>,
    pub description: Seq<char>,
    pub github_issue_url: Seq<char>,
    pub prize_amount: Seq<u64>,
    pub token_ledger: Seq<u8>,
    pub status: BountyStatus,
    pub submissions: Seq<SubmissionView>,
    pub winner: Option<Seq<u8>>,
    pub created_at: u64,
    pub escrow_subaccount: Seq<u8>,
    pub deadline: Option<u64>,
}

impl BountyView {
    /// The prize as a number.
    pub open spec fn prize(&self) -> nat {
        value_from(self.prize_amount, 0)
    }

    /// Whether `who` has a submission on this bounty.
    pub open spec fn has_submitter(&self, who: Seq<u8>) -> bool {
        exists|i: int| 0 <= i < self.submissions.len() && self.submissions[i].submitter == who
    }
}

impl View for Bounty {
    type V = BountyView;

    open spec fn view(&self) -> BountyView {
        BountyView {
            id: self.id,
            creator: self.creator@,
            title: self.title@,
            description: self.description@,
            github_issue_url: self.github_issue_url@,
            prize_amount: self.prize_amount.digits@,
            token_ledger: self.token_ledger@,
            status: self.status,
            submissions: self.submissions@.map_values(|x: Submission| x@),
            winner: opt_ident_view(self.winner),
            created_at: self.created_at,
            escrow_subaccount: self.escrow_subaccount@,
            deadline: self.deadline,
        }
    }
}

/// The values of a sequence of bounties.
pub open spec fn bounty_views(s: Seq<Bounty>) -> Seq<BountyView> {
    s.map_values(|b: Bounty| b@)
}

impl Bounty {
    pub fn copy(&self) -> (r: Bounty)
        ensures
            r@ == self@,
    {
        let mut subs: Vec<Submission> = Vec::new();
        let mut i: usize = 0;
        while i < self.submissions.len()
            invariant
                i <= self.submissions@.len(),
                subs@.len() == i,
                forall|j: int|
                    0 <= j < i ==> #[trigger] subs@[j]@ == self.submissions@[j]@,
            decreases self.submissions@.len() - i,
        {
            subs.push(self.submissions[i].copy());
            i = i + 1;
        }
        let winner = match &self.winner {
            Some(w) => Some(w.copy()),
            None => None,
        };
        let r = Bounty {
            id: self.id,
            creator: self.creator.copy(),
            title: self.title.clone(),
            description: self.description.clone(),
            github_issue_url: self.github_issue_url.clone(),
            prize_amount: self.prize_amount.copy(),
            token_ledger: self.token_ledger.copy(),
            status: self.status,
            submissions: subs,
            winner,
            created_at: self.created_at,
            escrow_subaccount: self.escrow_subaccount,
            deadline: self.deadline,
        };
        assert(r.submissions@.map_values(|x: Submission| x@) =~= self.submissions@.map_values(
            |x: Submission| x@,
        ));
        r
    }
}

/// A user's profile and the counters derived from bounty activity.
pub struct UserProfile {
    pub principal: Ident,
    pub name: Option<String>,
    pub github: Option<String>,
    pub twitter: Option<String>,
    pub pfp_url: Option<String>,
    pub bounties_posted: u64,
    pub bounties_participated: u64,
    pub bounties_won: u64,
}

/// The value of a user profile.
pub struct ProfileView {
    pub principal: Seq<u8>,
    pub name: Option<Seq<char>>,
    pub github: Option<Seq<char>>,
    pub twitter: Option<Seq<char>>,
    pub pfp_url: Option<Seq<char>>,
    pub bounties_posted: u64,
    pub bounties_participated: u64,
    pub bounties_won: u64,
}

pub open spec fn opt_text_view(o: Option<String>) -> Option<Seq<char>> {
    match o {
        Some(t) => Some(t@),
        None => None,
    }
}

impl View for UserProfile {
    type V = ProfileView;

    open spec fn view(&self) -> ProfileView {
        ProfileView {
            principal: self.principal@,
            name: opt_text_view(self.name),
            github: opt_text_view(self.github),
            twitter: opt_text_view(self.twitter),
            pfp_url: opt_text_view(self.pfp_url),
            bounties_posted: self.bounties_posted,
            bounties_participated: self.bounties_participated,
            bounties_won: self.bounties_won,
        }
    }
}

/// A profile with no display data and all counters at zero.
pub open spec fn fresh_profile(who: Seq<u8>) -> ProfileView {
    ProfileView {
        principal: who,
        name: None,
        github: None,
        twitter: None,
        pfp_url: None,
        bounties_posted: 0,
        bounties_participated: 0,
        bounties_won: 0,
    }
}

impl UserProfile {
    pub fn copy(&self) -> (r: UserProfile)
        ensures
            r@ == self@,
    {
        UserProfile {
            principal: self.principal.copy(),
            name: self.name.clone(),
            github: self.github.clone(),
            twitter: self.twitter.clone(),
            pfp_url: self.pfp_url.clone(),
            bounties_posted: self.bounties_posted,
            bounties_participated: self.bounties_participated,
            bounties_won: self.bounties_won,
        }
    }

    /// A profile with no display data and all counters at zero.
    pub fn new(principal: Ident) -> (r: UserProfile)
        ensures
            r@ == fresh_profile(principal@),
    {
        UserProfile {
            principal,
            name: None,
            github: None,
            twitter: None,
            pfp_url: None,
            bounties_posted: 0,
            bounties_participated: 0,
            bounties_won: 0,
        }
    }
}

impl Default for UserProfile {
    fn default() -> (r: UserProfile)
        ensures
            r@ == fresh_profile(seq![4u8]),
    {
        UserProfile::new(Ident::anonymous())
    }
}

/// Optional new values for the display fields of a profile.
pub struct UpdateUserProfileRequest {
    pub name: Option<String>,
    pub github: Option<String>,
    pub twitter: Option<String>,
    pub pfp_url: Option<String>,
}

/// A request to open a new bounty.
pub struct CreateBountyRequest {
    pub title: String,
    pub description: String,
    pub github_issue_url: String,
    pub prize_amount: Amount,
    pub token_ledger: Ident,
    pub from_subaccount: Option<[u8; 32]>,
    pub fee: Option<Amount>,
    pub deadline: Option<u64>,
}

/// A request to submit a solution to a bounty.
pub struct SubmitSolutionRequest {
    pub bounty_id: u64,
    pub pr_url: String,
    pub comment: String,
}

/// A list of bounty ids.
pub struct BountyIdList(pub Vec<u64>);

/// The record that a bounty's prize was paid to a claimant.
pub struct ClaimKey {
    pub bounty_id: u64,
    pub principal: Ident,
}

/// One submission, as it entered the log: the bounty and the submitter.
pub struct SubmissionEntry {
    pub bounty_id: u64,
    pub submitter: Ident,
}

/// Why an operation on the escrow was refused.
#[derive(Clone, Copy, Debug, PartialEq, Eq, Structural)]
pub enum EscrowError {
    InvalidArgument,
    NotFound,
    Unauthorized,
    InvalidStateTransition,
    DuplicateSubmission,
    UnknownWinner,
    NotWinner,
    NotCompleted,
    AlreadyClaimed,
    LedgerUnavailable,
    LedgerRejected,
}

/// What the ledger answered to a transfer.
pub enum TransferOutcome {
    /// The transfer went through; the ledger's block index.
    Confirmed(Amount),
    /// The ledger refused the transfer (bad fee, insufficient funds, ...).
    Rejected,
    /// The call gave no definite answer.
    Indeterminate,
}

impl TransferOutcome {
    /// The block index of a confirmed transfer.
    pub open spec fn block(&self) -> Option<Seq<u64>> {
        match self {
            TransferOutcome::Confirmed(b) => Some(b.digits@),
            _ => None,
        }
    }

    /// The error that a transfer without a definite success gives.
    pub open spec fn failure(&self) -> EscrowError {
        match self {
            TransferOutcome::Rejected => EscrowError::LedgerRejected,
            _ => EscrowError::LedgerUnavailable,
        }
    }
}

/// A transfer out of a bounty's escrow subaccount that the caller is to make.
pub struct PayoutOrder {
    pub bounty_id: u64,
    pub token_ledger: Ident,
    pub from_subaccount: [u8; 32],
    pub to: Ident,
    pub amount: Amount,
}

/// A balance lookup on a bounty's escrow subaccount that the caller is to make.
pub struct BalanceQuery {
    pub bounty_id: u64,
    pub token_ledger: Ident,
    pub subaccount: [u8; 32],
}

impl PayoutOrder {
    /// Whether this order moves bounty `b`'s full prize out of its escrow to `to`.
    pub open spec fn pays(&self, b: BountyView, to: Seq<u8>) -> bool {
        &&& self.bounty_id == b.id
        &&& self.token_ledger@ == b.token_ledger
        &&& self.from_subaccount@ == b.escrow_subaccount
        &&& self.to@ == to
        &&& self.amount.digits@ == b.prize_amount
    }
}

/// The service's version, bounty count and time of the last update.
pub struct CanisterStatus {
    pub version: String,
    pub bounty_count: u64,
    pub last_updated: u64,
}

} // verus!
