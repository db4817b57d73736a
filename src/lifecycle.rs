use vstd::prelude::*;
use crate::amount::{Amount, value_from};
use crate::escrow::{account_text, escrow_subaccount_of, generate_subaccount, get_escrow_account};
use crate::types::{
    BalanceQuery, Bounty, BountyStatus, bounty_views, BountyView, PayoutOrder, TransferOutcome, ClaimKey, CreateBountyRequest, EscrowError, Ident,
    ProfileView, Submission, SubmissionEntry, SubmissionView, SubmitSolutionRequest, UserProfile, fresh_profile,
};

verus! {

/// Which counter of a profile an event raises.
#[derive(Clone, Copy, Debug, PartialEq, Eq, Structural)]
pub enum Counter {
    Posted,
    Participated,
    Won,
}

/// `c + 1`, or `c` where that would not fit.
pub open spec fn raised(c: u64) -> u64 {
    if c < u64::MAX {
        (c + 1) as u64
    } else {
        c
    }
}

pub open spec fn raise_view(p: ProfileView, c: Counter) -> ProfileView {
    match c {
        Counter::Posted => ProfileView { bounties_posted: raised(p.bounties_posted), ..p },
        Counter::Participated => ProfileView {
            bounties_participated: raised(p.bounties_participated),
            ..p
        },
        Counter::Won => ProfileView { bounties_won: raised(p.bounties_won), ..p },
    }
}

/// Whether `who` has a profile among `ps`.
pub open spec fn has_profile(ps: Seq<ProfileView>, who: Seq<u8>) -> bool {
    exists|i: int| 0 <= i < ps.len() && ps[i].principal == who
}

/// The profiles after `who`'s counter `c` is raised; a missing profile is created first.
pub open spec fn raise_counter(ps: Seq<ProfileView>, who: Seq<u8>, c: Counter) -> Seq<ProfileView> {
    if has_profile(ps, who) {
        let i = choose|i: int| 0 <= i < ps.len() && ps[i].principal == who;
        ps.update(i, raise_view(ps[i], c))
    } else {
        ps.push(raise_view(fresh_profile(who), c))
    }
}

/// Whether an `Active` bounty has passed its deadline at time `now`.
pub open spec fn expires_at(b: BountyView, now: u64) -> bool {
    b.status == BountyStatus::Active && match b.deadline {
        Some(d) => now > d,
        None => false,
    }
}

pub open spec fn with_status(b: BountyView, s: BountyStatus) -> BountyView {
    BountyView { status: s, ..b }
}

/// Whether a bounty may have a payout order out: `Completed` (a claim), `Expired` (a
/// refund), or `Active` without submissions (a cancellation).
pub open spec fn payout_status_ok(b: BountyView) -> bool {
    ||| b.status == BountyStatus::Completed
    ||| b.status == BountyStatus::Expired
    ||| (b.status == BountyStatus::Active && b.submissions.len() == 0)
}

/// The value of the whole escrow state.
pub struct BookView {
    pub bounties: Seq<BountyView>,
    pub claims: Seq<(u64, Seq<u8>)>,
    pub refunds: Seq<u64>,
    pub profiles: Seq<ProfileView>,
    pub canister: Seq<u8>,
    /// Every accepted submission, oldest first: the bounty id and the submitter.
    pub log: Seq<(u64, Seq<u8>)>,
    /// The bounties with a payout order handed out and not yet settled.
    pub pending: Seq<u64>,
}

impl BookView {
    pub open spec fn has_bounty(&self, id: u64) -> bool {
        1 <= id <= self.bounties.len()
    }

    /// The bounty with id `id`, stored at position `id - 1`.
    pub open spec fn bounty(&self, id: u64) -> BountyView {
        self.bounties[id - 1]
    }

    /// Whether a claim record exists for bounty `id`.
    pub open spec fn claimed(&self, id: u64) -> bool {
        exists|k: int| 0 <= k < self.claims.len() && self.claims[k].0 == id
    }

    pub open spec fn refunded(&self, id: u64) -> bool {
        self.refunds.contains(id)
    }

    pub open spec fn with_bounty(self, id: u64, b: BountyView) -> BookView {
        BookView { bounties: self.bounties.update(id - 1, b), ..self }
    }

    /// Every bounty sits at its id and keeps its derived escrow subaccount.
    pub open spec fn ids_ok(&self) -> bool {
        forall|i: int|
            0 <= i < self.bounties.len() ==> {
                &&& #[trigger] self.bounties[i].id == i + 1
                &&& self.bounties[i].escrow_subaccount == escrow_subaccount_of((i + 1) as u64)
            }
    }

    /// A bounty has a winner exactly when it is `Completed`, and the winner is one of
    /// its submitters.
    pub open spec fn winners_ok(&self) -> bool {
        forall|i: int|
            0 <= i < self.bounties.len() ==> {
                &&& (#[trigger] self.bounties[i].status == BountyStatus::Completed)
                    == self.bounties[i].winner.is_some()
                &&& self.bounties[i].winner matches Some(w) ==> self.bounties[i].has_submitter(w)
            }
    }

    /// No one has two submissions on one bounty.
    pub open spec fn submitters_unique(&self) -> bool {
        forall|i: int, j: int, k: int|
            0 <= i < self.bounties.len() && 0 <= j < k < self.bounties[i].submissions.len()
                ==> #[trigger] self.bounties[i].submissions[j].submitter
                != #[trigger] self.bounties[i].submissions[k].submitter
    }

    /// Each claim pays the winner of a completed bounty, and no bounty has two claims.
    pub open spec fn claims_ok(&self) -> bool {
        &&& forall|k: int|
            0 <= k < self.claims.len() ==> {
                &&& self.has_bounty(#[trigger] self.claims[k].0)
                &&& self.bounty(self.claims[k].0).status == BountyStatus::Completed
                &&& self.bounty(self.claims[k].0).winner == Some(self.claims[k].1)
            }
        &&& forall|k: int, l: int|
            0 <= k < l < self.claims.len() ==> #[trigger] self.claims[k].0
                != #[trigger] self.claims[l].0
    }

    /// Each refund returns an expired bounty, and no bounty is refunded twice.
    pub open spec fn refunds_ok(&self) -> bool {
        &&& forall|k: int|
            0 <= k < self.refunds.len() ==> {
                &&& self.has_bounty(#[trigger] self.refunds[k])
                &&& self.bounty(self.refunds[k]).status == BountyStatus::Expired
            }
        &&& forall|k: int, l: int|
            0 <= k < l < self.refunds.len() ==> #[trigger] self.refunds[k] != #[trigger] self.refunds[l]
    }

    /// No two profiles belong to one principal.
    pub open spec fn profiles_unique(&self) -> bool {
        forall|i: int, j: int|
            0 <= i < j < self.profiles.len() ==> #[trigger] self.profiles[i].principal
                != #[trigger] self.profiles[j].principal
    }

    /// A cancelled bounty has no submission.
    pub open spec fn cancelled_ok(&self) -> bool {
        forall|i: int|
            0 <= i < self.bounties.len() && #[trigger] self.bounties[i].status
                == BountyStatus::Cancelled ==> self.bounties[i].submissions.len() == 0
    }

    /// A bounty has at most one payout order out, and a bounty with one out is
    /// `Completed` (a claim), `Expired` (a refund), or `Active` without submissions (a
    /// cancellation).
    pub open spec fn pending_ok(&self) -> bool {
        &&& forall|k: int, l: int|
            0 <= k < l < self.pending.len() ==> #[trigger] self.pending[k] != #[trigger] self.pending[l]
        &&& forall|k: int|
            0 <= k < self.pending.len() ==> self.has_bounty(#[trigger] self.pending[k])
                && payout_status_ok(self.bounty(self.pending[k]))
    }

    /// Whether a touch at `now` moves bounty `id` to `Expired`: it is `Active`, past its
    /// deadline, and has no payout order out (a transfer in flight settles first).
    pub open spec fn expires(&self, id: u64, now: u64) -> bool {
        expires_at(self.bounty(id), now) && !self.pending.contains(id)
    }

    /// The state once the payout order out for bounty `id`, if any, is settled.
    pub open spec fn settled(self, id: u64) -> BookView {
        if self.pending.contains(id) {
            let i = choose|i: int| 0 <= i < self.pending.len() && self.pending[i] == id;
            BookView { pending: self.pending.remove(i), ..self }
        } else {
            self
        }
    }

    /// The state once a payout order for bounty `id` is handed out.
    pub open spec fn dispatched(self, id: u64) -> BookView {
        BookView { pending: self.pending.push(id), ..self }
    }

    /// The submission log holds each submission of each bounty once, and nothing else.
    pub open spec fn log_ok(&self) -> bool {
        &&& forall|k: int|
            0 <= k < self.log.len() ==> self.has_bounty(#[trigger] self.log[k].0)
                && self.bounty(self.log[k].0).has_submitter(self.log[k].1)
        &&& forall|k: int, l: int|
            0 <= k < l < self.log.len() ==> #[trigger] self.log[k] != #[trigger] self.log[l]
        &&& forall|i: int, j: int|
            0 <= i < self.bounties.len() && 0 <= j < self.bounties[i].submissions.len()
                ==> self.log.contains(((i + 1) as u64, #[trigger] self.bounties[i].submissions[j].submitter))
    }

    pub open spec fn wf(&self) -> bool {
        &&& self.bounties.len() <= u64::MAX
        &&& self.log_ok()
        &&& self.pending_ok()
        &&& self.cancelled_ok()
        &&& self.ids_ok()
        &&& self.winners_ok()
        &&& self.submitters_unique()
        &&& self.claims_ok()
        &&& self.refunds_ok()
        &&& self.profiles_unique()
    }
}

/// The escrow service's state: bounties, claim and refund records, and profiles.
pub struct BountyBook {
    pub bounties: Vec<Bounty>,
    pub claims: Vec<ClaimKey>,
    pub refunds: Vec<u64>,
    pub profiles: Vec<UserProfile>,
    pub canister: Ident,
    pub submission_log: Vec<SubmissionEntry>,
    pub payouts_in_flight: Vec<u64>,
}

impl View for BountyBook {
    type V = BookView;

    open spec fn view(&self) -> BookView {
        BookView {
            bounties: bounty_views(self.bounties@),
            claims: self.claims@.map_values(|c: ClaimKey| (c.bounty_id, c.principal@)),
            refunds: self.refunds@,
            profiles: self.profiles@.map_values(|p: UserProfile| p@),
            canister: self.canister@,
            log: self.submission_log@.map_values(|e: SubmissionEntry| (e.bounty_id, e.submitter@)),
            pending: self.payouts_in_flight@,
        }
    }
}

/// Whether a request to open a bounty is malformed.
pub open spec fn bad_request(r: CreateBountyRequest) -> bool {
    r.title@.len() == 0 || r.github_issue_url@.len() == 0 || value_from(r.prize_amount.digits@, 0)
        == 0
}

/// The bounty that `create_bounty` stores.
pub open spec fn new_bounty_view(
    id: u64,
    creator: Seq<u8>,
    request: CreateBountyRequest,
    now: u64,
) -> BountyView {
    BountyView {
        id,
        creator,
        title: request.title@,
        description: request.description@,
        github_issue_url: request.github_issue_url@,
        prize_amount: request.prize_amount.digits@,
        token_ledger: request.token_ledger@,
        status: BountyStatus::PendingFunding,
        submissions: Seq::empty(),
        winner: None,
        created_at: now,
        escrow_subaccount: escrow_subaccount_of(id),
        deadline: request.deadline,
    }
}

/// The submission that `submit_solution` appends.
pub open spec fn new_submission_view(
    submitter: Seq<u8>,
    request: SubmitSolutionRequest,
    now: u64,
) -> SubmissionView {
    SubmissionView {
        submitter,
        pr_url: request.pr_url@,
        comment: request.comment@,
        submitted_at: now,
    }
}

/// Why `select_winner` refuses, if it does, once a due expiry has been applied.
pub open spec fn winner_refusal(v: BookView, id: u64, caller: Seq<u8>, winner: Seq<u8>) -> Option<
    EscrowError,
> {
    if v.bounty(id).creator != caller {
        Some(EscrowError::Unauthorized)
    } else if v.bounty(id).status != BountyStatus::Active {
        Some(EscrowError::InvalidStateTransition)
    } else if !v.bounty(id).has_submitter(winner) {
        Some(EscrowError::UnknownWinner)
    } else if v.pending.contains(id) {
        Some(EscrowError::InvalidStateTransition)
    } else {
        None
    }
}

/// Why a claim by `caller` on bounty `id` is refused, if it is.
pub open spec fn claim_refusal(v: BookView, id: u64, caller: Seq<u8>) -> Option<EscrowError> {
    if !v.has_bounty(id) {
        Some(EscrowError::NotFound)
    } else if v.claimed(id) {
        Some(EscrowError::AlreadyClaimed)
    } else if v.bounty(id).winner != Some(caller) {
        Some(EscrowError::NotWinner)
    } else if v.bounty(id).status != BountyStatus::Completed {
        Some(EscrowError::NotCompleted)
    } else {
        None
    }
}

/// Why a refund of bounty `id` to `caller` is refused, if it is.
pub open spec fn refund_refusal(v: BookView, id: u64, caller: Seq<u8>) -> Option<EscrowError> {
    if !v.has_bounty(id) {
        Some(EscrowError::NotFound)
    } else if v.bounty(id).creator != caller {
        Some(EscrowError::Unauthorized)
    } else if v.bounty(id).status != BountyStatus::Expired || v.bounty(id).winner.is_some() {
        Some(EscrowError::InvalidStateTransition)
    } else if v.refunded(id) {
        Some(EscrowError::AlreadyClaimed)
    } else {
        None
    }
}

/// Why cancelling bounty `id` by `caller` is refused, if it is: only the creator may
/// cancel, only an `Active` bounty, and only while it has no submission.
pub open spec fn cancel_refusal(v: BookView, id: u64, caller: Seq<u8>) -> Option<EscrowError> {
    if !v.has_bounty(id) {
        Some(EscrowError::NotFound)
    } else if v.bounty(id).creator != caller {
        Some(EscrowError::Unauthorized)
    } else if v.bounty(id).status != BountyStatus::Active {
        Some(EscrowError::InvalidStateTransition)
    } else if v.bounty(id).submissions.len() != 0 {
        Some(EscrowError::InvalidStateTransition)
    } else {
        None
    }
}

/// The value of an optional amount.
pub open spec fn opt_amount_value(o: Option<Amount>) -> Option<nat> {
    match o {
        Some(a) => Some(a.value()),
        None => None,
    }
}

/// What the second step of funding verification does with the balance that the ledger
/// reported (`None` where the lookup failed): the new state and the result.
pub open spec fn funding_step(v: BookView, id: u64, now: u64, balance: Option<nat>) -> (
    BookView,
    Result<bool, EscrowError>,
) {
    if !v.has_bounty(id) {
        (v, Err(EscrowError::NotFound))
    } else if v.expires(id, now) {
        (
            v.with_bounty(id, with_status(v.bounty(id), BountyStatus::Expired)),
            Err(EscrowError::InvalidStateTransition),
        )
    } else {
        match balance {
            None => (v, Err(EscrowError::LedgerUnavailable)),
            Some(bal) => {
                let funded = bal >= v.bounty(id).prize();
                if funded && v.bounty(id).status == BountyStatus::PendingFunding {
                    (v.with_bounty(id, with_status(v.bounty(id), BountyStatus::Active)), Ok(true))
                } else {
                    (v, Ok(funded))
                }
            },
        }
    }
}

impl BountyBook {
    pub open spec fn wf(&self) -> bool {
        &&& self@.wf()
        &&& self.canister.wf()
    }

    /// An empty book for the service `canister`.
    pub fn new(canister: Ident) -> (r: BountyBook)
        requires
            canister.wf(),
        ensures
            r.wf(),
            r@.bounties.len() == 0,
            r@.claims.len() == 0,
            r@.refunds.len() == 0,
            r@.profiles.len() == 0,
            r@.log.len() == 0,
            r@.pending.len() == 0,
            r@.canister == canister@,
    {
        let r = BountyBook {
            bounties: Vec::new(),
            claims: Vec::new(),
            refunds: Vec::new(),
            profiles: Vec::new(),
            canister,
            submission_log: Vec::new(),
            payouts_in_flight: Vec::new(),
        };
        assert(r@.bounties =~= Seq::<BountyView>::empty());
        assert(r@.claims =~= Seq::<(u64, Seq<u8>)>::empty());
        assert(r@.profiles =~= Seq::<ProfileView>::empty());
        assert(r@.log =~= Seq::<(u64, Seq<u8>)>::empty());
        r
    }

    /// The position of `who`'s profile, if there is one.
    fn find_profile(&self, who: &Ident) -> (r: Option<usize>)
        ensures
            r matches Some(i) ==> i < self@.profiles.len() && self@.profiles[i as int].principal
                == who@,
            r is None ==> !has_profile(self@.profiles, who@),
    {
        let mut i: usize = 0;
        while i < self.profiles.len()
            invariant
                i <= self@.profiles.len(),
                self@.profiles.len() == self.profiles@.len(),
                forall|j: int| 0 <= j < i ==> self@.profiles[j].principal != who@,
            decreases self.profiles@.len() - i,
        {
            if self.profiles[i].principal.same(who) {
                return Some(i);
            }
            i = i + 1;
        }
        None
    }

    /// Raises `who`'s counter `c`, creating the profile if needed.
    fn raise(&mut self, who: &Ident, c: Counter)
        requires
            old(self)@.profiles_unique(),
        ensures
            final(self)@ == (BookView {
                profiles: raise_counter(old(self)@.profiles, who@, c),
                ..old(self)@
            }),
            final(self)@.profiles_unique(),
            final(self).canister@ == old(self).canister@,
    {
        let ghost ps = old(self)@.profiles;
        match self.find_profile(who) {
            Some(i) => {
                proof {
                    let k = choose|k: int| 0 <= k < ps.len() && ps[k].principal == who@;
                    assert(k == i as int);
                }
                let p = &mut self.profiles[i];
                match c {
                    Counter::Posted => {
                        if p.bounties_posted < u64::MAX {
                            p.bounties_posted = p.bounties_posted + 1;
                        }
                    },
                    Counter::Participated => {
                        if p.bounties_participated < u64::MAX {
                            p.bounties_participated = p.bounties_participated + 1;
                        }
                    },
                    Counter::Won => {
                        if p.bounties_won < u64::MAX {
                            p.bounties_won = p.bounties_won + 1;
                        }
                    },
                }
                assert(self@.profiles =~= ps.update(i as int, raise_view(ps[i as int], c)));
            },
            None => {
                let mut p = UserProfile::new(who.copy());
                match c {
                    Counter::Posted => p.bounties_posted = 1,
                    Counter::Participated => p.bounties_participated = 1,
                    Counter::Won => p.bounties_won = 1,
                }
                self.profiles.push(p);
                assert(self@.profiles =~= ps.push(raise_view(fresh_profile(who@), c)));
            },
        }
    }


    /// The position of bounty `id` in storage.
    fn slot(&self, id: u64) -> (r: usize)
        requires
            self@.has_bounty(id),
        ensures
            r == id - 1,
            r < self.bounties@.len(),
            self@.bounties[r as int] == self.bounties@[r as int]@,
    {
        let n = self.bounties.len();
        assert(self@.bounties.len() == n);
        (id - 1) as usize
    }

    /// Opens a bounty in `PendingFunding` with the next id and its derived escrow
    /// subaccount, and returns the id and the text of the escrow account.
    pub fn create_bounty(&mut self, caller: Ident, request: CreateBountyRequest, now: u64) -> (r:
        Result<(u64, String), EscrowError>)
        requires
            old(self).wf(),
            old(self)@.bounties.len() < u64::MAX,
        ensures
            final(self).wf(),
            r is Err <==> bad_request(request),
            r is Err ==> r == Err::<(u64, String), EscrowError>(EscrowError::InvalidArgument)
                && final(self)@ == old(self)@,
            r matches Ok((id, text)) ==> {
                &&& id == old(self)@.bounties.len() + 1
                &&& text@ == account_text(old(self)@.canister, Some(escrow_subaccount_of(id)))
                &&& final(self)@ == (BookView {
                    bounties: old(self)@.bounties.push(
                        new_bounty_view(id, caller@, request, now),
                    ),
                    profiles: raise_counter(old(self)@.profiles, caller@, Counter::Posted),
                    ..old(self)@
                })
            },
    {
        if request.title.as_str().is_empty() || request.github_issue_url.as_str().is_empty()
            || request.prize_amount.is_zero() {
            return Err(EscrowError::InvalidArgument);
        }
        let ghost v0 = self@;
        let n = self.bounties.len();
        let id: u64 = (n as u64) + 1;
        let subaccount = generate_subaccount(id);
        let account = get_escrow_account(&self.canister, subaccount);
        let text = account.to_string();
        let creator = caller.copy();
        let bounty = Bounty {
            id,
            creator,
            title: request.title,
            description: request.description,
            github_issue_url: request.github_issue_url,
            prize_amount: request.prize_amount,
            token_ledger: request.token_ledger,
            status: BountyStatus::PendingFunding,
            submissions: Vec::new(),
            winner: None,
            created_at: now,
            escrow_subaccount: subaccount,
            deadline: request.deadline,
        };
        let ghost nb = new_bounty_view(id, caller@, request, now);
        assert(bounty@.submissions =~= Seq::<SubmissionView>::empty());
        assert(bounty@ == nb);
        self.bounties.push(bounty);
        let ghost v1 = self@;
        proof {
            assert(v1.bounties =~= v0.bounties.push(nb));
            assert(v1 == (BookView { bounties: v0.bounties.push(nb), ..v0 }));
            lemma_push_bounty_wf(v0, nb);
        }
        self.raise(&caller, Counter::Posted);
        Ok((id, text))
    }

    /// Records `caller`'s solution to an `Active` bounty without a payout order out, logs
    /// it, and raises their participation count. Applies a due expiry first and then
    /// fails.
    pub fn submit_solution(&mut self, caller: &Ident, request: SubmitSolutionRequest, now: u64) -> (r:
        Result<(), EscrowError>)
        requires
            old(self).wf(),
        ensures
            final(self).wf(),
            ({
                let v = old(self)@;
                let id = request.bounty_id;
                if request.pr_url@.len() == 0 {
                    r == Err::<(), EscrowError>(EscrowError::InvalidArgument) && final(self)@ == v
                } else if !v.has_bounty(id) {
                    r == Err::<(), EscrowError>(EscrowError::NotFound) && final(self)@ == v
                } else if v.expires(id, now) {
                    r == Err::<(), EscrowError>(EscrowError::InvalidStateTransition)
                        && final(self)@ == v.with_bounty(
                        id,
                        with_status(v.bounty(id), BountyStatus::Expired),
                    )
                } else if v.bounty(id).status != BountyStatus::Active {
                    r == Err::<(), EscrowError>(EscrowError::InvalidStateTransition)
                        && final(self)@ == v
                } else if v.pending.contains(id) {
                    r == Err::<(), EscrowError>(EscrowError::InvalidStateTransition)
                        && final(self)@ == v
                } else if v.bounty(id).has_submitter(caller@) {
                    r == Err::<(), EscrowError>(EscrowError::DuplicateSubmission)
                        && final(self)@ == v
                } else {
                    let b = v.bounty(id);
                    &&& r is Ok
                    &&& final(self)@ == (BookView {
                        bounties: v.bounties.update(
                            id - 1,
                            BountyView {
                                submissions: b.submissions.push(
                                    new_submission_view(caller@, request, now),
                                ),
                                ..b
                            },
                        ),
                        profiles: raise_counter(v.profiles, caller@, Counter::Participated),
                        log: v.log.push((id, caller@)),
                        ..v
                    })
                }
            }),
    {
        if request.pr_url.as_str().is_empty() {
            return Err(EscrowError::InvalidArgument);
        }
        let id = request.bounty_id;
        if id == 0 || id > self.bounties.len() as u64 {
            return Err(EscrowError::NotFound);
        }
        if self.expire_if_due(id, now) {
            return Err(EscrowError::InvalidStateTransition);
        }
        let i = self.slot(id);
        if self.bounties[i].status != BountyStatus::Active {
            return Err(EscrowError::InvalidStateTransition);
        }
        if self.is_pending(id) {
            return Err(EscrowError::InvalidStateTransition);
        }
        let ghost v_scan = self@;
        let mut k: usize = 0;
        while k < self.bounties[i].submissions.len()
            invariant
                self.wf(),
                self@ == v_scan,
                v_scan == old(self)@,
                !v_scan.expires(id, now),
                v_scan.bounty(id).status == BountyStatus::Active,
                !v_scan.pending.contains(id),
                v_scan.has_bounty(id),
                request.pr_url@.len() != 0,
                id == request.bounty_id,
                i == id - 1,
                i < self.bounties@.len(),
                self@.bounties[i as int] == self.bounties@[i as int]@,
                k <= self.bounties@[i as int].submissions@.len(),
                forall|j: int| 0 <= j < k ==> self@.bounties[i as int].submissions[j].submitter
                    != caller@,
            decreases self.bounties@[i as int].submissions@.len() - k,
        {
            assert(self@.bounties[i as int].submissions[k as int]
                == self.bounties@[i as int].submissions@[k as int]@);
            if self.bounties[i].submissions[k].submitter.same(caller) {
                assert(self@.bounty(id).submissions[k as int].submitter == caller@);
                return Err(EscrowError::DuplicateSubmission);
            }
            k = k + 1;
        }
        let ghost v0 = self@;
        let ghost old_vec = self.bounties@;
        let submission = Submission {
            submitter: caller.copy(),
            pr_url: request.pr_url,
            comment: request.comment,
            submitted_at: now,
        };
        let ghost ns = new_submission_view(caller@, request, now);
        self.bounties[i].submissions.push(submission);
        proof {
            let b = v0.bounty(id);
            let nb = BountyView { submissions: b.submissions.push(ns), ..b };
            assert forall|j: int| 0 <= j < self@.bounties.len() implies self@.bounties[j]
                == v0.bounties.update(i as int, nb)[j] by {
                assert(self@.bounties[j] == self.bounties@[j]@);
                assert(v0.bounties[j] == old_vec[j]@);
                if j == i {
                    assert(self.bounties@[j]@.submissions =~= nb.submissions);
                }
            }
            assert(self@.bounties =~= v0.bounties.update(i as int, nb));
        }
        let ghost v1 = self@;
        self.submission_log.push(SubmissionEntry { bounty_id: id, submitter: caller.copy() });
        assert(self@.log =~= v1.log.push((id, caller@)));
        assert(self@ == (BookView { log: v1.log.push((id, caller@)), ..v1 }));
        proof {
            lemma_add_submission_wf(v0, id, ns);
        }
        self.raise(caller, Counter::Participated);
        Ok(())
    }


    /// Sets the status of a bounty that is `PendingFunding` or `Active` and has no winner.
    fn set_status(&mut self, id: u64, s: BountyStatus)
        requires
            old(self).wf(),
            old(self)@.has_bounty(id),
            old(self)@.bounty(id).status == BountyStatus::PendingFunding
                || old(self)@.bounty(id).status == BountyStatus::Active,
            s != BountyStatus::Completed,
            s == BountyStatus::Cancelled ==> old(self)@.bounty(id).submissions.len() == 0,
            !old(self)@.pending.contains(id),
        ensures
            final(self).wf(),
            final(self)@ == old(self)@.with_bounty(id, with_status(old(self)@.bounty(id), s)),
    {
        let ghost v0 = self@;
        let ghost old_vec = self.bounties@;
        let i = self.slot(id);
        self.bounties[i].status = s;
        proof {
            let v1 = v0.with_bounty(id, with_status(v0.bounty(id), s));
            assert forall|j: int| 0 <= j < self@.bounties.len() implies self@.bounties[j]
                == v1.bounties[j] by {
                assert(self@.bounties[j] == self.bounties@[j]@);
                assert(v0.bounties[j] == old_vec[j]@);
                if j != i {
                    assert(self.bounties@[j] == old_vec[j]);
                }
            }
            assert(self@.bounties =~= v1.bounties);
            lemma_set_status_wf(v0, id, s);
        }
    }

    /// Picks the winner of an `Active` bounty among its submitters; only the creator
    /// may, and not while a payout order for the bounty is out. The bounty becomes
    /// `Completed` and the winner's win count rises. Applies a due expiry first and then
    /// fails.
    pub fn select_winner(&mut self, id: u64, caller: &Ident, winner: &Ident, now: u64) -> (r:
        Result<(), EscrowError>)
        requires
            old(self).wf(),
        ensures
            final(self).wf(),
            ({
                let v = old(self)@;
                if !v.has_bounty(id) {
                    r == Err::<(), EscrowError>(EscrowError::NotFound) && final(self)@ == v
                } else if v.expires(id, now) {
                    r == Err::<(), EscrowError>(EscrowError::InvalidStateTransition)
                        && final(self)@ == v.with_bounty(
                        id,
                        with_status(v.bounty(id), BountyStatus::Expired),
                    )
                } else {
                    match winner_refusal(v, id, caller@, winner@) {
                        Some(e) => r == Err::<(), EscrowError>(e) && final(self)@ == v,
                        None => {
                            &&& r is Ok
                            &&& final(self)@ == (BookView {
                                bounties: v.bounties.update(
                                    id - 1,
                                    BountyView {
                                        status: BountyStatus::Completed,
                                        winner: Some(winner@),
                                        ..v.bounty(id)
                                    },
                                ),
                                profiles: raise_counter(v.profiles, winner@, Counter::Won),
                                ..v
                            })
                        },
                    }
                }
            }),
    {
        if id == 0 || id > self.bounties.len() as u64 {
            return Err(EscrowError::NotFound);
        }
        if self.expire_if_due(id, now) {
            return Err(EscrowError::InvalidStateTransition);
        }
        let i = self.slot(id);
        if !self.bounties[i].creator.same(caller) {
            return Err(EscrowError::Unauthorized);
        }
        if self.bounties[i].status != BountyStatus::Active {
            return Err(EscrowError::InvalidStateTransition);
        }
        if !self.is_submitter(id, winner) {
            return Err(EscrowError::UnknownWinner);
        }
        if self.is_pending(id) {
            return Err(EscrowError::InvalidStateTransition);
        }
        let ghost v0 = self@;
        let ghost old_vec = self.bounties@;
        self.bounties[i].status = BountyStatus::Completed;
        self.bounties[i].winner = Some(winner.copy());
        proof {
            let b = v0.bounty(id);
            let nb = BountyView { status: BountyStatus::Completed, winner: Some(winner@), ..b };
            assert forall|j: int| 0 <= j < self@.bounties.len() implies self@.bounties[j]
                == v0.bounties.update(i as int, nb)[j] by {
                assert(self@.bounties[j] == self.bounties@[j]@);
                assert(v0.bounties[j] == old_vec[j]@);
                if j != i {
                    assert(self.bounties@[j] == old_vec[j]);
                }
            }
            assert(self@.bounties =~= v0.bounties.update(i as int, nb));
            lemma_complete_wf(v0, id, winner@);
        }
        self.raise(winner, Counter::Won);
        Ok(())
    }

    /// Whether `who` has a submission on bounty `id`.
    fn is_submitter(&self, id: u64, who: &Ident) -> (r: bool)
        requires
            self@.has_bounty(id),
        ensures
            r == self@.bounty(id).has_submitter(who@),
    {
        let i = self.slot(id);
        let mut k: usize = 0;
        while k < self.bounties[i].submissions.len()
            invariant
                i == id - 1,
                self@.has_bounty(id),
                i < self.bounties@.len(),
                self@.bounties[i as int] == self.bounties@[i as int]@,
                k <= self.bounties@[i as int].submissions@.len(),
                forall|j: int| 0 <= j < k ==> self@.bounty(id).submissions[j].submitter != who@,
            decreases self.bounties@[i as int].submissions@.len() - k,
        {
            assert(self@.bounties[i as int].submissions[k as int]
                == self.bounties@[i as int].submissions@[k as int]@);
            if self.bounties[i].submissions[k].submitter.same(who) {
                assert(self@.bounty(id).submissions[k as int].submitter == who@);
                return true;
            }
            k = k + 1;
        }
        false
    }


    /// Whether a claim record exists for bounty `id`.
    fn is_claimed(&self, id: u64) -> (r: bool)
        ensures
            r == self@.claimed(id),
    {
        let mut k: usize = 0;
        while k < self.claims.len()
            invariant
                k <= self.claims@.len(),
                self@.claims.len() == self.claims@.len(),
                forall|j: int| 0 <= j < k ==> self@.claims[j].0 != id,
            decreases self.claims@.len() - k,
        {
            assert(self@.claims[k as int].0 == self.claims@[k as int].bounty_id);
            if self.claims[k].bounty_id == id {
                return true;
            }
            k = k + 1;
        }
        false
    }

    /// Whether bounty `id` has been refunded.
    fn is_refunded(&self, id: u64) -> (r: bool)
        ensures
            r == self@.refunded(id),
    {
        let mut k: usize = 0;
        while k < self.refunds.len()
            invariant
                k <= self.refunds@.len(),
                forall|j: int| 0 <= j < k ==> self.refunds@[j] != id,
            decreases self.refunds@.len() - k,
        {
            if self.refunds[k] == id {
                assert(self.refunds@[k as int] == id);
                return true;
            }
            k = k + 1;
        }
        false
    }

    fn claim_check(&self, id: u64, caller: &Ident) -> (r: Option<EscrowError>)
        ensures
            r == claim_refusal(self@, id, caller@),
    {
        if id == 0 || id > self.bounties.len() as u64 {
            return Some(EscrowError::NotFound);
        }
        if self.is_claimed(id) {
            return Some(EscrowError::AlreadyClaimed);
        }
        let i = self.slot(id);
        let is_winner = match &self.bounties[i].winner {
            Some(w) => w.same(caller),
            None => false,
        };
        if !is_winner {
            return Some(EscrowError::NotWinner);
        }
        if self.bounties[i].status != BountyStatus::Completed {
            return Some(EscrowError::NotCompleted);
        }
        None
    }

    fn refund_check(&self, id: u64, caller: &Ident) -> (r: Option<EscrowError>)
        ensures
            r == refund_refusal(self@, id, caller@),
    {
        if id == 0 || id > self.bounties.len() as u64 {
            return Some(EscrowError::NotFound);
        }
        let i = self.slot(id);
        if !self.bounties[i].creator.same(caller) {
            return Some(EscrowError::Unauthorized);
        }
        if self.bounties[i].status != BountyStatus::Expired || self.bounties[i].winner.is_some() {
            return Some(EscrowError::InvalidStateTransition);
        }
        if self.is_refunded(id) {
            return Some(EscrowError::AlreadyClaimed);
        }
        None
    }

    fn cancel_check(&self, id: u64, caller: &Ident) -> (r: Option<EscrowError>)
        ensures
            r == cancel_refusal(self@, id, caller@),
    {
        if id == 0 || id > self.bounties.len() as u64 {
            return Some(EscrowError::NotFound);
        }
        let i = self.slot(id);
        if !self.bounties[i].creator.same(caller) {
            return Some(EscrowError::Unauthorized);
        }
        if self.bounties[i].status != BountyStatus::Active {
            return Some(EscrowError::InvalidStateTransition);
        }
        if self.bounties[i].submissions.len() != 0 {
            return Some(EscrowError::InvalidStateTransition);
        }
        None
    }

    /// The order to move bounty `id`'s full prize out of its escrow to `to`.
    fn payout_to(&self, id: u64, to: &Ident) -> (r: PayoutOrder)
        requires
            self@.has_bounty(id),
        ensures
            r.pays(self@.bounty(id), to@),
    {
        let i = self.slot(id);
        let b = &self.bounties[i];
        PayoutOrder {
            bounty_id: b.id,
            token_ledger: b.token_ledger.copy(),
            from_subaccount: b.escrow_subaccount,
            to: to.copy(),
            amount: b.prize_amount.copy(),
        }
    }

    /// First step of funding verification: applies a due expiry (and then fails), else
    /// says which ledger balance to look up. Nothing else changes.
    pub fn begin_verify_funding(&mut self, id: u64, now: u64) -> (r: Result<
        BalanceQuery,
        EscrowError,
    >)
        requires
            old(self).wf(),
        ensures
            final(self).wf(),
            ({
                let v = old(self)@;
                if !v.has_bounty(id) {
                    r == Err::<BalanceQuery, EscrowError>(EscrowError::NotFound) && final(self)@
                        == v
                } else if v.expires(id, now) {
                    r == Err::<BalanceQuery, EscrowError>(EscrowError::InvalidStateTransition)
                        && final(self)@ == v.with_bounty(
                        id,
                        with_status(v.bounty(id), BountyStatus::Expired),
                    )
                } else {
                    &&& final(self)@ == v
                    &&& r matches Ok(q) && q.bounty_id == id && q.token_ledger@ == v.bounty(
                        id,
                    ).token_ledger && q.subaccount@ == v.bounty(id).escrow_subaccount
                }
            }),
    {
        if id == 0 || id > self.bounties.len() as u64 {
            return Err(EscrowError::NotFound);
        }
        if self.expire_if_due(id, now) {
            return Err(EscrowError::InvalidStateTransition);
        }
        let i = self.slot(id);
        Ok(
            BalanceQuery {
                bounty_id: id,
                token_ledger: self.bounties[i].token_ledger.copy(),
                subaccount: self.bounties[i].escrow_subaccount,
            },
        )
    }

    /// Second step of funding verification, on the balance that the ledger reported
    /// (`None` where the lookup failed): a `PendingFunding` bounty whose balance covers
    /// the prize becomes `Active`; the result says whether the balance covers it.
    pub fn finish_verify_funding(&mut self, id: u64, now: u64, balance: Option<Amount>) -> (r:
        Result<bool, EscrowError>)
        requires
            old(self).wf(),
        ensures
            final(self).wf(),
            (final(self)@, r) == funding_step(old(self)@, id, now, opt_amount_value(balance)),
    {
        if id == 0 || id > self.bounties.len() as u64 {
            return Err(EscrowError::NotFound);
        }
        if self.expire_if_due(id, now) {
            return Err(EscrowError::InvalidStateTransition);
        }
        let bal = match balance {
            Some(b) => b,
            None => {
                return Err(EscrowError::LedgerUnavailable);
            },
        };
        let i = self.slot(id);
        let funded = bal.ge(&self.bounties[i].prize_amount);
        if funded && self.bounties[i].status == BountyStatus::PendingFunding {
            proof {
                lemma_pending_status(self@, id);
            }
            self.set_status(id, BountyStatus::Active);
        }
        Ok(funded)
    }

    /// First step of a claim: applies a due expiry (and then fails), else checks that
    /// no claim exists for the bounty, that it is `Completed` and that `caller` won it,
    /// and, where no payout order for the bounty is out, gives the transfer of the prize
    /// to `caller` and marks that order as out.
    pub fn begin_claim(&mut self, id: u64, caller: &Ident, now: u64) -> (r: Result<
        PayoutOrder,
        EscrowError,
    >)
        requires
            old(self).wf(),
        ensures
            final(self).wf(),
            ({
                let v = old(self)@;
                if !v.has_bounty(id) {
                    r == Err::<PayoutOrder, EscrowError>(EscrowError::NotFound) && final(self)@
                        == v
                } else if v.expires(id, now) {
                    r == Err::<PayoutOrder, EscrowError>(EscrowError::InvalidStateTransition)
                        && final(self)@ == v.with_bounty(
                        id,
                        with_status(v.bounty(id), BountyStatus::Expired),
                    )
                } else {
                    match claim_refusal(v, id, caller@) {
                        Some(e) => r == Err::<PayoutOrder, EscrowError>(e) && final(self)@ == v,
                        None => if v.pending.contains(id) {
                            r == Err::<PayoutOrder, EscrowError>(
                                EscrowError::InvalidStateTransition,
                            ) && final(self)@ == v
                        } else {
                            &&& r matches Ok(o) && o.pays(v.bounty(id), caller@)
                            &&& final(self)@ == v.dispatched(id)
                        },
                    }
                }
            }),
    {
        if id == 0 || id > self.bounties.len() as u64 {
            return Err(EscrowError::NotFound);
        }
        if self.expire_if_due(id, now) {
            return Err(EscrowError::InvalidStateTransition);
        }
        match self.claim_check(id, caller) {
            Some(e) => Err(e),
            None => self.dispatch(id, caller),
        }
    }

    /// Second step of a claim, on the ledger's answer; the bounty's payout order is
    /// settled whatever the answer. Only a confirmed transfer writes
    /// the claim record, and only where the claim is still allowed; the result is the
    /// ledger's block index.
    pub fn finish_claim(&mut self, id: u64, caller: &Ident, outcome: TransferOutcome) -> (r:
        Result<Amount, EscrowError>)
        requires
            old(self).wf(),
        ensures
            final(self).wf(),
            ({
                let v = old(self)@;
                match outcome.block() {
                    None => r == Err::<Amount, EscrowError>(outcome.failure()) && final(self)@
                        == v.settled(id),
                    Some(block) => match claim_refusal(v, id, caller@) {
                        Some(e) => r == Err::<Amount, EscrowError>(e) && final(self)@ == v.settled(id),
                        None => {
                            &&& r matches Ok(a) && a.digits@ == block
                            &&& final(self)@ == (BookView {
                                claims: v.claims.push((id, caller@)),
                                ..v.settled(id)
                            })
                        },
                    },
                }
            }),
    {
        self.settle(id);
        let block = match outcome {
            TransferOutcome::Confirmed(b) => b,
            TransferOutcome::Rejected => {
                return Err(EscrowError::LedgerRejected);
            },
            TransferOutcome::Indeterminate => {
                return Err(EscrowError::LedgerUnavailable);
            },
        };
        match self.claim_check(id, caller) {
            Some(e) => Err(e),
            None => {
                let ghost v0 = self@;
                self.claims.push(ClaimKey { bounty_id: id, principal: caller.copy() });
                proof {
                    assert(self@.claims =~= v0.claims.push((id, caller@)));
                    lemma_push_claim_wf(v0, id, caller@);
                }
                Ok(block)
            },
        }
    }

    /// First step of a refund: applies a due expiry (and then fails), else checks that
    /// `caller` created the bounty, that it is `Expired` without a winner and not yet
    /// refunded, and, where no payout order for the bounty is out, gives the transfer of
    /// the prize back to `caller` and marks that order as out.
    pub fn begin_refund(&mut self, id: u64, caller: &Ident, now: u64) -> (r: Result<
        PayoutOrder,
        EscrowError,
    >)
        requires
            old(self).wf(),
        ensures
            final(self).wf(),
            ({
                let v = old(self)@;
                if !v.has_bounty(id) {
                    r == Err::<PayoutOrder, EscrowError>(EscrowError::NotFound) && final(self)@
                        == v
                } else if v.expires(id, now) {
                    r == Err::<PayoutOrder, EscrowError>(EscrowError::InvalidStateTransition)
                        && final(self)@ == v.with_bounty(
                        id,
                        with_status(v.bounty(id), BountyStatus::Expired),
                    )
                } else {
                    match refund_refusal(v, id, caller@) {
                        Some(e) => r == Err::<PayoutOrder, EscrowError>(e) && final(self)@ == v,
                        None => if v.pending.contains(id) {
                            r == Err::<PayoutOrder, EscrowError>(
                                EscrowError::InvalidStateTransition,
                            ) && final(self)@ == v
                        } else {
                            &&& r matches Ok(o) && o.pays(v.bounty(id), caller@)
                            &&& final(self)@ == v.dispatched(id)
                        },
                    }
                }
            }),
    {
        if id == 0 || id > self.bounties.len() as u64 {
            return Err(EscrowError::NotFound);
        }
        if self.expire_if_due(id, now) {
            return Err(EscrowError::InvalidStateTransition);
        }
        match self.refund_check(id, caller) {
            Some(e) => Err(e),
            None => self.dispatch(id, caller),
        }
    }

    /// Second step of a refund, on the ledger's answer; the bounty's payout order is
    /// settled whatever the answer. Only a confirmed transfer
    /// records the refund, and only where it is still allowed.
    pub fn finish_refund(&mut self, id: u64, caller: &Ident, outcome: TransferOutcome) -> (r:
        Result<Amount, EscrowError>)
        requires
            old(self).wf(),
        ensures
            final(self).wf(),
            ({
                let v = old(self)@;
                match outcome.block() {
                    None => r == Err::<Amount, EscrowError>(outcome.failure()) && final(self)@
                        == v.settled(id),
                    Some(block) => match refund_refusal(v, id, caller@) {
                        Some(e) => r == Err::<Amount, EscrowError>(e) && final(self)@ == v.settled(id),
                        None => {
                            &&& r matches Ok(a) && a.digits@ == block
                            &&& final(self)@ == (BookView {
                                refunds: v.refunds.push(id),
                                ..v.settled(id)
                            })
                        },
                    },
                }
            }),
    {
        self.settle(id);
        let block = match outcome {
            TransferOutcome::Confirmed(b) => b,
            TransferOutcome::Rejected => {
                return Err(EscrowError::LedgerRejected);
            },
            TransferOutcome::Indeterminate => {
                return Err(EscrowError::LedgerUnavailable);
            },
        };
        match self.refund_check(id, caller) {
            Some(e) => Err(e),
            None => {
                let ghost v0 = self@;
                self.refunds.push(id);
                proof {
                    lemma_push_refund_wf(v0, id);
                }
                Ok(block)
            },
        }
    }

    /// First step of a cancellation: applies a due expiry (and then fails), else checks
    /// that `caller` created the bounty, that it is `Active` and that it has no
    /// submission, and, where no payout order for the bounty is out, gives the transfer
    /// of the prize back to `caller` and marks that order as out.
    pub fn begin_cancel(&mut self, id: u64, caller: &Ident, now: u64) -> (r: Result<
        PayoutOrder,
        EscrowError,
    >)
        requires
            old(self).wf(),
        ensures
            final(self).wf(),
            ({
                let v = old(self)@;
                if !v.has_bounty(id) {
                    r == Err::<PayoutOrder, EscrowError>(EscrowError::NotFound) && final(self)@
                        == v
                } else if v.expires(id, now) {
                    r == Err::<PayoutOrder, EscrowError>(EscrowError::InvalidStateTransition)
                        && final(self)@ == v.with_bounty(
                        id,
                        with_status(v.bounty(id), BountyStatus::Expired),
                    )
                } else {
                    match cancel_refusal(v, id, caller@) {
                        Some(e) => r == Err::<PayoutOrder, EscrowError>(e) && final(self)@ == v,
                        None => if v.pending.contains(id) {
                            r == Err::<PayoutOrder, EscrowError>(
                                EscrowError::InvalidStateTransition,
                            ) && final(self)@ == v
                        } else {
                            &&& r matches Ok(o) && o.pays(v.bounty(id), caller@)
                            &&& final(self)@ == v.dispatched(id)
                        },
                    }
                }
            }),
    {
        if id == 0 || id > self.bounties.len() as u64 {
            return Err(EscrowError::NotFound);
        }
        if self.expire_if_due(id, now) {
            return Err(EscrowError::InvalidStateTransition);
        }
        match self.cancel_check(id, caller) {
            Some(e) => Err(e),
            None => self.dispatch(id, caller),
        }
    }

    /// Second step of a cancellation, on the ledger's answer; the bounty's payout order is
    /// settled whatever the answer. Only a confirmed transfer
    /// moves the bounty to `Cancelled`, and only where cancelling is still allowed.
    pub fn finish_cancel(&mut self, id: u64, caller: &Ident, outcome: TransferOutcome) -> (r:
        Result<(), EscrowError>)
        requires
            old(self).wf(),
        ensures
            final(self).wf(),
            // the transfer of a cancellation order that was out is always recorded
            old(self)@.pending.contains(id) && old(self)@.bounty(id).status
                == BountyStatus::Active && old(self)@.bounty(id).creator == caller@
                && outcome.block() is Some ==> r is Ok && final(self)@.bounty(id).status
                == BountyStatus::Cancelled,
            ({
                let v = old(self)@;
                match outcome.block() {
                    None => r == Err::<(), EscrowError>(outcome.failure()) && final(self)@
                        == v.settled(id),
                    Some(block) => match cancel_refusal(v, id, caller@) {
                        Some(e) => r == Err::<(), EscrowError>(e) && final(self)@ == v.settled(id),
                        None => {
                            &&& r is Ok
                            &&& final(self)@ == v.settled(id).with_bounty(
                                id,
                                with_status(v.bounty(id), BountyStatus::Cancelled),
                            )
                        },
                    },
                }
            }),
    {
        proof {
            lemma_pending_status(self@, id);
        }
        self.settle(id);
        match outcome {
            TransferOutcome::Confirmed(_) => {},
            TransferOutcome::Rejected => {
                return Err(EscrowError::LedgerRejected);
            },
            TransferOutcome::Indeterminate => {
                return Err(EscrowError::LedgerUnavailable);
            },
        }
        match self.cancel_check(id, caller) {
            Some(e) => Err(e),
            None => {
                self.set_status(id, BountyStatus::Cancelled);
                Ok(())
            },
        }
    }


    /// Whether bounty `id` has a payout order out.
    fn is_pending(&self, id: u64) -> (r: bool)
        ensures
            r == self@.pending.contains(id),
    {
        let mut k: usize = 0;
        while k < self.payouts_in_flight.len()
            invariant
                k <= self@.pending.len(),
                self@.pending == self.payouts_in_flight@,
                forall|j: int| 0 <= j < k ==> self@.pending[j] != id,
            decreases self@.pending.len() - k,
        {
            if self.payouts_in_flight[k] == id {
                assert(self@.pending[k as int] == id);
                return true;
            }
            k = k + 1;
        }
        false
    }

    /// Marks bounty `id` as having a payout order out, and gives that order.
    fn dispatch(&mut self, id: u64, to: &Ident) -> (r: Result<PayoutOrder, EscrowError>)
        requires
            old(self).wf(),
            old(self)@.has_bounty(id),
            payout_status_ok(old(self)@.bounty(id)),
        ensures
            final(self).wf(),
            old(self)@.pending.contains(id) ==> r == Err::<PayoutOrder, EscrowError>(
                EscrowError::InvalidStateTransition,
            ) && final(self)@ == old(self)@,
            !old(self)@.pending.contains(id) ==> (r matches Ok(o) && o.pays(
                old(self)@.bounty(id),
                to@,
            )) && final(self)@ == old(self)@.dispatched(id),
    {
        if self.is_pending(id) {
            return Err(EscrowError::InvalidStateTransition);
        }
        let order = self.payout_to(id, to);
        let ghost v0 = self@;
        self.payouts_in_flight.push(id);
        proof {
            assert(self@ == v0.dispatched(id));
            assert forall|k: int, l: int|
                0 <= k < l < self@.pending.len() implies #[trigger] self@.pending[k]
                != #[trigger] self@.pending[l] by {
                if l == v0.pending.len() {
                    assert(self@.pending[k] == v0.pending[k]);
                    assert(v0.pending.contains(v0.pending[k]));
                } else {
                    assert(self@.pending[k] == v0.pending[k]);
                    assert(self@.pending[l] == v0.pending[l]);
                }
            }
            lemma_pending_only(v0, self@.pending);
        }
        Ok(order)
    }

    /// Settles the payout order out for bounty `id`, if any.
    fn settle(&mut self, id: u64)
        requires
            old(self).wf(),
        ensures
            final(self).wf(),
            final(self)@ == old(self)@.settled(id),
            !final(self)@.pending.contains(id),
    {
        let ghost v0 = self@;
        let mut k: usize = 0;
        while k < self.payouts_in_flight.len()
            invariant
                self@ == v0,
                v0 == old(self)@,
                v0.wf(),
                self.canister.wf(),
                k <= self@.pending.len(),
                self@.pending == self.payouts_in_flight@,
                forall|j: int| 0 <= j < k ==> self@.pending[j] != id,
            decreases self@.pending.len() - k,
        {
            if self.payouts_in_flight[k] == id {
                assert(v0.pending[k as int] == id);
                self.payouts_in_flight.remove(k);
                proof {
                    let i = choose|i: int| 0 <= i < v0.pending.len() && v0.pending[i] == id;
                    if i != k {
                        if i < k {
                            assert(v0.pending[i] != id);
                        } else {
                            assert(v0.pending[k as int] != v0.pending[i]);
                        }
                    }
                    assert(self@ == v0.settled(id));
                    assert forall|a: int, b: int|
                        0 <= a < b < self@.pending.len() implies #[trigger] self@.pending[a]
                        != #[trigger] self@.pending[b] by {
                        let a0 = if a < k { a } else { a + 1 };
                        let b0 = if b < k { b } else { b + 1 };
                        assert(self@.pending[a] == v0.pending[a0]);
                        assert(self@.pending[b] == v0.pending[b0]);
                    }
                    lemma_pending_only(v0, self@.pending);
                    assert(self@ == (BookView { pending: self@.pending, ..v0 }));
                }
                return;
            }
            k = k + 1;
        }
        assert(!v0.pending.contains(id));
    }

    /// Marks bounty `id` `Expired` where it is `Active`, past its deadline at `now`, and
    /// has no payout order out; says whether it did.
    fn expire_if_due(&mut self, id: u64, now: u64) -> (r: bool)
        requires
            old(self).wf(),
            old(self)@.has_bounty(id),
        ensures
            final(self).wf(),
            r == old(self)@.expires(id, now),
            r ==> final(self)@ == old(self)@.with_bounty(
                id,
                with_status(old(self)@.bounty(id), BountyStatus::Expired),
            ),
            !r ==> final(self)@ == old(self)@,
    {
        let n = self.bounties.len();
        assert(self@.bounties.len() == n);
        let i = (id - 1) as usize;
        assert(self@.bounties[i as int] == self.bounties@[i as int]@);
        let due = self.bounties[i].status == BountyStatus::Active && match self.bounties[i].deadline {
            Some(d) => now > d,
            None => false,
        } && !self.is_pending(id);
        if due {
            let ghost v0 = self@;
            let ghost old_vec = self.bounties@;
            self.bounties[i].status = BountyStatus::Expired;
            proof {
                let v1 = v0.with_bounty(id, with_status(v0.bounty(id), BountyStatus::Expired));
                assert forall|j: int| 0 <= j < self@.bounties.len() implies self@.bounties[j]
                    == v1.bounties[j] by {
                    assert(self@.bounties[j] == self.bounties@[j]@);
                    assert(v0.bounties[j] == old_vec[j]@);
                    if j != i {
                        assert(self.bounties@[j] == old_vec[j]);
                    } else {
                        assert(self.bounties@[j]@ == with_status(old_vec[j]@, BountyStatus::Expired));
                    }
                }
                assert(self@.bounties =~= v1.bounties);
                assert(self@ == v1);
                lemma_set_status_wf(v0, id, BountyStatus::Expired);
            }
        }
        due
    }
}

/// Appending a fresh bounty keeps the book well formed.
proof fn lemma_push_bounty_wf(v: BookView, nb: BountyView)
    requires
        v.wf(),
        v.bounties.len() < u64::MAX,
        nb.id == v.bounties.len() + 1,
        nb.escrow_subaccount == escrow_subaccount_of(nb.id),
        nb.status == BountyStatus::PendingFunding,
        nb.winner is None,
        nb.submissions.len() == 0,
    ensures
        (BookView { bounties: v.bounties.push(nb), ..v }).wf(),
{
    let w = BookView { bounties: v.bounties.push(nb), ..v };
    assert forall|i: int| 0 <= i < v.bounties.len() implies w.bounties[i] == v.bounties[i] by {}
    assert(w.claims_ok()) by {
        assert forall|k: int| 0 <= k < w.claims.len() implies {
            &&& w.has_bounty(#[trigger] w.claims[k].0)
            &&& w.bounty(w.claims[k].0).status == BountyStatus::Completed
            &&& w.bounty(w.claims[k].0).winner == Some(w.claims[k].1)
        } by {
            assert(v.has_bounty(v.claims[k].0));
        }
    }
    assert(w.refunds_ok()) by {
        assert forall|k: int| 0 <= k < w.refunds.len() implies {
            &&& w.has_bounty(#[trigger] w.refunds[k])
            &&& w.bounty(w.refunds[k]).status == BountyStatus::Expired
        } by {
            assert(v.has_bounty(v.refunds[k]));
        }
    }
    assert(w.submitters_unique()) by {
        assert forall|a: int, j: int, k: int|
            0 <= a < w.bounties.len() && 0 <= j < k < w.bounties[a].submissions.len() implies
            #[trigger] w.bounties[a].submissions[j].submitter
            != #[trigger] w.bounties[a].submissions[k].submitter by {
            assert(a < v.bounties.len());
            assert(v.bounties[a].submissions == w.bounties[a].submissions);
        }
    }
    assert(w.winners_ok()) by {
        assert forall|i: int| 0 <= i < w.bounties.len() implies {
            &&& (#[trigger] w.bounties[i].status == BountyStatus::Completed)
                == w.bounties[i].winner.is_some()
            &&& w.bounties[i].winner matches Some(x) ==> w.bounties[i].has_submitter(x)
        } by {
            if i < v.bounties.len() {
                assert((v.bounties[i].status == BountyStatus::Completed)
                    == v.bounties[i].winner.is_some());
            }
        }
    }
}

/// Appending a submission from a new submitter to an `Active` bounty keeps the book
/// well formed.
proof fn lemma_add_submission_wf(v: BookView, id: u64, ns: SubmissionView)
    requires
        v.wf(),
        v.has_bounty(id),
        v.bounty(id).status == BountyStatus::Active,
        !v.bounty(id).has_submitter(ns.submitter),
        !v.pending.contains(id),
    ensures
        (BookView {
            bounties: v.bounties.update(
                id - 1,
                BountyView { submissions: v.bounty(id).submissions.push(ns), ..v.bounty(id) },
            ),
            log: v.log.push((id, ns.submitter)),
            ..v
        }).wf(),
{
    let b = v.bounty(id);
    let nb = BountyView { submissions: b.submissions.push(ns), ..b };
    let w = BookView { log: v.log.push((id, ns.submitter)), ..v.with_bounty(id, nb) };
    assert(w.log_ok()) by {
        assert forall|k: int| 0 <= k < w.log.len() implies w.has_bounty(#[trigger] w.log[k].0)
            && w.bounty(w.log[k].0).has_submitter(w.log[k].1) by {
            if k < v.log.len() {
                assert(w.log[k] == v.log[k]);
                assert(v.has_bounty(v.log[k].0));
                let x = v.log[k].0;
                let who = v.log[k].1;
                let q = choose|q: int|
                    0 <= q < v.bounty(x).submissions.len() && v.bounty(x).submissions[q].submitter
                        == who;
                assert(w.bounty(x).submissions[q] == v.bounty(x).submissions[q]);
            } else {
                assert(w.bounty(id).submissions[b.submissions.len() as int] == ns);
            }
        }
        assert forall|k: int, l: int| 0 <= k < l < w.log.len() implies #[trigger] w.log[k]
            != #[trigger] w.log[l] by {
            if l == v.log.len() {
                assert(w.log[k] == v.log[k]);
                assert(v.has_bounty(v.log[k].0));
                if v.log[k] == (id, ns.submitter) {
                    assert(v.bounty(id).has_submitter(ns.submitter));
                }
            } else {
                assert(w.log[k] == v.log[k]);
                assert(w.log[l] == v.log[l]);
            }
        }
        assert forall|i: int, j: int|
            0 <= i < w.bounties.len() && 0 <= j < w.bounties[i].submissions.len() implies
            w.log.contains(((i + 1) as u64, #[trigger] w.bounties[i].submissions[j].submitter)) by {
            if i == id - 1 && j == b.submissions.len() {
                assert(w.log[v.log.len() as int] == (id, ns.submitter));
            } else {
                assert(w.bounties[i].submissions[j] == v.bounties[i].submissions[j]);
                let e = ((i + 1) as u64, v.bounties[i].submissions[j].submitter);
                assert(v.log.contains(e));
                let k = choose|k: int| 0 <= k < v.log.len() && v.log[k] == e;
                assert(w.log[k] == e);
            }
        }
    }
    assert(w.claims_ok()) by {
        assert forall|k: int| 0 <= k < w.claims.len() implies {
            &&& w.has_bounty(#[trigger] w.claims[k].0)
            &&& w.bounty(w.claims[k].0).status == BountyStatus::Completed
            &&& w.bounty(w.claims[k].0).winner == Some(w.claims[k].1)
        } by {
            assert(v.has_bounty(v.claims[k].0));
        }
    }
    assert(w.refunds_ok()) by {
        assert forall|k: int| 0 <= k < w.refunds.len() implies {
            &&& w.has_bounty(#[trigger] w.refunds[k])
            &&& w.bounty(w.refunds[k]).status == BountyStatus::Expired
        } by {
            assert(v.has_bounty(v.refunds[k]));
        }
    }
    assert(w.winners_ok()) by {
        assert forall|i: int| 0 <= i < w.bounties.len() implies {
            &&& (#[trigger] w.bounties[i].status == BountyStatus::Completed)
                == w.bounties[i].winner.is_some()
            &&& w.bounties[i].winner matches Some(x) ==> w.bounties[i].has_submitter(x)
        } by {
            assert((v.bounties[i].status == BountyStatus::Completed)
                == v.bounties[i].winner.is_some());
        }
    }
    assert(w.submitters_unique()) by {
        assert forall|a: int, j: int, k: int|
            0 <= a < w.bounties.len() && 0 <= j < k < w.bounties[a].submissions.len() implies
            #[trigger] w.bounties[a].submissions[j].submitter
            != #[trigger] w.bounties[a].submissions[k].submitter by {
            if a == id - 1 && k == b.submissions.len() {
                assert(w.bounties[a].submissions[j] == b.submissions[j]);
            } else if a == id - 1 {
                assert(w.bounties[a].submissions[j] == b.submissions[j]);
                assert(w.bounties[a].submissions[k] == b.submissions[k]);
            }
        }
    }
}

/// Moving a bounty without a winner out of `PendingFunding` or `Active` to any status
/// but `Completed` keeps the book well formed.
proof fn lemma_set_status_wf(v: BookView, id: u64, s: BountyStatus)
    requires
        v.wf(),
        v.has_bounty(id),
        v.bounty(id).status == BountyStatus::PendingFunding || v.bounty(id).status
            == BountyStatus::Active,
        s != BountyStatus::Completed,
        s == BountyStatus::Cancelled ==> v.bounty(id).submissions.len() == 0,
        !v.pending.contains(id),
    ensures
        v.with_bounty(id, with_status(v.bounty(id), s)).wf(),
{
    let w = v.with_bounty(id, with_status(v.bounty(id), s));
    assert((v.bounty(id).status == BountyStatus::Completed) == v.bounty(id).winner.is_some());
    assert(w.winners_ok()) by {
        assert forall|j: int| 0 <= j < w.bounties.len() implies {
            &&& (#[trigger] w.bounties[j].status == BountyStatus::Completed)
                == w.bounties[j].winner.is_some()
            &&& w.bounties[j].winner matches Some(x) ==> w.bounties[j].has_submitter(x)
        } by {
            assert((v.bounties[j].status == BountyStatus::Completed)
                == v.bounties[j].winner.is_some());
        }
    }
    assert(w.claims_ok()) by {
        assert forall|k: int| 0 <= k < w.claims.len() implies {
            &&& w.has_bounty(#[trigger] w.claims[k].0)
            &&& w.bounty(w.claims[k].0).status == BountyStatus::Completed
            &&& w.bounty(w.claims[k].0).winner == Some(w.claims[k].1)
        } by {
            assert(v.has_bounty(v.claims[k].0));
        }
    }
    assert(w.refunds_ok()) by {
        assert forall|k: int| 0 <= k < w.refunds.len() implies {
            &&& w.has_bounty(#[trigger] w.refunds[k])
            &&& w.bounty(w.refunds[k]).status == BountyStatus::Expired
        } by {
            assert(v.has_bounty(v.refunds[k]));
        }
    }
    assert forall|a: int| 0 <= a < w.bounties.len() implies #[trigger] w.bounties[a].submissions
        == v.bounties[a].submissions by {}
    lemma_submissions_kept(v, w);
    lemma_log_kept(v, w);
}

/// Completing an `Active` bounty with one of its submitters as winner keeps the book
/// well formed.
proof fn lemma_complete_wf(v: BookView, id: u64, winner: Seq<u8>)
    requires
        v.wf(),
        v.has_bounty(id),
        v.bounty(id).status == BountyStatus::Active,
        v.bounty(id).has_submitter(winner),
        !v.pending.contains(id),
    ensures
        v.with_bounty(
            id,
            BountyView { status: BountyStatus::Completed, winner: Some(winner), ..v.bounty(id) },
        ).wf(),
{
    let w = v.with_bounty(
        id,
        BountyView { status: BountyStatus::Completed, winner: Some(winner), ..v.bounty(id) },
    );
    assert(w.winners_ok()) by {
        assert forall|j: int| 0 <= j < w.bounties.len() implies {
            &&& (#[trigger] w.bounties[j].status == BountyStatus::Completed)
                == w.bounties[j].winner.is_some()
            &&& w.bounties[j].winner matches Some(x) ==> w.bounties[j].has_submitter(x)
        } by {
            assert((v.bounties[j].status == BountyStatus::Completed)
                == v.bounties[j].winner.is_some());
            assert(w.bounties[j].submissions == v.bounties[j].submissions);
        }
    }
    assert(w.claims_ok()) by {
        assert forall|k: int| 0 <= k < w.claims.len() implies {
            &&& w.has_bounty(#[trigger] w.claims[k].0)
            &&& w.bounty(w.claims[k].0).status == BountyStatus::Completed
            &&& w.bounty(w.claims[k].0).winner == Some(w.claims[k].1)
        } by {
            assert(v.has_bounty(v.claims[k].0));
        }
    }
    assert(w.refunds_ok()) by {
        assert forall|k: int| 0 <= k < w.refunds.len() implies {
            &&& w.has_bounty(#[trigger] w.refunds[k])
            &&& w.bounty(w.refunds[k]).status == BountyStatus::Expired
        } by {
            assert(v.has_bounty(v.refunds[k]));
        }
    }
    assert(w.submitters_unique()) by {
        assert forall|a: int, j: int, k: int|
            0 <= a < w.bounties.len() && 0 <= j < k < w.bounties[a].submissions.len() implies
            #[trigger] w.bounties[a].submissions[j].submitter
            != #[trigger] w.bounties[a].submissions[k].submitter by {
            assert(v.bounties[a].submissions == w.bounties[a].submissions);
        }
    }
    assert forall|a: int| 0 <= a < w.bounties.len() implies #[trigger] w.bounties[a].submissions
        == v.bounties[a].submissions by {}
    lemma_log_kept(v, w);
}

/// Submitters stay unique where no bounty's submissions change.
proof fn lemma_submissions_kept(v: BookView, w: BookView)
    requires
        v.submitters_unique(),
        w.bounties.len() == v.bounties.len(),
        forall|a: int| 0 <= a < w.bounties.len() ==> #[trigger] w.bounties[a].submissions
            == v.bounties[a].submissions,
    ensures
        w.submitters_unique(),
{
    assert forall|a: int, j: int, k: int|
        0 <= a < w.bounties.len() && 0 <= j < k < w.bounties[a].submissions.len() implies
        #[trigger] w.bounties[a].submissions[j].submitter
        != #[trigger] w.bounties[a].submissions[k].submitter by {
        assert(v.bounties[a].submissions == w.bounties[a].submissions);
    }
}
/// Recording a claim that `claim_refusal` allows keeps the book well formed.
proof fn lemma_push_claim_wf(v: BookView, id: u64, caller: Seq<u8>)
    requires
        v.wf(),
        claim_refusal(v, id, caller) is None,
    ensures
        (BookView { claims: v.claims.push((id, caller)), ..v }).wf(),
{
    let w = BookView { claims: v.claims.push((id, caller)), ..v };
    assert(w.claims_ok()) by {
        assert forall|k: int| 0 <= k < w.claims.len() implies {
            &&& w.has_bounty(#[trigger] w.claims[k].0)
            &&& w.bounty(w.claims[k].0).status == BountyStatus::Completed
            &&& w.bounty(w.claims[k].0).winner == Some(w.claims[k].1)
        } by {
            if k < v.claims.len() {
                assert(w.claims[k] == v.claims[k]);
            }
        }
        assert forall|k: int, l: int| 0 <= k < l < w.claims.len() implies #[trigger] w.claims[k].0
            != #[trigger] w.claims[l].0 by {
            if l == v.claims.len() {
                assert(w.claims[k] == v.claims[k]);
            } else {
                assert(w.claims[k] == v.claims[k]);
                assert(w.claims[l] == v.claims[l]);
            }
        }
    }
    lemma_submissions_kept(v, w);
}

/// Recording a refund that `refund_refusal` allows keeps the book well formed.
proof fn lemma_push_refund_wf(v: BookView, id: u64)
    requires
        v.wf(),
        v.has_bounty(id),
        v.bounty(id).status == BountyStatus::Expired,
        !v.refunded(id),
    ensures
        (BookView { refunds: v.refunds.push(id), ..v }).wf(),
{
    let w = BookView { refunds: v.refunds.push(id), ..v };
    assert(w.refunds_ok()) by {
        assert forall|k: int| 0 <= k < w.refunds.len() implies {
            &&& w.has_bounty(#[trigger] w.refunds[k])
            &&& w.bounty(w.refunds[k]).status == BountyStatus::Expired
        } by {
            if k < v.refunds.len() {
                assert(w.refunds[k] == v.refunds[k]);
            }
        }
        assert forall|k: int, l: int|
            0 <= k < l < w.refunds.len() implies #[trigger] w.refunds[k] != #[trigger] w.refunds[l] by {
            if l == v.refunds.len() {
                assert(w.refunds[k] == v.refunds[k]);
            } else {
                assert(w.refunds[k] == v.refunds[k]);
                assert(w.refunds[l] == v.refunds[l]);
            }
        }
    }
    lemma_submissions_kept(v, w);
}

/// Whether bounty `id` has a deadline that `now` has passed.
pub open spec fn past_deadline(v: BookView, id: u64, now: u64) -> bool {
    match v.bounty(id).deadline {
        Some(d) => now > d,
        None => false,
    }
}

/// In every well-formed state, and so after every operation, a `Completed` bounty has a
/// winner, and that winner submitted a solution to it.
pub proof fn lemma_completed_has_submitted_winner(v: BookView, id: u64)
    requires
        v.wf(),
        v.has_bounty(id),
        v.bounty(id).status == BountyStatus::Completed,
    ensures
        v.bounty(id).winner matches Some(w) && v.bounty(id).has_submitter(w),
{
    assert((v.bounties[id - 1].status == BountyStatus::Completed) == v.bounties[id
        - 1].winner.is_some());
}

/// At most one claim record exists per bounty, and once one exists every further claim
/// on that bounty is refused as already claimed.
pub proof fn lemma_one_claim_per_bounty(v: BookView, id: u64, caller: Seq<u8>)
    requires
        v.wf(),
    ensures
        forall|k: int, l: int|
            0 <= k < v.claims.len() && 0 <= l < v.claims.len() && v.claims[k].0 == id
                && v.claims[l].0 == id ==> k == l,
        v.claimed(id) ==> claim_refusal(v, id, caller) == Some(EscrowError::AlreadyClaimed),
{
    assert forall|k: int, l: int|
        0 <= k < v.claims.len() && 0 <= l < v.claims.len() && v.claims[k].0 == id
            && v.claims[l].0 == id implies k == l by {
        if k < l {
            assert(v.claims[k].0 != v.claims[l].0);
        } else if l < k {
            assert(v.claims[l].0 != v.claims[k].0);
        }
    }
    if v.claimed(id) {
        let k = choose|k: int| 0 <= k < v.claims.len() && v.claims[k].0 == id;
        assert(v.has_bounty(v.claims[k].0));
    }
}

/// A bounty that has a submission is not cancelled and cannot be cancelled; its creator
/// is refused with `InvalidStateTransition`.
pub proof fn lemma_no_cancel_with_submissions(v: BookView, id: u64, caller: Seq<u8>)
    requires
        v.wf(),
        v.has_bounty(id),
        v.bounty(id).submissions.len() > 0,
    ensures
        v.bounty(id).status != BountyStatus::Cancelled,
        cancel_refusal(v, id, caller) is Some,
        v.bounty(id).creator == caller ==> cancel_refusal(v, id, caller) == Some(
            EscrowError::InvalidStateTransition,
        ),
{
}

/// Verifying funding twice with an unchanged balance: the second run leaves the state as
/// the first left it, and gives the same answer wherever the first succeeded. (A
/// `PendingFunding` bounty already past its deadline is left out: the first run makes
/// it `Active`, and the second then applies the expiry.)
pub proof fn lemma_verify_funding_idempotent(
    v: BookView,
    id: u64,
    now: u64,
    balance: Option<nat>,
)
    requires
        v.wf(),
        !(v.has_bounty(id) && v.bounty(id).status == BountyStatus::PendingFunding
            && past_deadline(v, id, now)),
    ensures
        ({
            let (v1, r1) = funding_step(v, id, now, balance);
            let (v2, r2) = funding_step(v1, id, now, balance);
            v2 == v1 && (r1 is Ok ==> r2 == r1)
        }),
{
    let (v1, r1) = funding_step(v, id, now, balance);
    if v.has_bounty(id) {
        assert(v1.bounties.len() == v.bounties.len());
        assert(v1.bounty(id).prize_amount == v.bounty(id).prize_amount);
        assert(v1.bounty(id).deadline == v.bounty(id).deadline);
        assert(v1.with_bounty(id, v1.bounty(id)).bounties =~= v1.bounties);
    }
}

/// A bounty with a payout order out has the status that the order needs.
proof fn lemma_pending_status(v: BookView, id: u64)
    requires
        v.wf(),
    ensures
        v.pending.contains(id) ==> v.has_bounty(id) && payout_status_ok(v.bounty(id)),
{
    if v.pending.contains(id) {
        let k = choose|k: int| 0 <= k < v.pending.len() && v.pending[k] == id;
        assert(v.has_bounty(v.pending[k]));
    }
}

/// Changing only the payout orders out, with at most one per bounty, keeps the book well
/// formed.
proof fn lemma_pending_only(v: BookView, pending: Seq<u64>)
    requires
        v.wf(),
        (BookView { pending, ..v }).pending_ok(),
    ensures
        (BookView { pending, ..v }).wf(),
{
}

/// At most one payout order per bounty is out at a time: `begin_claim`, `begin_refund`
/// and `begin_cancel` hand one out only where none is, and in every well-formed state a
/// bounty appears at most once among the orders out.
pub proof fn lemma_one_payout_in_flight(v: BookView, id: u64)
    requires
        v.wf(),
    ensures
        forall|k: int, l: int|
            0 <= k < v.pending.len() && 0 <= l < v.pending.len() && v.pending[k] == id
                && v.pending[l] == id ==> k == l,
{
    assert forall|k: int, l: int|
        0 <= k < v.pending.len() && 0 <= l < v.pending.len() && v.pending[k] == id
            && v.pending[l] == id implies k == l by {
        if k < l {
            assert(v.pending[k] != v.pending[l]);
        } else if l < k {
            assert(v.pending[l] != v.pending[k]);
        }
    }
}

/// The submission log stays consistent where neither it nor any bounty's submissions
/// change.
proof fn lemma_log_kept(v: BookView, w: BookView)
    requires
        v.log_ok(),
        w.log == v.log,
        w.bounties.len() == v.bounties.len(),
        forall|a: int| 0 <= a < w.bounties.len() ==> #[trigger] w.bounties[a].submissions
            == v.bounties[a].submissions,
    ensures
        w.log_ok(),
{
    assert forall|k: int| 0 <= k < w.log.len() implies w.has_bounty(#[trigger] w.log[k].0)
        && w.bounty(w.log[k].0).has_submitter(w.log[k].1) by {
        assert(v.has_bounty(v.log[k].0));
        assert(w.bounties[v.log[k].0 - 1].submissions == v.bounties[v.log[k].0 - 1].submissions);
    }
    assert forall|i: int, j: int|
        0 <= i < w.bounties.len() && 0 <= j < w.bounties[i].submissions.len() implies
        w.log.contains(((i + 1) as u64, #[trigger] w.bounties[i].submissions[j].submitter)) by {
        assert(w.bounties[i].submissions == v.bounties[i].submissions);
        assert(v.bounties[i].submissions[j] == w.bounties[i].submissions[j]);
    }
}

/// Each accepted submission appears in the submission log exactly once, so it is listed
/// once among its submitter's submissions.
pub proof fn lemma_submission_logged_once(v: BookView, id: u64, who: Seq<u8>)
    requires
        v.wf(),
        v.has_bounty(id),
        v.bounty(id).has_submitter(who),
    ensures
        exists|k: int| 0 <= k < v.log.len() && v.log[k] == (id, who),
        forall|k: int, l: int|
            0 <= k < v.log.len() && 0 <= l < v.log.len() && v.log[k] == (id, who) && v.log[l]
                == (id, who) ==> k == l,
{
    let j = choose|j: int| 0 <= j < v.bounty(id).submissions.len()
        && v.bounty(id).submissions[j].submitter == who;
    assert(v.bounties[id - 1].submissions[j].submitter == who);
    assert(((id - 1 + 1) as u64) == id);
    assert(v.log.contains((id, who)));
    assert forall|k: int, l: int|
        0 <= k < v.log.len() && 0 <= l < v.log.len() && v.log[k] == (id, who) && v.log[l]
            == (id, who) implies k == l by {
        if k < l {
            assert(v.log[k] != v.log[l]);
        } else if l < k {
            assert(v.log[l] != v.log[k]);
        }
    }
}

/// An expired bounty's creator can have the prize refunded, once: the refund is allowed
/// until it is recorded, and refused as already paid after.
pub proof fn lemma_expired_refund_once(v: BookView, id: u64, creator: Seq<u8>)
    requires
        v.wf(),
        v.has_bounty(id),
        v.bounty(id).status == BountyStatus::Expired,
        v.bounty(id).creator == creator,
    ensures
        !v.refunded(id) ==> refund_refusal(v, id, creator) is None,
        refund_refusal(BookView { refunds: v.refunds.push(id), ..v }, id, creator) == Some(
            EscrowError::AlreadyClaimed,
        ),
{
    assert((v.bounties[id - 1].status == BountyStatus::Completed) == v.bounties[id
        - 1].winner.is_some());
    assert(BookView { refunds: v.refunds.push(id), ..v }.refunds[v.refunds.len() as int] == id);
}

} // verus!
