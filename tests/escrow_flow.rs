use avox_escrow::amount::Amount;
use avox_escrow::escrow::{generate_subaccount, get_deposit_instructions, Account};
use avox_escrow::lifecycle::BountyBook;
use avox_escrow::queries::CANISTER_VERSION;
use avox_escrow::types::{
    BountyStatus, CreateBountyRequest, EscrowError, Ident, SubmitSolutionRequest,
    TransferOutcome, UpdateUserProfileRequest,
};

fn ident(b: &[u8]) -> Ident {
    Ident { bytes: b.to_vec() }
}

fn canister() -> Ident {
    ident(&[0, 0, 0, 0, 0, 0, 0, 1, 1, 1])
}

fn creator() -> Ident {
    ident(&[10, 1])
}

fn alice() -> Ident {
    ident(&[20, 2])
}

fn bob() -> Ident {
    ident(&[30, 3])
}

fn request(prize: u64, deadline: Option<u64>) -> CreateBountyRequest {
    CreateBountyRequest {
        title: "Fix the parser".to_string(),
        description: "It crashes on empty input".to_string(),
        github_issue_url: "https://github.com/o/r/issues/1".to_string(),
        prize_amount: Amount::from_u64(prize),
        token_ledger: ident(&[7, 7, 7]),
        from_subaccount: None,
        fee: None,
        deadline,
    }
}

fn submission(id: u64) -> SubmitSolutionRequest {
    SubmitSolutionRequest {
        bounty_id: id,
        pr_url: "https://github.com/o/r/pull/2".to_string(),
        comment: "done".to_string(),
    }
}

fn hex(b: &[u8]) -> String {
    b.iter().map(|x| format!("{:02x}", x)).collect()
}

fn status(book: &BountyBook, id: u64) -> BountyStatus {
    book.get_bounty(id).unwrap().status
}

/// A bounty created, funded with `prize`, and made `Active`.
fn active_book(prize: u64, deadline: Option<u64>) -> (BountyBook, u64) {
    let mut book = BountyBook::new(canister());
    let (id, _) = book.create_bounty(creator(), request(prize, deadline), 10).unwrap();
    book.begin_verify_funding(id, 11).unwrap();
    assert_eq!(book.finish_verify_funding(id, 11, Some(Amount::from_u64(prize))), Ok(true));
    (book, id)
}

#[test]
fn funded_bounty_runs_to_a_single_claim() {
    let mut book = BountyBook::new(canister());
    let (id, _) = book.create_bounty(creator(), request(100, Some(1000)), 10).unwrap();
    assert_eq!(id, 1);
    assert_eq!(status(&book, id), BountyStatus::PendingFunding);
    assert_eq!(
        book.submit_solution(&alice(), submission(id), 20),
        Err(EscrowError::InvalidStateTransition)
    );
    let q = book.begin_verify_funding(id, 30).unwrap();
    assert_eq!(q.bounty_id, id);
    assert_eq!(book.finish_verify_funding(id, 30, Some(Amount::from_u64(100))), Ok(true));
    assert_eq!(status(&book, id), BountyStatus::Active);
    assert_eq!(book.submit_solution(&alice(), submission(id), 40), Ok(()));
    assert_eq!(book.select_winner(id, &creator(), &alice(), 50), Ok(()));
    assert_eq!(status(&book, id), BountyStatus::Completed);
    let order = book.begin_claim(id, &alice(), 60).unwrap();
    assert_eq!(order.amount.digits, vec![100]);
    assert_eq!(order.to.bytes, alice().bytes);
    assert_eq!(order.from_subaccount, generate_subaccount(id));
    let block = book.finish_claim(id, &alice(), TransferOutcome::Confirmed(Amount::from_u64(5)));
    assert_eq!(block.unwrap().digits, vec![5]);
    assert_eq!(book.begin_claim(id, &alice(), 70).err(), Some(EscrowError::AlreadyClaimed));
    assert_eq!(
        book.finish_claim(id, &alice(), TransferOutcome::Confirmed(Amount::from_u64(6))).err(),
        Some(EscrowError::AlreadyClaimed)
    );
    assert_eq!(book.claims.len(), 1);
}

#[test]
fn past_deadline_expires_then_refunds_once() {
    let (mut book, id) = active_book(100, Some(50));
    assert_eq!(
        book.submit_solution(&alice(), submission(id), 60),
        Err(EscrowError::InvalidStateTransition)
    );
    assert_eq!(status(&book, id), BountyStatus::Expired);
    let order = book.begin_refund(id, &creator(), 70).unwrap();
    assert_eq!(order.to.bytes, creator().bytes);
    assert_eq!(order.amount.digits, vec![100]);
    let r = book.finish_refund(id, &creator(), TransferOutcome::Confirmed(Amount::from_u64(9)));
    assert_eq!(r.unwrap().digits, vec![9]);
    assert_eq!(book.begin_refund(id, &creator(), 80).err(), Some(EscrowError::AlreadyClaimed));
    assert_eq!(
        book.finish_refund(id, &creator(), TransferOutcome::Confirmed(Amount::from_u64(9))).err(),
        Some(EscrowError::AlreadyClaimed)
    );
}

#[test]
fn refund_applies_due_expiry_first() {
    let (mut book, id) = active_book(100, Some(50));
    assert_eq!(
        book.begin_refund(id, &creator(), 60).err(),
        Some(EscrowError::InvalidStateTransition)
    );
    assert_eq!(status(&book, id), BountyStatus::Expired);
    assert!(book.begin_refund(id, &creator(), 61).is_ok());
}

#[test]
fn cancel_fails_after_a_submission() {
    let (mut book, id) = active_book(100, None);
    assert_eq!(book.submit_solution(&alice(), submission(id), 20), Ok(()));
    assert_eq!(
        book.begin_cancel(id, &creator(), 30).err(),
        Some(EscrowError::InvalidStateTransition)
    );
    assert_eq!(
        book.finish_cancel(id, &creator(), TransferOutcome::Confirmed(Amount::from_u64(1))),
        Err(EscrowError::InvalidStateTransition)
    );
    assert_eq!(status(&book, id), BountyStatus::Active);
}

#[test]
fn cancel_without_submissions() {
    let (mut book, id) = active_book(100, None);
    assert_eq!(book.begin_cancel(id, &alice(), 30).err(), Some(EscrowError::Unauthorized));
    let order = book.begin_cancel(id, &creator(), 30).unwrap();
    assert_eq!(order.to.bytes, creator().bytes);
    assert_eq!(
        book.finish_cancel(id, &creator(), TransferOutcome::Rejected),
        Err(EscrowError::LedgerRejected)
    );
    assert_eq!(status(&book, id), BountyStatus::Active);
    assert_eq!(
        book.finish_cancel(id, &creator(), TransferOutcome::Confirmed(Amount::from_u64(1))),
        Ok(())
    );
    assert_eq!(status(&book, id), BountyStatus::Cancelled);
}

#[test]
fn verify_funding_twice_keeps_the_status() {
    let mut book = BountyBook::new(canister());
    let (id, _) = book.create_bounty(creator(), request(100, None), 10).unwrap();
    assert_eq!(book.finish_verify_funding(id, 20, Some(Amount::from_u64(99))), Ok(false));
    assert_eq!(status(&book, id), BountyStatus::PendingFunding);
    assert_eq!(book.finish_verify_funding(id, 20, Some(Amount::from_u64(99))), Ok(false));
    assert_eq!(status(&book, id), BountyStatus::PendingFunding);
    assert_eq!(book.finish_verify_funding(id, 21, Some(Amount::from_u64(150))), Ok(true));
    assert_eq!(status(&book, id), BountyStatus::Active);
    assert_eq!(book.finish_verify_funding(id, 21, Some(Amount::from_u64(150))), Ok(true));
    assert_eq!(status(&book, id), BountyStatus::Active);
    assert_eq!(
        book.finish_verify_funding(id, 22, None),
        Err(EscrowError::LedgerUnavailable)
    );
    assert_eq!(status(&book, id), BountyStatus::Active);
}

#[test]
fn funding_never_moves_a_bounty_backwards() {
    let (mut book, id) = active_book(100, None);
    assert_eq!(book.finish_verify_funding(id, 30, Some(Amount::from_u64(0))), Ok(false));
    assert_eq!(status(&book, id), BountyStatus::Active);
}

#[test]
fn create_rejects_malformed_requests() {
    let mut book = BountyBook::new(canister());
    let mut r = request(100, None);
    r.title = String::new();
    assert_eq!(book.create_bounty(creator(), r, 1).err(), Some(EscrowError::InvalidArgument));
    let mut r = request(100, None);
    r.github_issue_url = String::new();
    assert_eq!(book.create_bounty(creator(), r, 1).err(), Some(EscrowError::InvalidArgument));
    let r = request(0, None);
    assert_eq!(book.create_bounty(creator(), r, 1).err(), Some(EscrowError::InvalidArgument));
    let mut r = request(0, None);
    r.prize_amount = Amount { digits: vec![0, 0] };
    assert_eq!(book.create_bounty(creator(), r, 1).err(), Some(EscrowError::InvalidArgument));
    assert_eq!(book.bounties.len(), 0);
}

#[test]
fn create_allocates_increasing_ids_and_counts_posts() {
    let mut book = BountyBook::new(canister());
    let (a, _) = book.create_bounty(creator(), request(5, None), 1).unwrap();
    let (b, _) = book.create_bounty(creator(), request(6, None), 2).unwrap();
    assert_eq!((a, b), (1, 2));
    let p = book.get_user_profile(&creator()).unwrap();
    assert_eq!(p.bounties_posted, 2);
    assert_eq!(p.bounties_participated, 0);
    assert_eq!(book.get_status(77).bounty_count, 2);
    assert_eq!(book.get_status(77).last_updated, 77);
    assert_eq!(book.get_status(77).version, CANISTER_VERSION);
}

#[test]
fn escrow_subaccount_is_sha256_of_tag_and_id() {
    assert_eq!(
        hex(&generate_subaccount(1)),
        "b6b7746048128baf5ade9bf8cd196bbb9172033f57572387a220d9a46b9841b1"
    );
    assert_eq!(
        hex(&generate_subaccount(2)),
        "1a50b002bbe18939ad74b6a92bac2c534647bd4f8186827f8ac84857fb1025a5"
    );
    assert_eq!(generate_subaccount(3), generate_subaccount(3));
}

#[test]
fn escrow_subaccounts_do_not_collide() {
    let mut seen = std::collections::HashSet::new();
    for id in 0..5000u64 {
        assert!(seen.insert(generate_subaccount(id)));
    }
    assert!(seen.insert(generate_subaccount(u64::MAX)));
}

#[test]
fn account_text_trims_trailing_zero_bytes() {
    let mut sub = [0u8; 32];
    sub[0] = 0xab;
    sub[1] = 0x01;
    let acct = Account { owner: Ident::anonymous(), subaccount: Some(sub) };
    assert_eq!(acct.to_string(), "2vxsx-fae-ab01");
    let acct = Account { owner: Ident::anonymous(), subaccount: Some([0u8; 32]) };
    assert_eq!(acct.to_string(), "2vxsx-fae");
    let acct = Account { owner: canister(), subaccount: None };
    assert_eq!(acct.to_string(), "rrkah-fqaaa-aaaaa-aaaaq-cai");
}

#[test]
fn create_returns_the_escrow_account_text() {
    let mut book = BountyBook::new(Ident::anonymous());
    let (id, text) = book.create_bounty(creator(), request(5, None), 1).unwrap();
    assert_eq!(text, format!("2vxsx-fae-{}", hex(&generate_subaccount(id))));
    assert_eq!(book.get_escrow_account(id), Ok(text));
    assert_eq!(book.get_escrow_account(9), Err(EscrowError::NotFound));
}

#[test]
fn deposit_instructions_name_account_owner_and_subaccount() {
    let sub = hex(&generate_subaccount(1));
    let text = get_deposit_instructions(1, &Ident::anonymous());
    assert_eq!(
        text,
        format!(
            "To fund this bounty, transfer tokens to:\nAccount: 2vxsx-fae-{}\nOwner: 2vxsx-fae\nSubaccount: {}",
            sub, sub
        )
    );
}

#[test]
fn amount_comparison_spans_digits() {
    let big = Amount { digits: vec![0, 1] };
    let small = Amount { digits: vec![u64::MAX] };
    assert!(big.ge(&small));
    assert!(!small.ge(&big));
    assert!(Amount { digits: vec![5, 0, 0] }.ge(&Amount::from_u64(5)));
    assert!(Amount::from_u64(5).ge(&Amount { digits: vec![5, 0] }));
    assert!(Amount::zero().is_zero());
    assert!(!big.is_zero());
}

#[test]
fn submit_rejects_duplicates_and_unknown_bounties() {
    let (mut book, id) = active_book(10, None);
    assert_eq!(book.submit_solution(&alice(), submission(id), 5), Ok(()));
    assert_eq!(
        book.submit_solution(&alice(), submission(id), 6),
        Err(EscrowError::DuplicateSubmission)
    );
    assert_eq!(
        book.submit_solution(&alice(), submission(id + 1), 6),
        Err(EscrowError::NotFound)
    );
    let mut empty = submission(id);
    empty.pr_url = String::new();
    assert_eq!(book.submit_solution(&bob(), empty, 6), Err(EscrowError::InvalidArgument));
    assert_eq!(book.get_user_profile(&alice()).unwrap().bounties_participated, 1);
    assert_eq!(book.get_user_submissions(&alice()).len(), 1);
    assert_eq!(book.get_user_submissions(&bob()).len(), 0);
}

#[test]
fn select_winner_checks_role_and_submitters() {
    let (mut book, id) = active_book(10, None);
    book.submit_solution(&alice(), submission(id), 5).unwrap();
    assert_eq!(book.select_winner(id, &alice(), &alice(), 6), Err(EscrowError::Unauthorized));
    assert_eq!(book.select_winner(id, &creator(), &bob(), 6), Err(EscrowError::UnknownWinner));
    assert_eq!(book.select_winner(id, &creator(), &alice(), 6), Ok(()));
    assert_eq!(
        book.select_winner(id, &creator(), &alice(), 7),
        Err(EscrowError::InvalidStateTransition)
    );
    assert_eq!(book.get_user_profile(&alice()).unwrap().bounties_won, 1);
    assert_eq!(book.get_bounty(id).unwrap().winner.unwrap().bytes, alice().bytes);
}

#[test]
fn claim_errors_leave_no_record() {
    let (mut book, id) = active_book(10, None);
    book.submit_solution(&alice(), submission(id), 5).unwrap();
    assert_eq!(book.begin_claim(id, &alice(), 6).err(), Some(EscrowError::NotWinner));
    book.select_winner(id, &creator(), &alice(), 6).unwrap();
    assert_eq!(book.begin_claim(id, &bob(), 7).err(), Some(EscrowError::NotWinner));
    assert_eq!(book.begin_claim(9, &alice(), 7).err(), Some(EscrowError::NotFound));
    assert_eq!(
        book.finish_claim(id, &alice(), TransferOutcome::Rejected).err(),
        Some(EscrowError::LedgerRejected)
    );
    assert_eq!(
        book.finish_claim(id, &alice(), TransferOutcome::Indeterminate).err(),
        Some(EscrowError::LedgerUnavailable)
    );
    assert_eq!(book.claims.len(), 0);
    assert!(book.begin_claim(id, &alice(), 8).is_ok());
}

#[test]
fn listings_filter_and_page() {
    let mut book = BountyBook::new(canister());
    for k in 0..5u64 {
        book.create_bounty(creator(), request(k + 1, None), k).unwrap();
    }
    book.create_bounty(alice(), request(9, None), 9).unwrap();
    book.finish_verify_funding(2, 10, Some(Amount::from_u64(100))).unwrap();
    book.finish_verify_funding(4, 10, Some(Amount::from_u64(100))).unwrap();
    let ids = |v: Vec<avox_escrow::types::Bounty>| v.iter().map(|b| b.id).collect::<Vec<u64>>();
    assert_eq!(ids(book.get_all_bounties()), vec![1, 2, 3, 4, 5, 6]);
    assert_eq!(ids(book.get_active_bounties()), vec![2, 4]);
    assert_eq!(ids(book.get_bounties_paginated(1, 2)), vec![2, 3]);
    assert_eq!(ids(book.get_bounties_paginated(5, 10)), vec![6]);
    assert_eq!(ids(book.get_bounties_paginated(10, 10)), Vec::<u64>::new());
    assert_eq!(ids(book.get_bounties_paginated(2, u64::MAX)), vec![3, 4, 5, 6]);
    assert_eq!(ids(book.get_bounties_by_status(BountyStatus::PendingFunding, 1, 2)), vec![3, 5]);
    assert_eq!(ids(book.get_user_created_bounties(&alice())), vec![6]);
    assert_eq!(book.get_user_created_bounties(&creator()).len(), 5);
    assert!(book.get_bounty(7).is_none());
}

#[test]
fn profile_update_sets_given_fields() {
    let mut book = BountyBook::new(canister());
    let req = UpdateUserProfileRequest {
        name: Some("Ada".to_string()),
        github: None,
        twitter: Some("@ada".to_string()),
        pfp_url: None,
    };
    assert_eq!(book.update_user_profile(&alice(), req), Ok(()));
    let req = UpdateUserProfileRequest {
        name: None,
        github: Some("ada-gh".to_string()),
        twitter: None,
        pfp_url: None,
    };
    assert_eq!(book.update_user_profile(&alice(), req), Ok(()));
    let p = book.get_user_profile(&alice()).unwrap();
    assert_eq!(p.name.as_deref(), Some("Ada"));
    assert_eq!(p.github.as_deref(), Some("ada-gh"));
    assert_eq!(p.twitter.as_deref(), Some("@ada"));
    assert_eq!(p.pfp_url, None);
    assert_eq!(p.principal.bytes, alice().bytes);
    assert_eq!(book.profiles.len(), 1);
    assert!(book.get_user_profile(&bob()).is_none());
}

#[test]
fn leaderboards_rank_by_counter_then_principal() {
    let mut book = BountyBook::new(canister());
    book.create_bounty(alice(), request(1, None), 1).unwrap();
    book.create_bounty(bob(), request(1, None), 1).unwrap();
    book.create_bounty(bob(), request(1, None), 1).unwrap();
    book.create_bounty(creator(), request(1, None), 1).unwrap();
    let names = |v: Vec<avox_escrow::types::UserProfile>| {
        v.into_iter().map(|p| p.principal.bytes).collect::<Vec<Vec<u8>>>()
    };
    assert_eq!(
        names(book.get_top_creators(10)),
        vec![bob().bytes, creator().bytes, alice().bytes]
    );
    assert_eq!(names(book.get_top_creators(2)), vec![bob().bytes, creator().bytes]);
    assert_eq!(names(book.get_top_creators(0)), Vec::<Vec<u8>>::new());
    let id = 4;
    book.finish_verify_funding(id, 2, Some(Amount::from_u64(1))).unwrap();
    book.submit_solution(&alice(), submission(id), 3).unwrap();
    book.select_winner(id, &creator(), &alice(), 4).unwrap();
    assert_eq!(names(book.get_top_winners(1)), vec![alice().bytes]);
    assert_eq!(names(book.get_top_participants(1)), vec![alice().bytes]);
}

#[test]
fn concurrent_claims_write_one_record() {
    let (mut book, id) = active_book(10, None);
    book.submit_solution(&alice(), submission(id), 5).unwrap();
    book.select_winner(id, &creator(), &alice(), 6).unwrap();
    let first = book.begin_claim(id, &alice(), 7).unwrap();
    assert_eq!(first.bounty_id, id);
    assert_eq!(
        book.begin_claim(id, &alice(), 7).err(),
        Some(EscrowError::InvalidStateTransition)
    );
    let mut confirmed = 0;
    for block in 1..=4u64 {
        let r = book.finish_claim(id, &alice(), TransferOutcome::Confirmed(Amount::from_u64(block)));
        if r.is_ok() {
            confirmed += 1;
        } else {
            assert_eq!(r.err(), Some(EscrowError::AlreadyClaimed));
        }
    }
    assert_eq!(confirmed, 1);
    assert_eq!(book.claims.len(), 1);
    assert_eq!(book.claims[0].bounty_id, id);
    assert_eq!(book.claims[0].principal.bytes, alice().bytes);
}

#[test]
fn default_profile_is_anonymous_and_empty() {
    let p = avox_escrow::types::UserProfile::default();
    assert_eq!(p.principal.bytes, vec![4u8]);
    assert_eq!(p.name, None);
    assert_eq!(p.github, None);
    assert_eq!(p.twitter, None);
    assert_eq!(p.pfp_url, None);
    assert_eq!((p.bounties_posted, p.bounties_participated, p.bounties_won), (0, 0, 0));
}

#[test]
fn expired_bounty_refuses_other_operations() {
    let (mut book, id) = active_book(100, Some(50));
    assert_eq!(
        book.begin_verify_funding(id, 51).err(),
        Some(EscrowError::InvalidStateTransition)
    );
    assert_eq!(status(&book, id), BountyStatus::Expired);
    assert_eq!(
        book.select_winner(id, &creator(), &alice(), 52),
        Err(EscrowError::InvalidStateTransition)
    );
    assert_eq!(book.begin_claim(id, &alice(), 52).err(), Some(EscrowError::NotWinner));
    assert_eq!(
        book.begin_cancel(id, &creator(), 52).err(),
        Some(EscrowError::InvalidStateTransition)
    );
    assert_eq!(book.begin_refund(id, &alice(), 52).err(), Some(EscrowError::Unauthorized));
}

#[test]
fn user_submissions_keep_submission_order() {
    let mut book = BountyBook::new(canister());
    book.create_bounty(creator(), request(1, None), 1).unwrap();
    book.create_bounty(creator(), request(1, None), 1).unwrap();
    book.finish_verify_funding(1, 2, Some(Amount::from_u64(1))).unwrap();
    book.finish_verify_funding(2, 2, Some(Amount::from_u64(1))).unwrap();
    book.submit_solution(&alice(), submission(2), 3).unwrap();
    book.submit_solution(&bob(), submission(2), 3).unwrap();
    book.submit_solution(&alice(), submission(1), 4).unwrap();
    let ids: Vec<u64> = book.get_user_submissions(&alice()).iter().map(|b| b.id).collect();
    assert_eq!(ids, vec![2, 1]);
    let ids: Vec<u64> = book.get_user_submissions(&bob()).iter().map(|b| b.id).collect();
    assert_eq!(ids, vec![2]);
}

#[test]
fn pending_payout_blocks_other_changes() {
    let (mut book, id) = active_book(100, None);
    book.begin_cancel(id, &creator(), 20).unwrap();
    assert_eq!(
        book.submit_solution(&alice(), submission(id), 21),
        Err(EscrowError::InvalidStateTransition)
    );
    assert_eq!(
        book.begin_cancel(id, &creator(), 21).err(),
        Some(EscrowError::InvalidStateTransition)
    );
    assert_eq!(
        book.finish_cancel(id, &creator(), TransferOutcome::Indeterminate),
        Err(EscrowError::LedgerUnavailable)
    );
    assert_eq!(status(&book, id), BountyStatus::Active);
    assert!(book.begin_cancel(id, &creator(), 22).is_ok());
    assert_eq!(
        book.finish_cancel(id, &creator(), TransferOutcome::Confirmed(Amount::from_u64(3))),
        Ok(())
    );
    assert_eq!(status(&book, id), BountyStatus::Cancelled);
    assert_eq!(
        book.submit_solution(&alice(), submission(id), 23),
        Err(EscrowError::InvalidStateTransition)
    );
}

#[test]
fn pending_refund_blocks_a_second_refund() {
    let (mut book, id) = active_book(100, Some(50));
    assert!(book.begin_refund(id, &creator(), 60).is_err());
    assert!(book.begin_refund(id, &creator(), 61).is_ok());
    assert_eq!(
        book.begin_refund(id, &creator(), 62).err(),
        Some(EscrowError::InvalidStateTransition)
    );
    book.finish_refund(id, &creator(), TransferOutcome::Confirmed(Amount::from_u64(1))).unwrap();
    assert_eq!(book.begin_refund(id, &creator(), 63).err(), Some(EscrowError::AlreadyClaimed));
}

#[test]
fn leaderboard_ties_put_shorter_principals_first() {
    let mut book = BountyBook::new(canister());
    book.create_bounty(ident(&[1, 2, 3]), request(1, None), 1).unwrap();
    book.create_bounty(ident(&[9]), request(1, None), 1).unwrap();
    book.create_bounty(ident(&[1, 2, 2]), request(1, None), 1).unwrap();
    let order: Vec<Vec<u8>> =
        book.get_top_creators(3).into_iter().map(|p| p.principal.bytes).collect();
    assert_eq!(order, vec![vec![9], vec![1, 2, 2], vec![1, 2, 3]]);
}

#[test]
fn expiry_waits_for_a_cancel_in_flight() {
    let (mut book, id) = active_book(100, Some(50));
    assert!(book.begin_cancel(id, &creator(), 40).is_ok());
    assert_eq!(
        book.submit_solution(&alice(), submission(id), 51),
        Err(EscrowError::InvalidStateTransition)
    );
    assert_eq!(status(&book, id), BountyStatus::Active);
    assert_eq!(
        book.finish_cancel(id, &creator(), TransferOutcome::Confirmed(Amount::from_u64(8))),
        Ok(())
    );
    assert_eq!(status(&book, id), BountyStatus::Cancelled);
    assert_eq!(
        book.begin_refund(id, &creator(), 52).err(),
        Some(EscrowError::InvalidStateTransition)
    );
    assert_eq!(status(&book, id), BountyStatus::Cancelled);
}

#[test]
fn each_submission_is_listed_once() {
    let (mut book, id) = active_book(10, None);
    book.submit_solution(&alice(), submission(id), 5).unwrap();
    assert!(book.submit_solution(&alice(), submission(id), 6).is_err());
    let ids: Vec<u64> = book.get_user_submissions(&alice()).iter().map(|b| b.id).collect();
    assert_eq!(ids, vec![id]);
    assert_eq!(book.submission_log.len(), 1);
}
