use vstd::prelude::*;
use vstd::string::*;
use crate::escrow::{account_text, get_escrow_account};
use crate::lifecycle::{BookView, BountyBook};
use crate::types::{
    Bounty, BountyStatus, BountyView, CanisterStatus, EscrowError, Ident, ProfileView,
    UpdateUserProfileRequest, UserProfile, bounty_views, fresh_profile, opt_text_view,
};

verus! {

/// The service's version text.
pub const CANISTER_VERSION: &'static str = "1.0.0";

/// Which bounties a listing keeps.
pub enum Criterion {
    /// Those with this status.
    Status(BountyStatus),
    /// Those that this principal created.
    Creator(Ident),
}

impl Criterion {
    pub open spec fn holds(&self, b: BountyView) -> bool {
        match self {
            Criterion::Status(s) => b.status == *s,
            Criterion::Creator(c) => b.creator == c@,
        }
    }
}

/// The bounties of `s` that meet `c`, in order.
pub open spec fn bounties_where(s: Seq<BountyView>, c: Criterion) -> Seq<BountyView>
    decreases s.len(),
{
    if s.len() == 0 {
        Seq::empty()
    } else if c.holds(s.last()) {
        bounties_where(s.drop_last(), c).push(s.last())
    } else {
        bounties_where(s.drop_last(), c)
    }
}

/// Changing only the profiles, keeping one profile per principal, keeps the book well
/// formed.
proof fn lemma_profiles_only(v: BookView, ps: Seq<ProfileView>)
    requires
        v.wf(),
        (BookView { profiles: ps, ..v }).profiles_unique(),
    ensures
        (BookView { profiles: ps, ..v }).wf(),
{
}

/// Two criteria that keep the same bounties select the same bounties.
proof fn lemma_where_congruent(s: Seq<BountyView>, c1: Criterion, c2: Criterion)
    requires
        forall|b: BountyView| c1.holds(b) == c2.holds(b),
    ensures
        bounties_where(s, c1) == bounties_where(s, c2),
    decreases s.len(),
{
    if s.len() > 0 {
        lemma_where_congruent(s.drop_last(), c1, c2);
    }
}

/// The bounties of the log's entries by `who`, oldest first; entries whose bounty is
/// not stored are skipped.
pub open spec fn submitted_by(
    log: Seq<(u64, Seq<u8>)>,
    bounties: Seq<BountyView>,
    who: Seq<u8>,
) -> Seq<BountyView>
    decreases log.len(),
{
    if log.len() == 0 {
        Seq::empty()
    } else {
        let rest = submitted_by(log.drop_last(), bounties, who);
        let e = log.last();
        if e.1 == who && 1 <= e.0 <= bounties.len() {
            rest.push(bounties[e.0 - 1])
        } else {
            rest
        }
    }
}

/// The part of `s` that a page starting at `offset` of at most `limit` items shows.
pub open spec fn page_of<T>(s: Seq<T>, offset: nat, limit: nat) -> Seq<T> {
    let start = if offset < s.len() {
        offset as int
    } else {
        s.len() as int
    };
    let end = if offset + limit < s.len() {
        (offset + limit) as int
    } else {
        s.len() as int
    };
    s.subrange(start, end)
}

/// The profile of `who` among `ps`, if there is one.
pub open spec fn profile_of(ps: Seq<ProfileView>, who: Seq<u8>) -> Option<ProfileView> {
    if exists|i: int| 0 <= i < ps.len() && ps[i].principal == who {
        let i = choose|i: int| 0 <= i < ps.len() && ps[i].principal == who;
        Some(ps[i])
    } else {
        None
    }
}

/// `p` with each display field that the request sets replaced.
pub open spec fn updated_profile(p: ProfileView, r: UpdateUserProfileRequest) -> ProfileView {
    ProfileView {
        name: if r.name.is_some() {
            opt_text_view(r.name)
        } else {
            p.name
        },
        github: if r.github.is_some() {
            opt_text_view(r.github)
        } else {
            p.github
        },
        twitter: if r.twitter.is_some() {
            opt_text_view(r.twitter)
        } else {
            p.twitter
        },
        pfp_url: if r.pfp_url.is_some() {
            opt_text_view(r.pfp_url)
        } else {
            p.pfp_url
        },
        ..p
    }
}

fn replace_text(slot: &mut Option<String>, new: Option<String>)
    ensures
        opt_text_view(*final(slot)) == if new.is_some() {
            opt_text_view(new)
        } else {
            opt_text_view(*old(slot))
        },
{
    if new.is_some() {
        *slot = new;
    }
}

impl BountyBook {
    /// Sets the display fields of `caller`'s profile that the request gives, creating
    /// the profile first where there is none.
    pub fn update_user_profile(&mut self, caller: &Ident, request: UpdateUserProfileRequest) -> (r:
        Result<(), EscrowError>)
        requires
            old(self).wf(),
        ensures
            final(self).wf(),
            r is Ok,
            ({
                let ps = old(self)@.profiles;
                let nps = match profile_of(ps, caller@) {
                    Some(p) => ps.update(
                        choose|i: int| 0 <= i < ps.len() && ps[i].principal == caller@,
                        updated_profile(p, request),
                    ),
                    None => ps.push(updated_profile(fresh_profile(caller@), request)),
                };
                final(self)@ == (BookView { profiles: nps, ..old(self)@ })
            }),
    {
        let ghost v0 = self@;
        let ghost ps = v0.profiles;
        let mut k: usize = 0;
        let mut found = false;
        while !found && k < self.profiles.len()
            invariant
                self@ == v0,
                ps == v0.profiles,
                k <= self.profiles@.len(),
                self@.profiles.len() == self.profiles@.len(),
                found ==> k < self.profiles@.len() && ps[k as int].principal == caller@,
                forall|j: int| 0 <= j < k ==> ps[j].principal != caller@,
            decreases self.profiles@.len() - k + (if found { 0int } else { 1int }),
        {
            assert(ps[k as int] == self.profiles@[k as int]@);
            if self.profiles[k].principal.same(caller) {
                found = true;
            } else {
                k = k + 1;
            }
        }
        if !found {
            self.profiles.push(UserProfile::new(caller.copy()));
            k = self.profiles.len() - 1;
            proof {
                assert(self@.profiles =~= ps.push(fresh_profile(caller@)));
            }
        }
        let ghost mid = self@.profiles;
        let ghost mid_vec = self.profiles@;
        assert(mid[k as int] == mid_vec[k as int]@);
        let p = &mut self.profiles[k];
        replace_text(&mut p.name, request.name);
        replace_text(&mut p.github, request.github);
        replace_text(&mut p.twitter, request.twitter);
        replace_text(&mut p.pfp_url, request.pfp_url);
        proof {
            let target = updated_profile(mid[k as int], request);
            assert(self@.profiles[k as int] == self.profiles@[k as int]@);
            assert forall|j: int| 0 <= j < self@.profiles.len() && j != k implies
                self@.profiles[j] == mid[j] by {
                assert(self@.profiles[j] == self.profiles@[j]@);
                assert(mid[j] == mid_vec[j]@);
            }
            assert(self@.profiles =~= mid.update(k as int, target));
            if found {
                let i = choose|i: int| 0 <= i < ps.len() && ps[i].principal == caller@;
                if i != k {
                    assert(ps[k as int].principal == caller@);
                    if i < k {
                        assert(ps[i].principal != caller@);
                    } else {
                        assert(ps[i].principal != ps[k as int].principal);
                    }
                }
                assert(mid == ps);
                assert(self@.profiles =~= ps.update(i, updated_profile(ps[i], request)));
            } else {
                assert(!(exists|i: int| 0 <= i < ps.len() && ps[i].principal == caller@));
                assert(mid[k as int] == fresh_profile(caller@));
                assert(self@.profiles =~= ps.push(updated_profile(fresh_profile(caller@), request)));
            }
            assert(self@.bounties == v0.bounties);
            assert(self@.claims == v0.claims);
            assert(self@ == (BookView { profiles: self@.profiles, ..v0 }));
            lemma_profiles_only(v0, self@.profiles);
            assert forall|i: int, j: int| 0 <= i < j < self@.profiles.len() implies
                #[trigger] self@.profiles[i].principal != #[trigger] self@.profiles[j].principal by {
                if !found && j == ps.len() {
                    assert(self@.profiles[i].principal == ps[i].principal);
                } else {
                    assert(self@.profiles[i].principal == ps[i].principal);
                    assert(self@.profiles[j].principal == ps[j].principal);
                }
            }
        }
        Ok(())
    }

    /// `user`'s profile, if there is one.
    pub fn get_user_profile(&self, user: &Ident) -> (r: Option<UserProfile>)
        requires
            self.wf(),
        ensures
            match profile_of(self@.profiles, user@) {
                Some(p) => r matches Some(q) && q@ == p,
                None => r is None,
            },
    {
        let ghost ps = self@.profiles;
        let mut k: usize = 0;
        while k < self.profiles.len()
            invariant
                ps == self@.profiles,
                self.wf(),
                k <= self.profiles@.len(),
                self@.profiles.len() == self.profiles@.len(),
                forall|j: int| 0 <= j < k ==> ps[j].principal != user@,
            decreases self.profiles@.len() - k,
        {
            assert(ps[k as int] == self.profiles@[k as int]@);
            if self.profiles[k].principal.same(user) {
                proof {
                    let i = choose|i: int| 0 <= i < ps.len() && ps[i].principal == user@;
                    if i != k {
                        if i < k {
                            assert(ps[i].principal != user@);
                        } else {
                            assert(ps[k as int].principal != ps[i].principal);
                        }
                    }
                }
                return Some(self.profiles[k].copy());
            }
            k = k + 1;
        }
        None
    }

    /// The text of bounty `id`'s escrow account.
    pub fn get_escrow_account(&self, id: u64) -> (r: Result<String, EscrowError>)
        requires
            self.wf(),
        ensures
            self@.has_bounty(id) ==> (r matches Ok(t) && t@ == account_text(
                self@.canister,
                Some(self@.bounty(id).escrow_subaccount),
            )),
            !self@.has_bounty(id) ==> r == Err::<String, EscrowError>(EscrowError::NotFound),
    {
        if id == 0 || id > self.bounties.len() as u64 {
            return Err(EscrowError::NotFound);
        }
        let i = (id - 1) as usize;
        assert(self@.bounties[i as int] == self.bounties@[i as int]@);
        let account = get_escrow_account(&self.canister, self.bounties[i].escrow_subaccount);
        Ok(account.to_string())
    }

    /// Bounty `id`, if it exists.
    pub fn get_bounty(&self, id: u64) -> (r: Option<Bounty>)
        ensures
            self@.has_bounty(id) ==> (r matches Some(b) && b@ == self@.bounty(id)),
            !self@.has_bounty(id) ==> r is None,
    {
        if id == 0 || id > self.bounties.len() as u64 {
            return None;
        }
        let i = (id - 1) as usize;
        assert(self@.bounties[i as int] == self.bounties@[i as int]@);
        Some(self.bounties[i].copy())
    }

    /// The bounties that meet `c`, in id order.
    pub fn bounties_where(&self, c: &Criterion) -> (r: Vec<Bounty>)
        ensures
            bounty_views(r@) == bounties_where(self@.bounties, *c),
    {
        let mut r: Vec<Bounty> = Vec::new();
        let mut i: usize = 0;
        while i < self.bounties.len()
            invariant
                i <= self.bounties@.len(),
                self@.bounties.len() == self.bounties@.len(),
                bounty_views(r@) == bounties_where(self@.bounties.take(i as int), *c),
            decreases self.bounties@.len() - i,
        {
            let b = &self.bounties[i];
            assert(self@.bounties[i as int] == b@);
            let keep = match c {
                Criterion::Status(s) => b.status == *s,
                Criterion::Creator(who) => b.creator.same(who),
            };
            let ghost before = r@;
            if keep {
                r.push(b.copy());
                assert(bounty_views(r@) =~= bounty_views(before).push(b@));
            }
            assert(self@.bounties.take(i + 1).drop_last() =~= self@.bounties.take(i as int));
            i = i + 1;
        }
        assert(self@.bounties.take(i as int) =~= self@.bounties);
        r
    }

    /// Every bounty, in id order.
    pub fn get_all_bounties(&self) -> (r: Vec<Bounty>)
        ensures
            bounty_views(r@) == self@.bounties,
    {
        let mut r: Vec<Bounty> = Vec::new();
        let mut i: usize = 0;
        while i < self.bounties.len()
            invariant
                i <= self.bounties@.len(),
                self@.bounties.len() == self.bounties@.len(),
                bounty_views(r@) =~= self@.bounties.take(i as int),
            decreases self.bounties@.len() - i,
        {
            assert(self@.bounties[i as int] == self.bounties@[i as int]@);
            let ghost before = r@;
            r.push(self.bounties[i].copy());
            assert(bounty_views(r@) =~= bounty_views(before).push(self@.bounties[i as int]));
            i = i + 1;
        }
        r
    }

    /// The `Active` bounties, in id order.
    pub fn get_active_bounties(&self) -> (r: Vec<Bounty>)
        ensures
            bounty_views(r@) == bounties_where(
                self@.bounties,
                Criterion::Status(BountyStatus::Active),
            ),
    {
        self.bounties_where(&Criterion::Status(BountyStatus::Active))
    }

    /// The bounties that `user` created, in id order.
    pub fn get_user_created_bounties(&self, user: &Ident) -> (r: Vec<Bounty>)
        ensures
            bounty_views(r@) == bounties_where(
                self@.bounties,
                Criterion::Creator(*user),
            ),
    {
        let c = Criterion::Creator(user.copy());
        let r = self.bounties_where(&c);
        proof {
            lemma_where_congruent(self@.bounties, c, Criterion::Creator(*user));
        }
        r
    }

    /// The bounties that `user` submitted a solution to, in the order of submission.
    pub fn get_user_submissions(&self, user: &Ident) -> (r: Vec<Bounty>)
        ensures
            bounty_views(r@) == submitted_by(self@.log, self@.bounties, user@),
    {
        let mut r: Vec<Bounty> = Vec::new();
        let mut k: usize = 0;
        while k < self.submission_log.len()
            invariant
                k <= self.submission_log@.len(),
                self@.log.len() == self.submission_log@.len(),
                bounty_views(r@) == submitted_by(self@.log.take(k as int), self@.bounties, user@),
            decreases self.submission_log@.len() - k,
        {
            let e = &self.submission_log[k];
            assert(self@.log[k as int] == (e.bounty_id, e.submitter@));
            let ghost before = r@;
            if e.submitter.same(user) && e.bounty_id >= 1 && e.bounty_id <= self.bounties.len() as u64 {
                let i = (e.bounty_id - 1) as usize;
                assert(self@.bounties[i as int] == self.bounties@[i as int]@);
                r.push(self.bounties[i].copy());
                assert(bounty_views(r@) =~= bounty_views(before).push(self@.bounties[i as int]));
            }
            assert(self@.log.take(k + 1).drop_last() =~= self@.log.take(k as int));
            k = k + 1;
        }
        assert(self@.log.take(k as int) =~= self@.log);
        r
    }
}

/// The page of `items` that starts at `offset` and holds at most `limit` bounties.
pub fn page(items: Vec<Bounty>, offset: u64, limit: u64) -> (r: Vec<Bounty>)
    ensures
        bounty_views(r@) == page_of(
            bounty_views(items@),
            offset as nat,
            limit as nat,
        ),
{
    let ghost all = bounty_views(items@);
    let n = items.len();
    let start: usize = if (offset as u128) < (n as u128) { offset as usize } else { n };
    let end: usize = if (offset as u128) + (limit as u128) < (n as u128) {
        (offset + limit) as usize
    } else {
        n
    };
    let mut r: Vec<Bounty> = Vec::new();
    let mut i: usize = start;
    while i < end
        invariant
            start <= i <= end,
            end <= items@.len(),
            all == bounty_views(items@),
            bounty_views(r@) =~= all.subrange(start as int, i as int),
        decreases end - i,
    {
        let ghost before = r@;
        r.push(items[i].copy());
        assert(bounty_views(r@) =~= bounty_views(before).push(all[i as int]));
        i = i + 1;
    }
    r
}

impl BountyBook {
    /// A page of all bounties in id order.
    pub fn get_bounties_paginated(&self, offset: u64, limit: u64) -> (r: Vec<Bounty>)
        ensures
            bounty_views(r@) == page_of(self@.bounties, offset as nat, limit as nat),
    {
        page(self.get_all_bounties(), offset, limit)
    }

    /// A page of the bounties with status `status`, in id order.
    pub fn get_bounties_by_status(&self, status: BountyStatus, offset: u64, limit: u64) -> (r: Vec<
        Bounty,
    >)
        ensures
            bounty_views(r@) == page_of(
                bounties_where(self@.bounties, Criterion::Status(status)),
                offset as nat,
                limit as nat,
            ),
    {
        page(self.bounties_where(&Criterion::Status(status)), offset, limit)
    }

    /// The version, the number of bounties, and the time of the last update.
    pub fn get_status(&self, last_updated: u64) -> (r: CanisterStatus)
        requires
            self.wf(),
        ensures
            r.version@ == CANISTER_VERSION@,
            r.bounty_count == self@.bounties.len(),
            r.last_updated == last_updated,
    {
        let n = self.bounties.len();
        assert(n <= u64::MAX) by {
            assert(self@.bounties.len() == n);
        }
        CanisterStatus {
            version: String::from_str(CANISTER_VERSION),
            bounty_count: n as u64,
            last_updated,
        }
    }
}

} // verus!
