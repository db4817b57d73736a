use vstd::prelude::*;
use crate::lifecycle::{BountyBook, Counter};
use crate::types::{Ident, ProfileView, UserProfile};

verus! {

/// The counter `c` of a profile.
pub open spec fn key_of(p: ProfileView, c: Counter) -> u64 {
    match c {
        Counter::Posted => p.bounties_posted,
        Counter::Participated => p.bounties_participated,
        Counter::Won => p.bounties_won,
    }
}

/// The order of principals: the shorter first, then the first differing byte.
pub open spec fn bytes_before(a: Seq<u8>, b: Seq<u8>) -> bool {
    ||| a.len() < b.len()
    ||| (a.len() == b.len() && exists|i: int|
        0 <= i < a.len() && a.take(i) == b.take(i) && a[i] < b[i])
}

proof fn lemma_before_transitive(a: Seq<u8>, b: Seq<u8>, c: Seq<u8>)
    requires
        bytes_before(a, b),
        bytes_before(b, c),
    ensures
        bytes_before(a, c),
{
    if a.len() == b.len() && b.len() == c.len() {
        let i1 = choose|i: int| 0 <= i < a.len() && a.take(i) == b.take(i) && a[i] < b[i];
        let i2 = choose|i: int| 0 <= i < b.len() && b.take(i) == c.take(i) && b[i] < c[i];
        if i1 < i2 {
            assert(b.take(i2).take(i1) =~= b.take(i1));
            assert(c.take(i2).take(i1) =~= c.take(i1));
            assert(b.take(i2)[i1] == b[i1]);
            assert(c.take(i2)[i1] == c[i1]);
            assert(a.take(i1) == c.take(i1) && a[i1] < c[i1]);
        } else if i2 < i1 {
            assert(a.take(i1).take(i2) =~= a.take(i2));
            assert(b.take(i1).take(i2) =~= b.take(i2));
            assert(a.take(i1)[i2] == a[i2]);
            assert(b.take(i1)[i2] == b[i2]);
            assert(a.take(i2) == c.take(i2) && a[i2] < c[i2]);
        } else {
            assert(a.take(i1) == c.take(i1) && a[i1] < c[i1]);
        }
    }
}

/// Whether principal `a` orders before principal `b`.
fn ident_before(a: &Ident, b: &Ident) -> (r: bool)
    ensures
        r == bytes_before(a@, b@),
{
    if a.bytes.len() != b.bytes.len() {
        return a.bytes.len() < b.bytes.len();
    }
    let mut i: usize = 0;
    while i < a.bytes.len()
        invariant
            a@.len() == b@.len(),
            i <= a@.len(),
            forall|j: int| 0 <= j < i ==> a@[j] == b@[j],
        decreases a@.len() - i,
    {
        if a.bytes[i] != b.bytes[i] {
            assert(a@.take(i as int) =~= b@.take(i as int));
            if a.bytes[i] > b.bytes[i] {
                assert forall|k: int|
                    0 <= k < a@.len() && a@.take(k) == b@.take(k) implies !(a@[k] < b@[k]) by {
                    if k > i {
                        assert(a@.take(k)[i as int] == b@.take(k)[i as int]);
                    }
                }
            }
            return a.bytes[i] < b.bytes[i];
        }
        i = i + 1;
    }
    false
}

/// Whether `sel` lists distinct positions of `ps` in leaderboard order by counter `c`:
/// each position has, when it is picked, the greatest counter among those not picked
/// yet, and on a tie no such profile's principal orders before its own.
pub open spec fn ranks(ps: Seq<ProfileView>, c: Counter, sel: Seq<int>) -> bool {
    &&& forall|j: int| 0 <= j < sel.len() ==> 0 <= #[trigger] sel[j] < ps.len()
    &&& forall|j: int, l: int| 0 <= j < l < sel.len() ==> #[trigger] sel[j] != #[trigger] sel[l]
    &&& forall|j: int, m: int|
        #![trigger sel[j], ps[m]]
        0 <= j < sel.len() && 0 <= m < ps.len() && !sel.take(j).contains(m) ==> {
            ||| key_of(ps[m], c) < key_of(ps[sel[j]], c)
            ||| (key_of(ps[m], c) == key_of(ps[sel[j]], c) && !bytes_before(
                ps[m].principal,
                ps[sel[j]].principal,
            ))
        }
}

/// How many entries of `t` are false.
pub open spec fn count_free(t: Seq<bool>) -> nat
    decreases t.len(),
{
    if t.len() == 0 {
        0
    } else {
        count_free(t.drop_last()) + if t.last() {
            0nat
        } else {
            1nat
        }
    }
}

proof fn lemma_count_take(t: Seq<bool>, m: int)
    requires
        0 <= m < t.len(),
        !t[m],
    ensures
        count_free(t.update(m, true)) + 1 == count_free(t),
    decreases t.len(),
{
    let u = t.update(m, true);
    if m == t.len() - 1 {
        assert(u.drop_last() =~= t.drop_last());
    } else {
        assert(u.drop_last() =~= t.drop_last().update(m, true));
        lemma_count_take(t.drop_last(), m);
    }
}

proof fn lemma_none_free(t: Seq<bool>)
    requires
        forall|m: int| 0 <= m < t.len() ==> t[m],
    ensures
        count_free(t) == 0,
    decreases t.len(),
{
    if t.len() > 0 {
        lemma_none_free(t.drop_last());
    }
}

pub open spec fn min_len(limit: u64, n: nat) -> nat {
    if (limit as nat) < n {
        limit as nat
    } else {
        n
    }
}

impl BountyBook {
    /// The first `limit` profiles in leaderboard order by counter `c`: highest first,
    /// and in principal order on a tie.
    pub fn top_profiles(&self, c: Counter, limit: u64) -> (r: Vec<UserProfile>)
        ensures
            r@.len() == min_len(limit, self@.profiles.len()),
            exists|sel: Seq<int>|
                #![trigger ranks(self@.profiles, c, sel)]
                ranks(self@.profiles, c, sel) && sel.len() == r@.len() && forall|j: int|
                    0 <= j < sel.len() ==> #[trigger] r@[j]@ == self@.profiles[sel[j]],
    {
        let ghost ps = self@.profiles;
        let n = self.profiles.len();
        let mut taken: Vec<bool> = Vec::new();
        let mut i: usize = 0;
        while i < n
            invariant
                i <= n,
                taken@.len() == i,
                forall|m: int| 0 <= m < i ==> !taken@[m],
                count_free(taken@) == i,
            decreases n - i,
        {
            let ghost before = taken@;
            taken.push(false);
            assert(taken@.drop_last() =~= before);
            i = i + 1;
        }
        let mut r: Vec<UserProfile> = Vec::new();
        let ghost mut sel: Seq<int> = Seq::empty();
        while (r.len() as u64) < limit && r.len() < n
            invariant
                ps == self@.profiles,
                n == ps.len(),
                taken@.len() == n,
                r@.len() == sel.len(),
                r@.len() <= n,
                r@.len() <= limit,
                count_free(taken@) == n - r@.len(),
                forall|m: int| 0 <= m < n ==> (taken@[m] <==> sel.contains(m)),
                ranks(ps, c, sel),
                forall|j: int| 0 <= j < sel.len() ==> #[trigger] r@[j]@ == ps[sel[j]],
            decreases n - r@.len(),
        {
            let mut best: usize = n;
            let mut m: usize = 0;
            while m < n
                invariant
                    ps == self@.profiles,
                    n == ps.len(),
                    taken@.len() == n,
                    m <= n,
                    best == n || (best < m && !taken@[best as int]),
                    forall|q: int|
                        0 <= q < m && !taken@[q] ==> best < n && {
                            ||| key_of(ps[q], c) < key_of(ps[best as int], c)
                            ||| (key_of(ps[q], c) == key_of(ps[best as int], c) && !bytes_before(
                                ps[q].principal,
                                ps[best as int].principal,
                            ))
                        },
                decreases n - m,
            {
                if !taken[m] {
                    assert(ps[m as int] == self.profiles@[m as int]@);
                    if best == n {
                        best = m;
                    } else {
                        assert(ps[best as int] == self.profiles@[best as int]@);
                        let (km, kb) = match c {
                            Counter::Posted => (
                                self.profiles[m].bounties_posted,
                                self.profiles[best].bounties_posted,
                            ),
                            Counter::Participated => (
                                self.profiles[m].bounties_participated,
                                self.profiles[best].bounties_participated,
                            ),
                            Counter::Won => (
                                self.profiles[m].bounties_won,
                                self.profiles[best].bounties_won,
                            ),
                        };
                        if km > kb || (km == kb && ident_before(
                            &self.profiles[m].principal,
                            &self.profiles[best].principal,
                        )) {
                            proof {
                                if km == kb {
                                    assert forall|q: int|
                                        0 <= q < m && !taken@[q] && key_of(ps[q], c) == kb
                                            && !bytes_before(
                                            ps[q].principal,
                                            ps[best as int].principal,
                                        ) implies !bytes_before(
                                        ps[q].principal,
                                        ps[m as int].principal,
                                    ) by {
                                        if bytes_before(ps[q].principal, ps[m as int].principal) {
                                            lemma_before_transitive(
                                                ps[q].principal,
                                                ps[m as int].principal,
                                                ps[best as int].principal,
                                            );
                                        }
                                    }
                                }
                            }
                            best = m;
                        }
                    }
                }
                m = m + 1;
            }
            if best == n {
                proof {
                    lemma_none_free(taken@);
                }
                assert(false);
            }
            proof {
                lemma_count_take(taken@, best as int);
                let old_sel = sel;
                sel = sel.push(best as int);
                assert forall|j: int| 0 <= j < old_sel.len() implies #[trigger] sel.take(j)
                    == old_sel.take(j) by {
                    assert(sel.take(j) =~= old_sel.take(j));
                }
                assert(sel.take(old_sel.len() as int) =~= old_sel);
                assert(!old_sel.contains(best as int));
            }
            taken.set(best, true);
            let ghost before = r@;
            r.push(self.profiles[best].copy());
            proof {
                assert forall|j: int| 0 <= j < sel.len() implies #[trigger] r@[j]@ == ps[sel[j]] by {
                    if j < before.len() {
                        assert(r@[j] == before[j]);
                    }
                }
                assert forall|q: int| 0 <= q < n implies (taken@[q] <==> sel.contains(q)) by {
                    if q != best {
                        if sel.contains(q) {
                            let w = choose|w: int| 0 <= w < sel.len() && sel[w] == q;
                            if w < sel.len() - 1 {
                                assert(sel.drop_last()[w] == q);
                            }
                        }
                        if sel.drop_last().contains(q) {
                            let w = choose|w: int| 0 <= w < sel.len() - 1 && sel.drop_last()[w] == q;
                            assert(sel[w] == q);
                        }
                    } else {
                        assert(sel[sel.len() - 1] == q);
                    }
                }
            }
        }
        proof {
            assert(ranks(ps, c, sel));
        }
        r
    }

    /// The `limit` profiles with the most bounties posted.
    pub fn get_top_creators(&self, limit: u64) -> (r: Vec<UserProfile>)
        ensures
            r@.len() == min_len(limit, self@.profiles.len()),
            exists|sel: Seq<int>|
                #![trigger ranks(self@.profiles, Counter::Posted, sel)]
                ranks(self@.profiles, Counter::Posted, sel) && sel.len() == r@.len() && forall|
                    j: int,
                | 0 <= j < sel.len() ==> #[trigger] r@[j]@ == self@.profiles[sel[j]],
    {
        self.top_profiles(Counter::Posted, limit)
    }

    /// The `limit` profiles with the most bounties won.
    pub fn get_top_winners(&self, limit: u64) -> (r: Vec<UserProfile>)
        ensures
            r@.len() == min_len(limit, self@.profiles.len()),
            exists|sel: Seq<int>|
                #![trigger ranks(self@.profiles, Counter::Won, sel)]
                ranks(self@.profiles, Counter::Won, sel) && sel.len() == r@.len() && forall|
                    j: int,
                | 0 <= j < sel.len() ==> #[trigger] r@[j]@ == self@.profiles[sel[j]],
    {
        self.top_profiles(Counter::Won, limit)
    }

    /// The `limit` profiles with the most bounties participated in.
    pub fn get_top_participants(&self, limit: u64) -> (r: Vec<UserProfile>)
        ensures
            r@.len() == min_len(limit, self@.profiles.len()),
            exists|sel: Seq<int>|
                #![trigger ranks(self@.profiles, Counter::Participated, sel)]
                ranks(self@.profiles, Counter::Participated, sel) && sel.len() == r@.len()
                    && forall|j: int|
                    0 <= j < sel.len() ==> #[trigger] r@[j]@ == self@.profiles[sel[j]],
    {
        self.top_profiles(Counter::Participated, limit)
    }
}

} // verus!
