//! One-time login challenges: random nonces with a short expiry,
//! purged opportunistically and consumed exactly once on a successful
//! authentication.

use vstd::prelude::*;

use crate::text::str_eq;

verus! {

/// Seconds a challenge stays usable after it was issued.
pub const CHALLENGE_TTL_SECONDS: u64 = 300;

/// One outstanding challenge.
pub struct Challenge {
    pub nonce: String,
    pub expires_at: u64,
}

/// No two challenges share a nonce.
pub open spec fn nonces_distinct(s: Seq<Challenge>) -> bool {
    forall|i: int, j: int| 0 <= i < j < s.len() ==> s[i].nonce@ != s[j].nonce@
}

/// Whether some challenge carries `n`.
pub open spec fn has_nonce(s: Seq<Challenge>, n: Seq<char>) -> bool {
    exists|i: int| 0 <= i < s.len() && s[i].nonce@ == n
}

/// Index of the first challenge carrying `n`.
pub open spec fn nonce_index(s: Seq<Challenge>, n: Seq<char>) -> int
    decreases s.len(),
{
    if s.len() == 0 {
        0
    } else if s[0].nonce@ == n {
        0
    } else {
        1 + nonce_index(s.drop_first(), n)
    }
}

/// Expiry of the challenge carrying `n` (meaningful when present).
pub open spec fn expiry_of(s: Seq<Challenge>, n: Seq<char>) -> int {
    s[nonce_index(s, n)].expires_at as int
}

/// How a nonce stands at time `now`.
#[derive(PartialEq, Eq, Structural)]
pub enum ChallengeStatus {
    /// Not in the ledger.
    Missing,
    /// In the ledger, but its expiry has passed.
    Expired,
    /// In the ledger and still usable.
    Valid,
}

/// A nonce is valid iff present and `now` is before its expiry.
pub open spec fn challenge_status(s: Seq<Challenge>, n: Seq<char>, now: int) -> ChallengeStatus {
    if !has_nonce(s, n) {
        ChallengeStatus::Missing
    } else if now >= expiry_of(s, n) {
        ChallengeStatus::Expired
    } else {
        ChallengeStatus::Valid
    }
}

pub proof fn lemma_nonce_index(s: Seq<Challenge>, n: Seq<char>)
    requires
        has_nonce(s, n),
    ensures
        0 <= nonce_index(s, n) < s.len(),
        s[nonce_index(s, n)].nonce@ == n,
        forall|k: int| 0 <= k < nonce_index(s, n) ==> s[k].nonce@ != n,
    decreases s.len(),
{
    if s.len() == 0 {
    } else if s[0].nonce@ == n {
    } else {
        assert(has_nonce(s.drop_first(), n)) by {
            let i = choose|i: int| 0 <= i < s.len() && s[i].nonce@ == n;
            assert(s.drop_first()[i - 1] == s[i]);
        }
        lemma_nonce_index(s.drop_first(), n);
        assert forall|k: int| 0 <= k < nonce_index(s, n) implies s[k].nonce@ != n by {
            if k > 0 {
                assert(s.drop_first()[k - 1] == s[k]);
            }
        }
        assert(s.drop_first()[nonce_index(s, n) - 1] == s[nonce_index(s, n)]);
    }
}

/// Removing one challenge keeps nonces distinct and introduces none.
proof fn lemma_remove_challenge(s: Seq<Challenge>, i: int)
    requires
        nonces_distinct(s),
        0 <= i < s.len(),
    ensures
        nonces_distinct(s.remove(i)),
        forall|n: Seq<char>| has_nonce(s.remove(i), n) ==> has_nonce(s, n),
{
    let r = s.remove(i);
    assert forall|a: int, b: int| 0 <= a < b < r.len() implies r[a].nonce@ != r[b].nonce@ by {
        let a0 = if a < i { a } else { a + 1 };
        let b0 = if b < i { b } else { b + 1 };
        assert(r[a] == s[a0]);
        assert(r[b] == s[b0]);
    }
    assert forall|n: Seq<char>| has_nonce(r, n) implies has_nonce(s, n) by {
        let k = choose|k: int| 0 <= k < r.len() && r[k].nonce@ == n;
        let k0 = if k < i { k } else { k + 1 };
        assert(r[k] == s[k0]);
    }
}

/// The challenges of `s` that are still live at `now`, in order.
pub open spec fn live_only(s: Seq<Challenge>, now: int) -> Seq<Challenge>
    decreases s.len(),
{
    if s.len() == 0 {
        Seq::empty()
    } else {
        let rest = live_only(s.drop_last(), now);
        if s.last().expires_at > now {
            rest.push(s.last())
        } else {
            rest
        }
    }
}

pub proof fn lemma_live_only(s: Seq<Challenge>, now: int)
    requires
        nonces_distinct(s),
    ensures
        nonces_distinct(live_only(s, now)),
        forall|n: Seq<char>| has_nonce(live_only(s, now), n) ==> has_nonce(s, n),
    decreases s.len(),
{
    if s.len() == 0 {
    } else {
        assert(nonces_distinct(s.drop_last()));
        lemma_live_only(s.drop_last(), now);
        let rest = live_only(s.drop_last(), now);
        assert forall|n: Seq<char>| has_nonce(rest, n) implies has_nonce(s, n) by {
            assert(has_nonce(s.drop_last(), n));
            let k = choose|k: int| 0 <= k < s.drop_last().len() && s.drop_last()[k].nonce@ == n;
            assert(s[k] == s.drop_last()[k]);
        }
        if s.last().expires_at > now {
            let r = rest.push(s.last());
            assert(!has_nonce(rest, s.last().nonce@)) by {
                if has_nonce(rest, s.last().nonce@) {
                    assert(has_nonce(s.drop_last(), s.last().nonce@));
                    let k = choose|k: int|
                        0 <= k < s.drop_last().len() && s.drop_last()[k].nonce@
                            == s.last().nonce@;
                    assert(s[k] == s.drop_last()[k]);
                    assert(s[k].nonce@ == s[s.len() - 1].nonce@);
                }
            }
            assert forall|a: int, b: int| 0 <= a < b < r.len() implies r[a].nonce@
                != r[b].nonce@ by {
                if b < r.len() - 1 {
                    assert(r[a] == rest[a] && r[b] == rest[b]);
                } else {
                    assert(r[a] == rest[a]);
                    assert(has_nonce(rest, rest[a].nonce@));
                }
            }
            assert forall|n: Seq<char>| has_nonce(r, n) implies has_nonce(s, n) by {
                let k = choose|k: int| 0 <= k < r.len() && r[k].nonce@ == n;
                if k < r.len() - 1 {
                    assert(r[k] == rest[k]);
                    assert(has_nonce(rest, n));
                } else {
                    assert(r[k] == s.last());
                    assert(s[s.len() - 1].nonce@ == n);
                }
            }
        }
    }
}

/// The ledger after issuing `fresh` at `now`: expired entries purged, a
/// surviving entry with the same nonce replaced, `fresh` appended.
pub open spec fn issue_result(s: Seq<Challenge>, fresh: Challenge, now: int) -> Seq<Challenge> {
    let s1 = live_only(s, now);
    let s2 = if has_nonce(s1, fresh.nonce@) {
        s1.remove(nonce_index(s1, fresh.nonce@))
    } else {
        s1
    };
    s2.push(fresh)
}

/// The ledger of outstanding challenges.
pub struct ChallengeLedger {
    challenges: Vec<Challenge>,
}

impl View for ChallengeLedger {
    type V = Seq<Challenge>;

    closed spec fn view(&self) -> Seq<Challenge> {
        self.challenges@
    }
}

impl ChallengeLedger {
    pub open spec fn wf(&self) -> bool {
        nonces_distinct(self@)
    }

    pub fn new() -> (r: Self)
        ensures
            r.wf(),
            r@ == Seq::<Challenge>::empty(),
    {
        ChallengeLedger { challenges: Vec::new() }
    }

    /// Number of outstanding challenges.
    pub fn count(&self) -> (r: usize)
        ensures
            r == self@.len(),
    {
        self.challenges.len()
    }

    /// Position of the first challenge carrying `nonce`, if any.
    fn find_nonce(&self, nonce: &str) -> (r: Option<usize>)
        ensures
            r matches Some(i) ==> has_nonce(self@, nonce@) && i == nonce_index(self@, nonce@),
            r is None ==> !has_nonce(self@, nonce@),
    {
        let n = self.challenges.len();
        let mut i: usize = 0;
        while i < n
            invariant
                n == self@.len(),
                0 <= i <= n,
                forall|k: int| 0 <= k < i ==> self@[k].nonce@ != nonce@,
            decreases n - i,
        {
            if str_eq(self.challenges[i].nonce.as_str(), nonce) {
                proof {
                    lemma_nonce_index(self@, nonce@);
                }
                return Some(i);
            }
            i = i + 1;
        }
        None
    }

    /// Record `nonce` as issued at `now`, expiring
    /// `CHALLENGE_TTL_SECONDS` later; expired entries are purged on the
    /// way.
    pub fn issue(&mut self, nonce: String, now: u64)
        requires
            old(self).wf(),
            now + CHALLENGE_TTL_SECONDS <= u64::MAX,
        ensures
            final(self).wf(),
            final(self)@ == issue_result(
                old(self)@,
                (Challenge { nonce, expires_at: (now + CHALLENGE_TTL_SECONDS) as u64 }),
                now as int,
            ),
    {
        let ghost s0 = self@;
        let mut kept: Vec<Challenge> = Vec::new();
        let total = self.challenges.len();
        let mut i: usize = 0;
        while i < total
            invariant
                total == s0.len(),
                self@ == s0,
                0 <= i <= total,
                kept@ == live_only(s0.subrange(0, i as int), now as int),
            decreases total - i,
        {
            let ghost pre = s0.subrange(0, i as int);
            let ghost cur = s0.subrange(0, i + 1);
            proof {
                assert(cur.drop_last() =~= pre);
                assert(cur.last() == s0[i as int]);
            }
            let c = &self.challenges[i];
            if c.expires_at > now {
                let copy = Challenge {
                    nonce: c.nonce.clone(),
                    expires_at: c.expires_at,
                };
                proof {
                    assert(copy == s0[i as int]);
                }
                kept.push(copy);
            }
            i = i + 1;
        }
        proof {
            assert(s0.subrange(0, total as int) =~= s0);
            lemma_live_only(s0, now as int);
        }
        self.challenges = kept;
        let ghost s1 = self@;
        match self.find_nonce(nonce.as_str()) {
            Some(j) => {
                proof {
                    lemma_nonce_index(s1, nonce@);
                    lemma_remove_challenge(s1, j as int);
                }
                self.challenges.remove(j);
            },
            None => {},
        }
        let ghost s2 = self@;
        proof {
            assert(!has_nonce(s2, nonce@)) by {
                if has_nonce(s1, nonce@) {
                    let ti = nonce_index(s1, nonce@);
                    lemma_nonce_index(s1, nonce@);
                    assert forall|k: int| 0 <= k < s2.len() implies s2[k].nonce@ != nonce@ by {
                        let k0 = if k < ti { k } else { k + 1 };
                        assert(s2[k] == s1[k0]);
                    }
                }
            }
        }
        self.challenges.push(Challenge { nonce, expires_at: now + CHALLENGE_TTL_SECONDS });
        proof {
            assert forall|a: int, b: int| 0 <= a < b < self@.len() implies self@[a].nonce@
                != self@[b].nonce@ by {
                if b < self@.len() - 1 {
                    assert(self@[a] == s2[a] && self@[b] == s2[b]);
                } else {
                    assert(self@[a] == s2[a]);
                }
            }
        }
    }

    /// How `nonce` stands at `now`; the ledger is not changed.
    pub fn status(&self, nonce: &str, now: u64) -> (r: ChallengeStatus)
        requires
            self.wf(),
        ensures
            r == challenge_status(self@, nonce@, now as int),
    {
        match self.find_nonce(nonce) {
            None => ChallengeStatus::Missing,
            Some(i) => {
                proof {
                    lemma_nonce_index(self@, nonce@);
                }
                if now >= self.challenges[i].expires_at {
                    ChallengeStatus::Expired
                } else {
                    ChallengeStatus::Valid
                }
            },
        }
    }

    /// Remove `nonce` from the ledger (one-time use on success).
    pub fn consume(&mut self, nonce: &str)
        requires
            old(self).wf(),
        ensures
            final(self).wf(),
            has_nonce(old(self)@, nonce@) ==> final(self)@ == old(self)@.remove(
                nonce_index(old(self)@, nonce@),
            ) && !has_nonce(final(self)@, nonce@),
            !has_nonce(old(self)@, nonce@) ==> final(self)@ == old(self)@,
    {
        let ghost s0 = self@;
        match self.find_nonce(nonce) {
            Some(i) => {
                proof {
                    lemma_nonce_index(s0, nonce@);
                    lemma_remove_challenge(s0, i as int);
                }
                self.challenges.remove(i);
                proof {
                    let ti = nonce_index(s0, nonce@);
                    assert forall|k: int| 0 <= k < self@.len() implies self@[k].nonce@
                        != nonce@ by {
                        let k0 = if k < ti { k } else { k + 1 };
                        assert(self@[k] == s0[k0]);
                    }
                }
            },
            None => {},
        }
    }
}

/// A consumed challenge cannot be replayed: once its nonce is gone from
/// the ledger, its status is `Missing` at every time.
pub proof fn lemma_consumed_is_missing(s: Seq<Challenge>, n: Seq<char>, now: int)
    requires
        !has_nonce(s, n),
    ensures
        challenge_status(s, n, now) == ChallengeStatus::Missing,
{
}

/// A challenge issued with expiry `e` is reported `Expired` at any
/// `now >= e` while it still sits in the ledger.
pub proof fn lemma_challenge_expired(s: Seq<Challenge>, n: Seq<char>, now: int)
    requires
        nonces_distinct(s),
        has_nonce(s, n),
        forall|i: int| 0 <= i < s.len() && s[i].nonce@ == n ==> now >= s[i].expires_at,
    ensures
        challenge_status(s, n, now) == ChallengeStatus::Expired,
{
    lemma_nonce_index(s, n);
}

} // verus!
