//! Session tokens: issued after a successful login, valid for a fixed
//! window anchored at creation time, capped in number with
//! oldest-first eviction.

use vstd::prelude::*;

use crate::text::str_eq;

verus! {

/// Seconds a session stays valid after it was created.  The window is
/// fixed: refreshing `last_access` never extends it.
pub const SESSION_TTL_SECONDS: u64 = 3600;

/// One live session.
pub struct Session {
    pub token: String,
    pub created_at: u64,
    pub last_access: u64,
    pub device_id: Option<String>,
}

/// No two sessions share a token.
pub open spec fn tokens_distinct(s: Seq<Session>) -> bool {
    forall|i: int, j: int| 0 <= i < j < s.len() ==> s[i].token@ != s[j].token@
}

/// Whether some session carries `t`.
pub open spec fn has_token(s: Seq<Session>, t: Seq<char>) -> bool {
    exists|i: int| 0 <= i < s.len() && s[i].token@ == t
}

/// Index of the first session carrying `t` (the only one, when tokens
/// are distinct).
pub open spec fn token_index(s: Seq<Session>, t: Seq<char>) -> int
    decreases s.len(),
{
    if s.len() == 0 {
        0
    } else if s[0].token@ == t {
        0
    } else {
        1 + token_index(s.drop_first(), t)
    }
}

/// A token is valid at `now` iff a session carries it and less than
/// `SESSION_TTL_SECONDS` have passed since that session was created.
/// `last_access` plays no part.
pub open spec fn token_valid(s: Seq<Session>, t: Seq<char>, now: int) -> bool {
    exists|i: int|
        0 <= i < s.len() && s[i].token@ == t && now - s[i].created_at < SESSION_TTL_SECONDS
}

/// Index of the first session with the smallest `created_at`: the one
/// evicted when the store is full.
pub open spec fn oldest_index(s: Seq<Session>) -> int
    decreases s.len(),
{
    if s.len() <= 1 {
        0
    } else {
        let m = oldest_index(s.drop_last());
        if s.last().created_at < s[m].created_at {
            s.len() - 1
        } else {
            m
        }
    }
}

pub proof fn lemma_token_index(s: Seq<Session>, t: Seq<char>)
    requires
        has_token(s, t),
    ensures
        0 <= token_index(s, t) < s.len(),
        s[token_index(s, t)].token@ == t,
        forall|k: int| 0 <= k < token_index(s, t) ==> s[k].token@ != t,
    decreases s.len(),
{
    if s.len() == 0 {
    } else if s[0].token@ == t {
    } else {
        assert(has_token(s.drop_first(), t)) by {
            let i = choose|i: int| 0 <= i < s.len() && s[i].token@ == t;
            assert(s.drop_first()[i - 1] == s[i]);
        }
        lemma_token_index(s.drop_first(), t);
        assert forall|k: int| 0 <= k < token_index(s, t) implies s[k].token@ != t by {
            if k > 0 {
                assert(s.drop_first()[k - 1] == s[k]);
            }
        }
        assert(s.drop_first()[token_index(s, t) - 1] == s[token_index(s, t)]);
    }
}

/// The session at `oldest_index` is created no later than any other.
pub proof fn lemma_oldest_is_oldest(s: Seq<Session>)
    requires
        s.len() > 0,
    ensures
        0 <= oldest_index(s) < s.len(),
        forall|i: int| 0 <= i < s.len() ==> s[oldest_index(s)].created_at <= #[trigger] s[i].created_at,
    decreases s.len(),
{
    if s.len() == 1 {
    } else {
        lemma_oldest_is_oldest(s.drop_last());
        assert forall|i: int| 0 <= i < s.len() implies s[oldest_index(s)].created_at
            <= #[trigger] s[i].created_at by {
            if i < s.len() - 1 {
                assert(s.drop_last()[i] == s[i]);
            }
            let m = oldest_index(s.drop_last());
            assert(s.drop_last()[m] == s[m]);
        }
    }
}

/// Removing one session keeps the remaining tokens distinct and does
/// not introduce a token.
proof fn lemma_remove_keeps_distinct(s: Seq<Session>, i: int)
    requires
        tokens_distinct(s),
        0 <= i < s.len(),
    ensures
        tokens_distinct(s.remove(i)),
        forall|t: Seq<char>| has_token(s.remove(i), t) ==> has_token(s, t),
{
    let r = s.remove(i);
    assert forall|a: int, b: int| 0 <= a < b < r.len() implies r[a].token@ != r[b].token@ by {
        let a0 = if a < i { a } else { a + 1 };
        let b0 = if b < i { b } else { b + 1 };
        assert(r[a] == s[a0]);
        assert(r[b] == s[b0]);
    }
    assert forall|t: Seq<char>| has_token(r, t) implies has_token(s, t) by {
        let k = choose|k: int| 0 <= k < r.len() && r[k].token@ == t;
        let k0 = if k < i { k } else { k + 1 };
        assert(r[k] == s[k0]);
    }
}

/// The sessions after `insert`: any session already carrying the token
/// goes, then (if the store is full) the oldest goes, then the new
/// session is appended.
pub open spec fn insert_result(s: Seq<Session>, fresh: Session, max: int) -> Seq<Session> {
    let s1 = if has_token(s, fresh.token@) {
        s.remove(token_index(s, fresh.token@))
    } else {
        s
    };
    let s2 = if s1.len() >= max {
        s1.remove(oldest_index(s1))
    } else {
        s1
    };
    s2.push(fresh)
}

/// The store of live sessions.
pub struct SessionManager {
    sessions: Vec<Session>,
    max_sessions: usize,
}

impl View for SessionManager {
    type V = Seq<Session>;

    closed spec fn view(&self) -> Seq<Session> {
        self.sessions@
    }
}

impl SessionManager {
    pub closed spec fn max_spec(&self) -> int {
        self.max_sessions as int
    }

    /// Well-formed: distinct tokens, within the cap, cap positive.
    pub open spec fn wf(&self) -> bool {
        &&& tokens_distinct(self@)
        &&& self@.len() <= self.max_spec()
        &&& self.max_spec() >= 1
    }

    pub fn new(max_sessions: usize) -> (r: Self)
        requires
            max_sessions >= 1,
        ensures
            r.wf(),
            r@ == Seq::<Session>::empty(),
            r.max_spec() == max_sessions,
    {
        SessionManager { sessions: Vec::new(), max_sessions }
    }

    /// Number of live sessions.
    pub fn count(&self) -> (r: usize)
        ensures
            r == self@.len(),
    {
        self.sessions.len()
    }

    /// Position of the first session carrying `token`, if any.
    fn find_token(&self, token: &str) -> (r: Option<usize>)
        ensures
            r matches Some(i) ==> has_token(self@, token@) && i == token_index(self@, token@),
            r is None ==> !has_token(self@, token@),
    {
        let n = self.sessions.len();
        let mut i: usize = 0;
        while i < n
            invariant
                n == self@.len(),
                0 <= i <= n,
                forall|k: int| 0 <= k < i ==> self@[k].token@ != token@,
            decreases n - i,
        {
            if str_eq(self.sessions[i].token.as_str(), token) {
                proof {
                    lemma_token_index(self@, token@);
                }
                return Some(i);
            }
            i = i + 1;
        }
        None
    }

    /// Position of the first session with the smallest `created_at`.
    fn find_oldest(&self) -> (r: usize)
        requires
            self@.len() > 0,
        ensures
            r == oldest_index(self@),
    {
        let n = self.sessions.len();
        let mut best: usize = 0;
        let mut i: usize = 1;
        proof {
            assert(self@.subrange(0, 1) =~= seq![self@[0]]);
        }
        while i < n
            invariant
                n == self@.len(),
                1 <= i <= n,
                best < i,
                best == oldest_index(self@.subrange(0, i as int)),
            decreases n - i,
        {
            let ghost pre = self@.subrange(0, i as int);
            let ghost cur = self@.subrange(0, i + 1);
            proof {
                assert(cur.drop_last() =~= pre);
                assert(cur.last() == self@[i as int]);
                assert(pre[oldest_index(pre)] == cur[oldest_index(pre)]);
            }
            if self.sessions[i].created_at < self.sessions[best].created_at {
                best = i;
            }
            i = i + 1;
        }
        proof {
            assert(self@.subrange(0, n as int) =~= self@);
        }
        best
    }

    /// Insert a fresh session for `token`, created and last accessed at
    /// `now`.  A session already carrying the same token is replaced;
    /// at capacity, the session with the smallest `created_at` is
    /// evicted first, so the count never exceeds the cap.
    pub fn insert(&mut self, token: String, now: u64, device_id: Option<String>)
        requires
            old(self).wf(),
        ensures
            final(self).wf(),
            final(self).max_spec() == old(self).max_spec(),
            final(self)@ == insert_result(
                old(self)@,
                (Session { token, created_at: now, last_access: now, device_id }),
                old(self).max_spec(),
            ),
    {
        let ghost fresh = Session { token, created_at: now, last_access: now, device_id };
        let ghost s0 = self@;
        match self.find_token(token.as_str()) {
            Some(i) => {
                proof {
                    lemma_token_index(s0, token@);
                    lemma_remove_keeps_distinct(s0, i as int);
                }
                self.sessions.remove(i);
            },
            None => {},
        }
        let ghost s1 = self@;
        proof {
            assert(!has_token(s1, token@)) by {
                if has_token(s0, token@) {
                    lemma_token_index(s0, token@);
                    let ti = token_index(s0, token@);
                    assert forall|k: int| 0 <= k < s1.len() implies s1[k].token@ != token@ by {
                        let k0 = if k < ti { k } else { k + 1 };
                        assert(s1[k] == s0[k0]);
                    }
                }
            }
        }
        if self.sessions.len() >= self.max_sessions {
            proof {
                lemma_oldest_is_oldest(s1);
                lemma_remove_keeps_distinct(s1, oldest_index(s1));
            }
            let j = self.find_oldest();
            self.sessions.remove(j);
        }
        let ghost s2 = self@;
        proof {
            assert(!has_token(s2, token@)) by {
                if has_token(s2, token@) {
                    let k = choose|k: int| 0 <= k < s2.len() && s2[k].token@ == token@;
                    if s2.len() < s1.len() {
                        let oi = oldest_index(s1);
                        let k0 = if k < oi { k } else { k + 1 };
                        assert(s2[k] == s1[k0]);
                    }
                }
            }
        }
        self.sessions.push(Session { token, created_at: now, last_access: now, device_id });
        proof {
            assert forall|a: int, b: int| 0 <= a < b < self@.len() implies self@[a].token@
                != self@[b].token@ by {
                if b < self@.len() - 1 {
                    assert(self@[a] == s2[a] && self@[b] == s2[b]);
                } else {
                    assert(self@[b] == fresh);
                    assert(self@[a] == s2[a]);
                }
            }
        }
    }

    /// Whether `token` is valid at `now`; a valid lookup refreshes
    /// `last_access`, an expired one evicts the session, and validity
    /// itself depends only on `created_at`.
    pub fn verify_token(&mut self, token: &str, now: u64) -> (r: bool)
        requires
            old(self).wf(),
        ensures
            final(self).wf(),
            final(self).max_spec() == old(self).max_spec(),
            r == token_valid(old(self)@, token@, now as int),
            !has_token(old(self)@, token@) ==> final(self)@ == old(self)@,
            has_token(old(self)@, token@) && r ==> final(self)@ == old(self)@.update(
                token_index(old(self)@, token@),
                (Session {
                    token: old(self)@[token_index(old(self)@, token@)].token,
                    created_at: old(self)@[token_index(old(self)@, token@)].created_at,
                    last_access: now,
                    device_id: old(self)@[token_index(old(self)@, token@)].device_id,
                }),
            ),
            has_token(old(self)@, token@) && !r ==> final(self)@ == old(self)@.remove(
                token_index(old(self)@, token@),
            ),
    {
        let ghost s0 = self@;
        match self.find_token(token) {
            None => {
                proof {
                    assert(!token_valid(s0, token@, now as int)) by {
                        if token_valid(s0, token@, now as int) {
                            let i = choose|i: int|
                                0 <= i < s0.len() && s0[i].token@ == token@ && now as int
                                    - s0[i].created_at < SESSION_TTL_SECONDS;
                            assert(has_token(s0, token@));
                        }
                    }
                }
                false
            },
            Some(i) => {
                proof {
                    lemma_token_index(s0, token@);
                }
                let created = self.sessions[i].created_at;
                let valid = now < created || now - created < SESSION_TTL_SECONDS;
                proof {
                    let ti = token_index(s0, token@);
                    if valid {
                        assert(token_valid(s0, token@, now as int));
                    } else {
                        assert(!token_valid(s0, token@, now as int)) by {
                            if token_valid(s0, token@, now as int) {
                                let k = choose|k: int|
                                    0 <= k < s0.len() && s0[k].token@ == token@ && now as int
                                        - s0[k].created_at < SESSION_TTL_SECONDS;
                                if k != ti {
                                    assert(s0[k].token@ == s0[ti].token@);
                                }
                            }
                        }
                    }
                }
                if valid {
                    let mut refreshed = self.sessions.remove(i);
                    refreshed.last_access = now;
                    self.sessions.insert(i, refreshed);
                    proof {
                        let ti = token_index(s0, token@);
                        assert(self@ =~= s0.update(
                            ti,
                            (Session {
                                token: s0[ti].token,
                                created_at: s0[ti].created_at,
                                last_access: now,
                                device_id: s0[ti].device_id,
                            }),
                        ));
                        assert forall|a: int, b: int| 0 <= a < b < self@.len() implies
                            self@[a].token@ != self@[b].token@ by {
                            assert(self@[a].token == s0[a].token);
                            assert(self@[b].token == s0[b].token);
                        }
                    }
                    true
                } else {
                    proof {
                        lemma_remove_keeps_distinct(s0, i as int);
                    }
                    self.sessions.remove(i);
                    false
                }
            },
        }
    }

    /// Remove the session carrying `token`; reports whether one existed.
    pub fn revoke(&mut self, token: &str) -> (r: bool)
        requires
            old(self).wf(),
        ensures
            final(self).wf(),
            final(self).max_spec() == old(self).max_spec(),
            r == has_token(old(self)@, token@),
            r ==> final(self)@ == old(self)@.remove(token_index(old(self)@, token@)),
            !r ==> final(self)@ == old(self)@,
    {
        let ghost s0 = self@;
        match self.find_token(token) {
            Some(i) => {
                proof {
                    lemma_token_index(s0, token@);
                    lemma_remove_keeps_distinct(s0, i as int);
                }
                self.sessions.remove(i);
                true
            },
            None => false,
        }
    }

    /// Remove every session (password rotation, shutdown).
    pub fn revoke_all(&mut self)
        requires
            old(self).wf(),
        ensures
            final(self).wf(),
            final(self).max_spec() == old(self).max_spec(),
            final(self)@ == Seq::<Session>::empty(),
    {
        self.sessions.clear();
    }
}

/// Validity at `now` ignores `last_access`: two stores that agree on
/// tokens and creation times agree on every validity verdict, however
/// often either was refreshed.
pub proof fn lemma_validity_ignores_last_access(
    s1: Seq<Session>,
    s2: Seq<Session>,
    t: Seq<char>,
    now: int,
)
    requires
        s1.len() == s2.len(),
        forall|i: int| 0 <= i < s1.len() ==> s2[i].token@ == s1[i].token@ && s2[i].created_at
            == s1[i].created_at,
    ensures
        token_valid(s1, t, now) == token_valid(s2, t, now),
{
    if token_valid(s1, t, now) {
        let i = choose|i: int|
            0 <= i < s1.len() && s1[i].token@ == t && now - s1[i].created_at
                < SESSION_TTL_SECONDS;
        assert(0 <= i < s2.len() && s2[i].token@ == t && now - s2[i].created_at
            < SESSION_TTL_SECONDS);
    }
    if token_valid(s2, t, now) {
        let i = choose|i: int|
            0 <= i < s2.len() && s2[i].token@ == t && now - s2[i].created_at
                < SESSION_TTL_SECONDS;
        assert(0 <= i < s1.len() && s1[i].token@ == t && now - s1[i].created_at
            < SESSION_TTL_SECONDS);
    }
}

/// Once `SESSION_TTL_SECONDS` have passed since creation, a token is
/// invalid, whatever `last_access` holds.
pub proof fn lemma_token_expired(s: Seq<Session>, t: Seq<char>, now: int)
    requires
        forall|i: int| 0 <= i < s.len() && s[i].token@ == t ==> now - s[i].created_at
            >= SESSION_TTL_SECONDS,
    ensures
        !token_valid(s, t, now),
{
}


/// Capacity eviction: inserting a fresh token into a full store drops
/// exactly the session with the smallest `created_at` and nothing
/// else, and the count stays at the cap.
pub proof fn lemma_insert_at_capacity(s: Seq<Session>, fresh: Session, max: int)
    requires
        tokens_distinct(s),
        s.len() == max,
        max >= 1,
        !has_token(s, fresh.token@),
    ensures
        insert_result(s, fresh, max) == s.remove(oldest_index(s)).push(fresh),
        insert_result(s, fresh, max).len() == max,
        forall|i: int| 0 <= i < s.len() ==> s[oldest_index(s)].created_at <= #[trigger] s[i].created_at,
{
    lemma_oldest_is_oldest(s);
}


/// A freshly inserted session's token is valid exactly while the fixed
/// window since its creation lasts, whatever the store held before.
pub proof fn lemma_fresh_token_window(s: Seq<Session>, fresh: Session, max: int, t: int)
    requires
        tokens_distinct(s),
        max >= 1,
    ensures
        token_valid(insert_result(s, fresh, max), fresh.token@, t) == (t - fresh.created_at
            < SESSION_TTL_SECONDS),
{
    let tkn = fresh.token@;
    let r = insert_result(s, fresh, max);
    let s1 = if has_token(s, tkn) {
        s.remove(token_index(s, tkn))
    } else {
        s
    };
    assert(!has_token(s1, tkn)) by {
        if has_token(s, tkn) {
            lemma_token_index(s, tkn);
            let ti = token_index(s, tkn);
            if has_token(s1, tkn) {
                let k = choose|k: int| 0 <= k < s1.len() && s1[k].token@ == tkn;
                let k0 = if k < ti {
                    k
                } else {
                    k + 1
                };
                assert(s1[k] == s[k0]);
            }
        }
    }
    let s2 = if s1.len() >= max {
        s1.remove(oldest_index(s1))
    } else {
        s1
    };
    assert(!has_token(s2, tkn)) by {
        if s1.len() >= max {
            lemma_oldest_is_oldest(s1);
            let oi = oldest_index(s1);
            if has_token(s2, tkn) {
                let k = choose|k: int| 0 <= k < s2.len() && s2[k].token@ == tkn;
                let k0 = if k < oi {
                    k
                } else {
                    k + 1
                };
                assert(s2[k] == s1[k0]);
            }
        }
    }
    assert(r[r.len() - 1] == fresh);
    if t - fresh.created_at < SESSION_TTL_SECONDS {
        assert(token_valid(r, tkn, t));
    }
    if token_valid(r, tkn, t) {
        let i = choose|i: int|
            0 <= i < r.len() && r[i].token@ == tkn && t - r[i].created_at
                < SESSION_TTL_SECONDS;
        if i < r.len() - 1 {
            assert(r[i] == s2[i]);
        }
    }
}

} // verus!
