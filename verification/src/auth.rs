//! The login protocol: challenges, password verification, the
//! challenge-response digest, and session issuance, in that order.

use vstd::prelude::*;

use crate::challenge::{
    challenge_status, has_nonce, lemma_nonce_index, nonce_index, nonces_distinct, Challenge,
    ChallengeLedger, ChallengeStatus, CHALLENGE_TTL_SECONDS,
};
use crate::credential::{credential_accepts, CredentialError, CredentialStore};
use crate::crypto::{calculate_hmac, hmac_hex_of};
use crate::device_id::generate_device_id;
use crate::models::AuthResponse;
use crate::session::{
    has_token, insert_result, token_index, token_valid, Session, SessionManager,
    SESSION_TTL_SECONDS,
};
use crate::text::str_eq;

verus! {

/// Why a login attempt was turned away.
#[derive(PartialEq, Eq, Structural, Debug)]
pub enum AuthError {
    /// The nonce is not in the ledger.
    InvalidChallenge,
    /// The nonce is in the ledger but its expiry has passed.
    ExpiredChallenge,
    /// The password does not match the stored credential.
    InvalidPassword,
    /// The challenge-response digest does not match.
    InvalidResponse,
}

/// Sessions the device keeps at most, by default.
pub const DEFAULT_MAX_SESSIONS: usize = 10;

/// The decision `authenticate` makes, checked in protocol order:
/// unknown nonce, stale nonce, wrong password, wrong digest — or
/// success (`None`).
pub open spec fn auth_decision(
    ledger: Seq<Challenge>,
    cred: Option<Seq<char>>,
    challenge: Seq<char>,
    response: Seq<char>,
    password: Seq<char>,
    now: int,
) -> Option<AuthError> {
    if challenge_status(ledger, challenge, now) == ChallengeStatus::Missing {
        Some(AuthError::InvalidChallenge)
    } else if challenge_status(ledger, challenge, now) == ChallengeStatus::Expired {
        Some(AuthError::ExpiredChallenge)
    } else if !credential_accepts(cred, password) {
        Some(AuthError::InvalidPassword)
    } else if response != hmac_hex_of(password, challenge) {
        Some(AuthError::InvalidResponse)
    } else {
        None
    }
}

/// The login gate: orchestrates the credential store, the challenge
/// ledger and the session store.
pub struct AuthManager {
    credentials: CredentialStore,
    challenges: ChallengeLedger,
    sessions: SessionManager,
}

impl AuthManager {
    pub closed spec fn cred(&self) -> Option<Seq<char>> {
        self.credentials@
    }

    pub closed spec fn ledger(&self) -> Seq<Challenge> {
        self.challenges@
    }

    pub closed spec fn sess(&self) -> Seq<Session> {
        self.sessions@
    }

    pub closed spec fn max_sessions(&self) -> int {
        self.sessions.max_spec()
    }

    pub open spec fn wf(&self) -> bool {
        &&& nonces_distinct(self.ledger())
        &&& crate::session::tokens_distinct(self.sess())
        &&& self.sess().len() <= self.max_sessions()
        &&& self.max_sessions() >= 1
    }

    /// A gate over a persisted password hash (or none: authentication
    /// disabled), with the given session cap.
    pub fn new(password_hash: Option<String>, max_sessions: usize) -> (r: Self)
        requires
            max_sessions >= 1,
        ensures
            r.wf(),
            r.cred() == match password_hash {
                Some(h) => Some::<Seq<char>>(h@),
                None => None::<Seq<char>>,
            },
            r.ledger() == Seq::<Challenge>::empty(),
            r.sess() == Seq::<Session>::empty(),
            r.max_sessions() == max_sessions,
    {
        AuthManager {
            credentials: CredentialStore::from_hash(password_hash),
            challenges: ChallengeLedger::new(),
            sessions: SessionManager::new(max_sessions),
        }
    }

    /// Whether a credential is set (authentication required).
    pub fn is_password_set(&self) -> (r: bool)
        ensures
            r == (self.cred() is Some),
    {
        self.credentials.is_set()
    }

    /// Whether `password` matches the stored credential.
    pub fn verify_password(&self, password: &str) -> (r: bool)
        ensures
            r == credential_accepts(self.cred(), password@),
    {
        self.credentials.verify(password)
    }

    /// The stored hash string, for the persistence layer.
    pub fn password_hash_string(&self) -> (r: Option<String>)
        ensures
            r matches Some(h) ==> self.cred() == Some(h@),
            r is None <==> self.cred() is None,
    {
        self.credentials.hash_string()
    }

    /// Install a new password.  On success every live session is
    /// revoked: rotation never leaves old tokens valid.
    pub fn set_password(&mut self, password: &str) -> (r: Result<(), CredentialError>)
        requires
            old(self).wf(),
        ensures
            final(self).wf(),
            final(self).max_sessions() == old(self).max_sessions(),
            final(self).ledger() == old(self).ledger(),
            (r == Err::<(), CredentialError>(CredentialError::TooShort)) <==> password@.len()
                < crate::credential::MIN_PASSWORD_CHARS,
            r is Err ==> r == Err::<(), CredentialError>(CredentialError::TooShort) || r
                == Err::<(), CredentialError>(CredentialError::HashUnavailable),
            r is Err ==> final(self).cred() == old(self).cred() && final(self).sess() == old(
                self,
            ).sess(),
            r is Ok ==> final(self).cred() is Some && (forall|q: Seq<char>|
                crate::credential::argon2_matches(final(self).cred()->0, q) <==> q
                    == password@) && final(self).sess() == Seq::<Session>::empty(),
    {
        let r = self.credentials.set(password);
        if r.is_ok() {
            self.sessions.revoke_all();
        }
        r
    }

    /// Change the password after checking the current one; on success
    /// every live session is revoked.
    pub fn change_password(&mut self, old_password: &str, new_password: &str) -> (r: Result<
        (),
        CredentialError,
    >)
        requires
            old(self).wf(),
        ensures
            final(self).wf(),
            final(self).max_sessions() == old(self).max_sessions(),
            final(self).ledger() == old(self).ledger(),
            (r == Err::<(), CredentialError>(CredentialError::WrongCurrent)) <==> !credential_accepts(
                old(self).cred(),
                old_password@,
            ),
            r == Err::<(), CredentialError>(CredentialError::TooShort) ==> credential_accepts(
                old(self).cred(),
                old_password@,
            ) && new_password@.len() < crate::credential::MIN_PASSWORD_CHARS,
            r is Err ==> final(self).cred() == old(self).cred() && final(self).sess() == old(
                self,
            ).sess(),
            r is Ok ==> final(self).cred() is Some && (forall|q: Seq<char>|
                crate::credential::argon2_matches(final(self).cred()->0, q) <==> q
                    == new_password@) && final(self).sess() == Seq::<Session>::empty(),
    {
        if !self.credentials.verify(old_password) {
            return Err(CredentialError::WrongCurrent);
        }
        self.set_password(new_password)
    }

    /// Clear the credential: authentication becomes disabled, and every
    /// live session is revoked.
    pub fn clear_password(&mut self)
        requires
            old(self).wf(),
        ensures
            final(self).wf(),
            final(self).max_sessions() == old(self).max_sessions(),
            final(self).ledger() == old(self).ledger(),
            final(self).cred() is None,
            final(self).sess() == Seq::<Session>::empty(),
    {
        self.credentials.clear();
        self.sessions.revoke_all();
    }

    /// Replace the credential from a reloaded configuration, without
    /// touching sessions or challenges.
    pub fn reload_password(&mut self, password_hash: Option<String>)
        requires
            old(self).wf(),
        ensures
            final(self).wf(),
            final(self).max_sessions() == old(self).max_sessions(),
            final(self).ledger() == old(self).ledger(),
            final(self).sess() == old(self).sess(),
            final(self).cred() == match password_hash {
                Some(h) => Some::<Seq<char>>(h@),
                None => None::<Seq<char>>,
            },
    {
        self.credentials.reload(password_hash);
    }

    /// Issue a fresh random challenge at `now`, purging expired ones.
    pub fn generate_challenge(&mut self, now: u64) -> (r: String)
        requires
            old(self).wf(),
            now + CHALLENGE_TTL_SECONDS <= u64::MAX,
        ensures
            final(self).wf(),
            final(self).max_sessions() == old(self).max_sessions(),
            final(self).cred() == old(self).cred(),
            final(self).sess() == old(self).sess(),
            final(self).ledger() == crate::challenge::issue_result(
                old(self).ledger(),
                (Challenge { nonce: r, expires_at: (now + CHALLENGE_TTL_SECONDS) as u64 }),
                now as int,
            ),
            r@.len() == 36,
    {
        let nonce = generate_device_id();
        let r = nonce.clone();
        self.challenges.issue(nonce, now);
        r
    }

    /// Run the login protocol at `now`.  On success the challenge is
    /// consumed, a fresh random token is minted and stored (evicting
    /// the oldest session at capacity), and the reply carries the
    /// token with its lifetime; on failure nothing changes and the
    /// error names the first check that failed.
    pub fn authenticate(&mut self, challenge: &str, response: &str, password: &str, now: u64) -> (r:
        Result<AuthResponse, AuthError>)
        requires
            old(self).wf(),
        ensures
            final(self).wf(),
            final(self).max_sessions() == old(self).max_sessions(),
            final(self).cred() == old(self).cred(),
            r is Err <==> auth_decision(
                old(self).ledger(),
                old(self).cred(),
                challenge@,
                response@,
                password@,
                now as int,
            ) is Some,
            r matches Err(e) ==> Some(e) == auth_decision(
                old(self).ledger(),
                old(self).cred(),
                challenge@,
                response@,
                password@,
                now as int,
            ) && final(self).ledger() == old(self).ledger() && final(self).sess() == old(
                self,
            ).sess(),
            r matches Ok(grant) ==> {
                &&& grant.expires_in == SESSION_TTL_SECONDS
                &&& final(self).ledger() == old(self).ledger().remove(
                    nonce_index(old(self).ledger(), challenge@),
                )
                &&& !has_nonce(final(self).ledger(), challenge@)
                &&& final(self).sess() == insert_result(
                    old(self).sess(),
                    (Session {
                        token: grant.token,
                        created_at: now,
                        last_access: now,
                        device_id: None,
                    }),
                    old(self).max_sessions(),
                )
            },
    {
        match self.challenges.status(challenge, now) {
            ChallengeStatus::Missing => Err(AuthError::InvalidChallenge),
            ChallengeStatus::Expired => Err(AuthError::ExpiredChallenge),
            ChallengeStatus::Valid => {
                if !self.credentials.verify(password) {
                    return Err(AuthError::InvalidPassword);
                }
                let expected = calculate_hmac(challenge, password);
                if !str_eq(expected.as_str(), response) {
                    return Err(AuthError::InvalidResponse);
                }
                self.challenges.consume(challenge);
                let token = generate_device_id();
                let grant_token = token.clone();
                self.sessions.insert(token, now, None);
                Ok(AuthResponse { token: grant_token, expires_in: SESSION_TTL_SECONDS })
            },
        }
    }

    /// Whether `token` names a session created less than an hour ago;
    /// a valid lookup refreshes `last_access`, an expired one evicts
    /// the session.
    pub fn verify_token(&mut self, token: &str, now: u64) -> (r: bool)
        requires
            old(self).wf(),
        ensures
            final(self).wf(),
            final(self).max_sessions() == old(self).max_sessions(),
            final(self).cred() == old(self).cred(),
            final(self).ledger() == old(self).ledger(),
            r == token_valid(old(self).sess(), token@, now as int),
            !has_token(old(self).sess(), token@) ==> final(self).sess() == old(self).sess(),
            has_token(old(self).sess(), token@) && !r ==> final(self).sess() == old(
                self,
            ).sess().remove(token_index(old(self).sess(), token@)),
            has_token(old(self).sess(), token@) && r ==> final(self).sess() == old(
                self,
            ).sess().update(
                token_index(old(self).sess(), token@),
                (Session {
                    token: old(self).sess()[token_index(old(self).sess(), token@)].token,
                    created_at: old(self).sess()[token_index(
                        old(self).sess(),
                        token@,
                    )].created_at,
                    last_access: now,
                    device_id: old(self).sess()[token_index(old(self).sess(), token@)].device_id,
                }),
            ),
    {
        self.sessions.verify_token(token, now)
    }

    /// Revoke one session; reports whether it existed.
    pub fn revoke_token(&mut self, token: &str) -> (r: bool)
        requires
            old(self).wf(),
        ensures
            final(self).wf(),
            final(self).max_sessions() == old(self).max_sessions(),
            final(self).cred() == old(self).cred(),
            final(self).ledger() == old(self).ledger(),
            r == has_token(old(self).sess(), token@),
            r ==> final(self).sess() == old(self).sess().remove(
                token_index(old(self).sess(), token@),
            ),
            !r ==> final(self).sess() == old(self).sess(),
    {
        self.sessions.revoke(token)
    }

    /// Revoke every session.
    pub fn revoke_all_sessions(&mut self)
        requires
            old(self).wf(),
        ensures
            final(self).wf(),
            final(self).max_sessions() == old(self).max_sessions(),
            final(self).cred() == old(self).cred(),
            final(self).ledger() == old(self).ledger(),
            final(self).sess() == Seq::<Session>::empty(),
    {
        self.sessions.revoke_all()
    }

    /// Number of live sessions.
    pub fn get_session_count(&self) -> (r: usize)
        ensures
            r == self.sess().len(),
    {
        self.sessions.count()
    }
}

/// A challenge is usable at most once: after the success that consumed
/// it, the same login attempt — any response, any password, any time —
/// is turned away as `InvalidChallenge`.
pub proof fn lemma_challenge_single_use(
    ledger: Seq<Challenge>,
    cred: Option<Seq<char>>,
    cred2: Option<Seq<char>>,
    c: Seq<char>,
    resp: Seq<char>,
    pw: Seq<char>,
    now1: int,
    now2: int,
)
    requires
        nonces_distinct(ledger),
        auth_decision(ledger, cred, c, resp, pw, now1) is None,
    ensures
        auth_decision(
            ledger.remove(nonce_index(ledger, c)),
            cred2,
            c,
            resp,
            pw,
            now2,
        ) == Some(AuthError::InvalidChallenge),
{
    assert(has_nonce(ledger, c));
    lemma_nonce_index(ledger, c);
    let i = nonce_index(ledger, c);
    let r = ledger.remove(i);
    assert(!has_nonce(r, c)) by {
        if has_nonce(r, c) {
            let k = choose|k: int| 0 <= k < r.len() && r[k].nonce@ == c;
            let k0 = if k < i { k } else { k + 1 };
            assert(r[k] == ledger[k0]);
        }
    }
}

/// A challenge that has outlived its expiry is turned away as
/// `ExpiredChallenge`, whatever the password or response.
pub proof fn lemma_stale_challenge_rejected(
    ledger: Seq<Challenge>,
    cred: Option<Seq<char>>,
    c: Seq<char>,
    resp: Seq<char>,
    pw: Seq<char>,
    now: int,
)
    requires
        nonces_distinct(ledger),
        has_nonce(ledger, c),
        forall|i: int| 0 <= i < ledger.len() && ledger[i].nonce@ == c ==> now
            >= ledger[i].expires_at,
    ensures
        auth_decision(ledger, cred, c, resp, pw, now) == Some(AuthError::ExpiredChallenge),
{
    crate::challenge::lemma_challenge_expired(ledger, c, now);
}

} // verus!
