//! The credential store: at most one password, kept only as a salted
//! memory-hard hash.  When no credential is set, authentication is
//! disabled and every verification fails.

use vstd::prelude::*;

verus! {

/// What `Argon2::verify_password` decides for a given hash string and
/// password.  Verification is a pure function of the two strings, so the
/// outcome gets a name; nothing in this crate states what the name is on
/// given values.
pub uninterp spec fn argon2_matches(hash: Seq<char>, password: Seq<char>) -> bool;

/// Relies on `Argon2::hash_password` (argon2 crate) with a fresh random
/// salt from `SaltString::generate`: the returned PHC hash string
/// verifies against exactly the password it was derived from.
#[verifier::external_body]
pub(crate) fn argon2_hash(password: &str) -> (r: Option<String>)
    ensures
        r matches Some(h) ==> forall|q: Seq<char>| argon2_matches(h@, q) <==> q == password@,
{
    let salt = argon2::password_hash::SaltString::generate(
        &mut argon2::password_hash::rand_core::OsRng,
    );
    match argon2::PasswordHasher::hash_password(
        &argon2::Argon2::default(),
        password.as_bytes(),
        &salt,
    ) {
        Ok(h) => Some(h.to_string()),
        Err(_) => None,
    }
}

/// Relies on `PasswordHash::new` and `Argon2::verify_password` (argon2
/// crate): returns whether `password` matches the PHC hash string
/// `hash`; an unparsable hash string matches nothing.
#[verifier::external_body]
fn argon2_verify(hash: &str, password: &str) -> (r: bool)
    ensures
        r == argon2_matches(hash@, password@),
{
    match argon2::PasswordHash::new(hash) {
        Ok(parsed) => argon2::PasswordVerifier::verify_password(
            &argon2::Argon2::default(),
            password.as_bytes(),
            &parsed,
        ).is_ok(),
        Err(_) => false,
    }
}

/// Reasons a password cannot be installed.
#[derive(Debug)]
pub enum CredentialError {
    /// The password has fewer than `MIN_PASSWORD_CHARS` characters.
    TooShort,
    /// The hashing backend reported a failure.
    HashUnavailable,
    /// The current password offered for a change is wrong.
    WrongCurrent,
}

pub const MIN_PASSWORD_CHARS: usize = 8;

/// Holds the single (optional) password hash.
pub struct CredentialStore {
    hash: Option<String>,
}

impl View for CredentialStore {
    type V = Option<Seq<char>>;

    closed spec fn view(&self) -> Option<Seq<char>> {
        match self.hash {
            Some(h) => Some(h@),
            None => None,
        }
    }
}

/// A password is accepted exactly when a hash is present and the hash
/// matches it.
pub open spec fn credential_accepts(cred: Option<Seq<char>>, password: Seq<char>) -> bool {
    cred matches Some(h) && argon2_matches(h, password)
}

impl CredentialStore {
    /// An empty store: authentication disabled.
    pub fn new() -> (r: Self)
        ensures
            r@ is None,
    {
        CredentialStore { hash: None }
    }

    /// A store rebuilt from a persisted hash string.
    pub fn from_hash(hash: Option<String>) -> (r: Self)
        ensures
            r@ == match hash {
                Some(h) => Some::<Seq<char>>(h@),
                None => None::<Seq<char>>,
            },
    {
        CredentialStore { hash }
    }

    /// Replace the stored hash wholesale (configuration reload).
    pub fn reload(&mut self, hash: Option<String>)
        ensures
            final(self)@ == match hash {
                Some(h) => Some::<Seq<char>>(h@),
                None => None::<Seq<char>>,
            },
    {
        self.hash = hash;
    }

    pub fn is_set(&self) -> (r: bool)
        ensures
            r == (self@ is Some),
    {
        self.hash.is_some()
    }

    /// The stored hash string, if any (for persistence).
    pub fn hash_string(&self) -> (r: Option<String>)
        ensures
            r matches Some(h) ==> self@ == Some(h@),
            r is None <==> self@ is None,
    {
        match &self.hash {
            Some(h) => Some(h.clone()),
            None => None,
        }
    }

    /// Hash `password` with a fresh salt and install the hash.  Rejects
    /// passwords shorter than `MIN_PASSWORD_CHARS` characters; the store
    /// is unchanged on any error.
    pub fn set(&mut self, password: &str) -> (r: Result<(), CredentialError>)
        ensures
            (r == Err::<(), CredentialError>(CredentialError::TooShort)) <==> password@.len()
                < MIN_PASSWORD_CHARS,
            r is Err ==> r == Err::<(), CredentialError>(CredentialError::TooShort) || r
                == Err::<(), CredentialError>(CredentialError::HashUnavailable),
            r is Err ==> *final(self) == *old(self),
            r is Ok ==> final(self)@ is Some && (forall|q: Seq<char>|
                argon2_matches(final(self)@->0, q) <==> q == password@),
    {
        if password.unicode_len() < MIN_PASSWORD_CHARS {
            return Err(CredentialError::TooShort);
        }
        match argon2_hash(password) {
            Some(h) => {
                self.hash = Some(h);
                Ok(())
            },
            None => Err(CredentialError::HashUnavailable),
        }
    }

    /// Whether `password` matches the stored credential; always false
    /// when no credential is set.
    pub fn verify(&self, password: &str) -> (r: bool)
        ensures
            r == credential_accepts(self@, password@),
    {
        match &self.hash {
            Some(h) => argon2_verify(h.as_str(), password),
            None => false,
        }
    }

    /// Remove the credential; authentication becomes disabled.
    pub fn clear(&mut self)
        ensures
            final(self)@ is None,
    {
        self.hash = None;
    }
}

/// After a successful `set` of password `p`, `verify` accepts `p` and
/// rejects every other password.
pub proof fn lemma_set_then_verify(cred: Option<Seq<char>>, p: Seq<char>, q: Seq<char>)
    requires
        cred is Some,
        forall|w: Seq<char>| argon2_matches(cred->0, w) <==> w == p,
        q != p,
    ensures
        credential_accepts(cred, p),
        !credential_accepts(cred, q),
{
}

} // verus!
