//! The challenge-response digest of the login protocol.

use vstd::prelude::*;

verus! {

/// The hex-encoded HMAC-SHA256 tag over `message`, keyed by `key`.  The
/// digest is a pure function of the two strings; it gets a name, and
/// nothing in this crate states what the name is on given values.
pub uninterp spec fn hmac_hex_of(key: Seq<char>, message: Seq<char>) -> Seq<char>;

/// Relies on the hmac crate (`Hmac<Sha256>`, which accepts keys of any
/// size) and `hex::encode`: the lower-case hex digest of the HMAC-SHA256
/// tag over `challenge`, keyed by `password` — 64 digits for the
/// 32-byte tag.
#[verifier::external_body]
pub fn calculate_hmac(challenge: &str, password: &str) -> (r: String)
    ensures
        r@ == hmac_hex_of(password@, challenge@),
        r@.len() == 64,
{
    let mut mac = <hmac::Hmac<sha2::Sha256> as hmac::Mac>::new_from_slice(password.as_bytes())
        .expect("HMAC accepts keys of any size");
    hmac::Mac::update(&mut mac, challenge.as_bytes());
    hex::encode(hmac::Mac::finalize(mac).into_bytes())
}

} // verus!
