//! The stable identity of a device: a persisted UUID, independent of
//! its current address and port.

use vstd::prelude::*;

verus! {

/// Whether `uuid::Uuid::parse_str` accepts `s`: a pure function of the
/// string, named here and pinned down nowhere.
pub uninterp spec fn uuid_parses(s: Seq<char>) -> bool;

/// Relies on `uuid::Uuid::new_v4` and its `Display` form: a fresh
/// random UUID as 36 hyphenated characters, which parse back.
#[verifier::external_body]
pub fn generate_device_id() -> (r: String)
    ensures
        r@.len() == 36,
        uuid_parses(r@),
{
    uuid::Uuid::new_v4().to_string()
}

/// A device identity, held only once its text passed UUID parsing.
pub struct DeviceId {
    uuid: String,
}

impl DeviceId {
    pub closed spec fn uuid_spec(&self) -> Seq<char> {
        self.uuid@
    }

    pub open spec fn wf(&self) -> bool {
        uuid_parses(self.uuid_spec())
    }

    /// Relies on `uuid::Uuid::parse_str`: whether `s` is a textual
    /// UUID.
    #[verifier::external_body]
    pub fn is_valid_uuid(s: &str) -> (r: bool)
        ensures
            r == uuid_parses(s@),
    {
        uuid::Uuid::parse_str(s).is_ok()
    }

    /// Accept a persisted identity only if it parses as a UUID.
    pub fn from_string(uuid: String) -> (r: Option<DeviceId>)
        ensures
            r matches Some(d) ==> d.wf() && d.uuid_spec() == uuid@,
            r is None <==> !uuid_parses(uuid@),
    {
        if Self::is_valid_uuid(uuid.as_str()) {
            Some(DeviceId { uuid })
        } else {
            None
        }
    }

    /// Mint a fresh identity.
    pub fn generate() -> (r: DeviceId)
        ensures
            r.wf(),
            r.uuid_spec().len() == 36,
    {
        DeviceId { uuid: generate_device_id() }
    }

    pub fn as_str(&self) -> (r: &str)
        ensures
            r@ == self.uuid_spec(),
    {
        self.uuid.as_str()
    }
}

} // verus!
