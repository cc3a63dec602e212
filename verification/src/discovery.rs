//! Reading a resolved mDNS service into a registry record: address
//! choice, case-insensitive TXT metadata, hostname cleanup.

use vstd::prelude::*;

use crate::registry::{
    has_id, id_index, resolved_result, DeviceInfo, DeviceRegistry, DiscoveryEvent, NetAddress,
    TxtProperty,
};
use crate::text::str_eq;

verus! {

/// An address the choice rule prefers outright.
pub open spec fn is_preferred_v4(a: NetAddress) -> bool {
    a.is_ipv4 && !a.is_loopback
}

/// Index of the first non-loopback IPv4 address (`s.len()` if none).
pub open spec fn first_v4(s: Seq<NetAddress>) -> nat
    decreases s.len(),
{
    if s.len() == 0 {
        0
    } else if is_preferred_v4(s[0]) {
        0
    } else {
        1 + first_v4(s.drop_first())
    }
}

/// Index of the first non-loopback address of any family.
pub open spec fn first_non_loopback(s: Seq<NetAddress>) -> nat
    decreases s.len(),
{
    if s.len() == 0 {
        0
    } else if !s[0].is_loopback {
        0
    } else {
        1 + first_non_loopback(s.drop_first())
    }
}

/// The address a resolved service is recorded under: the first
/// non-loopback IPv4, else the first non-loopback of any family, else
/// the first address at all.
pub open spec fn chosen_address(s: Seq<NetAddress>) -> int {
    if first_v4(s) < s.len() {
        first_v4(s) as int
    } else if first_non_loopback(s) < s.len() {
        first_non_loopback(s) as int
    } else {
        0
    }
}

proof fn lemma_first_v4_at(s: Seq<NetAddress>, j: int)
    requires
        0 <= j <= s.len(),
        forall|k: int| 0 <= k < j ==> !is_preferred_v4(s[k]),
        j < s.len() ==> is_preferred_v4(s[j]),
    ensures
        first_v4(s) == j,
    decreases s.len(),
{
    if s.len() == 0 {
    } else if j == 0 {
    } else {
        assert(!is_preferred_v4(s[0]));
        assert forall|k: int| 0 <= k < j - 1 implies !is_preferred_v4(s.drop_first()[k]) by {
            assert(s.drop_first()[k] == s[k + 1]);
        }
        if j - 1 < s.drop_first().len() {
            assert(s.drop_first()[j - 1] == s[j]);
        }
        lemma_first_v4_at(s.drop_first(), j - 1);
    }
}

proof fn lemma_first_non_loopback_at(s: Seq<NetAddress>, j: int)
    requires
        0 <= j <= s.len(),
        forall|k: int| 0 <= k < j ==> s[k].is_loopback,
        j < s.len() ==> !s[j].is_loopback,
    ensures
        first_non_loopback(s) == j,
    decreases s.len(),
{
    if s.len() == 0 {
    } else if j == 0 {
    } else {
        assert(s[0].is_loopback);
        assert forall|k: int| 0 <= k < j - 1 implies s.drop_first()[k].is_loopback by {
            assert(s.drop_first()[k] == s[k + 1]);
        }
        if j - 1 < s.drop_first().len() {
            assert(s.drop_first()[j - 1] == s[j]);
        }
        lemma_first_non_loopback_at(s.drop_first(), j - 1);
    }
}

/// Pick the address index the choice rule names, if any address came.
pub fn choose_address(addrs: &Vec<NetAddress>) -> (r: Option<usize>)
    ensures
        r is None <==> addrs@.len() == 0,
        r matches Some(i) ==> i == chosen_address(addrs@) && i < addrs@.len(),
{
    let n = addrs.len();
    if n == 0 {
        return None;
    }
    let mut i: usize = 0;
    while i < n
        invariant
            n == addrs@.len(),
            0 <= i <= n,
            forall|k: int| 0 <= k < i ==> !is_preferred_v4(addrs@[k]),
        decreases n - i,
    {
        if addrs[i].is_ipv4 && !addrs[i].is_loopback {
            proof {
                lemma_first_v4_at(addrs@, i as int);
            }
            return Some(i);
        }
        i = i + 1;
    }
    proof {
        lemma_first_v4_at(addrs@, n as int);
    }
    let mut j: usize = 0;
    while j < n
        invariant
            n == addrs@.len(),
            first_v4(addrs@) == n,
            0 <= j <= n,
            forall|k: int| 0 <= k < j ==> addrs@[k].is_loopback,
        decreases n - j,
    {
        if !addrs[j].is_loopback {
            proof {
                lemma_first_non_loopback_at(addrs@, j as int);
            }
            return Some(j);
        }
        j = j + 1;
    }
    proof {
        lemma_first_non_loopback_at(addrs@, n as int);
    }
    Some(0)
}

/// Case-insensitive `uuid` key.
pub open spec fn is_uuid_key(k: Seq<char>) -> bool {
    k.len() == 4 && (k[0] == 'u' || k[0] == 'U') && (k[1] == 'u' || k[1] == 'U') && (k[2] == 'i'
        || k[2] == 'I') && (k[3] == 'd' || k[3] == 'D')
}

/// Case-insensitive `version` key.
pub open spec fn is_version_key(k: Seq<char>) -> bool {
    k.len() == 7 && (k[0] == 'v' || k[0] == 'V') && (k[1] == 'e' || k[1] == 'E') && (k[2] == 'r'
        || k[2] == 'R') && (k[3] == 's' || k[3] == 'S') && (k[4] == 'i' || k[4] == 'I') && (k[5]
        == 'o' || k[5] == 'O') && (k[6] == 'n' || k[6] == 'N')
}

/// Case-insensitive `auth` key.
pub open spec fn is_auth_key(k: Seq<char>) -> bool {
    k.len() == 4 && (k[0] == 'a' || k[0] == 'A') && (k[1] == 'u' || k[1] == 'U') && (k[2] == 't'
        || k[2] == 'T') && (k[3] == 'h' || k[3] == 'H')
}

/// Index of the first property with the `uuid` key (`len` if none).
pub open spec fn first_uuid_prop(txt: Seq<TxtProperty>) -> nat
    decreases txt.len(),
{
    if txt.len() == 0 {
        0
    } else if is_uuid_key(txt[0].key@) {
        0
    } else {
        1 + first_uuid_prop(txt.drop_first())
    }
}

/// Index of the first property with the `version` key (`len` if none).
pub open spec fn first_version_prop(txt: Seq<TxtProperty>) -> nat
    decreases txt.len(),
{
    if txt.len() == 0 {
        0
    } else if is_version_key(txt[0].key@) {
        0
    } else {
        1 + first_version_prop(txt.drop_first())
    }
}

/// Index of the first property with the `auth` key (`len` if none).
pub open spec fn first_auth_prop(txt: Seq<TxtProperty>) -> nat
    decreases txt.len(),
{
    if txt.len() == 0 {
        0
    } else if is_auth_key(txt[0].key@) {
        0
    } else {
        1 + first_auth_prop(txt.drop_first())
    }
}

/// The value under the first `uuid` key, if any.
pub open spec fn uuid_value(txt: Seq<TxtProperty>) -> Option<Seq<char>> {
    if first_uuid_prop(txt) < txt.len() {
        Some(txt[first_uuid_prop(txt) as int].value@)
    } else {
        None
    }
}

/// The value under the first `version` key, if any.
pub open spec fn version_value(txt: Seq<TxtProperty>) -> Option<Seq<char>> {
    if first_version_prop(txt) < txt.len() {
        Some(txt[first_version_prop(txt) as int].value@)
    } else {
        None
    }
}

/// The value under the first `auth` key, if any.
pub open spec fn auth_value(txt: Seq<TxtProperty>) -> Option<Seq<char>> {
    if first_auth_prop(txt) < txt.len() {
        Some(txt[first_auth_prop(txt) as int].value@)
    } else {
        None
    }
}

proof fn lemma_first_uuid_prop_at(txt: Seq<TxtProperty>, j: int)
    requires
        0 <= j <= txt.len(),
        forall|k: int| 0 <= k < j ==> !is_uuid_key(txt[k].key@),
        j < txt.len() ==> is_uuid_key(txt[j].key@),
    ensures
        first_uuid_prop(txt) == j,
    decreases txt.len(),
{
    if txt.len() == 0 {
    } else if j == 0 {
    } else {
        assert(!is_uuid_key(txt[0].key@));
        assert forall|k: int| 0 <= k < j - 1 implies !is_uuid_key(txt.drop_first()[k].key@) by {
            assert(txt.drop_first()[k] == txt[k + 1]);
        }
        if j - 1 < txt.drop_first().len() {
            assert(txt.drop_first()[j - 1] == txt[j]);
        }
        lemma_first_uuid_prop_at(txt.drop_first(), j - 1);
    }
}

proof fn lemma_first_version_prop_at(txt: Seq<TxtProperty>, j: int)
    requires
        0 <= j <= txt.len(),
        forall|k: int| 0 <= k < j ==> !is_version_key(txt[k].key@),
        j < txt.len() ==> is_version_key(txt[j].key@),
    ensures
        first_version_prop(txt) == j,
    decreases txt.len(),
{
    if txt.len() == 0 {
    } else if j == 0 {
    } else {
        assert(!is_version_key(txt[0].key@));
        assert forall|k: int| 0 <= k < j - 1 implies !is_version_key(
            txt.drop_first()[k].key@,
        ) by {
            assert(txt.drop_first()[k] == txt[k + 1]);
        }
        if j - 1 < txt.drop_first().len() {
            assert(txt.drop_first()[j - 1] == txt[j]);
        }
        lemma_first_version_prop_at(txt.drop_first(), j - 1);
    }
}

proof fn lemma_first_auth_prop_at(txt: Seq<TxtProperty>, j: int)
    requires
        0 <= j <= txt.len(),
        forall|k: int| 0 <= k < j ==> !is_auth_key(txt[k].key@),
        j < txt.len() ==> is_auth_key(txt[j].key@),
    ensures
        first_auth_prop(txt) == j,
    decreases txt.len(),
{
    if txt.len() == 0 {
    } else if j == 0 {
    } else {
        assert(!is_auth_key(txt[0].key@));
        assert forall|k: int| 0 <= k < j - 1 implies !is_auth_key(txt.drop_first()[k].key@) by {
            assert(txt.drop_first()[k] == txt[k + 1]);
        }
        if j - 1 < txt.drop_first().len() {
            assert(txt.drop_first()[j - 1] == txt[j]);
        }
        lemma_first_auth_prop_at(txt.drop_first(), j - 1);
    }
}

/// Executable check of the `uuid` key.
fn uuid_key(k: &str) -> (r: bool)
    ensures
        r == is_uuid_key(k@),
{
    if k.unicode_len() != 4 {
        return false;
    }
    let c0 = k.get_char(0);
    let c1 = k.get_char(1);
    let c2 = k.get_char(2);
    let c3 = k.get_char(3);
    (c0 == 'u' || c0 == 'U') && (c1 == 'u' || c1 == 'U') && (c2 == 'i' || c2 == 'I') && (c3
        == 'd' || c3 == 'D')
}

/// Executable check of the `version` key.
fn version_key(k: &str) -> (r: bool)
    ensures
        r == is_version_key(k@),
{
    if k.unicode_len() != 7 {
        return false;
    }
    let c0 = k.get_char(0);
    let c1 = k.get_char(1);
    let c2 = k.get_char(2);
    let c3 = k.get_char(3);
    let c4 = k.get_char(4);
    let c5 = k.get_char(5);
    let c6 = k.get_char(6);
    (c0 == 'v' || c0 == 'V') && (c1 == 'e' || c1 == 'E') && (c2 == 'r' || c2 == 'R') && (c3
        == 's' || c3 == 'S') && (c4 == 'i' || c4 == 'I') && (c5 == 'o' || c5 == 'O') && (c6
        == 'n' || c6 == 'N')
}

/// Executable check of the `auth` key.
fn auth_key(k: &str) -> (r: bool)
    ensures
        r == is_auth_key(k@),
{
    if k.unicode_len() != 4 {
        return false;
    }
    let c0 = k.get_char(0);
    let c1 = k.get_char(1);
    let c2 = k.get_char(2);
    let c3 = k.get_char(3);
    (c0 == 'a' || c0 == 'A') && (c1 == 'u' || c1 == 'U') && (c2 == 't' || c2 == 'T') && (c3
        == 'h' || c3 == 'H')
}

/// The value under the case-insensitive `uuid` key, if any.
pub fn find_uuid_value(txt: &Vec<TxtProperty>) -> (r: Option<String>)
    ensures
        r matches Some(v) ==> uuid_value(txt@) == Some(v@),
        r is None <==> uuid_value(txt@) is None,
{
    let n = txt.len();
    let mut i: usize = 0;
    while i < n
        invariant
            n == txt@.len(),
            0 <= i <= n,
            forall|k: int| 0 <= k < i ==> !is_uuid_key(txt@[k].key@),
        decreases n - i,
    {
        if uuid_key(txt[i].key.as_str()) {
            proof {
                lemma_first_uuid_prop_at(txt@, i as int);
            }
            return Some(txt[i].value.clone());
        }
        i = i + 1;
    }
    proof {
        lemma_first_uuid_prop_at(txt@, n as int);
    }
    None
}

/// The value under the case-insensitive `version` key, if any.
pub fn find_version_value(txt: &Vec<TxtProperty>) -> (r: Option<String>)
    ensures
        r matches Some(v) ==> version_value(txt@) == Some(v@),
        r is None <==> version_value(txt@) is None,
{
    let n = txt.len();
    let mut i: usize = 0;
    while i < n
        invariant
            n == txt@.len(),
            0 <= i <= n,
            forall|k: int| 0 <= k < i ==> !is_version_key(txt@[k].key@),
        decreases n - i,
    {
        if version_key(txt[i].key.as_str()) {
            proof {
                lemma_first_version_prop_at(txt@, i as int);
            }
            return Some(txt[i].value.clone());
        }
        i = i + 1;
    }
    proof {
        lemma_first_version_prop_at(txt@, n as int);
    }
    None
}

/// The value under the case-insensitive `auth` key, if any.
pub fn find_auth_value(txt: &Vec<TxtProperty>) -> (r: Option<String>)
    ensures
        r matches Some(v) ==> auth_value(txt@) == Some(v@),
        r is None <==> auth_value(txt@) is None,
{
    let n = txt.len();
    let mut i: usize = 0;
    while i < n
        invariant
            n == txt@.len(),
            0 <= i <= n,
            forall|k: int| 0 <= k < i ==> !is_auth_key(txt@[k].key@),
        decreases n - i,
    {
        if auth_key(txt[i].key.as_str()) {
            proof {
                lemma_first_auth_prop_at(txt@, i as int);
            }
            return Some(txt[i].value.clone());
        }
        i = i + 1;
    }
    proof {
        lemma_first_auth_prop_at(txt@, n as int);
    }
    None
}

/// Whether `s` ends in `suffix`.
pub open spec fn ends_with(s: Seq<char>, suffix: Seq<char>) -> bool {
    s.len() >= suffix.len() && s.subrange(s.len() - suffix.len(), s.len() as int) == suffix
}

/// `s` with one trailing `suffix` dropped, when it has one.
pub open spec fn strip_suffix(s: Seq<char>, suffix: Seq<char>) -> Seq<char> {
    if ends_with(s, suffix) {
        s.subrange(0, s.len() - suffix.len())
    } else {
        s
    }
}

/// Executable suffix test.
pub fn ends_with_str(s: &str, suffix: &str) -> (r: bool)
    ensures
        r == ends_with(s@, suffix@),
{
    let n = s.unicode_len();
    let m = suffix.unicode_len();
    if n < m {
        return false;
    }
    let tail = s.substring_char(n - m, n);
    let r = str_eq(tail, suffix);
    proof {
        assert(tail@ == s@.subrange(n - m, n as int));
    }
    r
}

/// Executable suffix strip.
pub fn strip_suffix_str(s: &str, suffix: &str) -> (r: String)
    ensures
        r@ == strip_suffix(s@, suffix@),
{
    let n = s.unicode_len();
    let m = suffix.unicode_len();
    if ends_with_str(s, suffix) {
        s.substring_char(0, n - m).to_owned()
    } else {
        s.to_owned()
    }
}

/// The display name drawn from a hostname: the `.local.` (or
/// `.local`) suffix dropped.
pub open spec fn clean_hostname(h: Seq<char>) -> Seq<char> {
    strip_suffix(strip_suffix(h, ".local."@), ".local"@)
}

/// The stable identity a resolved service reports: its `uuid` TXT
/// value, or — degraded — the service name itself.
pub open spec fn resolved_uuid(txt: Seq<TxtProperty>, service_name: Seq<char>) -> Seq<char> {
    match uuid_value(txt) {
        Some(u) => u,
        None => service_name,
    }
}

/// The protocol version a resolved service reports (`1.0.0` if none).
pub open spec fn resolved_version(txt: Seq<TxtProperty>) -> Seq<char> {
    match version_value(txt) {
        Some(v) => v,
        None => "1.0.0"@,
    }
}

/// Whether a resolved service demands authentication: only when its
/// `auth` TXT value is exactly `required`.
pub open spec fn resolved_requires_auth(txt: Seq<TxtProperty>) -> bool {
    auth_value(txt) == Some("required"@)
}

/// The registry record a resolved service turns into; nothing, when it
/// advertised no address at all.
pub fn device_from_resolved(
    service_name: String,
    hostname: &str,
    addresses: &Vec<NetAddress>,
    port: u16,
    txt: &Vec<TxtProperty>,
    now: u64,
) -> (r: Option<DeviceInfo>)
    ensures
        r is None <==> addresses@.len() == 0,
        r matches Some(d) ==> {
            &&& d.id@ == service_name@
            &&& d.uuid@ == resolved_uuid(txt@, service_name@)
            &&& d.name@ == clean_hostname(hostname@)
            &&& d.ip_address@ == addresses@[chosen_address(addresses@)].text@
            &&& d.port == port
            &&& d.version@ == resolved_version(txt@)
            &&& d.requires_auth == resolved_requires_auth(txt@)
            &&& d.discovered_at == now
        },
{
    let chosen = match choose_address(addresses) {
        None => {
            return None;
        },
        Some(i) => i,
    };
    let uuid = match find_uuid_value(txt) {
        Some(u) => u,
        None => service_name.clone(),
    };
    let version = match find_version_value(txt) {
        Some(v) => v,
        None => "1.0.0".to_owned(),
    };
    let requires_auth = match find_auth_value(txt) {
        Some(v) => str_eq(v.as_str(), "required"),
        None => false,
    };
    let name = strip_suffix_str(strip_suffix_str(hostname, ".local.").as_str(), ".local");
    Some(
        DeviceInfo {
            id: service_name,
            uuid,
            name,
            ip_address: addresses[chosen].text.clone(),
            port,
            version,
            requires_auth,
            discovered_at: now,
        },
    )
}

/// Whether `d` is the record that a `Resolved` event with these fields
/// produces.
pub open spec fn matches_resolved(
    d: DeviceInfo,
    service_name: Seq<char>,
    hostname: Seq<char>,
    addresses: Seq<NetAddress>,
    port: u16,
    txt: Seq<TxtProperty>,
    now: int,
) -> bool {
    &&& d.id@ == service_name
    &&& d.uuid@ == resolved_uuid(txt, service_name)
    &&& d.name@ == clean_hostname(hostname)
    &&& d.ip_address@ == addresses[chosen_address(addresses)].text@
    &&& d.port == port
    &&& d.version@ == resolved_version(txt)
    &&& d.requires_auth == resolved_requires_auth(txt)
    &&& d.discovered_at == now
}

impl DeviceRegistry {
    /// Consume one discovery event at `now`: a resolution folds the
    /// described record in (or does nothing when the service had no
    /// address), a removal drops the record under that service name.
    pub fn handle_event(&mut self, event: DiscoveryEvent, now: u64)
        requires
            old(self).wf(),
        ensures
            final(self).wf(),
            event matches DiscoveryEvent::Removed { service_name } ==> if has_id(
                old(self)@,
                service_name@,
            ) {
                final(self)@ == old(self)@.remove(id_index(old(self)@, service_name@))
            } else {
                final(self)@ == old(self)@
            },
            event matches DiscoveryEvent::Resolved {
                service_name,
                hostname,
                addresses,
                port,
                txt,
            } ==> if addresses@.len() == 0 {
                final(self)@ == old(self)@
            } else {
                exists|d: DeviceInfo|
                    matches_resolved(
                        d,
                        service_name@,
                        hostname@,
                        addresses@,
                        port,
                        txt@,
                        now as int,
                    ) && final(self)@ == resolved_result(old(self)@, d)
            },
    {
        match event {
            DiscoveryEvent::Removed { service_name } => {
                self.remove_service(service_name.as_str());
            },
            DiscoveryEvent::Resolved { service_name, hostname, addresses, port, txt } => {
                match device_from_resolved(
                    service_name,
                    hostname.as_str(),
                    &addresses,
                    port,
                    &txt,
                    now,
                ) {
                    Some(d) => {
                        self.upsert(d);
                    },
                    None => {},
                }
            },
        }
    }
}


/// The service instance name a device advertises: a fixed prefix and
/// the first eight characters of its stable UUID.
pub fn service_instance_name(device_uuid: &str) -> (r: String)
    requires
        device_uuid@.len() >= 8,
    ensures
        r@ == "LanDevice-"@ + device_uuid@.subrange(0, 8),
{
    let mut name = "LanDevice-".to_owned();
    name.append(device_uuid.substring_char(0, 8));
    name
}

/// The TXT properties the device advertises about itself.
pub fn service_txt_properties(
    version: String,
    device: String,
    uuid: String,
    port_text: String,
) -> (r: Vec<TxtProperty>)
    ensures
        r@.len() == 6,
        r@[0].key@ == "version"@ && r@[0].value@ == version@,
        r@[1].key@ == "protocol"@ && r@[1].value@ == "tcp"@,
        r@[2].key@ == "auth"@ && r@[2].value@ == "required"@,
        r@[3].key@ == "device"@ && r@[3].value@ == device@,
        r@[4].key@ == "uuid"@ && r@[4].value@ == uuid@,
        r@[5].key@ == "port"@ && r@[5].value@ == port_text@,
{
    let mut r: Vec<TxtProperty> = Vec::new();
    r.push(TxtProperty { key: "version".to_owned(), value: version });
    r.push(TxtProperty { key: "protocol".to_owned(), value: "tcp".to_owned() });
    r.push(TxtProperty { key: "auth".to_owned(), value: "required".to_owned() });
    r.push(TxtProperty { key: "device".to_owned(), value: device });
    r.push(TxtProperty { key: "uuid".to_owned(), value: uuid });
    r.push(TxtProperty { key: "port".to_owned(), value: port_text });
    r
}
} // verus!
