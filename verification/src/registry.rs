//! The discovery-fed device registry.  Ephemeral records are keyed by
//! service name, which changes whenever a device's address or port
//! changes; the stable UUID carried in the TXT metadata re-identifies
//! the same logical device across that churn, so a re-resolved device
//! replaces its old record instead of appearing twice.

use vstd::prelude::*;

use crate::text::str_eq;

verus! {

/// One address a resolved service advertised, as the registry reads
/// it: its text form and the two classifications the choice rule uses.
pub struct NetAddress {
    pub text: String,
    pub is_ipv4: bool,
    pub is_loopback: bool,
}

/// One TXT property of a resolved service.
pub struct TxtProperty {
    pub key: String,
    pub value: String,
}

/// One ephemeral registry record.
pub struct DeviceInfo {
    /// The service name: ephemeral, changes with address or port.
    pub id: String,
    /// The stable identity.
    pub uuid: String,
    pub name: String,
    pub ip_address: String,
    pub port: u16,
    pub version: String,
    pub requires_auth: bool,
    pub discovered_at: u64,
}

impl Clone for DeviceInfo {
    fn clone(&self) -> (r: Self)
        ensures
            r == *self,
    {
        DeviceInfo {
            id: self.id.clone(),
            uuid: self.uuid.clone(),
            name: self.name.clone(),
            ip_address: self.ip_address.clone(),
            port: self.port,
            version: self.version.clone(),
            requires_auth: self.requires_auth,
            discovered_at: self.discovered_at,
        }
    }
}

/// What the discovery listener reports.
pub enum DiscoveryEvent {
    Resolved {
        service_name: String,
        hostname: String,
        addresses: Vec<NetAddress>,
        port: u16,
        txt: Vec<TxtProperty>,
    },
    Removed { service_name: String },
}

pub open spec fn ids_distinct(s: Seq<DeviceInfo>) -> bool {
    forall|i: int, j: int| 0 <= i < j < s.len() ==> s[i].id@ != s[j].id@
}

pub open spec fn uuids_distinct(s: Seq<DeviceInfo>) -> bool {
    forall|i: int, j: int| 0 <= i < j < s.len() ==> s[i].uuid@ != s[j].uuid@
}

pub open spec fn has_id(s: Seq<DeviceInfo>, id: Seq<char>) -> bool {
    exists|i: int| 0 <= i < s.len() && s[i].id@ == id
}

pub open spec fn has_uuid(s: Seq<DeviceInfo>, u: Seq<char>) -> bool {
    exists|i: int| 0 <= i < s.len() && s[i].uuid@ == u
}

pub open spec fn id_index(s: Seq<DeviceInfo>, id: Seq<char>) -> int
    decreases s.len(),
{
    if s.len() == 0 {
        0
    } else if s[0].id@ == id {
        0
    } else {
        1 + id_index(s.drop_first(), id)
    }
}

pub open spec fn uuid_index(s: Seq<DeviceInfo>, u: Seq<char>) -> int
    decreases s.len(),
{
    if s.len() == 0 {
        0
    } else if s[0].uuid@ == u {
        0
    } else {
        1 + uuid_index(s.drop_first(), u)
    }
}

pub proof fn lemma_id_index(s: Seq<DeviceInfo>, id: Seq<char>)
    requires
        has_id(s, id),
    ensures
        0 <= id_index(s, id) < s.len(),
        s[id_index(s, id)].id@ == id,
        forall|k: int| 0 <= k < id_index(s, id) ==> s[k].id@ != id,
    decreases s.len(),
{
    if s.len() == 0 {
    } else if s[0].id@ == id {
    } else {
        assert(has_id(s.drop_first(), id)) by {
            let i = choose|i: int| 0 <= i < s.len() && s[i].id@ == id;
            assert(s.drop_first()[i - 1] == s[i]);
        }
        lemma_id_index(s.drop_first(), id);
        assert forall|k: int| 0 <= k < id_index(s, id) implies s[k].id@ != id by {
            if k > 0 {
                assert(s.drop_first()[k - 1] == s[k]);
            }
        }
        assert(s.drop_first()[id_index(s, id) - 1] == s[id_index(s, id)]);
    }
}

pub proof fn lemma_uuid_index(s: Seq<DeviceInfo>, u: Seq<char>)
    requires
        has_uuid(s, u),
    ensures
        0 <= uuid_index(s, u) < s.len(),
        s[uuid_index(s, u)].uuid@ == u,
        forall|k: int| 0 <= k < uuid_index(s, u) ==> s[k].uuid@ != u,
    decreases s.len(),
{
    if s.len() == 0 {
    } else if s[0].uuid@ == u {
    } else {
        assert(has_uuid(s.drop_first(), u)) by {
            let i = choose|i: int| 0 <= i < s.len() && s[i].uuid@ == u;
            assert(s.drop_first()[i - 1] == s[i]);
        }
        lemma_uuid_index(s.drop_first(), u);
        assert forall|k: int| 0 <= k < uuid_index(s, u) implies s[k].uuid@ != u by {
            if k > 0 {
                assert(s.drop_first()[k - 1] == s[k]);
            }
        }
        assert(s.drop_first()[uuid_index(s, u) - 1] == s[uuid_index(s, u)]);
    }
}

/// Removing one record keeps both keys distinct and introduces none.
proof fn lemma_remove_device(s: Seq<DeviceInfo>, i: int)
    requires
        ids_distinct(s),
        uuids_distinct(s),
        0 <= i < s.len(),
    ensures
        ids_distinct(s.remove(i)),
        uuids_distinct(s.remove(i)),
        forall|x: Seq<char>| has_id(s.remove(i), x) ==> has_id(s, x),
        forall|x: Seq<char>| has_uuid(s.remove(i), x) ==> has_uuid(s, x),
{
    let r = s.remove(i);
    assert forall|a: int, b: int| 0 <= a < b < r.len() implies r[a].id@ != r[b].id@ && r[a].uuid@
        != r[b].uuid@ by {
        let a0 = if a < i { a } else { a + 1 };
        let b0 = if b < i { b } else { b + 1 };
        assert(r[a] == s[a0]);
        assert(r[b] == s[b0]);
    }
    assert forall|x: Seq<char>| has_id(r, x) implies has_id(s, x) by {
        let k = choose|k: int| 0 <= k < r.len() && r[k].id@ == x;
        let k0 = if k < i { k } else { k + 1 };
        assert(r[k] == s[k0]);
    }
    assert forall|x: Seq<char>| has_uuid(r, x) implies has_uuid(s, x) by {
        let k = choose|k: int| 0 <= k < r.len() && r[k].uuid@ == x;
        let k0 = if k < i { k } else { k + 1 };
        assert(r[k] == s[k0]);
    }
}

/// The registry after a device resolves: the record that carried the
/// same stable UUID goes (the identity persists, its old ephemeral
/// record does not), a record under the same service name goes, and
/// the new record is appended.
pub open spec fn resolved_result(s: Seq<DeviceInfo>, d: DeviceInfo) -> Seq<DeviceInfo> {
    let s1 = if has_uuid(s, d.uuid@) {
        s.remove(uuid_index(s, d.uuid@))
    } else {
        s
    };
    let s2 = if has_id(s1, d.id@) {
        s1.remove(id_index(s1, d.id@))
    } else {
        s1
    };
    s2.push(d)
}

/// The ephemeral registry.
pub struct DeviceRegistry {
    devices: Vec<DeviceInfo>,
}

impl View for DeviceRegistry {
    type V = Seq<DeviceInfo>;

    closed spec fn view(&self) -> Seq<DeviceInfo> {
        self.devices@
    }
}

impl DeviceRegistry {
    pub open spec fn wf(&self) -> bool {
        ids_distinct(self@) && uuids_distinct(self@)
    }

    pub fn new() -> (r: Self)
        ensures
            r.wf(),
            r@ == Seq::<DeviceInfo>::empty(),
    {
        DeviceRegistry { devices: Vec::new() }
    }

    /// Position of the record carrying `uuid`, if any.
    fn find_uuid(&self, uuid: &str) -> (r: Option<usize>)
        ensures
            r matches Some(i) ==> has_uuid(self@, uuid@) && i == uuid_index(self@, uuid@),
            r is None ==> !has_uuid(self@, uuid@),
    {
        let n = self.devices.len();
        let mut i: usize = 0;
        while i < n
            invariant
                n == self@.len(),
                0 <= i <= n,
                forall|k: int| 0 <= k < i ==> self@[k].uuid@ != uuid@,
            decreases n - i,
        {
            if str_eq(self.devices[i].uuid.as_str(), uuid) {
                proof {
                    lemma_uuid_index(self@, uuid@);
                }
                return Some(i);
            }
            i = i + 1;
        }
        None
    }

    /// Position of the record under `id`, if any.
    fn find_id(&self, id: &str) -> (r: Option<usize>)
        ensures
            r matches Some(i) ==> has_id(self@, id@) && i == id_index(self@, id@),
            r is None ==> !has_id(self@, id@),
    {
        let n = self.devices.len();
        let mut i: usize = 0;
        while i < n
            invariant
                n == self@.len(),
                0 <= i <= n,
                forall|k: int| 0 <= k < i ==> self@[k].id@ != id@,
            decreases n - i,
        {
            if str_eq(self.devices[i].id.as_str(), id) {
                proof {
                    lemma_id_index(self@, id@);
                }
                return Some(i);
            }
            i = i + 1;
        }
        None
    }

    /// Fold a freshly resolved record in, reconciling by stable UUID
    /// and by service name.
    pub fn upsert(&mut self, d: DeviceInfo)
        requires
            old(self).wf(),
        ensures
            final(self).wf(),
            final(self)@ == resolved_result(old(self)@, d),
    {
        let ghost s0 = self@;
        match self.find_uuid(d.uuid.as_str()) {
            Some(i) => {
                proof {
                    lemma_uuid_index(s0, d.uuid@);
                    lemma_remove_device(s0, i as int);
                }
                self.devices.remove(i);
            },
            None => {},
        }
        let ghost s1 = self@;
        match self.find_id(d.id.as_str()) {
            Some(j) => {
                proof {
                    lemma_id_index(s1, d.id@);
                    lemma_remove_device(s1, j as int);
                }
                self.devices.remove(j);
            },
            None => {},
        }
        let ghost s2 = self@;
        proof {
            assert(!has_uuid(s2, d.uuid@)) by {
                if has_uuid(s0, d.uuid@) {
                    let ui = uuid_index(s0, d.uuid@);
                    lemma_uuid_index(s0, d.uuid@);
                    assert forall|k: int| 0 <= k < s1.len() implies s1[k].uuid@ != d.uuid@ by {
                        let k0 = if k < ui { k } else { k + 1 };
                        assert(s1[k] == s0[k0]);
                    }
                    if has_uuid(s2, d.uuid@) {
                        let k = choose|k: int| 0 <= k < s2.len() && s2[k].uuid@ == d.uuid@;
                        if s2.len() < s1.len() {
                            let ii = id_index(s1, d.id@);
                            let k0 = if k < ii { k } else { k + 1 };
                            assert(s2[k] == s1[k0]);
                        }
                    }
                }
            }
            assert(!has_id(s2, d.id@)) by {
                if has_id(s1, d.id@) {
                    let ii = id_index(s1, d.id@);
                    lemma_id_index(s1, d.id@);
                    assert forall|k: int| 0 <= k < s2.len() implies s2[k].id@ != d.id@ by {
                        let k0 = if k < ii { k } else { k + 1 };
                        assert(s2[k] == s1[k0]);
                    }
                }
            }
        }
        self.devices.push(d);
        proof {
            assert forall|a: int, b: int| 0 <= a < b < self@.len() implies self@[a].id@
                != self@[b].id@ && self@[a].uuid@ != self@[b].uuid@ by {
                if b < self@.len() - 1 {
                    assert(self@[a] == s2[a] && self@[b] == s2[b]);
                } else {
                    assert(self@[a] == s2[a]);
                }
            }
        }
    }

    /// Drop the record under `service_name`; nothing happens when it is
    /// not there.
    pub fn remove_service(&mut self, service_name: &str)
        requires
            old(self).wf(),
        ensures
            final(self).wf(),
            has_id(old(self)@, service_name@) ==> final(self)@ == old(self)@.remove(
                id_index(old(self)@, service_name@),
            ),
            !has_id(old(self)@, service_name@) ==> final(self)@ == old(self)@,
    {
        let ghost s0 = self@;
        match self.find_id(service_name) {
            Some(i) => {
                proof {
                    lemma_id_index(s0, service_name@);
                    lemma_remove_device(s0, i as int);
                }
                self.devices.remove(i);
            },
            None => {},
        }
    }

    /// Every current record, in registry order.
    pub fn get_devices(&self) -> (r: Vec<DeviceInfo>)
        ensures
            r@ == self@,
    {
        let n = self.devices.len();
        let mut r: Vec<DeviceInfo> = Vec::new();
        while r.len() < n
            invariant
                n == self@.len(),
                r@.len() <= n,
                r@ =~= self@.subrange(0, r@.len() as int),
            decreases n - r@.len(),
        {
            let i = r.len();
            r.push(self.devices[i].clone());
            proof {
                assert(r@ =~= self@.subrange(0, r@.len() as int));
            }
        }
        proof {
            assert(self@.subrange(0, n as int) =~= self@);
        }
        r
    }

    /// The record carrying `uuid`, if any.
    pub fn get_device_by_uuid(&self, uuid: &str) -> (r: Option<DeviceInfo>)
        requires
            self.wf(),
        ensures
            r matches Some(d) ==> has_uuid(self@, uuid@) && d == self@[uuid_index(self@, uuid@)],
            r is None <==> !has_uuid(self@, uuid@),
    {
        match self.find_uuid(uuid) {
            Some(i) => {
                proof {
                    lemma_uuid_index(self@, uuid@);
                }
                Some(self.devices[i].clone())
            },
            None => None,
        }
    }

    /// Number of current records.
    pub fn count(&self) -> (r: usize)
        ensures
            r == self@.len(),
    {
        self.devices.len()
    }
}

/// Re-identification across address churn: when the registry holds the
/// stable UUID of a freshly resolved device under another service
/// name, folding the new record in leaves exactly one record for that
/// UUID — the new one — and none under the old service name.
pub proof fn lemma_stable_identity(s: Seq<DeviceInfo>, d: DeviceInfo, j: int)
    requires
        ids_distinct(s),
        uuids_distinct(s),
        0 <= j < s.len(),
        s[j].uuid@ == d.uuid@,
        s[j].id@ != d.id@,
    ensures
        ({
            let r = resolved_result(s, d);
            &&& r.len() >= 1
            &&& r[r.len() - 1] == d
            &&& forall|i: int| 0 <= i < r.len() - 1 ==> r[i].uuid@ != d.uuid@
            &&& forall|i: int| 0 <= i < r.len() ==> r[i].id@ != s[j].id@
        }),
{
    let r = resolved_result(s, d);
    assert(has_uuid(s, d.uuid@));
    lemma_uuid_index(s, d.uuid@);
    let ui = uuid_index(s, d.uuid@);
    assert(ui == j) by {
        if ui != j {
            assert(s[ui].uuid@ == s[j].uuid@);
        }
    }
    let s1 = s.remove(j);
    assert forall|k: int| 0 <= k < s1.len() implies s1[k].uuid@ != d.uuid@ && s1[k].id@
        != s[j].id@ by {
        let k0 = if k < j { k } else { k + 1 };
        assert(s1[k] == s[k0]);
    }
    let s2 = if has_id(s1, d.id@) {
        s1.remove(id_index(s1, d.id@))
    } else {
        s1
    };
    if has_id(s1, d.id@) {
        lemma_id_index(s1, d.id@);
        assert forall|k: int| 0 <= k < s2.len() implies s2[k].uuid@ != d.uuid@ && s2[k].id@
            != s[j].id@ by {
            let ii = id_index(s1, d.id@);
            let k0 = if k < ii { k } else { k + 1 };
            assert(s2[k] == s1[k0]);
        }
    }
    assert forall|i: int| 0 <= i < r.len() - 1 implies r[i].uuid@ != d.uuid@ by {
        assert(r[i] == s2[i]);
    }
    assert forall|i: int| 0 <= i < r.len() implies r[i].id@ != s[j].id@ by {
        if i < r.len() - 1 {
            assert(r[i] == s2[i]);
        } else {
            assert(r[i] == d);
        }
    }
}

} // verus!
