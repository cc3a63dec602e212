//! The peer-facing client side: the persisted device list merged by
//! stable UUID, the per-device credential cache, the per-request
//! context that carries a client address, and the typed reading of a
//! peer's auth-expiry answer.

use vstd::prelude::*;

use crate::models::{AuthResult, ConnectResult};
use crate::registry::DeviceInfo;
use crate::text::str_eq;

verus! {

/// One persisted device record.
pub struct SavedDevice {
    pub id: String,
    pub uuid: String,
    pub name: String,
    pub ip_address: String,
    pub port: u16,
    pub custom_name: Option<String>,
    pub last_connected: Option<u64>,
    pub created_at: u64,
}

impl Clone for SavedDevice {
    fn clone(&self) -> (r: Self)
        ensures
            r == *self,
    {
        SavedDevice {
            id: self.id.clone(),
            uuid: self.uuid.clone(),
            name: self.name.clone(),
            ip_address: self.ip_address.clone(),
            port: self.port,
            custom_name: match &self.custom_name {
                Some(c) => Some(c.clone()),
                None => None,
            },
            last_connected: self.last_connected,
            created_at: self.created_at,
        }
    }
}

pub open spec fn saved_uuids_distinct(s: Seq<SavedDevice>) -> bool {
    forall|i: int, j: int| 0 <= i < j < s.len() ==> s[i].uuid@ != s[j].uuid@
}

pub open spec fn saved_has_uuid(s: Seq<SavedDevice>, u: Seq<char>) -> bool {
    exists|i: int| 0 <= i < s.len() && s[i].uuid@ == u
}

pub open spec fn saved_uuid_index(s: Seq<SavedDevice>, u: Seq<char>) -> int
    decreases s.len(),
{
    if s.len() == 0 {
        0
    } else if s[0].uuid@ == u {
        0
    } else {
        1 + saved_uuid_index(s.drop_first(), u)
    }
}

pub proof fn lemma_saved_uuid_index(s: Seq<SavedDevice>, u: Seq<char>)
    requires
        saved_has_uuid(s, u),
    ensures
        0 <= saved_uuid_index(s, u) < s.len(),
        s[saved_uuid_index(s, u)].uuid@ == u,
        forall|k: int| 0 <= k < saved_uuid_index(s, u) ==> s[k].uuid@ != u,
    decreases s.len(),
{
    if s.len() == 0 {
    } else if s[0].uuid@ == u {
    } else {
        assert(saved_has_uuid(s.drop_first(), u)) by {
            let i = choose|i: int| 0 <= i < s.len() && s[i].uuid@ == u;
            assert(s.drop_first()[i - 1] == s[i]);
        }
        lemma_saved_uuid_index(s.drop_first(), u);
        assert forall|k: int| 0 <= k < saved_uuid_index(s, u) implies s[k].uuid@ != u by {
            if k > 0 {
                assert(s.drop_first()[k - 1] == s[k]);
            }
        }
        assert(s.drop_first()[saved_uuid_index(s, u) - 1] == s[saved_uuid_index(s, u)]);
    }
}

/// The saved list after recording `d`: a record with the same stable
/// UUID is updated in place — network coordinates and name move, the
/// custom name and creation time stay — and never duplicated; a new
/// UUID is appended.
pub open spec fn saved_merge(s: Seq<SavedDevice>, d: SavedDevice) -> Seq<SavedDevice> {
    if saved_has_uuid(s, d.uuid@) {
        let i = saved_uuid_index(s, d.uuid@);
        s.update(
            i,
            (SavedDevice {
                id: d.id,
                uuid: s[i].uuid,
                name: d.name,
                ip_address: d.ip_address,
                port: d.port,
                custom_name: s[i].custom_name,
                last_connected: d.last_connected,
                created_at: s[i].created_at,
            }),
        )
    } else {
        s.push(d)
    }
}

/// Whether a discovery record moves a saved record: same stable UUID,
/// different coordinates.
pub open spec fn coords_differ(s: Seq<SavedDevice>, d: DeviceInfo) -> bool {
    saved_has_uuid(s, d.uuid@) && {
        let i = saved_uuid_index(s, d.uuid@);
        s[i].ip_address@ != d.ip_address@ || s[i].port != d.port
    }
}

/// The saved list after one discovery record is reconciled: when the
/// same stable UUID sits there under other coordinates, its address,
/// port and ephemeral id are updated in place; otherwise nothing moves.
pub open spec fn coord_merge(s: Seq<SavedDevice>, d: DeviceInfo) -> Seq<SavedDevice> {
    if coords_differ(s, d) {
        let i = saved_uuid_index(s, d.uuid@);
        s.update(
            i,
            (SavedDevice {
                id: d.id,
                uuid: s[i].uuid,
                name: s[i].name,
                ip_address: d.ip_address,
                port: d.port,
                custom_name: s[i].custom_name,
                last_connected: s[i].last_connected,
                created_at: s[i].created_at,
            }),
        )
    } else {
        s
    }
}

/// `coord_merge`, folded over a run of discovery records in order.
pub open spec fn coord_merge_all(s: Seq<SavedDevice>, ds: Seq<DeviceInfo>) -> Seq<SavedDevice>
    decreases ds.len(),
{
    if ds.len() == 0 {
        s
    } else {
        coord_merge_all(coord_merge(s, ds[0]), ds.drop_first())
    }
}

proof fn lemma_coord_merge_all_snoc(s: Seq<SavedDevice>, ds: Seq<DeviceInfo>, d: DeviceInfo)
    ensures
        coord_merge_all(s, ds.push(d)) == coord_merge(coord_merge_all(s, ds), d),
    decreases ds.len(),
{
    let p = ds.push(d);
    if ds.len() == 0 {
        assert(p[0] == d);
        assert(p.drop_first() =~= Seq::<DeviceInfo>::empty());
        assert(coord_merge_all(s, p) == coord_merge_all(coord_merge(s, p[0]), p.drop_first()));
        assert(coord_merge_all(coord_merge(s, p[0]), p.drop_first()) == coord_merge(s, p[0]));
        assert(coord_merge_all(s, ds) == s);
    } else {
        assert(p[0] == ds[0]);
        assert(p.drop_first() =~= ds.drop_first().push(d));
        lemma_coord_merge_all_snoc(coord_merge(s, ds[0]), ds.drop_first(), d);
        assert(coord_merge_all(s, p) == coord_merge_all(coord_merge(s, p[0]), p.drop_first()));
        assert(coord_merge_all(s, ds) == coord_merge_all(coord_merge(s, ds[0]), ds.drop_first()));
    }
}

/// Order-preserving dedupe of persisted records: for each stable UUID,
/// the first record wins.
pub open spec fn dedupe_by_uuid(s: Seq<SavedDevice>) -> Seq<SavedDevice>
    decreases s.len(),
{
    if s.len() == 0 {
        Seq::empty()
    } else {
        let rest = dedupe_by_uuid(s.drop_last());
        if saved_has_uuid(s.drop_last(), s.last().uuid@) {
            rest
        } else {
            rest.push(s.last())
        }
    }
}

/// The persisted device list, with a dirty flag for one batched write.
pub struct KnownDeviceStore {
    devices: Vec<SavedDevice>,
    dirty: bool,
}

impl View for KnownDeviceStore {
    type V = Seq<SavedDevice>;

    closed spec fn view(&self) -> Seq<SavedDevice> {
        self.devices@
    }
}

impl KnownDeviceStore {
    pub closed spec fn is_dirty(&self) -> bool {
        self.dirty
    }

    pub open spec fn wf(&self) -> bool {
        saved_uuids_distinct(self@)
    }

    /// A store over the records read back from disk, one per identity:
    /// for each stable UUID the first record wins, later ones are
    /// dropped, order is kept.
    pub fn load(records: Vec<SavedDevice>) -> (r: Self)
        ensures
            r.wf(),
            !r.is_dirty(),
            r@ == dedupe_by_uuid(records@),
    {
        let mut kept: Vec<SavedDevice> = Vec::new();
        let n = records.len();
        let mut i: usize = 0;
        proof {
            assert(records@.subrange(0, 0) =~= Seq::<SavedDevice>::empty());
        }
        while i < n
            invariant
                n == records@.len(),
                0 <= i <= n,
                saved_uuids_distinct(kept@),
                kept@ == dedupe_by_uuid(records@.subrange(0, i as int)),
                forall|u: Seq<char>|
                    saved_has_uuid(kept@, u) <==> saved_has_uuid(
                        records@.subrange(0, i as int),
                        u,
                    ),
            decreases n - i,
        {
            let ghost prefix = records@.subrange(0, i as int);
            let ghost cur = records@.subrange(0, i + 1);
            proof {
                assert(cur.drop_last() =~= prefix);
                assert(cur.last() == records@[i as int]);
            }
            let mut present = false;
            let m = kept.len();
            let mut j: usize = 0;
            while j < m
                invariant
                    n == records@.len(),
                    i < n,
                    m == kept@.len(),
                    0 <= j <= m,
                    present == exists|k: int| 0 <= k < j && kept@[k].uuid@ == records@[
                        i as int
                    ].uuid@,
                decreases m - j,
            {
                if str_eq(kept[j].uuid.as_str(), records[i].uuid.as_str()) {
                    present = true;
                }
                j = j + 1;
            }
            proof {
                assert(present == saved_has_uuid(kept@, records@[i as int].uuid@));
            }
            if !present {
                let ghost kept_prev = kept@;
                kept.push(records[i].clone());
                proof {
                    assert forall|a: int, b: int| 0 <= a < b < kept@.len() implies kept@[a].uuid@
                        != kept@[b].uuid@ by {
                        if b < kept@.len() - 1 {
                            assert(kept@[a] == kept_prev[a] && kept@[b] == kept_prev[b]);
                        } else {
                            assert(kept@[a] == kept_prev[a]);
                        }
                    }
                    assert forall|u: Seq<char>| saved_has_uuid(kept@, u) implies saved_has_uuid(
                        cur,
                        u,
                    ) by {
                        let x = choose|x: int| 0 <= x < kept@.len() && kept@[x].uuid@ == u;
                        if x < kept@.len() - 1 {
                            assert(kept@[x] == kept_prev[x]);
                            assert(saved_has_uuid(kept_prev, u));
                            assert(saved_has_uuid(prefix, u));
                            let y = choose|y: int|
                                0 <= y < prefix.len() && prefix[y].uuid@ == u;
                            assert(cur[y] == prefix[y]);
                        } else {
                            assert(cur[cur.len() - 1].uuid@ == u);
                        }
                    }
                    assert forall|u: Seq<char>| saved_has_uuid(cur, u) implies saved_has_uuid(
                        kept@,
                        u,
                    ) by {
                        let y = choose|y: int| 0 <= y < cur.len() && cur[y].uuid@ == u;
                        if y < cur.len() - 1 {
                            assert(cur[y] == prefix[y]);
                            assert(saved_has_uuid(prefix, u));
                            assert(saved_has_uuid(kept_prev, u));
                            let x = choose|x: int|
                                0 <= x < kept_prev.len() && kept_prev[x].uuid@ == u;
                            assert(kept@[x] == kept_prev[x]);
                        } else {
                            assert(kept@[kept@.len() - 1].uuid@ == u);
                        }
                    }
                }
            } else {
                proof {
                    assert forall|u: Seq<char>| saved_has_uuid(cur, u) implies saved_has_uuid(
                        kept@,
                        u,
                    ) by {
                        let y = choose|y: int| 0 <= y < cur.len() && cur[y].uuid@ == u;
                        if y < cur.len() - 1 {
                            assert(cur[y] == prefix[y]);
                            assert(saved_has_uuid(prefix, u));
                        }
                    }
                    assert forall|u: Seq<char>| saved_has_uuid(kept@, u) implies saved_has_uuid(
                        cur,
                        u,
                    ) by {
                        assert(saved_has_uuid(prefix, u));
                        let y = choose|y: int| 0 <= y < prefix.len() && prefix[y].uuid@ == u;
                        assert(cur[y] == prefix[y]);
                    }
                }
            }
            i = i + 1;
        }
        proof {
            assert(records@.subrange(0, n as int) =~= records@);
        }
        KnownDeviceStore { devices: kept, dirty: false }
    }

    /// An empty store.
    pub fn new() -> (r: Self)
        ensures
            r.wf(),
            !r.is_dirty(),
            r@ == Seq::<SavedDevice>::empty(),
    {
        KnownDeviceStore { devices: Vec::new(), dirty: false }
    }

    /// Position of the record with `uuid`, if any.
    fn find_uuid(&self, uuid: &str) -> (r: Option<usize>)
        ensures
            r matches Some(i) ==> saved_has_uuid(self@, uuid@) && i == saved_uuid_index(
                self@,
                uuid@,
            ),
            r is None ==> !saved_has_uuid(self@, uuid@),
    {
        let n = self.devices.len();
        let mut i: usize = 0;
        while i < n
            invariant
                n == self@.len(),
                0 <= i <= n,
                forall|k: int| 0 <= k < i ==> self@[k].uuid@ != uuid@,
            decreases n - i,
        {
            if str_eq(self.devices[i].uuid.as_str(), uuid) {
                proof {
                    lemma_saved_uuid_index(self@, uuid@);
                }
                return Some(i);
            }
            i = i + 1;
        }
        None
    }

    /// Record `device`, merging by stable UUID; the store becomes
    /// dirty.
    pub fn save_device(&mut self, device: SavedDevice)
        requires
            old(self).wf(),
        ensures
            final(self).wf(),
            final(self).is_dirty(),
            final(self)@ == saved_merge(old(self)@, device),
    {
        let ghost s0 = self@;
        match self.find_uuid(device.uuid.as_str()) {
            Some(i) => {
                proof {
                    lemma_saved_uuid_index(s0, device.uuid@);
                }
                let old_entry = self.devices.remove(i);
                let merged = SavedDevice {
                    id: device.id,
                    uuid: old_entry.uuid,
                    name: device.name,
                    ip_address: device.ip_address,
                    port: device.port,
                    custom_name: old_entry.custom_name,
                    last_connected: device.last_connected,
                    created_at: old_entry.created_at,
                };
                self.devices.insert(i, merged);
                proof {
                    assert(self@ =~= saved_merge(s0, device));
                    assert forall|a: int, b: int| 0 <= a < b < self@.len() implies self@[a].uuid@
                        != self@[b].uuid@ by {
                        assert(self@[a].uuid == s0[a].uuid);
                        assert(self@[b].uuid == s0[b].uuid);
                    }
                }
            },
            None => {
                let ghost d = device;
                self.devices.push(device);
                proof {
                    assert forall|a: int, b: int| 0 <= a < b < self@.len() implies self@[a].uuid@
                        != self@[b].uuid@ by {
                        if b < self@.len() - 1 {
                            assert(self@[a] == s0[a] && self@[b] == s0[b]);
                        } else {
                            assert(self@[a] == s0[a]);
                        }
                    }
                }
            },
        }
        self.dirty = true;
    }

    /// Reconcile one discovery record; reports whether anything moved.
    pub fn merge_discovered(&mut self, d: &DeviceInfo) -> (r: bool)
        requires
            old(self).wf(),
        ensures
            final(self).wf(),
            r == coords_differ(old(self)@, *d),
            final(self)@ == coord_merge(old(self)@, *d),
            final(self).is_dirty() == (old(self).is_dirty() || r),
    {
        let ghost s0 = self@;
        match self.find_uuid(d.uuid.as_str()) {
            Some(i) => {
                proof {
                    lemma_saved_uuid_index(s0, d.uuid@);
                }
                let moved = !str_eq(self.devices[i].ip_address.as_str(), d.ip_address.as_str())
                    || self.devices[i].port != d.port;
                if moved {
                    let old_entry = self.devices.remove(i);
                    let merged = SavedDevice {
                        id: d.id.clone(),
                        uuid: old_entry.uuid,
                        name: old_entry.name,
                        ip_address: d.ip_address.clone(),
                        port: d.port,
                        custom_name: old_entry.custom_name,
                        last_connected: old_entry.last_connected,
                        created_at: old_entry.created_at,
                    };
                    self.devices.insert(i, merged);
                    self.dirty = true;
                    proof {
                        assert(self@ =~= coord_merge(s0, *d));
                        assert forall|a: int, b: int| 0 <= a < b < self@.len() implies
                            self@[a].uuid@ != self@[b].uuid@ by {
                            assert(self@[a].uuid == s0[a].uuid);
                            assert(self@[b].uuid == s0[b].uuid);
                        }
                    }
                }
                moved
            },
            None => false,
        }
    }

    /// Reconcile a whole run of discovery records, in order.
    pub fn sync_discovered(&mut self, discovered: &Vec<DeviceInfo>)
        requires
            old(self).wf(),
        ensures
            final(self).wf(),
            final(self)@ == coord_merge_all(old(self)@, discovered@),
            old(self).is_dirty() ==> final(self).is_dirty(),
    {
        let ghost s0 = self@;
        let n = discovered.len();
        let mut i: usize = 0;
        proof {
            assert(discovered@.subrange(0, 0) =~= Seq::<DeviceInfo>::empty());
        }
        while i < n
            invariant
                n == discovered@.len(),
                0 <= i <= n,
                self.wf(),
                self@ == coord_merge_all(s0, discovered@.subrange(0, i as int)),
                s0 == old(self)@,
                old(self).is_dirty() ==> self.is_dirty(),
            decreases n - i,
        {
            proof {
                lemma_coord_merge_all_snoc(
                    s0,
                    discovered@.subrange(0, i as int),
                    discovered@[i as int],
                );
                assert(discovered@.subrange(0, i as int).push(discovered@[i as int])
                    =~= discovered@.subrange(0, i + 1));
            }
            self.merge_discovered(&discovered[i]);
            i = i + 1;
        }
        proof {
            assert(discovered@.subrange(0, n as int) =~= discovered@);
        }
    }

    /// Every saved record.
    pub fn get_saved_devices(&self) -> (r: Vec<SavedDevice>)
        ensures
            r@ == self@,
    {
        let n = self.devices.len();
        let mut r: Vec<SavedDevice> = Vec::new();
        while r.len() < n
            invariant
                n == self@.len(),
                r@.len() <= n,
                r@ =~= self@.subrange(0, r@.len() as int),
            decreases n - r@.len(),
        {
            let i = r.len();
            r.push(self.devices[i].clone());
            proof {
                assert(r@ =~= self@.subrange(0, r@.len() as int));
            }
        }
        proof {
            assert(self@.subrange(0, n as int) =~= self@);
        }
        r
    }

    /// Hand out the dirty flag and reset it: the caller writes the list
    /// once.
    pub fn take_dirty(&mut self) -> (r: bool)
        ensures
            r == old(self).is_dirty(),
            !final(self).is_dirty(),
            final(self)@ == old(self)@,
    {
        let d = self.dirty;
        self.dirty = false;
        d
    }

    /// Drop the record whose ephemeral id or stable UUID equals `key`;
    /// reports whether one was there.  A removal dirties the store.
    pub fn delete_device(&mut self, key: &str) -> (r: bool)
        requires
            old(self).wf(),
        ensures
            final(self).wf(),
            r == (exists|i: int|
                0 <= i < old(self)@.len() && (old(self)@[i].id@ == key@ || old(self)@[i].uuid@
                    == key@)),
            !r ==> final(self)@ == old(self)@ && final(self).is_dirty() == old(self).is_dirty(),
            r ==> final(self)@.len() == old(self)@.len() - 1 && final(self).is_dirty(),
    {
        let ghost s0 = self@;
        let n = self.devices.len();
        let mut i: usize = 0;
        while i < n
            invariant
                n == self@.len(),
                self@ == s0,
                s0 == old(self)@,
                saved_uuids_distinct(s0),
                self.is_dirty() == old(self).is_dirty(),
                0 <= i <= n,
                forall|k: int| 0 <= k < i ==> s0[k].id@ != key@ && s0[k].uuid@ != key@,
            decreases n - i,
        {
            if str_eq(self.devices[i].id.as_str(), key) || str_eq(
                self.devices[i].uuid.as_str(),
                key,
            ) {
                proof {
                    let r = s0.remove(i as int);
                    assert forall|a: int, b: int| 0 <= a < b < r.len() implies r[a].uuid@
                        != r[b].uuid@ by {
                        let a0 = if a < i { a } else { a + 1 };
                        let b0 = if b < i { b } else { b + 1 };
                        assert(r[a] == s0[a0]);
                        assert(r[b] == s0[b0]);
                    }
                }
                self.devices.remove(i);
                self.dirty = true;
                return true;
            }
            i = i + 1;
        }
        false
    }

    /// Give the record matching `key` (ephemeral id or stable UUID) a
    /// custom display name; reports whether one was there.
    pub fn update_device_name(&mut self, key: &str, name: &str) -> (r: bool)
        requires
            old(self).wf(),
        ensures
            final(self).wf(),
            r == (exists|i: int|
                0 <= i < old(self)@.len() && (old(self)@[i].id@ == key@ || old(self)@[i].uuid@
                    == key@)),
            !r ==> final(self)@ == old(self)@,
            r ==> final(self)@.len() == old(self)@.len() && (exists|i: int|
                0 <= i < final(self)@.len() && (final(self)@[i].custom_name matches Some(c)
                    && c@ == name@) && final(self)@ == old(self)@.update(
                    i,
                    final(self)@[i],
                )),
    {
        let ghost s0 = self@;
        let n = self.devices.len();
        let mut i: usize = 0;
        while i < n
            invariant
                n == self@.len(),
                self@ == s0,
                s0 == old(self)@,
                saved_uuids_distinct(s0),
                self.is_dirty() == old(self).is_dirty(),
                0 <= i <= n,
                forall|k: int| 0 <= k < i ==> s0[k].id@ != key@ && s0[k].uuid@ != key@,
            decreases n - i,
        {
            if str_eq(self.devices[i].id.as_str(), key) || str_eq(
                self.devices[i].uuid.as_str(),
                key,
            ) {
                let old_entry = self.devices.remove(i);
                let renamed = SavedDevice {
                    id: old_entry.id,
                    uuid: old_entry.uuid,
                    name: old_entry.name,
                    ip_address: old_entry.ip_address,
                    port: old_entry.port,
                    custom_name: Some(name.to_owned()),
                    last_connected: old_entry.last_connected,
                    created_at: old_entry.created_at,
                };
                self.devices.insert(i, renamed);
                proof {
                    assert(self@ =~= s0.update(i as int, self@[i as int]));
                    assert forall|a: int, b: int| 0 <= a < b < self@.len() implies self@[a].uuid@
                        != self@[b].uuid@ by {
                        assert(self@[a].uuid == s0[a].uuid);
                        assert(self@[b].uuid == s0[b].uuid);
                    }
                }
                return true;
            }
            i = i + 1;
        }
        false
    }
}

/// A per-device secret store (passwords or tokens), keyed by device id.
pub struct SecretStore {
    entries: Vec<(String, String)>,
}

pub open spec fn secret_keys_distinct(s: Seq<(String, String)>) -> bool {
    forall|i: int, j: int| 0 <= i < j < s.len() ==> s[i].0@ != s[j].0@
}

pub open spec fn secret_has(s: Seq<(String, String)>, k: Seq<char>) -> bool {
    exists|i: int| 0 <= i < s.len() && s[i].0@ == k
}

pub open spec fn secret_index(s: Seq<(String, String)>, k: Seq<char>) -> int
    decreases s.len(),
{
    if s.len() == 0 {
        0
    } else if s[0].0@ == k {
        0
    } else {
        1 + secret_index(s.drop_first(), k)
    }
}

pub proof fn lemma_secret_index(s: Seq<(String, String)>, k: Seq<char>)
    requires
        secret_has(s, k),
    ensures
        0 <= secret_index(s, k) < s.len(),
        s[secret_index(s, k)].0@ == k,
        forall|x: int| 0 <= x < secret_index(s, k) ==> s[x].0@ != k,
    decreases s.len(),
{
    if s.len() == 0 {
    } else if s[0].0@ == k {
    } else {
        assert(secret_has(s.drop_first(), k)) by {
            let i = choose|i: int| 0 <= i < s.len() && s[i].0@ == k;
            assert(s.drop_first()[i - 1] == s[i]);
        }
        lemma_secret_index(s.drop_first(), k);
        assert forall|x: int| 0 <= x < secret_index(s, k) implies s[x].0@ != k by {
            if x > 0 {
                assert(s.drop_first()[x - 1] == s[x]);
            }
        }
        assert(s.drop_first()[secret_index(s, k) - 1] == s[secret_index(s, k)]);
    }
}

impl View for SecretStore {
    type V = Seq<(String, String)>;

    closed spec fn view(&self) -> Seq<(String, String)> {
        self.entries@
    }
}

impl SecretStore {
    pub open spec fn wf(&self) -> bool {
        secret_keys_distinct(self@)
    }

    pub fn new() -> (r: Self)
        ensures
            r.wf(),
            r@ == Seq::<(String, String)>::empty(),
    {
        SecretStore { entries: Vec::new() }
    }

    fn find(&self, key: &str) -> (r: Option<usize>)
        ensures
            r matches Some(i) ==> secret_has(self@, key@) && i == secret_index(self@, key@),
            r is None ==> !secret_has(self@, key@),
    {
        let n = self.entries.len();
        let mut i: usize = 0;
        while i < n
            invariant
                n == self@.len(),
                0 <= i <= n,
                forall|k: int| 0 <= k < i ==> self@[k].0@ != key@,
            decreases n - i,
        {
            if str_eq(self.entries[i].0.as_str(), key) {
                proof {
                    lemma_secret_index(self@, key@);
                }
                return Some(i);
            }
            i = i + 1;
        }
        None
    }

    /// Store `secret` under `key`, replacing what was there.
    pub fn insert(&mut self, key: String, secret: String)
        requires
            old(self).wf(),
        ensures
            final(self).wf(),
            secret_has(final(self)@, key@),
            final(self)@[secret_index(final(self)@, key@)].1@ == secret@,
            forall|k: Seq<char>|
                k != key@ ==> (secret_has(final(self)@, k) <==> secret_has(old(self)@, k)),
            forall|k: Seq<char>|
                k != key@ && secret_has(old(self)@, k) ==> final(self)@[secret_index(
                    final(self)@,
                    k,
                )].1@ == old(self)@[secret_index(old(self)@, k)].1@,
    {
        let ghost s0 = self@;
        match self.find(key.as_str()) {
            Some(i) => {
                proof {
                    lemma_secret_index(s0, key@);
                }
                self.entries.remove(i);
                proof {
                    let r = self@;
                    assert forall|a: int, b: int| 0 <= a < b < r.len() implies r[a].0@
                        != r[b].0@ by {
                        let a0 = if a < i { a } else { a + 1 };
                        let b0 = if b < i { b } else { b + 1 };
                        assert(r[a] == s0[a0]);
                        assert(r[b] == s0[b0]);
                    }
                    assert forall|k: int| 0 <= k < self@.len() implies self@[k].0@ != key@ by {
                        let ii = secret_index(s0, key@);
                        let k0 = if k < ii { k } else { k + 1 };
                        assert(self@[k] == s0[k0]);
                    }
                }
            },
            None => {},
        }
        let ghost s1 = self@;
        self.entries.push((key, secret));
        proof {
            assert forall|a: int, b: int| 0 <= a < b < self@.len() implies self@[a].0@
                != self@[b].0@ by {
                if b < self@.len() - 1 {
                    assert(self@[a] == s1[a] && self@[b] == s1[b]);
                } else {
                    assert(self@[a] == s1[a]);
                }
            }
            assert(self@[self@.len() - 1].0@ == key@);
            assert(secret_has(self@, key@));
            lemma_secret_index(self@, key@);
            assert(self@[secret_index(self@, key@)] == self@[self@.len() - 1]);
            assert forall|k: Seq<char>| k != key@ implies (secret_has(self@, k) <==> secret_has(
                s0,
                k,
            )) by {
                lemma_secret_membership(s0, s1, self@, key@, k, secret_index(s0, key@));
            }
            assert forall|k: Seq<char>| k != key@ && secret_has(s0, k) implies self@[
                secret_index(self@, k)
            ].1@ == s0[secret_index(s0, k)].1@ by {
                lemma_secret_lookup(s0, s1, self@, key@, k, secret_index(s0, key@));
            }
        }
    }

    /// The secret under `key`, if any.
    pub fn get(&self, key: &str) -> (r: Option<String>)
        requires
            self.wf(),
        ensures
            r matches Some(v) ==> secret_has(self@, key@) && v@ == self@[secret_index(
                self@,
                key@,
            )].1@,
            r is None <==> !secret_has(self@, key@),
    {
        match self.find(key) {
            Some(i) => {
                proof {
                    lemma_secret_index(self@, key@);
                }
                Some(self.entries[i].1.clone())
            },
            None => None,
        }
    }

    /// Drop the secret under `key`; reports whether one was there.
    pub fn remove(&mut self, key: &str) -> (r: bool)
        requires
            old(self).wf(),
        ensures
            final(self).wf(),
            r == secret_has(old(self)@, key@),
            !secret_has(final(self)@, key@),
            forall|k: Seq<char>|
                k != key@ ==> (secret_has(final(self)@, k) <==> secret_has(old(self)@, k)),
    {
        let ghost s0 = self@;
        match self.find(key) {
            Some(i) => {
                proof {
                    lemma_secret_index(s0, key@);
                }
                self.entries.remove(i);
                proof {
                    let ii = secret_index(s0, key@);
                    let r = self@;
                    assert forall|a: int, b: int| 0 <= a < b < r.len() implies r[a].0@
                        != r[b].0@ by {
                        let a0 = if a < ii { a } else { a + 1 };
                        let b0 = if b < ii { b } else { b + 1 };
                        assert(r[a] == s0[a0]);
                        assert(r[b] == s0[b0]);
                    }
                    assert forall|k: int| 0 <= k < r.len() implies r[k].0@ != key@ by {
                        let k0 = if k < ii { k } else { k + 1 };
                        assert(r[k] == s0[k0]);
                    }
                    assert forall|k: Seq<char>| k != key@ implies (secret_has(r, k)
                        <==> secret_has(s0, k)) by {
                        if secret_has(r, k) {
                            let x = choose|x: int| 0 <= x < r.len() && r[x].0@ == k;
                            let x0 = if x < ii { x } else { x + 1 };
                            assert(r[x] == s0[x0]);
                        }
                        if secret_has(s0, k) {
                            let x = choose|x: int| 0 <= x < s0.len() && s0[x].0@ == k;
                            let x1 = if x < ii { x } else { x - 1 };
                            assert(x != ii);
                            assert(r[x1] == s0[x]);
                        }
                    }
                }
                true
            },
            None => false,
        }
    }
}

proof fn lemma_secret_membership(
    s0: Seq<(String, String)>,
    s1: Seq<(String, String)>,
    s2: Seq<(String, String)>,
    key: Seq<char>,
    k: Seq<char>,
    ii: int,
)
    requires
        k != key,
        s2.len() == s1.len() + 1,
        forall|x: int| 0 <= x < s1.len() ==> s2[x] == s1[x],
        s2[s2.len() - 1].0@ == key,
        if secret_has(s0, key) {
            0 <= ii < s0.len() && s1 == s0.remove(ii) && s0[ii].0@ == key
        } else {
            s1 == s0
        },
    ensures
        secret_has(s2, k) <==> secret_has(s0, k),
{
    if secret_has(s2, k) {
        let x = choose|x: int| 0 <= x < s2.len() && s2[x].0@ == k;
        assert(x < s2.len() - 1);
        assert(s2[x] == s1[x]);
        if secret_has(s0, key) {
            let x0 = if x < ii { x } else { x + 1 };
            assert(s1[x] == s0[x0]);
        }
    }
    if secret_has(s0, k) {
        let x = choose|x: int| 0 <= x < s0.len() && s0[x].0@ == k;
        if secret_has(s0, key) {
            lemma_secret_index(s0, key);
            if x != ii {
                let x1 = if x < ii { x } else { x - 1 };
                assert(s1[x1] == s0[x]);
                assert(s2[x1] == s1[x1]);
            } else {
                assert(s0[ii].0@ == key);
            }
        } else {
            assert(s2[x] == s1[x]);
        }
    }
}

proof fn lemma_secret_lookup(
    s0: Seq<(String, String)>,
    s1: Seq<(String, String)>,
    s2: Seq<(String, String)>,
    key: Seq<char>,
    k: Seq<char>,
    ii: int,
)
    requires
        k != key,
        secret_has(s0, k),
        secret_keys_distinct(s0),
        secret_keys_distinct(s2),
        s2.len() == s1.len() + 1,
        forall|x: int| 0 <= x < s1.len() ==> s2[x] == s1[x],
        s2[s2.len() - 1].0@ == key,
        if secret_has(s0, key) {
            0 <= ii < s0.len() && s1 == s0.remove(ii) && s0[ii].0@ == key
        } else {
            s1 == s0
        },
    ensures
        secret_has(s2, k),
        s2[secret_index(s2, k)].1@ == s0[secret_index(s0, k)].1@,
{
    lemma_secret_membership(s0, s1, s2, key, k, ii);
    lemma_secret_index(s0, k);
    lemma_secret_index(s2, k);
    let a = secret_index(s0, k);
    let b = secret_index(s2, k);
    assert(b < s2.len() - 1);
    assert(s2[b] == s1[b]);
    if secret_has(s0, key) {
        lemma_secret_index(s0, key);
        let b0 = if b < ii { b } else { b + 1 };
        assert(s1[b] == s0[b0]);
        if b0 != a {
            assert(s0[b0].0@ == s0[a].0@);
        }
    } else {
        if b != a {
            assert(s0[b].0@ == s0[a].0@);
        }
    }
}

/// The per-request context: the client address, carried explicitly
/// from the connection to the handler (never through ambient state).
pub struct ClientIp(pub String);

/// Record the peer address on the request context.
pub fn set_client_ip(ctx: &mut ClientIp, ip: &str)
    ensures
        final(ctx).0@ == ip@,
{
    ctx.0 = ip.to_owned();
}

/// The peer address a request carries.
pub fn get_client_ip(ctx: &ClientIp) -> (r: String)
    ensures
        r@ == ctx.0@,
{
    ctx.0.clone()
}

/// What a failed call to a peer means for the cached token: the typed
/// reading of the peer's exact expiry answer, in place of substring
/// guessing on error text.
pub enum PeerFailure {
    /// The peer said the token is gone: drop it and re-authenticate.
    AuthExpired,
    /// Anything else: report it as it came.
    Other(String),
}

/// Classify a peer's error payload: exactly the token-rejection text
/// means the cached token must be dropped.
pub fn classify_peer_error(message: &str) -> (r: PeerFailure)
    ensures
        message@ == "Invalid or expired token"@ ==> r == PeerFailure::AuthExpired,
        message@ != "Invalid or expired token"@ ==> (r matches PeerFailure::Other(m) && m@
            == message@),
{
    if str_eq(message, "Invalid or expired token") {
        PeerFailure::AuthExpired
    } else {
        PeerFailure::Other(message.to_owned())
    }
}


/// How the transport probe of a peer ended.
pub enum HealthStatus {
    /// The request itself failed; the text says how.
    Unreachable(String),
    /// The peer answered, but not successfully.
    NotResponding,
    /// The peer is up.
    Responding,
}

/// The connect flow's decision, taken on plain values after the network
/// calls came back: an unreachable or silent peer fails outright; a
/// peer that demands authentication needs a password and then a
/// successful login; a peer that demands none is connected at once.
/// Only a successful outcome lets the caller store the device and its
/// credentials.
pub fn connect_decision(
    health: HealthStatus,
    requires_auth: bool,
    password_supplied: bool,
    auth: Option<AuthResult>,
) -> (r: ConnectResult)
    ensures
        health matches HealthStatus::Unreachable(m) ==> !r.success && !r.requires_auth && (
        r.error matches Some(e) && e@ == "Connection failed: "@ + m@),
        health matches HealthStatus::NotResponding ==> !r.success && !r.requires_auth && (
        r.error matches Some(e) && e@ == "Device not responding"@),
        health matches HealthStatus::Responding ==> {
            &&& r.requires_auth == requires_auth
            &&& (!requires_auth ==> r.success && r.error is None)
            &&& (requires_auth && !password_supplied ==> !r.success && (r.error matches Some(e)
                && e@ == "Password required"@))
            &&& (requires_auth && password_supplied ==> match auth {
                Some(outcome) => r.success == outcome.success && (outcome.success ==> r.error
                    is None) && (!outcome.success ==> r.error is Some),
                None => !r.success && (r.error matches Some(e) && e@
                    == "Authentication failed"@),
            })
        },
{
    match health {
        HealthStatus::Unreachable(m) => {
            let mut message = "Connection failed: ".to_owned();
            message.append(m.as_str());
            ConnectResult { success: false, requires_auth: false, error: Some(message) }
        },
        HealthStatus::NotResponding => ConnectResult {
            success: false,
            requires_auth: false,
            error: Some("Device not responding".to_owned()),
        },
        HealthStatus::Responding => {
            if !requires_auth {
                ConnectResult { success: true, requires_auth: false, error: None }
            } else if !password_supplied {
                ConnectResult {
                    success: false,
                    requires_auth: true,
                    error: Some("Password required".to_owned()),
                }
            } else {
                match auth {
                    Some(outcome) => {
                        if outcome.success {
                            ConnectResult { success: true, requires_auth: true, error: None }
                        } else {
                            ConnectResult {
                                success: false,
                                requires_auth: true,
                                error: Some(
                                    match outcome.error {
                                        Some(e) => e,
                                        None => "Authentication failed".to_owned(),
                                    },
                                ),
                            }
                        }
                    },
                    None => ConnectResult {
                        success: false,
                        requires_auth: true,
                        error: Some("Authentication failed".to_owned()),
                    },
                }
            }
        },
    }
}
} // verus!
