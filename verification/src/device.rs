//! The devices that a hub knows to be online, by device id.

use vstd::prelude::*;
use std::collections::HashMap;
use crate::service::ServiceMgr;

verus! {

broadcast use vstd::std_specs::hash::group_hash_axioms;

/// What a device announces when it comes online.
pub struct DeviceInfo {
    pub device_id: String,
    pub device_name: String,
    pub device_address: String,
}

/// The request by which a device comes online.
pub struct DeviceOnlineRequest {
    pub device: Option<DeviceInfo>,
}

/// The request by which a device goes offline.
pub struct DeviceOfflineRequest {
    pub device_id: String,
}

/// What a device is: its id, name and address, and how many services it offers.
pub struct DeviceModel {
    pub id: Seq<char>,
    pub name: Seq<char>,
    pub address: Seq<char>,
    pub services: nat,
}

/// A device known to the hub.
pub struct Device {
    id: String,
    name: String,
    address: String,
    service_mgr: ServiceMgr,
}

impl View for Device {
    type V = DeviceModel;

    closed spec fn view(&self) -> DeviceModel {
        DeviceModel {
            id: self.id@,
            name: self.name@,
            address: self.address@,
            services: self.service_mgr.service_count(),
        }
    }
}

impl Device {
    /// A device with the given id, name and address, and no services.
    pub fn new(id: &str, name: &str, address: &str) -> (d: Device)
        ensures
            d@ == (DeviceModel { id: id@, name: name@, address: address@, services: 0 }),
    {
        Device {
            id: id.to_owned(),
            name: name.to_owned(),
            address: address.to_owned(),
            service_mgr: ServiceMgr::new(),
        }
    }

    /// The device id.
    pub fn id(&self) -> (r: &str)
        ensures
            r@ == self@.id,
    {
        self.id.as_str()
    }

    /// The device name.
    pub fn name(&self) -> (r: &str)
        ensures
            r@ == self@.name,
    {
        self.name.as_str()
    }

    /// The device address.
    pub fn address(&self) -> (r: &str)
        ensures
            r@ == self@.address,
    {
        self.address.as_str()
    }
}

/// Whether some device of `s` has id `id`.
pub open spec fn has_id(s: Seq<DeviceModel>, id: Seq<char>) -> bool {
    exists|i: int| 0 <= i < s.len() && (#[trigger] s[i]).id == id
}

/// No two devices of `s` share an id.
pub open spec fn ids_unique(s: Seq<DeviceModel>) -> bool {
    forall|i: int, j: int|
        0 <= i < s.len() && 0 <= j < s.len() && (#[trigger] s[i]).id == (#[trigger] s[j]).id ==> i
            == j
}

/// The devices of `s` by id.
pub open spec fn device_map(s: Seq<DeviceModel>) -> Map<Seq<char>, DeviceModel> {
    Map::new(
        |k: Seq<char>| has_id(s, k),
        |k: Seq<char>| s[choose|i: int| 0 <= i < s.len() && (#[trigger] s[i]).id == k],
    )
}

/// In a sequence without repeated ids, the device at index `i` is the one the map
/// holds under its id.
pub proof fn lemma_device_map_at(s: Seq<DeviceModel>, i: int)
    requires
        ids_unique(s),
        0 <= i < s.len(),
    ensures
        device_map(s).contains_key(s[i].id),
        device_map(s)[s[i].id] == s[i],
{
    let k = s[i].id;
    assert(has_id(s, k));
    let c = choose|c: int| 0 <= c < s.len() && (#[trigger] s[c]).id == k;
    assert(s[c].id == s[i].id);
}

/// Removing from a sequence without repeated ids the device at `idx` removes its id
/// from the map.
pub proof fn lemma_device_map_remove(s: Seq<DeviceModel>, idx: int)
    requires
        ids_unique(s),
        0 <= idx < s.len(),
    ensures
        ids_unique(s.remove(idx)),
        device_map(s.remove(idx)) == device_map(s).remove(s[idx].id),
{
    let t = s.remove(idx);
    let id = s[idx].id;
    assert forall|i: int, j: int|
        0 <= i < t.len() && 0 <= j < t.len() && (#[trigger] t[i]).id == (#[trigger] t[j]).id
        implies i == j by {
        let si = if i < idx { i } else { i + 1 };
        let sj = if j < idx { j } else { j + 1 };
        assert(t[i] == s[si]);
        assert(t[j] == s[sj]);
    }
    assert forall|k: Seq<char>| #[trigger] has_id(t, k) == (has_id(s, k) && k != id) by {
        if has_id(t, k) {
            let i = choose|i: int| 0 <= i < t.len() && (#[trigger] t[i]).id == k;
            let si = if i < idx { i } else { i + 1 };
            assert(t[i] == s[si]);
            assert(s[si].id == k);
        }
        if has_id(s, k) && k != id {
            let i = choose|i: int| 0 <= i < s.len() && (#[trigger] s[i]).id == k;
            let ti = if i < idx { i } else { i - 1 };
            assert(t[ti] == s[i]);
        }
    }
    assert forall|k: Seq<char>| #[trigger] device_map(t).contains_key(k) implies device_map(t)[k]
        == device_map(s)[k] by {
        let i = choose|i: int| 0 <= i < t.len() && (#[trigger] t[i]).id == k;
        let si = if i < idx { i } else { i + 1 };
        assert(t[i] == s[si]);
        lemma_device_map_at(t, i);
        lemma_device_map_at(s, si);
    }
    assert(device_map(t) =~= device_map(s).remove(id));
}

/// Appending to a sequence a device whose id it lacks adds that id to the map.
pub proof fn lemma_device_map_push(s: Seq<DeviceModel>, d: DeviceModel)
    requires
        ids_unique(s),
        !has_id(s, d.id),
    ensures
        ids_unique(s.push(d)),
        device_map(s.push(d)) == device_map(s).insert(d.id, d),
{
    let t = s.push(d);
    assert forall|i: int, j: int|
        0 <= i < t.len() && 0 <= j < t.len() && (#[trigger] t[i]).id == (#[trigger] t[j]).id
        implies i == j by {
        if i < s.len() && j == s.len() {
            assert(t[i] == s[i]);
        }
        if j < s.len() && i == s.len() {
            assert(t[j] == s[j]);
        }
        if i < s.len() && j < s.len() {
            assert(t[i] == s[i] && t[j] == s[j]);
        }
    }
    assert forall|k: Seq<char>| #[trigger] has_id(t, k) == (has_id(s, k) || k == d.id) by {
        if has_id(t, k) {
            let i = choose|i: int| 0 <= i < t.len() && (#[trigger] t[i]).id == k;
            if i < s.len() {
                assert(t[i] == s[i]);
            }
        }
        if has_id(s, k) {
            let i = choose|i: int| 0 <= i < s.len() && (#[trigger] s[i]).id == k;
            assert(t[i] == s[i]);
        }
        if k == d.id {
            assert(t[s.len() as int] == d);
        }
    }
    assert forall|k: Seq<char>| #[trigger] device_map(t).contains_key(k) implies device_map(t)[k]
        == device_map(s).insert(d.id, d)[k] by {
        let i = choose|i: int| 0 <= i < t.len() && (#[trigger] t[i]).id == k;
        lemma_device_map_at(t, i);
        if i < s.len() {
            assert(t[i] == s[i]);
            lemma_device_map_at(s, i);
        } else {
            assert(t[i] == d);
        }
    }
    assert(device_map(t) =~= device_map(s).insert(d.id, d));
}

/// A device that comes online and then goes offline leaves the hub knowing the other
/// devices just as before, and not knowing it.
pub proof fn law_online_then_offline(
    before: Map<Seq<char>, DeviceModel>,
    id: Seq<char>,
    d: DeviceModel,
)
    ensures
        before.insert(id, d).remove(id) == before.remove(id),
        !before.insert(id, d).remove(id).contains_key(id),
{
    assert(before.insert(id, d).remove(id) =~= before.remove(id));
}

/// The devices a hub knows to be online, and the device behind each channel.
pub struct DeviceMgr {
    chan_to_device_map: HashMap<u64, String>,
    devices: Vec<Device>,
}

impl DeviceMgr {
    /// The known devices, in the order they came online.
    pub closed spec fn device_seq(&self) -> Seq<DeviceModel> {
        self.devices@.map_values(|d: Device| d@)
    }

    /// The known devices, by id.
    pub open spec fn devices(&self) -> Map<Seq<char>, DeviceModel> {
        device_map(self.device_seq())
    }

    /// The id of the device behind each channel.
    pub closed spec fn channel_devices(&self) -> Map<u64, Seq<char>> {
        self.chan_to_device_map@.map_values(|s: String| s@)
    }

    /// No two known devices share an id.
    #[verifier::type_invariant]
    spec fn wf(&self) -> bool {
        ids_unique(self.device_seq())
    }

    /// No devices and no channels.
    pub fn new() -> (m: DeviceMgr)
        ensures
            m.devices() == Map::<Seq<char>, DeviceModel>::empty(),
            m.channel_devices() == Map::<u64, Seq<char>>::empty(),
    {
        let m = DeviceMgr { chan_to_device_map: HashMap::new(), devices: Vec::new() };
        proof {
            assert(m.devices() =~= Map::<Seq<char>, DeviceModel>::empty());
            assert(m.channel_devices() =~= Map::<u64, Seq<char>>::empty());
        }
        m
    }

    /// The index of the device with id `id`, if it is known.
    fn position_of(&self, id: &String) -> (r: Option<usize>)
        requires
            ids_unique(self.device_seq()),
        ensures
            r matches Some(i) ==> i < self.device_seq().len() && self.device_seq()[i as int].id
                == id@,
            r is None ==> !has_id(self.device_seq(), id@),
    {
        let mut i: usize = 0;
        while i < self.devices.len()
            invariant
                i <= self.devices@.len(),
                forall|j: int| 0 <= j < i ==> (#[trigger] self.device_seq()[j]).id != id@,
            decreases self.devices@.len() - i,
        {
            if self.devices[i].id == *id {
                return Some(i);
            }
            i = i + 1;
        }
        None
    }

    /// Forgets the device with id `id`, if it is known.
    fn remove_device(&mut self, id: &String)
        ensures
            final(self).devices() == old(self).devices().remove(id@),
            !has_id(final(self).device_seq(), id@),
            final(self).channel_devices() == old(self).channel_devices(),
    {
        proof {
            use_type_invariant(&*self);
        }
        match self.position_of(id) {
            Some(i) => {
                let ghost s = self.device_seq();
                proof {
                    lemma_device_map_remove(s, i as int);
                }
                let mut devices: Vec<Device> = Vec::new();
                std::mem::swap(&mut devices, &mut self.devices);
                devices.remove(i);
                proof {
                    assert(devices@.map_values(|d: Device| d@) =~= s.remove(i as int));
                }
                self.devices = devices;
                proof {
                    assert(self.device_seq() =~= s.remove(i as int));
                    assert(!has_id(s.remove(i as int), id@));
                }
            },
            None => {
                proof {
                    assert(old(self).devices().remove(id@) =~= old(self).devices());
                }
            },
        }
    }

    /// A channel has closed: forgets the device behind it, if any.
    pub fn on_channel_closed(&mut self, channel_id: u64)
        ensures
            final(self).channel_devices() == old(self).channel_devices(),
            old(self).channel_devices().contains_key(channel_id) ==> final(self).devices() == old(
                self,
            ).devices().remove(old(self).channel_devices()[channel_id]),
            !old(self).channel_devices().contains_key(channel_id) ==> final(self).devices() == old(
                self,
            ).devices(),
    {
        let found = match self.chan_to_device_map.get(&channel_id) {
            Some(device_id) => Some(device_id.clone()),
            None => None,
        };
        match found {
            Some(device_id) => {
                self.remove_device(&device_id);
            },
            None => {},
        }
    }

    /// A device comes online: it replaces any known device with the same id.
    pub fn on_device_online(&mut self, request: DeviceOnlineRequest)
        requires
            request.device is Some,
        ensures
            final(self).channel_devices() == old(self).channel_devices(),
            ({
                let info = request.device->0;
                final(self).devices() == old(self).devices().insert(
                    info.device_id@,
                    DeviceModel {
                        id: info.device_id@,
                        name: info.device_name@,
                        address: info.device_address@,
                        services: 0,
                    },
                )
            }),
    {
        proof {
            use_type_invariant(&*self);
        }
        let device = request.device.unwrap();
        self.remove_device(&device.device_id);
        let d = Device::new(
            device.device_id.as_str(),
            device.device_name.as_str(),
            device.device_address.as_str(),
        );
        proof {
            use_type_invariant(&*self);
        }
        let ghost s = self.device_seq();
        let ghost dm = d@;
        proof {
            lemma_device_map_push(s, dm);
        }
        let mut devices: Vec<Device> = Vec::new();
        std::mem::swap(&mut devices, &mut self.devices);
        devices.push(d);
        proof {
            assert(devices@.map_values(|d: Device| d@) =~= s.push(dm));
        }
        self.devices = devices;
        proof {
            assert(self.device_seq() =~= s.push(dm));
        }
    }

    /// A device goes offline: it is forgotten.
    pub fn on_device_offline(&mut self, request: DeviceOfflineRequest)
        ensures
            final(self).channel_devices() == old(self).channel_devices(),
            final(self).devices() == old(self).devices().remove(request.device_id@),
    {
        self.remove_device(&request.device_id);
    }

    /// The known device with id `device_id`, if any.
    pub fn device(&self, device_id: &str) -> (r: Option<&Device>)
        ensures
            self.devices().contains_key(device_id@) ==> (r matches Some(d) && d@ == self.devices()[device_id@]),
            !self.devices().contains_key(device_id@) ==> r is None,
    {
        proof {
            use_type_invariant(self);
        }
        let key = device_id.to_owned();
        match self.position_of(&key) {
            Some(i) => {
                proof {
                    lemma_device_map_at(self.device_seq(), i as int);
                }
                Some(&self.devices[i])
            },
            None => None,
        }
    }
}

} // verus!
