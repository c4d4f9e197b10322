//! The list of peers that a host keeps: one entry per address, refreshed
//! whenever the peer at that address announces itself again.

use crate::discovery::{DeviceInfo, DeviceView};
use vstd::prelude::*;
use vstd::string::*;

verus! {

/// The values of the devices in a vector.
pub open spec fn device_views(devices: Seq<DeviceInfo>) -> Seq<DeviceView> {
    devices.map_values(|device: DeviceInfo| device@)
}

/// Whether no two devices of a list have the same address.
pub open spec fn distinct_addresses(devices: Seq<DeviceView>) -> bool {
    forall|i: int, j: int|
        0 <= i < devices.len() && 0 <= j < devices.len() && i != j ==> (#[trigger] devices[i]).ip
            != (#[trigger] devices[j]).ip
}

/// The position of the device with address `ip` in a list of distinct
/// addresses, if there is one.
pub open spec fn position_of(devices: Seq<DeviceView>, ip: Seq<char>) -> Option<int> {
    if exists|i: int| 0 <= i < devices.len() && (#[trigger] devices[i]).ip == ip {
        Some(choose|i: int| 0 <= i < devices.len() && (#[trigger] devices[i]).ip == ip)
    } else {
        None
    }
}

/// The list after `device` was reported: the entry with the device's address
/// is replaced by the device, and a device with a new address is added at the
/// end.
pub open spec fn merged(devices: Seq<DeviceView>, device: DeviceView) -> Seq<DeviceView> {
    match position_of(devices, device.ip) {
        Some(i) => devices.update(i, device),
        None => devices.push(device),
    }
}

/// The peers that a host has heard of, at most one for each address.
#[derive(Debug)]
pub struct DeviceList {
    devices: Vec<DeviceInfo>,
}

impl View for DeviceList {
    type V = Seq<DeviceView>;

    closed spec fn view(&self) -> Seq<DeviceView> {
        device_views(self.devices@)
    }
}

impl DeviceList {
    /// The invariant of the list: no two entries have the same address.
    pub open spec fn wf(&self) -> bool {
        distinct_addresses(self@)
    }

    /// An empty list.
    pub fn new() -> (list: DeviceList)
        ensures
            list@ == Seq::<DeviceView>::empty(),
            list.wf(),
    {
        let list = DeviceList { devices: Vec::new() };
        assert(list@ =~= Seq::<DeviceView>::empty());
        list
    }

    /// The number of peers in the list.
    pub fn len(&self) -> (count: usize)
        ensures
            count == self@.len(),
    {
        self.devices.len()
    }

    /// The peer at `index`.
    pub fn get(&self, index: usize) -> (device: &DeviceInfo)
        requires
            index < self@.len(),
        ensures
            device@ == self@[index as int],
    {
        &self.devices[index]
    }

    /// Finds the peer with the address `ip`.
    pub fn find(&self, ip: &str) -> (found: Option<usize>)
        requires
            self.wf(),
        ensures
            match found {
                Some(i) => position_of(self@, ip@) == Some(i as int) && i < self@.len()
                    && self@[i as int].ip == ip@,
                None => position_of(self@, ip@) is None,
            },
    {
        let mut i: usize = 0;
        while i < self.devices.len()
            invariant
                i <= self.devices.len(),
                self.wf(),
                self@.len() == self.devices@.len(),
                forall|k: int| 0 <= k < i ==> (#[trigger] self@[k]).ip != ip@,
            decreases self.devices.len() - i,
        {
            assert(self@[i as int] == self.devices@[i as int]@);
            if bytes_text_equal(self.devices[i].ip.as_str(), ip) {
                proof {
                    assert(self@[i as int].ip == ip@);
                    let chosen = choose|k: int|
                        0 <= k < self@.len() && (#[trigger] self@[k]).ip == ip@;
                    assert(self@[chosen].ip == self@[i as int].ip);
                    assert(chosen == i);
                }
                return Some(i);
            }
            i = i + 1;
        }
        None
    }

    /// Takes note of a reported peer: the entry with its address is replaced,
    /// and a peer with a new address is added at the end.
    pub fn upsert(&mut self, device: DeviceInfo)
        requires
            old(self).wf(),
        ensures
            final(self)@ == merged(old(self)@, device@),
            final(self).wf(),
    {
        let ghost before = self@;
        let ghost reported = device@;
        match self.find(device.ip.as_str()) {
            Some(i) => {
                self.devices.set(i, device);
                assert(self@ =~= before.update(i as int, reported));
            },
            None => {
                self.devices.push(device);
                assert(self@ =~= before.push(reported));
            },
        }
        proof {
            lemma_merge_keeps_distinct(before, reported);
        }
    }
}

/// Whether two strings are the same text.
fn bytes_text_equal(a: &str, b: &str) -> (same: bool)
    ensures
        same == (a@ == b@),
{
    proof {
        vstd::utf8::encode_utf8_decode_utf8(a@);
        vstd::utf8::encode_utf8_decode_utf8(b@);
    }
    crate::wire::bytes_equal(a.as_bytes(), b.as_bytes())
}

/// Reporting a device keeps the addresses of the list distinct, leaves the
/// entries of other addresses as they were, and makes the device the entry of
/// its address. The list grows by one if the address is new and not at all
/// otherwise.
pub proof fn lemma_merge_keeps_distinct(devices: Seq<DeviceView>, device: DeviceView)
    requires
        distinct_addresses(devices),
    ensures
        distinct_addresses(merged(devices, device)),
        position_of(merged(devices, device), device.ip) is Some,
        merged(devices, device)[position_of(merged(devices, device), device.ip).unwrap()]
            == device,
        merged(devices, device).len() == devices.len() + if position_of(devices, device.ip)
            is None {
            1int
        } else {
            0int
        },
        forall|i: int|
            0 <= i < devices.len() && (#[trigger] devices[i]).ip != device.ip ==> merged(
                devices,
                device,
            )[i] == devices[i],
{
    let after = merged(devices, device);
    match position_of(devices, device.ip) {
        Some(i) => {
            assert(after[i] == device);
            assert forall|a: int, b: int|
                0 <= a < after.len() && 0 <= b < after.len() && a != b implies (
            #[trigger] after[a]).ip != (#[trigger] after[b]).ip by {
                if a == i {
                    assert(devices[i].ip == device.ip);
                    assert(devices[b].ip != devices[i].ip);
                } else if b == i {
                    assert(devices[i].ip == device.ip);
                    assert(devices[a].ip != devices[i].ip);
                } else {
                    assert(devices[a].ip != devices[b].ip);
                }
            }
        },
        None => {
            assert(after[devices.len() as int] == device);
            assert forall|a: int, b: int|
                0 <= a < after.len() && 0 <= b < after.len() && a != b implies (
            #[trigger] after[a]).ip != (#[trigger] after[b]).ip by {
                if a < devices.len() && b < devices.len() {
                    assert(devices[a].ip != devices[b].ip);
                } else if a < devices.len() {
                    assert(devices[a].ip != device.ip);
                } else {
                    assert(devices[b].ip != device.ip);
                }
            }
        },
    }
    let k = choose|k: int| 0 <= k < after.len() && (#[trigger] after[k]).ip == device.ip;
    assert(after[k].ip == device.ip);
}

/// Reporting the same device twice leaves the list as reporting it once.
pub proof fn lemma_merge_idempotent(devices: Seq<DeviceView>, device: DeviceView)
    requires
        distinct_addresses(devices),
    ensures
        merged(merged(devices, device), device) == merged(devices, device),
{
    lemma_merge_keeps_distinct(devices, device);
    let once = merged(devices, device);
    let i = position_of(once, device.ip).unwrap();
    assert(once.update(i, device) =~= once);
}

} // verus!
