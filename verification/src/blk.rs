//! The block devices found on the system, as plain values.
use vstd::prelude::*;

verus! {

/// A probed block device: its node (absent when its path is not valid UTF-8),
/// filesystem UUID, label and filesystem type (empty when unknown).
pub struct BlkDevice {
    pub path: Option<String>,
    pub uuid: String,
    pub label: String,
    pub fstype: String,
}

/// The probed block devices, in probing order.
pub struct BlkInfo {
    pub devices: Vec<BlkDevice>,
}

/// The first device whose UUID is `u`.
pub open spec fn first_by_uuid(devs: Seq<BlkDevice>, u: Seq<char>) -> Option<BlkDevice>
    decreases devs.len(),
{
    if devs.len() == 0 {
        None
    } else if devs[0].uuid@ == u {
        Some(devs[0])
    } else {
        first_by_uuid(devs.skip(1), u)
    }
}

/// The first device whose label is `l`.
pub open spec fn first_by_label(devs: Seq<BlkDevice>, l: Seq<char>) -> Option<BlkDevice>
    decreases devs.len(),
{
    if devs.len() == 0 {
        None
    } else if devs[0].label@ == l {
        Some(devs[0])
    } else {
        first_by_label(devs.skip(1), l)
    }
}

impl BlkInfo {
    pub fn get_devices(&self) -> (r: &Vec<BlkDevice>)
        ensures
            r@ == self.devices@,
    {
        &self.devices
    }

    /// The first device with filesystem UUID `uuid`.
    pub fn by_uuid(&self, uuid: &str) -> (r: Option<&BlkDevice>)
        ensures
            match r {
                Some(d) => first_by_uuid(self.devices@, uuid@) == Some(*d),
                None => first_by_uuid(self.devices@, uuid@) is None,
            },
    {
        let key = String::from_str(uuid);
        let mut i: usize = 0;
        proof {
            assert(self.devices@.skip(0) =~= self.devices@);
        }
        while i < self.devices.len()
            invariant
                i <= self.devices@.len(),
                key@ == uuid@,
                first_by_uuid(self.devices@, uuid@) == first_by_uuid(
                    self.devices@.skip(i as int),
                    uuid@,
                ),
            decreases self.devices@.len() - i,
        {
            proof {
                assert(self.devices@.skip(i as int)[0] == self.devices@[i as int]);
                assert(self.devices@.skip(i as int).skip(1) =~= self.devices@.skip(i + 1));
            }
            if self.devices[i].uuid == key {
                return Some(&self.devices[i]);
            }
            i = i + 1;
        }
        None
    }

    /// The first device with label `label`.
    pub fn by_label(&self, label: &str) -> (r: Option<&BlkDevice>)
        ensures
            match r {
                Some(d) => first_by_label(self.devices@, label@) == Some(*d),
                None => first_by_label(self.devices@, label@) is None,
            },
    {
        let key = String::from_str(label);
        let mut i: usize = 0;
        proof {
            assert(self.devices@.skip(0) =~= self.devices@);
        }
        while i < self.devices.len()
            invariant
                i <= self.devices@.len(),
                key@ == label@,
                first_by_label(self.devices@, label@) == first_by_label(
                    self.devices@.skip(i as int),
                    label@,
                ),
            decreases self.devices@.len() - i,
        {
            proof {
                assert(self.devices@.skip(i as int)[0] == self.devices@[i as int]);
                assert(self.devices@.skip(i as int).skip(1) =~= self.devices@.skip(i + 1));
            }
            if self.devices[i].label == key {
                return Some(&self.devices[i]);
            }
            i = i + 1;
        }
        None
    }
}

} // verus!
