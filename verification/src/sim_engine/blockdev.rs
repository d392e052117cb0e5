use vstd::prelude::*;
use crate::outside::{new_uuid_v4, now_timestamp};
use crate::types::DevUuid;
use crate::units::{Sectors, GI};

verus! {

/// Version of the on-disk metadata format of a block device.
#[derive(Debug, Clone, Copy, PartialEq, Eq, Structural)]
pub enum StratSigblockVersion {
    V1,
    V2,
}

/// A simulated block device.
#[derive(Debug)]
pub struct SimDev {
    pub devnode: String,
    pub user_info: Option<String>,
    pub hardware_info: Option<String>,
    pub initialization_time: i64,
}

/// The mathematical value of an optional string.
pub open spec fn opt_str_view(o: Option<String>) -> Option<Seq<char>> {
    match o {
        Some(s) => Some(s@),
        None => None,
    }
}

impl SimDev {
    /// A new device at `devnode`, with a random UUID and the current time.
    pub fn new(devnode: &String) -> (r: (DevUuid, SimDev))
        ensures
            r.1.devnode@ == devnode@,
            r.1.user_info is None,
            r.1.hardware_info is None,
    {
        (
            DevUuid(new_uuid_v4()),
            SimDev {
                devnode: devnode.clone(),
                user_info: None,
                hardware_info: None,
                initialization_time: now_timestamp(),
            },
        )
    }

    /// A copy of the device.
    pub fn duplicate(&self) -> (r: SimDev)
        ensures
            r.devnode@ == self.devnode@,
            opt_str_view(r.user_info) == opt_str_view(self.user_info),
            opt_str_view(r.hardware_info) == opt_str_view(self.hardware_info),
            r.initialization_time == self.initialization_time,
    {
        SimDev {
            devnode: self.devnode.clone(),
            user_info: self.user_info.clone(),
            hardware_info: self.hardware_info.clone(),
            initialization_time: self.initialization_time,
        }
    }

    /// The device node.
    pub fn devnode(&self) -> (r: &String)
        ensures
            r == &self.devnode,
    {
        &self.devnode
    }

    /// A simulated device is always 1 GiB.
    pub fn size(&self) -> (r: Sectors)
        ensures
            r.0 == GI / 512,
    {
        Sectors(GI / 512)
    }

    /// A simulated device has no pending new size.
    pub fn new_size(&self) -> (r: Option<Sectors>)
        ensures
            r is None,
    {
        None
    }

    /// The metadata format of a simulated device.
    pub fn metadata_version(&self) -> (r: StratSigblockVersion)
        ensures
            r == StratSigblockVersion::V2,
    {
        StratSigblockVersion::V2
    }

    /// Set or unset the user information; returns whether it changed.
    pub fn set_user_info(&mut self, user_info: Option<&str>) -> (r: bool)
        ensures
            r == (opt_str_view(old(self).user_info) != match user_info {
                Some(u) => Some(u@),
                None => None::<Seq<char>>,
            }),
            opt_str_view(final(self).user_info) == match user_info {
                Some(u) => Some(u@),
                None => None::<Seq<char>>,
            },
            final(self).devnode == old(self).devnode,
            final(self).hardware_info == old(self).hardware_info,
            final(self).initialization_time == old(self).initialization_time,
    {
        let same = match (&self.user_info, user_info) {
            (Some(a), Some(b)) => crate::table::str_eq(a.as_str(), b),
            (None, None) => true,
            _ => false,
        };
        if same {
            false
        } else {
            self.user_info = match user_info {
                Some(u) => Some(u.to_owned()),
                None => None,
            };
            true
        }
    }
}

} // verus!
