//! Who owns a block device.

use vstd::prelude::*;
use crate::devices::UdevOwnership;
use crate::types::{DevUuid, PoolUuid};

verus! {

/// The owner of a block device: a Stratis pool (with the device's UUID),
/// nobody, or someone else (with a description).
#[derive(Debug, PartialEq, Eq)]
pub enum DevOwnership {
    Ours(PoolUuid, DevUuid),
    Unowned,
    Theirs(String),
}

/// The description given of a device that udev reports as a multipath
/// member.
pub const MULTIPATH_MEMBER: &'static str = "multipath member";
/// The description given of a device that udev reports as Stratis but whose
/// metadata says otherwise.
pub const STRATIS_WITHOUT_METADATA: &'static str = "Udev db says stratis, disk meta says no";
/// The description given of a device that udev reports as owned.
pub const OWNED_PER_UDEV: &'static str = "udev properties for this device did not indicate that the device was unowned";

impl DevOwnership {
    /// The pool and device UUIDs of a device that Stratis owns.
    pub fn stratis_identifiers(&self) -> (r: Option<(PoolUuid, DevUuid)>)
        ensures
            r == match self {
                DevOwnership::Ours(p, d) => Some((*p, *d)),
                _ => None::<(PoolUuid, DevUuid)>,
            },
    {
        match self {
            DevOwnership::Ours(pool_uuid, dev_uuid) => Some((*pool_uuid, *dev_uuid)),
            _ => None,
        }
    }

    /// Whether deciding the owner takes the identifiers recorded in the
    /// device's Stratis metadata: when udev reports it as Stratis or as
    /// unowned.
    pub fn needs_metadata(ownership: &UdevOwnership) -> (r: bool)
        ensures
            r == (*ownership == UdevOwnership::Stratis || *ownership == UdevOwnership::Unowned),
    {
        match ownership {
            UdevOwnership::Stratis | UdevOwnership::Unowned => true,
            _ => false,
        }
    }

    /// The owner of a device, from what udev reports and, where
    /// `needs_metadata` holds, the identifiers read from its metadata. A
    /// device with identifiers is ours; without them, one that udev reports
    /// as Stratis belongs to someone else.
    pub fn from_udev_ownership(ownership: &UdevOwnership, identifiers: Option<(PoolUuid, DevUuid)>) -> (r: DevOwnership)
        ensures
            match *ownership {
                UdevOwnership::Unowned => match identifiers {
                    Some((p, d)) => r == DevOwnership::Ours(p, d),
                    None => r == DevOwnership::Unowned,
                },
                UdevOwnership::Stratis => match identifiers {
                    Some((p, d)) => r == DevOwnership::Ours(p, d),
                    None => r matches DevOwnership::Theirs(s) && s@ == STRATIS_WITHOUT_METADATA@,
                },
                UdevOwnership::MultipathMember => r matches DevOwnership::Theirs(s) && s@ == MULTIPATH_MEMBER@,
                _ => r matches DevOwnership::Theirs(s) && s@ == OWNED_PER_UDEV@,
            },
    {
        match ownership {
            UdevOwnership::Unowned => match identifiers {
                Some((pool_uuid, device_uuid)) => DevOwnership::Ours(pool_uuid, device_uuid),
                None => DevOwnership::Unowned,
            },
            UdevOwnership::MultipathMember => DevOwnership::Theirs(MULTIPATH_MEMBER.to_owned()),
            UdevOwnership::Stratis => match identifiers {
                Some((pool_uuid, device_uuid)) => DevOwnership::Ours(pool_uuid, device_uuid),
                None => DevOwnership::Theirs(STRATIS_WITHOUT_METADATA.to_owned()),
            },
            _ => DevOwnership::Theirs(OWNED_PER_UDEV.to_owned()),
        }
    }
}

} // verus!
