use vstd::prelude::*;
use crate::errors::{ErrorReason, StratisError};
use crate::outside::{now_timestamp, random_u32};
use crate::types::FilesystemUuid;
use crate::units::{Bytes, Sectors};

verus! {

/// What is recorded of a filesystem in pool metadata.
#[derive(Debug, PartialEq, Eq)]
pub struct FilesystemSave {
    pub name: String,
    pub uuid: FilesystemUuid,
    pub size: Sectors,
    pub created: u64,
    pub fs_size_limit: Option<Sectors>,
    pub origin: Option<FilesystemUuid>,
}

/// A simulated filesystem.
#[derive(Debug)]
pub struct SimFilesystem {
    pub rand: u32,
    pub created: i64,
    pub size: Sectors,
    pub size_limit: Option<Sectors>,
    pub origin: Option<FilesystemUuid>,
    pub merge_scheduled: bool,
}

/// A limit, when present, is no smaller than the size.
pub open spec fn limit_allows(size: Sectors, limit: Option<Sectors>) -> bool {
    limit matches Some(l) ==> size.0 <= l.0
}

impl SimFilesystem {
    /// A new filesystem; refused when the limit is below the size.
    pub fn new(size: Sectors, size_limit: Option<Sectors>, origin: Option<FilesystemUuid>) -> (r: Result<
        SimFilesystem,
        StratisError,
    >)
        ensures
            limit_allows(size, size_limit) ==> (r matches Ok(fs) && fs.size == size && fs.size_limit
                == size_limit && fs.origin == origin && !fs.merge_scheduled),
            !limit_allows(size, size_limit) ==> r == Err::<SimFilesystem, StratisError>(
                StratisError::Msg(ErrorReason::SizeLimitBelowSize),
            ),
    {
        match size_limit {
            Some(limit) => {
                if limit.0 < size.0 {
                    return Err(StratisError::Msg(ErrorReason::SizeLimitBelowSize));
                }
            },
            None => {},
        }
        Ok(
            SimFilesystem {
                rand: random_u32(),
                created: now_timestamp(),
                size,
                size_limit,
                origin,
                merge_scheduled: false,
            },
        )
    }

    pub fn size(&self) -> (r: Sectors)
        ensures
            r == self.size,
    {
        self.size
    }

    /// The size in bytes.
    pub fn size_bytes(&self) -> (r: Bytes)
        ensures
            r.0 == self.size.0 * 512,
    {
        self.size.bytes()
    }

    /// A simulated filesystem reports half of its size as used.
    pub fn used(&self) -> (r: Bytes)
        ensures
            r.0 == (self.size.0 / 2) * 512,
    {
        Sectors(self.size.0 / 2).bytes()
    }

    pub fn size_limit(&self) -> (r: Option<Sectors>)
        ensures
            r == self.size_limit,
    {
        self.size_limit
    }

    pub fn origin(&self) -> (r: Option<FilesystemUuid>)
        ensures
            r == self.origin,
    {
        self.origin
    }

    pub fn merge_scheduled(&self) -> (r: bool)
        ensures
            r == self.merge_scheduled,
    {
        self.merge_scheduled
    }

    /// Set the size limit; refused when it is below the size. Returns whether
    /// the limit changed.
    pub fn set_size_limit(&mut self, limit: Option<Sectors>) -> (r: Result<bool, StratisError>)
        ensures
            !limit_allows(old(self).size, limit) ==> (r == Err::<bool, StratisError>(
                StratisError::Msg(ErrorReason::SizeLimitBelowSize),
            ) && *final(self) == *old(self)),
            limit_allows(old(self).size, limit) ==> (r == Ok::<bool, StratisError>(
                old(self).size_limit != limit,
            ) && *final(self) == (SimFilesystem { size_limit: limit, ..*old(self) })),
    {
        match limit {
            Some(lim) => {
                if self.size.0 > lim.0 {
                    return Err(StratisError::Msg(ErrorReason::SizeLimitBelowSize));
                }
            },
            None => {},
        }
        let same = match (self.size_limit, limit) {
            (Some(a), Some(b)) => a.0 == b.0,
            (None, None) => true,
            _ => false,
        };
        if same {
            Ok(false)
        } else {
            self.size_limit = limit;
            Ok(true)
        }
    }

    /// Forget the origin; returns whether there was one.
    pub fn unset_origin(&mut self) -> (r: bool)
        ensures
            r == old(self).origin is Some,
            *final(self) == (SimFilesystem { origin: None, ..*old(self) }),
    {
        let changed = self.origin.is_some();
        self.origin = None;
        changed
    }

    /// Set the origin; returns whether it changed.
    pub fn set_origin(&mut self, origin: Option<FilesystemUuid>) -> (r: bool)
        ensures
            r == (old(self).origin != origin),
            *final(self) == (SimFilesystem { origin, ..*old(self) }),
    {
        let same = match (self.origin, origin) {
            (Some(a), Some(b)) => a.0 == b.0,
            (None, None) => true,
            _ => false,
        };
        self.origin = origin;
        !same
    }

    /// Schedule or unschedule a revert into the origin; refused when there is
    /// no origin. Returns whether the setting changed.
    pub fn set_merge_scheduled(&mut self, scheduled: bool) -> (r: Result<bool, StratisError>)
        ensures
            old(self).origin is None ==> (r == Err::<bool, StratisError>(
                StratisError::Msg(ErrorReason::NoOrigin),
            ) && *final(self) == *old(self)),
            old(self).origin is Some ==> (r == Ok::<bool, StratisError>(
                old(self).merge_scheduled != scheduled,
            ) && *final(self) == (SimFilesystem { merge_scheduled: scheduled, ..*old(self) })),
    {
        if self.origin.is_none() {
            return Err(StratisError::Msg(ErrorReason::NoOrigin));
        }
        let changed = self.merge_scheduled != scheduled;
        self.merge_scheduled = scheduled;
        Ok(changed)
    }

    /// The metadata record of this filesystem under `name` and `uuid`.
    pub fn record(&self, name: &String, uuid: FilesystemUuid) -> (r: FilesystemSave)
        ensures
            r.name@ == name@,
            r.uuid == uuid,
            r.size == self.size,
            r.created == self.created as u64,
            r.fs_size_limit == self.size_limit,
            r.origin == self.origin,
    {
        FilesystemSave {
            name: name.clone(),
            uuid,
            size: self.size,
            created: self.created as u64,
            fs_size_limit: self.size_limit,
            origin: self.origin,
        }
    }
}

} // verus!
