use vstd::prelude::*;

verus! {

/// Identifier of a pool.
#[derive(Debug, Clone, Copy, PartialEq, Eq, Structural, Hash)]
pub struct PoolUuid(pub u128);

/// Identifier of a block device.
#[derive(Debug, Clone, Copy, PartialEq, Eq, Structural, Hash)]
pub struct DevUuid(pub u128);

/// Identifier of a filesystem.
#[derive(Debug, Clone, Copy, PartialEq, Eq, Structural, Hash)]
pub struct FilesystemUuid(pub u128);

/// The identity of a Stratis device: its pool and itself.
#[derive(Debug, Clone, Copy, PartialEq, Eq, Structural)]
pub struct StratisIdentifiers {
    pub pool_uuid: PoolUuid,
    pub device_uuid: DevUuid,
}

/// The tier a block device belongs to.
#[derive(Debug, Clone, Copy, PartialEq, Eq, Structural)]
pub enum BlockDevTier {
    Data,
    Cache,
}

/// Marker returned when a key-description binding changed.
#[derive(Debug, Clone, Copy, PartialEq, Eq, Structural)]
pub struct Key;

/// Marker returned when a Clevis binding changed.
#[derive(Debug, Clone, Copy, PartialEq, Eq, Structural)]
pub struct Clevis;

/// Marker returned when a Clevis binding was regenerated.
#[derive(Debug, Clone, Copy, PartialEq, Eq, Structural)]
pub struct RegenAction;

/// Marker returned when a pool became encrypted.
#[derive(Debug, Clone, Copy, PartialEq, Eq, Structural)]
pub struct EncryptedDevice;

/// Outcome of a request to create one thing.
#[derive(Debug, PartialEq, Eq)]
pub enum CreateAction<T> {
    Identity,
    Created(T),
}

impl<T> CreateAction<T> {
    /// What was created, if anything.
    pub fn changed(self) -> (r: Option<T>)
        ensures
            r == match self {
                CreateAction::Created(t) => Some(t),
                CreateAction::Identity => None::<T>,
            },
    {
        match self {
            CreateAction::Created(t) => Some(t),
            CreateAction::Identity => None,
        }
    }
}

/// Outcome of a request to rename one thing.
#[derive(Debug, PartialEq, Eq)]
pub enum RenameAction<T> {
    Identity,
    NoSource,
    Renamed(T),
}

/// Outcome of a request to delete one thing.
#[derive(Debug, PartialEq, Eq)]
pub enum DeleteAction<T> {
    Identity,
    Deleted(T),
}

impl<T> RenameAction<T> {
    /// What was renamed, if anything.
    pub fn changed(self) -> (r: Option<T>)
        ensures
            r == match self {
                RenameAction::Renamed(t) => Some(t),
                _ => None::<T>,
            },
    {
        match self {
            RenameAction::Renamed(t) => Some(t),
            _ => None,
        }
    }
}

impl<T> DeleteAction<T> {
    /// What was deleted, if anything.
    pub fn changed(self) -> (r: Option<T>)
        ensures
            r == match self {
                DeleteAction::Deleted(t) => Some(t),
                DeleteAction::Identity => None::<T>,
            },
    {
        match self {
            DeleteAction::Deleted(t) => Some(t),
            DeleteAction::Identity => None,
        }
    }
}

/// Outcome of a request to start a stopped pool.
#[derive(Debug, PartialEq, Eq)]
pub enum StartAction<T> {
    Identity,
    Started(T),
}

/// Outcome of a request to stop a running pool.
#[derive(Debug, PartialEq, Eq)]
pub enum StopAction<T> {
    Identity,
    Stopped(T),
}

/// Outcome of a request to change a property.
#[derive(Debug, PartialEq, Eq)]
pub enum PropChangeAction<T> {
    Identity,
    NewValue(T),
}

/// Outcome of setting an entry in a key-value store.
#[derive(Debug, PartialEq, Eq)]
pub enum MappingCreateAction<T> {
    Created(T),
    ValueChanged(T),
    Identity,
}

/// Outcome of removing an entry from a key-value store.
#[derive(Debug, PartialEq, Eq)]
pub enum MappingDeleteAction<T> {
    Deleted(T),
    Identity,
}

/// Outcome of a request to create several things: the ones that were created.
#[derive(Debug, PartialEq, Eq)]
pub struct SetCreateAction<T> {
    pub changed: Vec<T>,
}

impl<T> SetCreateAction<T> {
    pub fn new(changed: Vec<T>) -> (r: Self)
        ensures
            r.changed@ == changed@,
    {
        SetCreateAction { changed }
    }

    pub fn empty() -> (r: Self)
        ensures
            r.changed@.len() == 0,
    {
        SetCreateAction { changed: Vec::new() }
    }

    /// Whether anything was created.
    pub fn is_changed(&self) -> (r: bool)
        ensures
            r == (self.changed@.len() > 0),
    {
        self.changed.len() > 0
    }

    /// What was created, or `None` when nothing was.
    pub fn changed(self) -> (r: Option<Vec<T>>)
        ensures
            match r {
                Some(v) => v@ == self.changed@ && v@.len() > 0,
                None => self.changed@.len() == 0,
            },
    {
        if self.changed.len() == 0 {
            None
        } else {
            Some(self.changed)
        }
    }
}

/// Outcome of a request to delete several things: the ones that were removed
/// and the updates made to things that depended on them.
#[derive(Debug, PartialEq, Eq)]
pub struct SetDeleteAction<T, S> {
    pub removed: Vec<T>,
    pub updated: Vec<S>,
}

impl<T, S> SetDeleteAction<T, S> {
    pub fn new(removed: Vec<T>, updated: Vec<S>) -> (r: Self)
        ensures
            r.removed@ == removed@,
            r.updated@ == updated@,
    {
        SetDeleteAction { removed, updated }
    }

    /// Whether anything was removed.
    pub fn is_changed(&self) -> (r: bool)
        ensures
            r == (self.removed@.len() > 0),
    {
        self.removed.len() > 0
    }
}

/// A value together with whether it changed since it was last observed.
#[derive(Debug, PartialEq, Eq)]
pub enum Diff<T> {
    Changed(T),
    Unchanged(T),
}

/// A value gathered from several sources that may disagree.
#[derive(Debug, PartialEq, Eq)]
pub enum MaybeInconsistent<T> {
    Yes,
    No(T),
}

/// Identifies a pool either by name or by UUID.
#[derive(Debug, PartialEq, Eq)]
pub enum PoolIdentifier {
    Name(String),
    Uuid(PoolUuid),
}

} // verus!
