//! Events the engine reports, and the listeners it reports them to.

use vstd::prelude::*;

verus! {

/// The D-Bus object path of an engine object, when it has one.
#[derive(Debug, Clone, PartialEq, Eq)]
pub struct MaybeDbusPath(pub Option<String>);

/// The state of a block device within its pool.
#[derive(Debug, Clone, Copy, PartialEq, Eq, Structural)]
pub enum BlockDevState {
    Missing,
    Bad,
    Spare,
    NotInUse,
    InUse,
}

/// Whether the pool could extend its data and metadata devices.
#[derive(Debug, Clone, Copy, PartialEq, Eq, Structural)]
pub enum PoolExtendState {
    Initializing,
    Good,
    DataFailed,
    MetaFailed,
    MetaAndDataFailed,
}

/// How much free space a pool has left.
#[derive(Debug, Clone, Copy, PartialEq, Eq, Structural)]
pub enum FreeSpaceState {
    Good,
    Warning,
    Crit,
}

/// The state of a pool.
#[derive(Debug, Clone, Copy, PartialEq, Eq, Structural)]
pub enum PoolState {
    Initializing,
    Running,
    Stopping,
}

/// A change in the engine that listeners are told of.
#[derive(Debug, Clone)]
pub enum EngineEvent<'a> {
    BlockdevStateChanged { dbus_path: &'a MaybeDbusPath, state: BlockDevState },
    FilesystemRenamed { dbus_path: &'a MaybeDbusPath, from: &'a str, to: &'a str },
    PoolExtendStateChanged { dbus_path: &'a MaybeDbusPath, state: PoolExtendState },
    PoolRenamed { dbus_path: &'a MaybeDbusPath, from: &'a str, to: &'a str },
    PoolSpaceStateChanged { dbus_path: &'a MaybeDbusPath, state: FreeSpaceState },
    PoolStateChanged { dbus_path: &'a MaybeDbusPath, state: PoolState },
}

/// Something that is told of engine events.
pub trait EngineListener {
    /// React to an event.
    fn notify(&self, event: &EngineEvent);
}

/// The listeners that engine events are reported to, in the order they
/// registered.
pub struct EngineListenerList {
    listeners: Vec<Box<dyn EngineListener>>,
}

impl EngineListenerList {
    /// The registered listeners, in order.
    pub closed spec fn listeners(&self) -> Seq<Box<dyn EngineListener>> {
        self.listeners@
    }

    /// A list with no listeners.
    pub fn new() -> (r: EngineListenerList)
        ensures
            r.listeners() == Seq::<Box<dyn EngineListener>>::empty(),
    {
        EngineListenerList { listeners: Vec::new() }
    }

    /// The number of registered listeners.
    pub fn len(&self) -> (r: usize)
        ensures
            r == self.listeners().len(),
    {
        self.listeners.len()
    }

    /// Add a listener after those registered already.
    pub fn register_listener(&mut self, listener: Box<dyn EngineListener>)
        ensures
            final(self).listeners() == old(self).listeners().push(listener),
            final(self).listeners().len() == old(self).listeners().len() + 1,
    {
        let ghost s = self.listeners@;
        proof {
            vstd::seq::axiom_seq_push_len(s, listener);
        }
        self.listeners.push(listener);
    }

    /// Tell every listener of the event, in the order they registered.
    pub fn notify(&self, event: &EngineEvent) {
        let mut i: usize = 0;
        while i < self.listeners.len()
            invariant
                i <= self.listeners@.len(),
            decreases self.listeners@.len() - i,
        {
            self.listeners[i].notify(event);
            i = i + 1;
        }
    }
}

} // verus!
