use vstd::prelude::*;
use crate::sim_engine::randomization::Randomizer;

verus! {

/// The states a simulated cache device can be in.
#[derive(Debug, Clone, Copy, PartialEq, Eq, Structural)]
pub enum CacheState {
    OK,
    FAILED,
}

/// A simulated cache device.
#[derive(Debug)]
pub struct SimCacheDev {
    pub devnode: String,
    pub state: CacheState,
}

impl SimCacheDev {
    /// A working cache device at `devnode`.
    pub fn new(devnode: &String) -> (r: SimCacheDev)
        ensures
            r.devnode@ == devnode@,
            r.state == CacheState::OK,
    {
        SimCacheDev { devnode: devnode.clone(), state: CacheState::OK }
    }

    /// Throw the die; the device fails when it comes up, and otherwise keeps
    /// its state.
    pub fn update(&mut self, rdm: &mut Randomizer)
        ensures
            final(self).devnode == old(self).devnode,
            final(self).state == CacheState::FAILED || final(self).state == old(self).state,
            old(rdm).denominator == 0 ==> final(self).state == old(self).state,
            old(rdm).denominator == 1 ==> final(self).state == CacheState::FAILED,
            *final(rdm) == *old(rdm),
    {
        if rdm.throw_die() {
            self.state = CacheState::FAILED;
        }
    }

    /// Whether the device is usable.
    pub fn usable(&self) -> (r: bool)
        ensures
            r == (self.state == CacheState::OK),
    {
        match self.state {
            CacheState::OK => true,
            CacheState::FAILED => false,
        }
    }

    /// The identifier of the device: its device node.
    pub fn get_id(&self) -> (r: String)
        ensures
            r@ == self.devnode@,
    {
        self.devnode.clone()
    }
}

} // verus!
