//! The decisions of an operation applied to each encrypted device of a
//! pool in turn, with its LUKS2 header backed up first: on the first
//! failure, the headers of the devices the operation reached are restored,
//! in order, and their metadata reloaded. The caller performs each step and
//! reports whether it succeeded.

use vstd::prelude::*;

verus! {

/// What the caller is to do next.
#[derive(Debug, Clone, Copy, PartialEq, Eq, Structural)]
pub enum OpStep {
    /// Back up the header of device `i`.
    BackUp(usize),
    /// Perform the operation on device `i`.
    Act(usize),
    /// Restore the backed-up header of device `i`.
    Restore(usize),
    /// Reload the metadata of device `i` from its restored header.
    Reload(usize),
    /// Nothing more: the operation succeeded on every device.
    Succeeded,
    /// Nothing more: the operation failed and every device it reached was
    /// restored; the failure that caused the rollback is the result.
    Failed,
    /// Nothing more: restoring a device failed; the pool then accepts no
    /// more requests.
    RollbackFailed,
}

/// Whether the step just performed succeeded.
#[derive(Debug, Clone, Copy, PartialEq, Eq, Structural)]
pub enum OpEvent {
    Done,
    Error,
}

/// The state of an operation over `n` devices: how many headers were
/// backed up, how many devices the operation was attempted on, and, once
/// rolling back, how many devices were restored and whether the current
/// one awaits reloading.
#[derive(Debug, Clone, Copy, PartialEq, Eq, Structural)]
pub struct OperationLoop {
    pub n: usize,
    pub headers: usize,
    pub attempted: usize,
    pub rolling_back: bool,
    pub restored: usize,
    pub reloading: bool,
    pub outcome: Option<OpStep>,
}

impl OperationLoop {
    /// Headers are backed up one device ahead of the operation at most; a
    /// rollback restores only devices the operation was attempted on.
    pub open spec fn wf(&self) -> bool {
        &&& self.attempted <= self.headers <= self.attempted + 1
        &&& self.headers <= self.n
        &&& self.restored <= self.attempted
        &&& !self.rolling_back ==> self.restored == 0 && !self.reloading
        &&& self.reloading ==> self.restored < self.attempted
        &&& match self.outcome {
            None => true,
            Some(s) => s == OpStep::Succeeded || s == OpStep::Failed || s == OpStep::RollbackFailed,
        }
    }

    /// The step the state calls for.
    pub open spec fn step_of(&self) -> OpStep {
        match self.outcome {
            Some(s) => s,
            None => if self.rolling_back {
                if self.restored == self.attempted {
                    OpStep::Failed
                } else if self.reloading {
                    OpStep::Reload(self.restored)
                } else {
                    OpStep::Restore(self.restored)
                }
            } else if self.headers == self.attempted {
                if self.attempted == self.n {
                    OpStep::Succeeded
                } else {
                    OpStep::BackUp(self.attempted)
                }
            } else {
                OpStep::Act(self.attempted)
            },
        }
    }

    /// How many more steps there can be at most.
    pub open spec fn remaining(&self) -> int {
        if self.outcome is Some {
            0
        } else if self.rolling_back {
            2 * (self.attempted - self.restored) - (if self.reloading { 1int } else { 0int }) + 1
        } else {
            2 * (self.n - self.attempted) - (self.headers - self.attempted) + 2 * self.n + 3
        }
    }

    /// The state of an operation over `n` devices before anything was done.
    pub open spec fn initial(n: usize) -> OperationLoop {
        OperationLoop { n, headers: 0, attempted: 0, rolling_back: false, restored: 0, reloading: false, outcome: None }
    }

    /// An operation over `n` devices, before anything was done.
    pub fn new(n: usize) -> (r: OperationLoop)
        ensures
            r == OperationLoop::initial(n),
            r.wf(),
    {
        OperationLoop {
            n,
            headers: 0,
            attempted: 0,
            rolling_back: false,
            restored: 0,
            reloading: false,
            outcome: None,
        }
    }

    /// The step the state calls for.
    pub fn next_step(&self) -> (r: OpStep)
        requires
            self.wf(),
        ensures
            r == self.step_of(),
    {
        match self.outcome {
            Some(s) => s,
            None => if self.rolling_back {
                if self.restored == self.attempted {
                    OpStep::Failed
                } else if self.reloading {
                    OpStep::Reload(self.restored)
                } else {
                    OpStep::Restore(self.restored)
                }
            } else if self.headers == self.attempted {
                if self.attempted == self.n {
                    OpStep::Succeeded
                } else {
                    OpStep::BackUp(self.attempted)
                }
            } else {
                OpStep::Act(self.attempted)
            },
        }
    }

    /// Take in how the step the state called for went. A failed backup or
    /// operation starts the rollback (a device counts as reached once the
    /// operation was attempted on it); a failed restore or reload ends
    /// everything; the end of the steps is final.
    pub fn advance(&mut self, event: OpEvent)
        requires
            old(self).wf(),
        ensures
            *final(self) == after(*old(self), event),
    {
        match self.next_step() {
            OpStep::BackUp(_) => match event {
                OpEvent::Done => {
                    self.headers = self.headers + 1;
                },
                OpEvent::Error => {
                    self.rolling_back = true;
                },
            },
            OpStep::Act(_) => {
                self.attempted = self.attempted + 1;
                match event {
                    OpEvent::Done => {},
                    OpEvent::Error => {
                        self.rolling_back = true;
                    },
                }
            },
            OpStep::Restore(_) => match event {
                OpEvent::Done => {
                    self.reloading = true;
                },
                OpEvent::Error => {
                    self.outcome = Some(OpStep::RollbackFailed);
                },
            },
            OpStep::Reload(_) => match event {
                OpEvent::Done => {
                    self.restored = self.restored + 1;
                    self.reloading = false;
                },
                OpEvent::Error => {
                    self.outcome = Some(OpStep::RollbackFailed);
                },
            },
            s => {
                self.outcome = Some(s);
            },
        }
    }
}

/// The state after the step the state called for went as `event` says.
pub open spec fn after(s: OperationLoop, event: OpEvent) -> OperationLoop {
    match s.step_of() {
        OpStep::BackUp(_) => match event {
            OpEvent::Done => OperationLoop { headers: (s.headers + 1) as usize, ..s },
            OpEvent::Error => OperationLoop { rolling_back: true, ..s },
        },
        OpStep::Act(_) => match event {
            OpEvent::Done => OperationLoop { attempted: (s.attempted + 1) as usize, ..s },
            OpEvent::Error => OperationLoop { attempted: (s.attempted + 1) as usize, rolling_back: true, ..s },
        },
        OpStep::Restore(_) => match event {
            OpEvent::Done => OperationLoop { reloading: true, ..s },
            OpEvent::Error => OperationLoop { outcome: Some(OpStep::RollbackFailed), ..s },
        },
        OpStep::Reload(_) => match event {
            OpEvent::Done => OperationLoop { restored: (s.restored + 1) as usize, reloading: false, ..s },
            OpEvent::Error => OperationLoop { outcome: Some(OpStep::RollbackFailed), ..s },
        },
        st => OperationLoop { outcome: Some(st), ..s },
    }
}

/// The state after `k` steps that all succeeded.
pub open spec fn after_done(s: OperationLoop, k: nat) -> OperationLoop
    decreases k,
{
    if k == 0 {
        s
    } else {
        after(after_done(s, (k - 1) as nat), OpEvent::Done)
    }
}

/// Every step keeps the state well formed, and every step that is not the
/// last brings the end nearer: an operation always ends.
pub proof fn law_steps_end(s: OperationLoop, event: OpEvent)
    requires
        s.wf(),
    ensures
        after(s, event).wf(),
        after(s, event).n == s.n,
        s.step_of() is BackUp || s.step_of() is Act || s.step_of() is Restore || s.step_of() is Reload ==> 0
            <= after(s, event).remaining() < s.remaining(),
        !(s.step_of() is BackUp || s.step_of() is Act || s.step_of() is Restore || s.step_of() is Reload)
            ==> after(s, event).step_of() == s.step_of(),
{
}

/// When every step succeeds, an operation over `n` devices backs up the
/// header of each device and then operates on it, in order, and succeeds.
pub proof fn law_success_path(n: usize, j: nat)
    requires
        j <= n,
    ensures
        j < n ==> after_done(OperationLoop::initial(n), 2 * j).step_of() == OpStep::BackUp(j as usize),
        j < n ==> after_done(OperationLoop::initial(n), 2 * j + 1).step_of() == OpStep::Act(j as usize),
        j == n ==> after_done(OperationLoop::initial(n), 2 * j).step_of() == OpStep::Succeeded,
    decreases j,
{
    lemma_forward(n, j);
}

proof fn lemma_forward(n: usize, j: nat)
    requires
        j <= n,
    ensures
        after_done(OperationLoop::initial(n), 2 * j) == (OperationLoop {
            headers: j as usize,
            attempted: j as usize,
            ..OperationLoop::initial(n)
        }),
        j < n ==> after_done(OperationLoop::initial(n), 2 * j + 1) == (OperationLoop {
            headers: (j + 1) as usize,
            attempted: j as usize,
            ..OperationLoop::initial(n)
        }),
    decreases j,
{
    if j > 0 {
        lemma_forward(n, (j - 1) as nat);
        assert(2 * j == (2 * (j - 1) + 1) + 1);
        assert(after_done(OperationLoop::initial(n), 2 * j) == after(after_done(OperationLoop::initial(n), (2 * (j - 1) + 1) as nat), OpEvent::Done));
    }
    if j < n {
        assert(after_done(OperationLoop::initial(n), 2 * j + 1) == after(after_done(OperationLoop::initial(n), 2 * j), OpEvent::Done));
    }
}

/// Once an operation fails with `m` devices reached, each of them, in
/// order, has its header restored and its metadata reloaded, and then the
/// failure is reported.
pub proof fn law_rollback_restores_reached(s: OperationLoop, j: nat)
    requires
        s.wf(),
        s.rolling_back,
        s.restored == 0,
        !s.reloading,
        s.outcome is None,
        j <= s.attempted,
    ensures
        j < s.attempted ==> after_done(s, 2 * j).step_of() == OpStep::Restore(j as usize),
        j < s.attempted ==> after_done(s, 2 * j + 1).step_of() == OpStep::Reload(j as usize),
        j == s.attempted ==> after_done(s, 2 * j).step_of() == OpStep::Failed,
    decreases j,
{
    lemma_backward(s, j);
}

proof fn lemma_backward(s: OperationLoop, j: nat)
    requires
        s.wf(),
        s.rolling_back,
        s.restored == 0,
        !s.reloading,
        s.outcome is None,
        j <= s.attempted,
    ensures
        after_done(s, 2 * j) == (OperationLoop { restored: j as usize, ..s }),
        j < s.attempted ==> after_done(s, 2 * j + 1) == (OperationLoop { restored: j as usize, reloading: true, ..s }),
    decreases j,
{
    if j > 0 {
        lemma_backward(s, (j - 1) as nat);
        assert(after_done(s, 2 * j) == after(after_done(s, (2 * (j - 1) + 1) as nat), OpEvent::Done));
    }
    if j < s.attempted {
        assert(after_done(s, 2 * j + 1) == after(after_done(s, 2 * j), OpEvent::Done));
    }
}

/// A failed backup of device `i` starts a rollback of the `i` devices
/// before it; a failed operation on device `i` starts a rollback of the
/// `i + 1` devices up to it.
pub proof fn law_failure_starts_rollback(s: OperationLoop)
    requires
        s.wf(),
    ensures
        s.step_of() matches OpStep::BackUp(i) ==> {
            let a = after(s, OpEvent::Error);
            &&& a.rolling_back && a.attempted == i && a.restored == 0 && !a.reloading && a.outcome is None
        },
        s.step_of() matches OpStep::Act(i) ==> {
            let a = after(s, OpEvent::Error);
            &&& a.rolling_back && a.attempted == i + 1 && a.restored == 0 && !a.reloading && a.outcome is None
        },
{
}

} // verus!
