//! The latest-state register: one boolean per channel, written as a whole
//! when a valid frame is decoded and read as a whole on every tick. The
//! register itself is plain data; callers that share it across threads put
//! it behind a lock and keep the lock scoped to one read or one write.

use vstd::prelude::*;
use crate::frame::N_CHANNELS;

verus! {

/// The most recently decoded vector of channel levels. Starts all low and
/// only ever advances to the payload of a whole valid frame, never to a
/// partially copied one.
pub struct LatestState {
    levels: Vec<bool>,
}

impl View for LatestState {
    type V = Seq<bool>;

    closed spec fn view(&self) -> Seq<bool> {
        self.levels@
    }
}

impl LatestState {
    /// The register always holds exactly one level per channel.
    pub open spec fn wf(&self) -> bool {
        self@.len() == N_CHANNELS
    }

    /// A fresh register: every channel reads low until a valid frame
    /// arrives.
    pub fn new() -> (r: LatestState)
        ensures
            r.wf(),
            r@ == Seq::new(N_CHANNELS as nat, |i: int| false),
    {
        let mut levels: Vec<bool> = Vec::new();
        let mut i: usize = 0;
        while i < N_CHANNELS
            invariant
                i <= N_CHANNELS,
                levels@.len() == i,
                forall|j: int| 0 <= j < i ==> !levels@[j],
            decreases N_CHANNELS - i,
        {
            levels.push(false);
            i += 1;
        }
        proof {
            assert(levels@ =~= Seq::new(N_CHANNELS as nat, |i: int| false));
        }
        LatestState { levels }
    }

    /// Replaces the whole register with a freshly decoded vector.
    pub fn write(&mut self, states: &Vec<bool>)
        requires
            old(self).wf(),
            states@.len() == N_CHANNELS,
        ensures
            final(self).wf(),
            final(self)@ == states@,
    {
        let mut levels: Vec<bool> = Vec::new();
        let mut i: usize = 0;
        while i < N_CHANNELS
            invariant
                states@.len() == N_CHANNELS,
                i <= N_CHANNELS,
                levels@.len() == i,
                forall|j: int| 0 <= j < i ==> levels@[j] == states@[j],
            decreases N_CHANNELS - i,
        {
            levels.push(states[i]);
            i += 1;
        }
        proof {
            assert(levels@ =~= states@);
        }
        self.levels = levels;
    }

    /// Snapshot of the whole register, one level per channel.
    pub fn read(&self) -> (r: Vec<bool>)
        requires
            self.wf(),
        ensures
            r@ == self@,
    {
        let mut r: Vec<bool> = Vec::new();
        let mut i: usize = 0;
        while i < N_CHANNELS
            invariant
                self.wf(),
                i <= N_CHANNELS,
                r@.len() == i,
                forall|j: int| 0 <= j < i ==> r@[j] == self@[j],
            decreases N_CHANNELS - i,
        {
            r.push(self.levels[i]);
            i += 1;
        }
        proof {
            assert(r@ =~= self@);
        }
        r
    }

    /// The level of one channel.
    pub fn get(&self, channel: usize) -> (b: bool)
        requires
            self.wf(),
            channel < N_CHANNELS,
        ensures
            b == self@[channel as int],
    {
        self.levels[channel]
    }
}

} // verus!
