//! Admission of images to a bounded number of concurrent pipelines.

use vstd::prelude::*;

verus! {

/// The admission limit: how many pipelines may be in flight at once.
pub const MAX_IN_FLIGHT: usize = 10;

/// What the driver of a run does next.
#[derive(Clone, Copy, Debug, PartialEq, Eq, Structural)]
pub enum Decision {
    /// Start the pipeline of the image at this position.
    Start(usize),
    /// Every slot is taken or every image was started: wait for a pipeline
    /// in flight to end.
    Wait,
    /// Every image has reached the end of its pipeline.
    Done,
}

/// The progress of one run over a fixed number of images. Images are
/// started in the order of their positions; which of those in flight ends
/// first is not the pool's concern.
pub struct Pool {
    total: usize,
    started: usize,
    ended: usize,
}

impl Pool {
    #[verifier::type_invariant]
    spec fn well_formed(self) -> bool {
        &&& self.ended <= self.started
        &&& self.started <= self.total
        &&& self.started - self.ended <= MAX_IN_FLIGHT
    }

    /// How many images the run holds.
    pub closed spec fn total(&self) -> nat {
        self.total as nat
    }

    /// How many pipelines were started.
    pub closed spec fn started(&self) -> nat {
        self.started as nat
    }

    /// How many pipelines have ended, in success or in failure.
    pub closed spec fn ended(&self) -> nat {
        self.ended as nat
    }

    /// How many pipelines are in flight.
    pub open spec fn in_flight(&self) -> int {
        self.started() - self.ended()
    }

    /// Whether the next image can be admitted: one is left and a slot is
    /// free.
    pub open spec fn admits(&self) -> bool {
        self.started() < self.total() && self.in_flight() < MAX_IN_FLIGHT
    }

    /// A run over `total` images, none of them started.
    pub fn new(total: usize) -> (pool: Pool)
        ensures
            pool.total() == total,
            pool.started() == 0,
            pool.ended() == 0,
    {
        Pool { total, started: 0, ended: 0 }
    }

    /// Decides the driver's next move. While an image is left and fewer
    /// than ten pipelines are in flight, the next image is admitted;
    /// otherwise the driver waits for one in flight, or is done when all
    /// have ended. The number in flight never passes the limit.
    pub fn poll(&mut self) -> (decision: Decision)
        ensures
            final(self).total() == old(self).total(),
            final(self).ended() == old(self).ended(),
            0 <= final(self).in_flight() <= MAX_IN_FLIGHT,
            old(self).admits() ==> decision == Decision::Start(old(self).started() as usize)
                && final(self).started() == old(self).started() + 1,
            !old(self).admits() ==> final(self).started() == old(self).started(),
            !old(self).admits() && old(self).ended() < old(self).total() ==> decision
                == Decision::Wait && old(self).in_flight() > 0,
            !old(self).admits() && old(self).ended() >= old(self).total() ==> decision
                == Decision::Done && old(self).ended() == old(self).total(),
    {
        proof {
            use_type_invariant(&*self);
        }
        if self.started < self.total && self.started - self.ended < MAX_IN_FLIGHT {
            let position: usize = self.started;
            self.started = position + 1;
            Decision::Start(position)
        } else if self.ended < self.total {
            Decision::Wait
        } else {
            Decision::Done
        }
    }

    /// Records that a pipeline in flight has ended, which frees its slot.
    /// With none in flight nothing changes and the answer is `false`.
    pub fn complete(&mut self) -> (freed: bool)
        ensures
            final(self).total() == old(self).total(),
            final(self).started() == old(self).started(),
            freed == (old(self).in_flight() > 0),
            freed ==> final(self).ended() == old(self).ended() + 1,
            !freed ==> final(self).ended() == old(self).ended(),
            0 <= final(self).in_flight() <= MAX_IN_FLIGHT,
    {
        proof {
            use_type_invariant(&*self);
        }
        if self.ended < self.started {
            self.ended = self.ended + 1;
            true
        } else {
            false
        }
    }

    /// How many pipelines are in flight.
    pub fn running(&self) -> (count: usize)
        ensures
            count == self.in_flight(),
            count <= MAX_IN_FLIGHT,
    {
        proof {
            use_type_invariant(self);
        }
        self.started - self.ended
    }

    /// Whether every image has reached the end of its pipeline.
    pub fn is_done(&self) -> (done: bool)
        ensures
            done == (self.ended() == self.total()),
    {
        proof {
            use_type_invariant(self);
        }
        self.ended == self.total
    }
}

} // verus!
