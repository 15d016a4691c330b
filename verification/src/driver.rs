//! The RPC driver: one cooperative task owns the RPC engine, and
//! calls from any task are queued on a bounded channel and served one
//! at a time, first in, first out. Dropping the sender ends the
//! driver, which then disconnects the control stream cleanly.

use vstd::prelude::*;

verus! {

/// The capacity of the driver's work-item channel.
pub open spec fn driver_capacity() -> int {
    8
}

/// The phases of the driver task.
#[derive(Clone, Copy, Debug, PartialEq, Eq, Structural)]
pub enum DriverState {
    /// Serving queued items.
    Running,
    /// The sender was dropped; the disconnector is being awaited.
    Disconnecting,
    /// The engine is done: disconnected cleanly or failed.
    Finished,
}

/// The driver's decision state: which items are queued, which have
/// been served, in what order.
pub struct RpcDriver {
    queue: Vec<u64>,
    state: DriverState,
    submitted: Ghost<Seq<u64>>,
    served: Ghost<Seq<u64>>,
}

impl RpcDriver {
    pub closed spec fn queue_spec(&self) -> Seq<u64> {
        self.queue@
    }

    pub closed spec fn state_spec(&self) -> DriverState {
        self.state
    }

    pub closed spec fn submitted_spec(&self) -> Seq<u64> {
        self.submitted@
    }

    pub closed spec fn served_spec(&self) -> Seq<u64> {
        self.served@
    }

    /// Every submitted item is served or still queued, in order, and
    /// the queue respects the channel's capacity.
    pub open spec fn inv(&self) -> bool {
        &&& self.submitted_spec() == self.served_spec() + self.queue_spec()
        &&& self.queue_spec().len() <= driver_capacity()
    }

    pub fn new() -> (r: RpcDriver)
        ensures
            r.inv(),
            r.state_spec() == DriverState::Running,
            r.submitted_spec() == Seq::<u64>::empty(),
            r.served_spec() == Seq::<u64>::empty(),
    {
        let r = RpcDriver {
            queue: Vec::new(),
            state: DriverState::Running,
            submitted: Ghost(Seq::empty()),
            served: Ghost(Seq::empty()),
        };
        proof {
            assert(r.submitted_spec() =~= r.served_spec() + r.queue_spec());
        }
        r
    }

    pub fn state(&self) -> (r: DriverState)
        ensures
            r == self.state_spec(),
    {
        self.state
    }

    /// Whether the bounded channel has room; a caller blocks when it
    /// has not.
    pub fn has_room(&self) -> (r: bool)
        ensures
            r == (self.queue_spec().len() < driver_capacity()),
    {
        self.queue.len() < 8
    }

    /// Queue a call. The channel is bounded: the caller must hold
    /// room, which is what makes senders block when it is full.
    pub fn enqueue(&mut self, id: u64)
        requires
            old(self).inv(),
            old(self).state_spec() == DriverState::Running,
            old(self).queue_spec().len() < driver_capacity(),
        ensures
            final(self).inv(),
            final(self).state_spec() == old(self).state_spec(),
            final(self).submitted_spec() == old(self).submitted_spec().push(id),
            final(self).served_spec() == old(self).served_spec(),
            final(self).queue_spec() == old(self).queue_spec().push(id),
    {
        self.queue.push(id);
        proof {
            self.submitted@ = self.submitted@.push(id);
            assert(self.submitted_spec() =~= self.served_spec() + self.queue_spec());
        }
    }

    /// Serve the next item: always the oldest queued one.
    pub fn serve_next(&mut self) -> (r: Option<u64>)
        requires
            old(self).inv(),
            old(self).state_spec() == DriverState::Running,
        ensures
            final(self).inv(),
            final(self).state_spec() == old(self).state_spec(),
            final(self).submitted_spec() == old(self).submitted_spec(),
            match r {
                Option::Some(id) => old(self).queue_spec().len() > 0 && id == old(
                    self,
                ).queue_spec()[0] && final(self).served_spec() == old(self).served_spec().push(id),
                Option::None => old(self).queue_spec().len() == 0 && final(self).served_spec()
                    == old(self).served_spec(),
            },
    {
        if self.queue.len() == 0 {
            return Option::None;
        }
        let id = self.queue.remove(0);
        proof {
            self.served@ = self.served@.push(id);
            assert(self.submitted_spec() =~= self.served_spec() + self.queue_spec());
        }
        Option::Some(id)
    }

    /// The sender half was dropped: stop serving and disconnect.
    pub fn sender_closed(&mut self)
        requires
            old(self).inv(),
            old(self).state_spec() == DriverState::Running,
        ensures
            final(self).inv(),
            final(self).state_spec() == DriverState::Disconnecting,
            final(self).submitted_spec() == old(self).submitted_spec(),
            final(self).served_spec() == old(self).served_spec(),
    {
        self.state = DriverState::Disconnecting;
    }

    /// The disconnector resolved: the remote end saw an orderly
    /// half-close.
    pub fn disconnected(&mut self)
        requires
            old(self).inv(),
            old(self).state_spec() == DriverState::Disconnecting,
        ensures
            final(self).inv(),
            final(self).state_spec() == DriverState::Finished,
    {
        self.state = DriverState::Finished;
    }

    /// The engine terminated with an error: in-flight and queued
    /// calls all surface transport errors.
    pub fn engine_failed(&mut self)
        requires
            old(self).inv(),
            old(self).state_spec() != DriverState::Finished,
        ensures
            final(self).inv(),
            final(self).state_spec() == DriverState::Finished,
            final(self).submitted_spec() == old(self).submitted_spec(),
            final(self).served_spec() == old(self).served_spec(),
    {
        self.state = DriverState::Finished;
    }
}

/// Calls are served in submission order: what has been served is
/// always exactly the first part of what was submitted.
pub proof fn lemma_fifo_service(d: RpcDriver)
    requires
        d.inv(),
    ensures
        d.served_spec() == d.submitted_spec().take(d.served_spec().len() as int),
{
    assert(d.served_spec() =~= d.submitted_spec().take(d.served_spec().len() as int));
}

} // verus!
