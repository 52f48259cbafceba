//! The control bridge: a bounded, first-in-first-out command queue, the
//! only crossing point between network producers and the processing cycle.
//!
//! Producers enqueue without ever blocking: when the queue is full the new
//! command is dropped and a drop counter records it. The single consumer
//! drains everything that made it in, in arrival order, once per cycle.

use vstd::prelude::*;

use crate::pattern::Command;

verus! {

/// The mathematical model of the bridge: the pending commands in arrival
/// order, the fixed capacity, and how many commands were dropped.
#[verifier::ext_equal]
pub struct BridgeView {
    pub queue: Seq<Command>,
    pub capacity: usize,
    pub dropped: u64,
}

impl BridgeView {
    /// The queue never holds more than its capacity.
    pub open spec fn wf(self) -> bool {
        self.queue.len() <= self.capacity
    }
}

/// Incrementing the drop counter never overflows; it pins at the maximum.
pub open spec fn spec_saturating_inc(d: u64) -> u64 {
    if d == u64::MAX {
        u64::MAX
    } else {
        (d + 1) as u64
    }
}

/// The bounded multi-producer/single-consumer command queue.
#[derive(Debug)]
pub struct ControlBridge {
    queue: Vec<Command>,
    capacity: usize,
    dropped: u64,
}

impl View for ControlBridge {
    type V = BridgeView;

    closed spec fn view(&self) -> BridgeView {
        BridgeView { queue: self.queue@, capacity: self.capacity, dropped: self.dropped }
    }
}

impl ControlBridge {
    /// An empty bridge that retains at most `capacity` pending commands.
    pub fn new(capacity: usize) -> (b: ControlBridge)
        ensures
            b@.queue == Seq::<Command>::empty(),
            b@.capacity == capacity,
            b@.dropped == 0,
            b@.wf(),
    {
        let b = ControlBridge { queue: Vec::new(), capacity, dropped: 0 };
        proof {
            assert(b@.queue =~= Seq::<Command>::empty());
        }
        b
    }

    /// Non-blocking enqueue. The command is appended exactly when there is
    /// room; a full queue drops it, leaves the queue unchanged, and counts
    /// the drop.
    pub fn try_enqueue(&mut self, cmd: Command) -> (accepted: bool)
        requires
            old(self)@.wf(),
        ensures
            final(self)@.wf(),
            final(self)@.capacity == old(self)@.capacity,
            accepted == (old(self)@.queue.len() < old(self)@.capacity),
            accepted ==> final(self)@.queue == old(self)@.queue.push(cmd)
                && final(self)@.dropped == old(self)@.dropped,
            !accepted ==> final(self)@.queue == old(self)@.queue
                && final(self)@.dropped == spec_saturating_inc(old(self)@.dropped),
    {
        if self.queue.len() < self.capacity {
            self.queue.push(cmd);
            true
        } else {
            if self.dropped < u64::MAX {
                self.dropped = self.dropped + 1;
            }
            false
        }
    }

    /// Non-blocking drain: hands back every pending command in arrival
    /// order and leaves the queue empty. Capacity and drop count stay.
    pub fn drain_all(&mut self) -> (cmds: Vec<Command>)
        ensures
            cmds@ == old(self)@.queue,
            final(self)@.queue == Seq::<Command>::empty(),
            final(self)@.capacity == old(self)@.capacity,
            final(self)@.dropped == old(self)@.dropped,
            final(self)@.wf(),
    {
        let mut out: Vec<Command> = Vec::new();
        core::mem::swap(&mut out, &mut self.queue);
        proof {
            assert(self@.queue =~= Seq::<Command>::empty());
        }
        out
    }

    /// How many commands are pending.
    pub fn len(&self) -> (n: usize)
        ensures
            n == self@.queue.len(),
    {
        self.queue.len()
    }

    /// The fixed capacity the bridge was made with.
    pub fn capacity(&self) -> (n: usize)
        ensures
            n == self@.capacity,
    {
        self.capacity
    }

    /// How many commands were dropped because the queue was full.
    pub fn dropped_count(&self) -> (n: u64)
        ensures
            n == self@.dropped,
    {
        self.dropped
    }
}

} // verus!
