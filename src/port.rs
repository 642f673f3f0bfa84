//! Port buffers: an ordered queue of packets with a monotone closing status.
use vstd::prelude::*;

use crate::packet::{Packet, PacketModel};

verus! {

/// Where a port stands in its life: `Open → Closing → DoneOpen → DoneClosed`.
#[derive(PartialEq, Eq, Structural, Debug, Clone, Copy)]
pub enum PortStatus {
    Open,
    Closing,
    DoneOpen,
    DoneClosed,
}

/// The position of a status along the port's life; it never decreases.
pub open spec fn status_rank(s: PortStatus) -> nat {
    match s {
        PortStatus::Open => 0,
        PortStatus::Closing => 1,
        PortStatus::DoneOpen => 2,
        PortStatus::DoneClosed => 3,
    }
}

/// A port's buffered packets and status.
#[derive(Debug)]
pub struct PortBuffer {
    status: PortStatus,
    queue: Vec<Packet>,
    done_forwarded: bool,
}

/// The mathematical value of a [`PortBuffer`].
pub struct PortModel {
    pub status: PortStatus,
    pub queue: Seq<PacketModel>,
    pub done_forwarded: bool,
}

impl View for PortBuffer {
    type V = PortModel;

    closed spec fn view(&self) -> PortModel {
        PortModel {
            status: self.status,
            queue: self.queue@.map_values(|p: Packet| p@),
            done_forwarded: self.done_forwarded,
        }
    }
}

impl PortModel {
    /// A closed port holds nothing; a port that is done but open still holds something;
    /// the terminator is handed on only once the port has closed.
    pub open spec fn wf(self) -> bool {
        &&& (self.status == PortStatus::DoneClosed ==> self.queue.len() == 0)
        &&& (self.status == PortStatus::DoneOpen ==> self.queue.len() > 0)
        &&& (self.done_forwarded ==> self.status == PortStatus::DoneClosed)
    }

    /// The port's state after `p` has been offered to it.
    pub open spec fn push(self, p: PacketModel) -> PortModel {
        if self.status == PortStatus::DoneClosed {
            self
        } else if p.is_done() {
            PortModel {
                status: if self.queue.len() > 0 {
                    PortStatus::DoneOpen
                } else {
                    PortStatus::DoneClosed
                },
                ..self
            }
        } else {
            PortModel {
                status: if self.status == PortStatus::Closing {
                    PortStatus::DoneOpen
                } else {
                    self.status
                },
                queue: self.queue.push(p),
                ..self
            }
        }
    }

    /// The port's state after its first packet, if any, has been taken.
    pub open spec fn take(self) -> PortModel {
        if self.queue.len() == 0 {
            self
        } else {
            PortModel {
                status: if self.queue.len() == 1 && self.status == PortStatus::DoneOpen {
                    PortStatus::DoneClosed
                } else {
                    self.status
                },
                queue: self.queue.drop_first(),
                ..self
            }
        }
    }

    /// The state after every queued packet has been taken.
    pub open spec fn drain(self) -> PortModel
        decreases self.queue.len(),
    {
        if self.queue.len() == 0 {
            self
        } else {
            self.take().drain()
        }
    }

    /// Whether the port's terminator is closed and still to be handed on.
    pub open spec fn done_pending(self) -> bool {
        self.status == PortStatus::DoneClosed && !self.done_forwarded
    }
}

impl PortBuffer {
    /// An empty open port.
    pub fn new() -> (r: PortBuffer)
        ensures
            r@ == (PortModel { status: PortStatus::Open, queue: Seq::empty(), done_forwarded: false }),
            r@.wf(),
    {
        let r = PortBuffer { status: PortStatus::Open, queue: Vec::new(), done_forwarded: false };
        assert(r@.queue =~= Seq::<PacketModel>::empty());
        r
    }

    pub fn status(&self) -> (r: PortStatus)
        ensures
            r == self@.status,
    {
        self.status
    }

    pub fn is_empty(&self) -> (r: bool)
        ensures
            r == (self@.queue.len() == 0),
    {
        self.queue.len() == 0
    }

    pub fn len(&self) -> (r: usize)
        ensures
            r == self@.queue.len(),
    {
        self.queue.len()
    }

    /// Marks an open port as closing; any other port is left as it is.
    pub fn begin_closing(&mut self)
        requires
            old(self)@.wf(),
        ensures
            final(self)@.wf(),
            final(self)@ == (if old(self)@.status == PortStatus::Open {
                PortModel { status: PortStatus::Closing, ..old(self)@ }
            } else {
                old(self)@
            }),
    {
        if self.status == PortStatus::Open {
            self.status = PortStatus::Closing;
        }
    }

    /// Offers `p` to the port. A closed port drops it, and `false` is returned; a
    /// terminator changes the status and is not stored; anything else is queued.
    pub fn buffer(&mut self, p: Packet) -> (accepted: bool)
        requires
            old(self)@.wf(),
        ensures
            final(self)@ == old(self)@.push(p@),
            final(self)@.wf(),
            accepted == (old(self)@.status != PortStatus::DoneClosed),
            status_rank(old(self)@.status) <= status_rank(final(self)@.status),
    {
        if self.status == PortStatus::DoneClosed {
            return false;
        }
        if p.is_done() {
            if self.queue.len() > 0 {
                self.status = PortStatus::DoneOpen;
            } else {
                self.status = PortStatus::DoneClosed;
            }
        } else {
            if self.status == PortStatus::Closing {
                self.status = PortStatus::DoneOpen;
            }
            self.queue.push(p);
            assert(self@.queue =~= old(self)@.queue.push(p@));
        }
        true
    }

    /// Takes the first queued packet, if any.
    pub fn take_packet(&mut self) -> (r: Option<Packet>)
        requires
            old(self)@.wf(),
        ensures
            final(self)@ == old(self)@.take(),
            final(self)@.wf(),
            status_rank(old(self)@.status) <= status_rank(final(self)@.status),
            old(self)@.queue.len() == 0 ==> r is None,
            old(self)@.queue.len() > 0 ==> r is Some && r->Some_0@ == old(self)@.queue[0],
    {
        if self.queue.len() == 0 {
            return None;
        }
        let p = self.queue.remove(0);
        assert(self@.queue =~= old(self)@.queue.drop_first());
        if self.queue.len() == 0 && self.status == PortStatus::DoneOpen {
            self.status = PortStatus::DoneClosed;
        }
        Some(p)
    }

    /// Takes every queued packet, first to last.
    pub fn take_all(&mut self) -> (r: Vec<Packet>)
        requires
            old(self)@.wf(),
        ensures
            final(self)@ == old(self)@.drain(),
            final(self)@.wf(),
            final(self)@.queue.len() == 0,
            r@.map_values(|p: Packet| p@) == old(self)@.queue,
            status_rank(old(self)@.status) <= status_rank(final(self)@.status),
    {
        let mut r: Vec<Packet> = Vec::new();
        let ghost q0 = old(self)@.queue;
        while self.queue.len() > 0
            invariant
                self@.wf(),
                self@.drain() == old(self)@.drain(),
                q0 == r@.map_values(|p: Packet| p@) + self@.queue,
                status_rank(old(self)@.status) <= status_rank(self@.status),
                self@.done_forwarded == old(self)@.done_forwarded,
            decreases self.queue.len(),
        {
            let ghost before = self@;
            let p = self.take_packet();
            let p = p.unwrap();
            r.push(p);
            assert(q0 =~= r@.map_values(|p: Packet| p@) + self@.queue) by {
                assert(before.queue =~= seq![before.queue[0]] + self@.queue);
            }
        }
        assert(r@.map_values(|p: Packet| p@) =~= q0);
        r
    }

    /// Hands on the port's terminator: `true` exactly once, after the port has closed.
    pub fn take_done(&mut self) -> (r: bool)
        requires
            old(self)@.wf(),
        ensures
            r == old(self)@.done_pending(),
            final(self)@ == (if r {
                PortModel { done_forwarded: true, ..old(self)@ }
            } else {
                old(self)@
            }),
            final(self)@.wf(),
    {
        if self.status == PortStatus::DoneClosed && !self.done_forwarded {
            self.done_forwarded = true;
            true
        } else {
            false
        }
    }
}


/// Draining a port leaves it empty.
pub proof fn lemma_drain_empty(m: PortModel)
    ensures
        m.drain().queue.len() == 0,
    decreases m.queue.len(),
{
    if m.queue.len() > 0 {
        lemma_drain_empty(m.take());
    }
}

} // verus!
