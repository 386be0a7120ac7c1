//! Lifecycle of one live-viewer connection:
//! `Connecting -> Active -> Closing -> Closed`.

use crate::queue::QueueView;
use crate::registry::{has_id, RegistryError, RegistryView, SinkKind, SinkRegistry, SinkState, SinkView};
use vstd::prelude::*;

verus! {

#[derive(Clone, Copy, Debug, PartialEq, Eq, Structural)]
pub enum ConnPhase {
    /// Transport accepted, upgrade handshake under way.
    Connecting,
    /// Registered as the sink `sink`; its send task is running.
    Active { sink: u64 },
    /// Sending failed or the peer left; the sink still has to leave.
    Closing { sink: u64 },
    Closed,
}

#[derive(Clone, Copy, Debug, PartialEq, Eq, Structural)]
pub enum ConnEvent {
    HandshakeSucceeded,
    HandshakeFailed,
    SendFailed,
    PeerClosed,
    Shutdown,
}

/// The phase after `ev`, where a completed handshake registers under
/// `registered` (`None` if the registry refused it).
pub open spec fn conn_next(phase: ConnPhase, ev: ConnEvent, registered: Option<u64>) -> ConnPhase {
    match phase {
        ConnPhase::Connecting => match ev {
            ConnEvent::HandshakeSucceeded => match registered {
                Some(id) => ConnPhase::Active { sink: id },
                None => ConnPhase::Closed,
            },
            _ => ConnPhase::Closed,
        },
        ConnPhase::Active { sink } => match ev {
            ConnEvent::HandshakeSucceeded | ConnEvent::HandshakeFailed => phase,
            _ => ConnPhase::Closing { sink },
        },
        _ => phase,
    }
}

pub struct Connection {
    phase: ConnPhase,
    capacity: usize,
}

impl Connection {
    pub closed spec fn phase_spec(&self) -> ConnPhase {
        self.phase
    }

    pub closed spec fn capacity_spec(&self) -> nat {
        self.capacity as nat
    }

    /// A connection whose sink, once registered, queues up to `capacity`
    /// messages.
    pub fn new(capacity: usize) -> (r: Connection)
        requires
            capacity > 0,
        ensures
            r.phase_spec() == ConnPhase::Connecting,
            r.capacity_spec() == capacity,
    {
        Connection { phase: ConnPhase::Connecting, capacity }
    }

    pub fn phase(&self) -> (r: ConnPhase)
        ensures
            r == self.phase_spec(),
    {
        self.phase
    }

    /// Applies `ev`. A completed handshake registers a live-viewer sink; a
    /// failed one closes without touching the registry. Nothing else changes
    /// the registry: leaving it is `finish_close`'s work.
    pub fn handle(&mut self, reg: &mut SinkRegistry, ev: ConnEvent) -> (r: Option<u64>)
        requires
            old(reg).wf(),
            old(self).capacity_spec() > 0,
        ensures
            final(reg).wf(),
            final(self).capacity_spec() == old(self).capacity_spec(),
            final(self).phase_spec() == conn_next(old(self).phase_spec(), ev, r),
            r is Some <==> old(self).phase_spec() == ConnPhase::Connecting && ev
                == ConnEvent::HandshakeSucceeded && !old(reg)@.shutting_down && old(reg)@.next_id
                < u64::MAX,
            r is None ==> final(reg)@ == old(reg)@,
            r matches Some(id) ==> id == old(reg)@.next_id && final(reg)@ == (RegistryView {
                sinks: old(reg)@.sinks.push(
                    SinkView {
                        id,
                        kind: SinkKind::LiveViewer,
                        state: SinkState::Active,
                        queue: QueueView {
                            items: Seq::empty(),
                            capacity: old(self).capacity_spec(),
                            dropped: 0,
                            accepted: Seq::empty(),
                            taken: Seq::empty(),
                        },
                    },
                ),
                next_id: old(reg)@.next_id + 1,
                ..old(reg)@
            }),
    {
        match self.phase {
            ConnPhase::Connecting => match ev {
                ConnEvent::HandshakeSucceeded => {
                    if reg.next_id() == u64::MAX {
                        self.phase = ConnPhase::Closed;
                        return None;
                    }
                    match reg.register(SinkKind::LiveViewer, self.capacity) {
                        Ok(id) => {
                            self.phase = ConnPhase::Active { sink: id };
                            Some(id)
                        },
                        Err(RegistryError::ShuttingDown) => {
                            self.phase = ConnPhase::Closed;
                            None
                        },
                    }
                },
                _ => {
                    self.phase = ConnPhase::Closed;
                    None
                },
            },
            ConnPhase::Active { sink } => match ev {
                ConnEvent::HandshakeSucceeded | ConnEvent::HandshakeFailed => None,
                _ => {
                    self.phase = ConnPhase::Closing { sink };
                    None
                },
            },
            _ => None,
        }
    }

    /// From `Closing`: the sink leaves the registry and the connection is
    /// closed. In any other phase this does nothing.
    pub fn finish_close(&mut self, reg: &mut SinkRegistry)
        requires
            old(reg).wf(),
        ensures
            final(reg).wf(),
            final(self).capacity_spec() == old(self).capacity_spec(),
            old(self).phase_spec() matches ConnPhase::Closing { sink } ==> {
                &&& final(self).phase_spec() == ConnPhase::Closed
                &&& !has_id(final(reg)@.sinks, sink)
                &&& !has_id(old(reg)@.sinks, sink) ==> final(reg)@ == old(reg)@
                &&& has_id(old(reg)@.sinks, sink) ==> exists|i: int|
                    0 <= i < old(reg)@.sinks.len() && old(reg)@.sinks[i].id == sink && final(reg)@
                        == (RegistryView { sinks: old(reg)@.sinks.remove(i), ..old(reg)@ })
            },
            !(old(self).phase_spec() is Closing) ==> final(self).phase_spec() == old(
                self,
            ).phase_spec() && final(reg)@ == old(reg)@,
    {
        match self.phase {
            ConnPhase::Closing { sink } => {
                reg.deregister(sink);
                self.phase = ConnPhase::Closed;
            },
            _ => {},
        }
    }
}

} // verus!
