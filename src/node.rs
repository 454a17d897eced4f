use vstd::prelude::*;

verus! {

/// Where a node stands in its forwarding loop.
#[derive(Clone, Copy, Debug, PartialEq, Eq, Structural)]
pub enum NodePhase {
    /// Waiting for the next token on the inbound edge.
    Receiving,
    /// A send of a live token on the outbound edge is outstanding.
    Sending,
    /// The send of the node's one termination signal is outstanding; once it
    /// is accepted the loop is over.
    Closing,
    /// The loop is over; the node reads nothing more and does nothing more.
    Finished,
}

/// What the runtime observed on behalf of a node.
#[derive(Clone, Copy, Debug, PartialEq, Eq, Structural)]
pub enum NodeEvent {
    /// A token arrived on the inbound edge (`None` is the termination signal).
    Received(Option<usize>),
    /// The inbound edge closed: every sender on it is gone.
    InboundClosed,
    /// The outstanding send was accepted by the outbound edge.
    Sent,
    /// The outbound edge's receiver is gone, so the send failed.
    SendFailed,
}

/// What the runtime must do next for a node.
#[derive(Clone, Copy, Debug, PartialEq, Eq, Structural)]
pub enum NodeAction {
    /// Wait for the next inbound token.
    Receive,
    /// Send this token on the outbound edge.
    Send(Option<usize>),
    /// Keep waiting for the outcome of the outstanding send.
    AwaitSend,
    /// Send one completion signal on the shared completion channel, then stop.
    SignalCompletion,
    /// Stop without signalling.
    Exit,
}

/// One actor of the ring: it forwards live tokens from its inbound edge to
/// its outbound edge until it has forwarded `max` of them or it receives the
/// termination signal; either way it then sends one termination signal
/// downstream, signals completion and stops reading.
#[derive(Clone, Copy, Debug, PartialEq, Eq, Structural)]
pub struct RingNode {
    /// Position in the ring; position 0 is the root.
    pub index: usize,
    /// How many live tokens the node forwards before it forces termination.
    pub max: usize,
    /// How many sends the outbound edge has accepted so far.
    pub count: usize,
    pub phase: NodePhase,
}

/// The token a node sends for an incoming live token, given its count so far:
/// the termination signal once the quota is reached, else the token unchanged.
pub open spec fn outgoing(count: usize, max: usize, token: Option<usize>) -> Option<usize> {
    if count == max {
        None
    } else {
        token
    }
}

/// The count after one more accepted send (it stays at the top of `usize`).
pub open spec fn bumped(count: usize) -> usize {
    if count < usize::MAX {
        (count + 1) as usize
    } else {
        count
    }
}

/// The relay protocol of one node: its next state and action for an event.
///
/// An event that does not fit the phase (a send outcome while receiving, a
/// token while a send is outstanding) leaves the node as it was, and the
/// runtime is asked to wait for the event it still owes.
pub open spec fn transition(n: RingNode, e: NodeEvent) -> (RingNode, NodeAction) {
    match n.phase {
        NodePhase::Receiving => match e {
            NodeEvent::Received(Some(v)) => if n.count == n.max {
                (RingNode { phase: NodePhase::Closing, ..n }, NodeAction::Send(None))
            } else {
                (RingNode { phase: NodePhase::Sending, ..n }, NodeAction::Send(Some(v)))
            },
            NodeEvent::Received(None) => (
                RingNode { phase: NodePhase::Closing, ..n },
                NodeAction::Send(None),
            ),
            NodeEvent::InboundClosed => (
                RingNode { phase: NodePhase::Finished, ..n },
                NodeAction::Exit,
            ),
            _ => (n, NodeAction::Receive),
        },
        NodePhase::Sending => match e {
            NodeEvent::Sent => (
                RingNode { phase: NodePhase::Receiving, count: bumped(n.count), ..n },
                NodeAction::Receive,
            ),
            NodeEvent::SendFailed => (
                RingNode { phase: NodePhase::Finished, ..n },
                NodeAction::Exit,
            ),
            _ => (n, NodeAction::AwaitSend),
        },
        NodePhase::Closing => match e {
            NodeEvent::Sent => (
                RingNode { phase: NodePhase::Finished, count: bumped(n.count), ..n },
                NodeAction::SignalCompletion,
            ),
            NodeEvent::SendFailed => (
                RingNode { phase: NodePhase::Finished, ..n },
                NodeAction::Exit,
            ),
            _ => (n, NodeAction::AwaitSend),
        },
        NodePhase::Finished => (n, NodeAction::Exit),
    }
}

impl RingNode {
    /// A fresh node at position `index` that forwards `max` tokens.
    pub fn new(index: usize, max: usize) -> (r: RingNode)
        ensures
            r == (RingNode { index, max, count: 0, phase: NodePhase::Receiving }),
    {
        RingNode { index, max, count: 0, phase: NodePhase::Receiving }
    }

    /// Whether the node's loop is over.
    pub fn is_finished(&self) -> (r: bool)
        ensures
            r == (self.phase == NodePhase::Finished),
    {
        match self.phase {
            NodePhase::Finished => true,
            _ => false,
        }
    }

    /// Feeds one event to the node and returns what the runtime must do next.
    pub fn step(&mut self, event: NodeEvent) -> (action: NodeAction)
        ensures
            (*final(self), action) == transition(*old(self), event),
    {
        match self.phase {
            NodePhase::Receiving => match event {
                NodeEvent::Received(Some(v)) => {
                    if self.count == self.max {
                        self.phase = NodePhase::Closing;
                        NodeAction::Send(None)
                    } else {
                        self.phase = NodePhase::Sending;
                        NodeAction::Send(Some(v))
                    }
                },
                NodeEvent::Received(None) => {
                    self.phase = NodePhase::Closing;
                    NodeAction::Send(None)
                },
                NodeEvent::InboundClosed => {
                    self.phase = NodePhase::Finished;
                    NodeAction::Exit
                },
                _ => NodeAction::Receive,
            },
            NodePhase::Sending | NodePhase::Closing => match event {
                NodeEvent::Sent => {
                    if self.count < usize::MAX {
                        self.count = self.count + 1;
                    }
                    if self.phase == NodePhase::Closing {
                        self.phase = NodePhase::Finished;
                        NodeAction::SignalCompletion
                    } else {
                        self.phase = NodePhase::Receiving;
                        NodeAction::Receive
                    }
                },
                NodeEvent::SendFailed => {
                    self.phase = NodePhase::Finished;
                    NodeAction::Exit
                },
                _ => NodeAction::AwaitSend,
            },
            NodePhase::Finished => NodeAction::Exit,
        }
    }
}

} // verus!
