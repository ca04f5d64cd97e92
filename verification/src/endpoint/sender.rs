//! What the sender of an endpoint does with what the routing plane hands
//! it.

use super::target_database::{spec_target_addresses, Entry, PeerAddr, TargetDatabase};
use crate::mavlink::Message;
use std::sync::Arc;
use vstd::prelude::*;

verus! {

/// The state of a sender.
#[derive(Debug, Clone, Copy, PartialEq, Eq, Structural)]
pub enum SenderState {
    Running,
    Stopped,
}

/// What the routing plane hands to a sender.
pub enum SenderEvent {
    /// A frame that some endpoint received.
    Frame(Message),
    /// The sender fell behind, and this many frames were dropped for it.
    Lagged(u64),
    /// No endpoint publishes any more.
    Closed,
}

/// What a sender does next.
pub enum SenderAction {
    /// Write the frame to each of the addresses, in order, then flush.
    Send(Message, Vec<PeerAddr>),
    /// Report that this many frames were dropped.
    ReportLag(u64),
    /// Nothing to do.
    Idle,
}

/// The state after an event: a sender runs until the routing plane closes,
/// and a lag does not stop it. A stopped sender stays stopped.
pub open spec fn spec_next_state(state: SenderState, event: SenderEvent) -> SenderState {
    match (state, event) {
        (SenderState::Running, SenderEvent::Closed) => SenderState::Stopped,
        (SenderState::Running, _) => SenderState::Running,
        (SenderState::Stopped, _) => SenderState::Stopped,
    }
}

/// Whether the sender goes on to the next address after it wrote a frame
/// to one: it does, whether or not the write failed.
pub fn continues_after_write(written: bool) -> (r: bool)
    ensures
        r,
{
    true
}

/// One copy of the frame for each address, in the order of the addresses.
/// The copies share the bytes of the frame.
pub fn deliveries(msg: &Message, targets: &Vec<PeerAddr>) -> (r: Vec<(Message, PeerAddr)>)
    ensures
        r@.len() == targets@.len(),
        forall|i: int| 0 <= i < r@.len() ==> (#[trigger] r@[i]).0@ == msg@ && r@[i].1 == targets@[i],
{
    let mut out: Vec<(Message, PeerAddr)> = Vec::new();
    let mut i: usize = 0;
    while i < targets.len()
        invariant
            i <= targets.len(),
            out@.len() == i,
            forall|j: int| 0 <= j < i ==> (#[trigger] out@[j]).0@ == msg@ && out@[j].1 == targets@[j],
        decreases targets.len() - i,
    {
        out.push((msg.share(), targets[i]));
        i += 1;
    }
    out
}

/// The sending half of an endpoint: sends each frame to the learned peers
/// that it addresses.
pub struct Sender {
    discovered_targets: Arc<TargetDatabase>,
}

impl Sender {
    /// The database in which the sender looks the targets of a frame up.
    pub closed spec fn database(&self) -> Arc<TargetDatabase> {
        self.discovered_targets
    }

    /// A sender that looks targets up in `discovered_targets`, the database
    /// that it shares with the receiver of its endpoint.
    pub fn new(discovered_targets: Arc<TargetDatabase>) -> (r: Self)
        ensures
            r.database() == discovered_targets,
    {
        Self { discovered_targets }
    }

    /// Decides what to do with an event of the routing plane. A running
    /// sender sends a frame to the addresses that the database of its
    /// endpoint gives for it; where there is none the frame is dropped
    /// here. A stopped sender does nothing.
    pub fn on_event(&self, state: SenderState, event: SenderEvent) -> (r: (
        SenderState,
        SenderAction,
    ))
        ensures
            r.0 == spec_next_state(state, event),
            match (state, event) {
                (SenderState::Running, SenderEvent::Frame(msg)) => {
                    &&& r.1 matches SenderAction::Send(m, targets)
                    &&& m@ == msg@
                    &&& exists|entries: Seq<Entry>|
                        targets@ == #[trigger] spec_target_addresses(
                            entries,
                            msg@.sender,
                            msg@.target,
                        )
                },
                (SenderState::Running, SenderEvent::Lagged(n)) => r.1 matches SenderAction::ReportLag(
                    k,
                ) && k == n,
                _ => r.1 is Idle,
            },
    {
        match state {
            SenderState::Stopped => (SenderState::Stopped, SenderAction::Idle),
            SenderState::Running => match event {
                SenderEvent::Frame(msg) => {
                    let targets = self.discovered_targets.get_target_addresses(&msg.routing_info);
                    proof {
                        let entries = choose|entries: Seq<Entry>|
                            targets@ == #[trigger] spec_target_addresses(
                                entries,
                                msg.routing_info.sender@,
                                msg.routing_info.target@,
                            );
                        assert(targets@ == spec_target_addresses(
                            entries,
                            msg@.sender,
                            msg@.target,
                        ));
                    }
                    (SenderState::Running, SenderAction::Send(msg, targets))
                },
                SenderEvent::Lagged(n) => (SenderState::Running, SenderAction::ReportLag(n)),
                SenderEvent::Closed => (SenderState::Stopped, SenderAction::Idle),
            },
        }
    }
}

} // verus!
