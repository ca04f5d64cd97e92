//! What the receiver of an endpoint does with what its transport hands it.

use super::target_database::{PeerAddr, TargetDatabase};
use crate::mavlink::{Message, SysCompId};
use std::sync::Arc;
use vstd::prelude::*;

verus! {

/// What the transport of an endpoint hands to its receiver.
pub enum ReceiverEvent {
    /// A frame, and the address it came from.
    Frame(Message, PeerAddr),
    /// The transport failed to read; it may go on.
    ReadFailed,
    /// The transport has ended.
    EndOfStream,
}

/// What the receiver does next.
pub enum ReceiverAction {
    /// Record the sender at the address, where one is given, then hand the
    /// frame to the routing plane.
    Publish(Message, Option<(SysCompId, PeerAddr)>),
    /// Wait for the next event.
    Skip,
    /// Stop receiving.
    Stop,
}

/// What a frame from `sender` that came from `addr` teaches: that the
/// sender is at that address, unless one of its ids is zero.
pub open spec fn spec_learned(sender: SysCompId, addr: PeerAddr) -> Option<(SysCompId, PeerAddr)> {
    if sender.spec_is_valid_sender() {
        Some((sender, addr))
    } else {
        None
    }
}

/// Whether the receiver goes on after it handed a frame to the routing
/// plane: it stops once the routing plane is gone.
pub fn continues_after_publish(delivered: bool) -> (r: bool)
    ensures
        r == delivered,
{
    delivered
}

/// The receiving half of an endpoint: learns where senders are and passes
/// every frame on.
pub struct Receiver {
    discovered_targets: Arc<TargetDatabase>,
}

impl Receiver {
    /// The database in which the receiver records the senders it sees.
    pub closed spec fn database(&self) -> Arc<TargetDatabase> {
        self.discovered_targets
    }

    /// A receiver that records senders in `discovered_targets`, the
    /// database that it shares with the sender of its endpoint.
    pub fn new(discovered_targets: Arc<TargetDatabase>) -> (r: Self)
        ensures
            r.database() == discovered_targets,
    {
        Self { discovered_targets }
    }

    /// Decides what a frame that came from `addr` teaches: its sender is
    /// at that address, unless one of the sender's ids is zero. Such a
    /// sender cannot be addressed, and nothing is learned from the frame.
    pub fn validate(msg: &Message, addr: PeerAddr) -> (learn: Option<(SysCompId, PeerAddr)>)
        ensures
            learn == spec_learned(msg.routing_info.sender, addr),
    {
        if !msg.routing_info.sender.is_valid_sender() {
            return None;
        }
        Some((msg.routing_info.sender, addr))
    }

    /// Records in the database of the endpoint what a frame taught.
    pub fn update_db(&self, learn: Option<(SysCompId, PeerAddr)>) {
        if let Some((sender, addr)) = learn {
            self.discovered_targets.insert_or_update(sender, addr);
        }
    }

    /// Decides what to do with an event of the transport. Every frame is
    /// published, whether or not something is learned from it, and what is
    /// learned is to be recorded first; a failed read is passed over; the
    /// end of the stream stops the receiver.
    pub fn on_event(&self, event: ReceiverEvent) -> (action: ReceiverAction)
        ensures
            match event {
                ReceiverEvent::Frame(msg, addr) => {
                    &&& action matches ReceiverAction::Publish(m, learn)
                    &&& m@ == msg@
                    &&& m.routing_info.sender == msg.routing_info.sender
                    &&& m.routing_info.target == msg.routing_info.target
                    &&& learn == spec_learned(msg.routing_info.sender, addr)
                },
                ReceiverEvent::ReadFailed => action is Skip,
                ReceiverEvent::EndOfStream => action is Stop,
            },
    {
        match event {
            ReceiverEvent::Frame(msg, addr) => {
                let learn = Self::validate(&msg, addr);
                ReceiverAction::Publish(msg, learn)
            },
            ReceiverEvent::ReadFailed => ReceiverAction::Skip,
            ReceiverEvent::EndOfStream => ReceiverAction::Stop,
        }
    }
}

} // verus!
