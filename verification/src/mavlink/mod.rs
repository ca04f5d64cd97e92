//! MAVLink identifiers and routing predicates.

use buffer::spec_frozen;
use tokio_util::bytes::Bytes;
use vstd::prelude::*;

pub use self::codec::Codec;
pub use self::deserializer::DeserializationError;
pub use self::deserializer::Deserializer;

pub mod buffer;
pub mod codec;
pub mod definitions;
pub mod deserializer;
pub mod frame;
pub mod v1;
pub mod v2;

verus! {

/// A MAVLink system id. Zero addresses every system.
#[derive(Debug, Clone, Copy, PartialEq, Eq, Hash, Structural)]
pub struct SysId(pub u8);

/// A MAVLink component id. Zero addresses every component of a system.
#[derive(Debug, Clone, Copy, PartialEq, Eq, Hash, Structural)]
pub struct CompId(pub u8);

/// A (system id, component id) pair that names a participant, or a group of
/// participants when one of the ids is zero.
#[derive(Debug, Clone, Copy, PartialEq, Eq, Hash, Structural)]
pub struct SysCompId {
    sys_id: SysId,
    comp_id: CompId,
}

impl View for SysCompId {
    type V = (u8, u8);

    open spec fn view(&self) -> (u8, u8) {
        (self.spec_sys_id(), self.spec_comp_id())
    }
}

/// Broadcast matching on plain id pairs: true when either side addresses
/// every system, when either side addresses every component of a system that
/// both share, or when the pairs are equal.
pub open spec fn spec_matches(a: (u8, u8), b: (u8, u8)) -> bool {
    ||| a.0 == 0
    ||| b.0 == 0
    ||| ((a.1 == 0 || b.1 == 0) && a.0 == b.0)
    ||| a == b
}

impl SysCompId {
    pub closed spec fn spec_sys_id(&self) -> u8 {
        self.sys_id.0
    }

    pub closed spec fn spec_comp_id(&self) -> u8 {
        self.comp_id.0
    }

    pub open spec fn spec_is_valid_sender(&self) -> bool {
        self@.0 != 0 && self@.1 != 0
    }

    pub open spec fn spec_is_broadcast(&self) -> bool {
        self@.0 == 0
    }

    pub open spec fn spec_is_sys_broadcast(&self) -> bool {
        self@.0 != 0 && self@.1 == 0
    }

    /// Builds the pair from its two ids.
    pub fn new(sys_id: u8, comp_id: u8) -> (r: Self)
        ensures
            r@ == (sys_id, comp_id),
    {
        Self { sys_id: SysId(sys_id), comp_id: CompId(comp_id) }
    }

    /// A frame may only be learned from a sender whose two ids are non-zero.
    #[inline]
    pub fn is_valid_sender(&self) -> (r: bool)
        ensures
            r == self.spec_is_valid_sender(),
    {
        self.sys_id.0 != 0 && self.comp_id.0 != 0
    }

    #[inline]
    pub fn sys_id(&self) -> (r: u8)
        ensures
            r == self@.0,
    {
        self.sys_id.0
    }

    #[inline]
    pub fn comp_id(&self) -> (r: u8)
        ensures
            r == self@.1,
    {
        self.comp_id.0
    }

    /// True when the pair addresses every system.
    #[inline]
    pub fn is_broadcast(&self) -> (r: bool)
        ensures
            r == self.spec_is_broadcast(),
    {
        self.sys_id.0 == 0
    }

    /// True when the pair addresses every component of one system.
    #[inline]
    pub fn is_sys_broadcast(&self) -> (r: bool)
        ensures
            r == self.spec_is_sys_broadcast(),
    {
        self.sys_id.0 != 0 && self.comp_id.0 == 0
    }

    /// Broadcast-aware comparison of two pairs.
    #[inline]
    pub fn matches(&self, other: Self) -> (r: bool)
        ensures
            r == spec_matches(self@, other@),
    {
        let is_broadcast = self.is_broadcast() || other.is_broadcast();
        let is_sys_broadcast = self.is_sys_broadcast() || other.is_sys_broadcast();
        is_broadcast || (is_sys_broadcast && self.sys_id.0 == other.sys_id.0) || (self.sys_id.0
            == other.sys_id.0 && self.comp_id.0 == other.comp_id.0)
    }

    /// Two pairs are equal exactly when their views are.
    pub proof fn lemma_view_injective(a: Self, b: Self)
        ensures
            (a@ == b@) <==> (a == b),
    {
    }
}

impl From<u8> for SysId {
    fn from(sys_id: u8) -> (r: Self) {
        Self(sys_id)
    }
}

impl vstd::std_specs::convert::FromSpecImpl<u8> for SysId {
    open spec fn obeys_from_spec() -> bool {
        true
    }

    open spec fn from_spec(sys_id: u8) -> Self {
        Self(sys_id)
    }
}

impl From<u8> for CompId {
    fn from(comp_id: u8) -> (r: Self) {
        Self(comp_id)
    }
}

impl vstd::std_specs::convert::FromSpecImpl<u8> for CompId {
    open spec fn obeys_from_spec() -> bool {
        true
    }

    open spec fn from_spec(comp_id: u8) -> Self {
        Self(comp_id)
    }
}

impl From<(u8, u8)> for SysCompId {
    fn from(ids: (u8, u8)) -> (r: Self) {
        Self::new(ids.0, ids.1)
    }
}

impl vstd::std_specs::convert::FromSpecImpl<(u8, u8)> for SysCompId {
    open spec fn obeys_from_spec() -> bool {
        true
    }

    open spec fn from_spec(ids: (u8, u8)) -> Self {
        Self::spec_new(ids)
    }
}

impl SysCompId {
    /// The pair built from two ids, as a specification value.
    pub closed spec fn spec_new(ids: (u8, u8)) -> Self {
        Self { sys_id: SysId(ids.0), comp_id: CompId(ids.1) }
    }

    /// `spec_new` builds the pair whose view is its argument.
    pub broadcast proof fn lemma_spec_new_view(ids: (u8, u8))
        ensures
            (#[trigger] Self::spec_new(ids))@ == ids,
    {
    }
}

/// Who sent a frame and whom it addresses.
#[derive(Debug, Clone, Copy)]
pub struct RoutingInfo {
    pub sender: SysCompId,
    pub target: SysCompId,
}

/// A peer receives a frame when the frame's target matches the peer and the
/// peer is not the sender itself.
pub open spec fn spec_routes_to(sender: (u8, u8), target: (u8, u8), peer: (u8, u8)) -> bool {
    spec_matches(target, peer) && sender != peer
}

impl RoutingInfo {
    pub open spec fn spec_matches(&self, peer: SysCompId) -> bool {
        spec_routes_to(self.sender@, self.target@, peer@)
    }

    /// Decides whether a frame with this routing information goes to `target`.
    pub fn matches(&self, target: SysCompId) -> (r: bool)
        ensures
            r == self.spec_matches(target),
    {
        self.target.matches(target) && !(self.sender.sys_id() == target.sys_id()
            && self.sender.comp_id() == target.comp_id())
    }
}

/// For a participant `(s, c)` with both ids non-zero, the targets `(0, 0)`,
/// `(s, 0)` and `(s, c)` match it, and a target of another, non-zero system
/// does not.
pub proof fn lemma_broadcast_match_semantics(s: u8, c: u8, other_sys: u8, other_comp: u8)
    requires
        s != 0,
        c != 0,
    ensures
        spec_matches((0u8, 0u8), (s, c)),
        spec_matches((s, 0u8), (s, c)),
        spec_matches((s, c), (s, c)),
        other_sys != s && other_sys != 0 ==> !spec_matches((other_sys, other_comp), (s, c)),
{
}

/// Matching is symmetric.
pub proof fn lemma_matches_symmetric(a: (u8, u8), b: (u8, u8))
    ensures
        spec_matches(a, b) == spec_matches(b, a),
{
}

/// A frame never routes to the participant that sent it.
pub proof fn lemma_never_routes_to_sender(sender: (u8, u8), target: (u8, u8))
    ensures
        !spec_routes_to(sender, target, sender),
{
}

/// One frame: its routing information and its bytes as they stood on the
/// wire, from the magic byte to the checksum or signature. The bytes are
/// shared by all who hold the frame.
#[derive(Debug, Clone)]
pub struct Message {
    pub routing_info: RoutingInfo,
    pub data: Bytes,
}

/// A frame as a plain value.
pub struct MessageView {
    pub sender: (u8, u8),
    pub target: (u8, u8),
    pub data: Seq<u8>,
}

impl View for Message {
    type V = MessageView;

    open spec fn view(&self) -> MessageView {
        MessageView {
            sender: self.routing_info.sender@,
            target: self.routing_info.target@,
            data: spec_frozen(self.data),
        }
    }
}

impl Message {
    /// Another handle on the frame; its bytes are not copied.
    pub fn share(&self) -> (r: Self)
        ensures
            r@ == self@,
    {
        Message { routing_info: self.routing_info, data: self.data.clone() }
    }
}

} // verus!
