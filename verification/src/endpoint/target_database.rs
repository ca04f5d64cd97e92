//! The peers that an endpoint has learned, by id, with their addresses.

use super::lock::{
    lock_new, lock_read, lock_upgradable_read, lock_upgrade, read_list, upgradable_list,
    write_list,
};
use crate::mavlink::{spec_routes_to, RoutingInfo, SysCompId};
use vstd::prelude::*;

verus! {

/// The network address of a peer: an IP address and a port, and for IPv6
/// the flow information and the scope id that belong to a socket address.
#[derive(Debug, Clone, Copy, PartialEq, Eq, Hash, Structural)]
pub enum PeerAddr {
    /// The address as a 32-bit number, and the port.
    V4(u32, u16),
    /// The address as a 128-bit number, the port, flow information, scope id.
    V6(u128, u16, u32, u32),
}

/// A learned peer as a plain value: its id and its address.
pub type Entry = ((u8, u8), PeerAddr);

/// Position of the first entry for `id` at or after `from`.
pub open spec fn spec_position(entries: Seq<Entry>, id: (u8, u8), from: int) -> Option<int>
    decreases entries.len() - from,
{
    if from < 0 || from >= entries.len() {
        None
    } else if entries[from].0 == id {
        Some(from)
    } else {
        spec_position(entries, id, from + 1)
    }
}

/// The entries after `sender` was seen at `addr`: a sender not yet known is
/// added at the end, a known one gets the new address, and nothing changes
/// where the address is the one recorded.
pub open spec fn spec_insert_or_update(entries: Seq<Entry>, sender: (u8, u8), addr: PeerAddr) -> Seq<
    Entry,
> {
    match spec_position(entries, sender, 0) {
        Some(i) => if entries[i].1 != addr {
            entries.update(i, (sender, addr))
        } else {
            entries
        },
        None => entries.push((sender, addr)),
    }
}

/// The addresses of the entries that a frame routes to, in the order of the
/// entries.
pub open spec fn spec_target_addresses(
    entries: Seq<Entry>,
    sender: (u8, u8),
    target: (u8, u8),
) -> Seq<PeerAddr>
    decreases entries.len(),
{
    if entries.len() == 0 {
        Seq::empty()
    } else if spec_routes_to(sender, target, entries.last().0) {
        spec_target_addresses(entries.drop_last(), sender, target).push(entries.last().1)
    } else {
        spec_target_addresses(entries.drop_last(), sender, target)
    }
}

/// No id has two entries.
pub open spec fn spec_distinct_ids(entries: Seq<Entry>) -> bool {
    forall|i: int, j: int| 0 <= i < j < entries.len() ==> entries[i].0 != entries[j].0
}

/// The learned peers of an endpoint, in the order in which they were first
/// seen.
#[derive(Debug)]
pub struct TargetList {
    targets: Vec<(SysCompId, PeerAddr)>,
}

impl View for TargetList {
    type V = Seq<Entry>;

    closed spec fn view(&self) -> Seq<Entry> {
        self.targets@.map_values(|e: (SysCompId, PeerAddr)| (e.0@, e.1))
    }
}

impl TargetList {
    /// No id has two entries.
    pub open spec fn wf(&self) -> bool {
        spec_distinct_ids(self@)
    }

    pub fn new() -> (r: Self)
        ensures
            r@ == Seq::<Entry>::empty(),
            r.wf(),
    {
        let r = Self { targets: Vec::new() };
        assert(r@ == Seq::<Entry>::empty());
        r
    }

    /// The number of learned peers.
    pub fn len(&self) -> (n: usize)
        ensures
            n == self@.len(),
    {
        self.targets.len()
    }

    /// Position of the entry for `sender`.
    pub fn position(&self, sender: SysCompId) -> (r: Option<usize>)
        ensures
            match r {
                Some(i) => spec_position(self@, sender@, 0) == Some(i as int) && i < self@.len(),
                None => spec_position(self@, sender@, 0) is None,
            },
    {
        let mut i: usize = 0;
        while i < self.targets.len()
            invariant
                i <= self.targets.len(),
                self.targets.len() == self@.len(),
                spec_position(self@, sender@, 0) == spec_position(self@, sender@, i as int),
            decreases self.targets.len() - i,
        {
            let id = self.targets[i].0;
            assert(self@[i as int].0 == id@);
            if id.sys_id() == sender.sys_id() && id.comp_id() == sender.comp_id() {
                return Some(i);
            }
            i += 1;
        }
        None
    }

    /// Would seeing `sender` at `addr` change the list? Where it would not,
    /// no exclusive access is needed.
    pub fn needs_update(&self, sender: SysCompId, addr: PeerAddr) -> (r: bool)
        ensures
            r == (spec_insert_or_update(self@, sender@, addr) != self@),
    {
        match self.position(sender) {
            Some(index) => {
                assert(self@[index as int].1 == self.targets@[index as int].1);
                let changed = self.targets[index].1 != addr;
                proof {
                    if changed {
                        assert(self@.update(index as int, (sender@, addr))[index as int]
                            != self@[index as int]);
                    }
                }
                changed
            },
            None => {
                assert(self@.push((sender@, addr)).len() != self@.len());
                true
            },
        }
    }

    /// Records that `sender` was seen at `addr`.
    pub fn insert_or_update(&mut self, sender: SysCompId, addr: PeerAddr)
        ensures
            final(self)@ == spec_insert_or_update(old(self)@, sender@, addr),
            old(self).wf() ==> final(self).wf(),
    {
        let ghost before = self@;
        match self.position(sender) {
            Some(index) => {
                assert(self@[index as int].1 == self.targets@[index as int].1);
                if self.targets[index].1 != addr {
                    self.targets.set(index, (sender, addr));
                    assert(self@ == before.update(index as int, (sender@, addr)));
                }
            },
            None => {
                self.targets.push((sender, addr));
                assert(self@ == before.push((sender@, addr)));
            },
        }
        proof {
            lemma_insert_keeps_distinct(before, sender@, addr);
        }
    }

    /// The addresses of the peers that a frame with `routing_info` goes to,
    /// in the order of the list.
    pub fn get_target_addresses(&self, routing_info: &RoutingInfo) -> (r: Vec<PeerAddr>)
        ensures
            r@ == spec_target_addresses(self@, routing_info.sender@, routing_info.target@),
    {
        let mut out: Vec<PeerAddr> = Vec::new();
        let mut i: usize = 0;
        assert(self@.subrange(0, 0) == Seq::<Entry>::empty());
        while i < self.targets.len()
            invariant
                i <= self.targets.len(),
                self.targets.len() == self@.len(),
                out@ == spec_target_addresses(
                    self@.subrange(0, i as int),
                    routing_info.sender@,
                    routing_info.target@,
                ),
            decreases self.targets.len() - i,
        {
            let (id, addr) = self.targets[i];
            proof {
                let next = self@.subrange(0, i + 1);
                assert(next.drop_last() == self@.subrange(0, i as int));
                assert(next.last() == (id@, addr));
            }
            if routing_info.matches(id) {
                out.push(addr);
            }
            i += 1;
        }
        assert(self@.subrange(0, i as int) == self@);
        out
    }
}

/// The first entry for an id, where there is one, is an entry for that id,
/// and no entry before it is.
pub proof fn lemma_position(entries: Seq<Entry>, id: (u8, u8), from: int)
    requires
        0 <= from,
    ensures
        match spec_position(entries, id, from) {
            Some(i) => from <= i < entries.len() && entries[i].0 == id && forall|j: int|
                from <= j < i ==> entries[j].0 != id,
            None => forall|j: int| from <= j < entries.len() ==> entries[j].0 != id,
        },
    decreases entries.len() - from,
{
    if from < entries.len() && entries[from].0 != id {
        lemma_position(entries, id, from + 1);
    }
}

/// Recording a sender keeps the ids distinct.
pub proof fn lemma_insert_keeps_distinct(entries: Seq<Entry>, sender: (u8, u8), addr: PeerAddr)
    ensures
        spec_distinct_ids(entries) ==> spec_distinct_ids(
            spec_insert_or_update(entries, sender, addr),
        ),
{
    lemma_position(entries, sender, 0);
}

/// After a sender was seen at an address, the list holds that address for
/// it, and holds for every other id what it held before.
pub proof fn lemma_insert_records(entries: Seq<Entry>, sender: (u8, u8), addr: PeerAddr)
    ensures
        ({
            let after = spec_insert_or_update(entries, sender, addr);
            &&& spec_position(after, sender, 0) matches Some(i) && after[i] == (sender, addr)
            &&& forall|id: (u8, u8)|
                id != sender ==> #[trigger] spec_position(after, id, 0) == spec_position(
                    entries,
                    id,
                    0,
                ) && (spec_position(entries, id, 0) matches Some(i) ==> after[i] == entries[i])
        }),
{
    let after = spec_insert_or_update(entries, sender, addr);
    lemma_position(entries, sender, 0);
    lemma_position(after, sender, 0);
    match spec_position(entries, sender, 0) {
        Some(i) => {
            assert(after[i].0 == sender);
            assert(forall|j: int| 0 <= j < i ==> (#[trigger] after[j]).0 == entries[j].0);
            assert(spec_position(after, sender, 0) == Some(i));
            assert(after[i] == (sender, addr));
        },
        None => {
            let n = entries.len() as int;
            assert(after[n] == (sender, addr));
            assert(forall|j: int| 0 <= j < n ==> (#[trigger] after[j]).0 == entries[j].0);
            assert(spec_position(after, sender, 0) == Some(n));
        },
    }
    assert forall|id: (u8, u8)| id != sender implies #[trigger] spec_position(after, id, 0)
        == spec_position(entries, id, 0) && (spec_position(entries, id, 0) matches Some(i)
        ==> after[i] == entries[i]) by {
        lemma_position(entries, id, 0);
        lemma_position(after, id, 0);
        assert forall|j: int| 0 <= j < entries.len() implies (#[trigger] after[j]).0
            == entries[j].0 by {}
        match spec_position(entries, id, 0) {
            Some(i) => {
                assert(after[i].0 == id);
                match spec_position(after, id, 0) {
                    Some(k) => {
                        if k < i {
                            assert(after[k].0 == entries[k].0);
                        }
                    },
                    None => {},
                }
            },
            None => {
                match spec_position(after, id, 0) {
                    Some(k) => {
                        if k < entries.len() {
                            assert(after[k].0 == entries[k].0);
                        }
                    },
                    None => {},
                }
            },
        }
    }
}

/// Seeing a sender twice at one address changes nothing the second time.
pub proof fn lemma_insert_idempotent(entries: Seq<Entry>, sender: (u8, u8), addr: PeerAddr)
    ensures
        spec_insert_or_update(spec_insert_or_update(entries, sender, addr), sender, addr)
            == spec_insert_or_update(entries, sender, addr),
{
    lemma_insert_records(entries, sender, addr);
}

/// Seeing a sender at one address and then at another leaves one entry for
/// it, with the second address, and as many entries as after the first.
pub proof fn lemma_insert_then_update(
    entries: Seq<Entry>,
    sender: (u8, u8),
    first: PeerAddr,
    second: PeerAddr,
)
    requires
        spec_distinct_ids(entries),
    ensures
        ({
            let once = spec_insert_or_update(entries, sender, first);
            let twice = spec_insert_or_update(once, sender, second);
            &&& twice.len() == once.len()
            &&& spec_distinct_ids(twice)
            &&& exists|i: int|
                0 <= i < twice.len() && #[trigger] twice[i] == (sender, second) && forall|j: int|
                    0 <= j < twice.len() && j != i ==> (#[trigger] twice[j]).0 != sender
        }),
{
    let once = spec_insert_or_update(entries, sender, first);
    let twice = spec_insert_or_update(once, sender, second);
    lemma_insert_keeps_distinct(entries, sender, first);
    lemma_insert_keeps_distinct(once, sender, second);
    lemma_insert_records(entries, sender, first);
    lemma_insert_records(once, sender, second);
    lemma_position(once, sender, 0);
    lemma_position(twice, sender, 0);
    let i = spec_position(twice, sender, 0)->0;
    assert(twice[i] == (sender, second));
    assert forall|j: int| 0 <= j < twice.len() && j != i implies (#[trigger] twice[j]).0
        != sender by {
        if j < i {
            assert(twice[j].0 != twice[i].0);
        } else {
            assert(twice[i].0 != twice[j].0);
        }
    }
}

/// An address is among those that a frame goes to exactly when it is the
/// address of an entry that the frame routes to.
pub proof fn lemma_target_addresses(
    entries: Seq<Entry>,
    sender: (u8, u8),
    target: (u8, u8),
    addr: PeerAddr,
)
    ensures
        spec_target_addresses(entries, sender, target).contains(addr) <==> exists|i: int|
            0 <= i < entries.len() && spec_routes_to(sender, target, (#[trigger] entries[i]).0)
                && entries[i].1 == addr,
    decreases entries.len(),
{
    if entries.len() > 0 {
        let rest = entries.drop_last();
        let last = entries.last();
        let found = spec_target_addresses(entries, sender, target);
        let before = spec_target_addresses(rest, sender, target);
        lemma_target_addresses(rest, sender, target, addr);
        if found.contains(addr) {
            let k = choose|k: int| 0 <= k < found.len() && found[k] == addr;
            if k < before.len() {
                assert(before[k] == addr);
                assert(before.contains(addr));
                let i = choose|i: int|
                    0 <= i < rest.len() && spec_routes_to(sender, target, (#[trigger] rest[i]).0)
                        && rest[i].1 == addr;
                assert(entries[i] == rest[i]);
            } else {
                assert(entries[entries.len() - 1] == last);
            }
        }
        if exists|i: int|
            0 <= i < entries.len() && spec_routes_to(sender, target, (#[trigger] entries[i]).0)
                && entries[i].1 == addr {
            let i = choose|i: int|
                0 <= i < entries.len() && spec_routes_to(sender, target, (#[trigger] entries[i]).0)
                    && entries[i].1 == addr;
            if i < rest.len() {
                assert(rest[i] == entries[i]);
                assert(before.contains(addr));
                let k = choose|k: int| 0 <= k < before.len() && before[k] == addr;
                assert(found[k] == addr);
            } else {
                assert(found[found.len() - 1] == addr);
            }
        }
    }
}

/// A frame is not sent back to where it came from: an address that the list
/// holds for the sender of the frame alone is not among those that the
/// frame goes to.
pub proof fn lemma_no_reflection(
    entries: Seq<Entry>,
    sender: (u8, u8),
    target: (u8, u8),
    addr: PeerAddr,
)
    requires
        forall|i: int| 0 <= i < entries.len() && (#[trigger] entries[i]).1 == addr ==> entries[i].0
            == sender,
    ensures
        !spec_target_addresses(entries, sender, target).contains(addr),
{
    lemma_target_addresses(entries, sender, target, addr);
}

/// A frame for everyone goes to every learned peer but its sender.
pub proof fn lemma_broadcast_reaches_all(entries: Seq<Entry>, sender: (u8, u8), i: int)
    requires
        0 <= i < entries.len(),
        entries[i].0 != sender,
    ensures
        spec_target_addresses(entries, sender, (0u8, 0u8)).contains(entries[i].1),
{
    lemma_target_addresses(entries, sender, (0u8, 0u8), entries[i].1);
}

/// The learned peers of an endpoint behind a lock, for one receiver that
/// records senders and many senders that look targets up. A sender already
/// known at its address is recognized under shared access; only a change
/// takes exclusive access.
pub struct TargetDatabase {
    targets: parking_lot::RwLock<TargetList>,
}

impl TargetDatabase {
    pub fn new() -> Self {
        Self { targets: lock_new(TargetList::new()) }
    }

    /// Records that `sender` was seen at `addr`.
    pub fn insert_or_update(&self, sender: SysCompId, addr: PeerAddr) {
        let access = lock_upgradable_read(&self.targets);
        if upgradable_list(&access).needs_update(sender, addr) {
            let mut writer = lock_upgrade(access);
            let list = write_list(&mut writer);
            list.insert_or_update(sender, addr);
        }
    }

    /// The addresses of the peers that a frame with `routing_info` goes to:
    /// those that some state of the list gives for it.
    pub fn get_target_addresses(&self, routing_info: &RoutingInfo) -> (r: Vec<PeerAddr>)
        ensures
            exists|entries: Seq<Entry>|
                r@ == #[trigger] spec_target_addresses(
                    entries,
                    routing_info.sender@,
                    routing_info.target@,
                ),
    {
        let access = lock_read(&self.targets);
        let list = read_list(&access);
        let r = list.get_target_addresses(routing_info);
        assert(r@ == spec_target_addresses(list@, routing_info.sender@, routing_info.target@));
        r
    }
}

} // verus!
