//! Offsets of the target fields of MAVLink messages, resolved from the XML
//! dialect definitions.

use parser::{ParseError, ParseErrorView, Parser};
use std::collections::HashMap;
use vstd::prelude::*;

pub mod layout;
pub mod msg_parser;
pub mod parser;
pub mod text;
pub mod xml;

verus! {

/// Byte offsets of the target fields inside a message's reordered payload.
#[derive(Debug, Clone, Copy, PartialEq, Eq)]
pub struct Offsets {
    pub system_id: usize,
    pub component_id: Option<usize>,
}

impl View for Offsets {
    type V = (usize, Option<usize>);

    open spec fn view(&self) -> (usize, Option<usize>) {
        (self.system_id, self.component_id)
    }
}

impl Offsets {
    pub fn new(system_id: usize, component_id: Option<usize>) -> (r: Self)
        ensures
            r.system_id == system_id,
            r.component_id == component_id,
    {
        Self { system_id, component_id }
    }
}

/// A message that names its target, with the offsets of the target fields.
#[derive(Debug, Clone, Copy, PartialEq, Eq)]
pub struct TargetedMessage {
    pub id: u32,
    pub offsets: Offsets,
}

/// The id of a message.
pub type ID = u32;

/// No two of the messages have one id.
pub open spec fn spec_unique_ids(messages: Seq<TargetedMessage>) -> bool {
    forall|i: int, j: int| 0 <= i < j < messages.len() ==> messages[i].id != messages[j].id
}

/// The table that maps the id of each message to its offsets.
pub open spec fn spec_table_of(messages: Seq<TargetedMessage>) -> Map<ID, Offsets>
    decreases messages.len(),
{
    if messages.len() == 0 {
        Map::empty()
    } else {
        spec_table_of(messages.drop_last()).insert(messages.last().id, messages.last().offsets)
    }
}

/// The table holds exactly the ids of the messages.
pub proof fn lemma_table_domain(messages: Seq<TargetedMessage>, id: ID)
    ensures
        spec_table_of(messages).contains_key(id) <==> exists|i: int|
            0 <= i < messages.len() && #[trigger] messages[i].id == id,
    decreases messages.len(),
{
    if messages.len() > 0 {
        let rest = messages.drop_last();
        lemma_table_domain(rest, id);
        if spec_table_of(messages).contains_key(id) {
            if messages.last().id == id {
                assert(messages[messages.len() - 1].id == id);
            } else {
                let i = choose|i: int| 0 <= i < rest.len() && #[trigger] rest[i].id == id;
                assert(messages[i].id == id);
            }
        }
        if exists|i: int| 0 <= i < messages.len() && #[trigger] messages[i].id == id {
            let i = choose|i: int| 0 <= i < messages.len() && #[trigger] messages[i].id == id;
            if i < rest.len() {
                assert(rest[i].id == id);
            }
        }
    }
}

/// Where no two messages share an id, the table gives for the id of each
/// message the offsets of that message, and has as many entries as there
/// are messages.
pub proof fn lemma_table_of_unique(messages: Seq<TargetedMessage>)
    requires
        spec_unique_ids(messages),
    ensures
        forall|i: int|
            0 <= i < messages.len() ==> spec_table_of(messages).contains_key(
                #[trigger] messages[i].id,
            ) && spec_table_of(messages)[messages[i].id] == messages[i].offsets,
        spec_table_of(messages).dom().finite(),
        spec_table_of(messages).dom().len() == messages.len(),
    decreases messages.len(),
{
    if messages.len() > 0 {
        let rest = messages.drop_last();
        let last = messages.last();
        assert forall|i: int, j: int| 0 <= i < j < rest.len() implies rest[i].id != rest[j].id by {
            assert(messages[i].id != messages[j].id);
        }
        lemma_table_of_unique(rest);
        lemma_table_domain(rest, last.id);
        if spec_table_of(rest).contains_key(last.id) {
            let i = choose|i: int| 0 <= i < rest.len() && #[trigger] rest[i].id == last.id;
            assert(messages[i].id != messages[messages.len() - 1].id);
        }
        assert forall|i: int| 0 <= i < messages.len() implies spec_table_of(messages).contains_key(
            #[trigger] messages[i].id,
        ) && spec_table_of(messages)[messages[i].id] == messages[i].offsets by {
            if i < rest.len() {
                assert(rest[i] == messages[i]);
                assert(messages[i].id != messages[messages.len() - 1].id);
            }
        }
    }
}

/// Builds the table of offsets from the targeted messages that `parser`
/// found in the dialect files. Message ids must be unique over all files:
/// the table is returned exactly when they are.
pub fn try_get_offsets_from_xml(parser: Parser) -> (r: Result<HashMap<ID, Offsets>, ParseError>)
    ensures
        match r {
            Ok(table) => spec_unique_ids(parser.messages()) && table@ == spec_table_of(
                parser.messages(),
            ),
            Err(e) => !spec_unique_ids(parser.messages()) && e@
                == ParseErrorView::MultipleMessagesWithSameId,
        },
{
    broadcast use vstd::std_specs::hash::group_hash_axioms;

    let messages = parser.into_messages();
    let mut offsets: HashMap<ID, Offsets> = HashMap::new();
    let mut i: usize = 0;
    while i < messages.len()
        invariant
            i <= messages.len(),
            messages@ == parser.messages(),
            spec_unique_ids(messages@.subrange(0, i as int)),
            offsets@ == spec_table_of(messages@.subrange(0, i as int)),
        decreases messages.len() - i,
    {
        let m = messages[i];
        let ghost seen = messages@.subrange(0, i as int);
        let ghost next = messages@.subrange(0, i + 1);
        proof {
            assert(next.drop_last() == seen);
            assert(next.last() == m);
            lemma_table_domain(seen, m.id);
        }
        if offsets.insert(m.id, m.offsets).is_some() {
            proof {
                let k = choose|k: int| 0 <= k < seen.len() && #[trigger] seen[k].id == m.id;
                assert(messages@[k].id == messages@[i as int].id);
            }
            return Err(ParseError::MultipleMessagesWithSameId);
        }
        proof {
            assert forall|a: int, b: int| 0 <= a < b < next.len() implies next[a].id
                != next[b].id by {
                if b < seen.len() {
                    assert(seen[a].id != seen[b].id);
                } else {
                    assert(seen[a].id == next[a].id);
                }
            }
        }
        i += 1;
    }
    assert(messages@.subrange(0, i as int) == messages@);
    Ok(offsets)
}

} // verus!
