//! The walk over one dialect file: its messages, and the files it includes.

use super::msg_parser::{
    attribute_text, spec_attribute_text, spec_msg_run, spec_msg_start,
    try_get_offsets_from_msg, MsgParseError, MsgParseErrorView,
};
use super::text::{parse_u32, spec_parse_u32, str_equal};
use super::xml::{
    next_event, read_text, spec_pending, spec_skip_to_end, spec_text_to_end, XmlEvent,
    XmlEventView, XmlTag, XmlTagView,
};
use super::{Offsets, TargetedMessage};
use quick_xml::Reader;
use vstd::prelude::*;
use vstd::string::*;

verus! {

/// Why the dialect definitions could not be loaded.
#[derive(Debug)]
pub enum ParseError {
    /// The XML reader failed.
    QuickXml(quick_xml::Error),
    /// The named file does not exist.
    FileDoesNotExist(String),
    /// The named path is no file.
    NotAFile(String),
    /// A message has no `id` attribute.
    MessageWithoutId,
    /// The `id` attribute of a message, given here, is no 32-bit number.
    InvalidMessageId(String),
    /// Two targeted messages have one id.
    MultipleMessagesWithSameId,
    /// A message definition was rejected.
    MessageParser(MsgParseError),
}

/// A `ParseError` as a plain value.
pub enum ParseErrorView {
    QuickXml,
    FileDoesNotExist(Seq<char>),
    NotAFile(Seq<char>),
    MessageWithoutId,
    InvalidMessageId(Seq<char>),
    MultipleMessagesWithSameId,
    MessageParser(MsgParseErrorView),
}

impl View for ParseError {
    type V = ParseErrorView;

    open spec fn view(&self) -> ParseErrorView {
        match self {
            ParseError::QuickXml(_) => ParseErrorView::QuickXml,
            ParseError::FileDoesNotExist(p) => ParseErrorView::FileDoesNotExist(p@),
            ParseError::NotAFile(p) => ParseErrorView::NotAFile(p@),
            ParseError::MessageWithoutId => ParseErrorView::MessageWithoutId,
            ParseError::InvalidMessageId(t) => ParseErrorView::InvalidMessageId(t@),
            ParseError::MultipleMessagesWithSameId => ParseErrorView::MultipleMessagesWithSameId,
            ParseError::MessageParser(e) => ParseErrorView::MessageParser(e@),
        }
    }
}

/// A targeted message as a plain value: its id and its offsets.
pub open spec fn spec_message_view(m: TargetedMessage) -> (u32, (usize, Option<usize>)) {
    (m.id, m.offsets@)
}

/// The views of a list of targeted messages, in order.
pub open spec fn spec_message_views(ms: Seq<TargetedMessage>) -> Seq<
    (u32, (usize, Option<usize>)),
> {
    ms.map_values(|m: TargetedMessage| spec_message_view(m))
}

/// The id that a `message` tag gives.
pub open spec fn spec_message_id(tag: XmlTagView) -> Result<u32, ParseErrorView> {
    match spec_attribute_text(tag, "id"@) {
        None => Err(ParseErrorView::QuickXml),
        Some(None) => Err(ParseErrorView::MessageWithoutId),
        Some(Some(text)) => match spec_parse_u32(text) {
            Some(id) => Ok(id),
            None => Err(ParseErrorView::InvalidMessageId(text)),
        },
    }
}

/// How the walk over a file pauses or ends.
pub enum ContentOutcome {
    /// The input is read to its end.
    Finished,
    /// The opening tag of an `include` element was read.
    Include,
    /// The file is rejected.
    Failed(ParseErrorView),
}

/// A message parse takes at least one event, and no more than there are.
pub proof fn lemma_msg_run_taken(events: Seq<XmlEventView>, state: super::msg_parser::MsgState)
    ensures
        spec_msg_run(events, state).1 <= events.len(),
        events.len() > 0 ==> spec_msg_run(events, state).1 >= 1,
    decreases events.len(),
{
    if events.len() > 0 {
        match super::msg_parser::spec_msg_step(state, events[0]) {
            super::msg_parser::MsgStep::Done(_) => {},
            super::msg_parser::MsgStep::Continue(next) => {
                lemma_msg_run_taken(events.skip(1), next);
            },
        }
    }
}

/// The walk over `events` with the targeted messages `found` so far: how it
/// pauses or ends, the targeted messages found by then, and the number of
/// events taken. An opening `include` tag pauses the walk. An opening
/// `message` tag gives the id, and the events behind it are parsed as a
/// message; a message with target fields is added to those found. The end
/// of the input ends the walk; every other event is passed over.
pub open spec fn spec_content_run(
    events: Seq<XmlEventView>,
    found: Seq<(u32, (usize, Option<usize>))>,
) -> (ContentOutcome, Seq<(u32, (usize, Option<usize>))>, nat)
    decreases events.len(),
{
    if events.len() == 0 {
        (ContentOutcome::Finished, found, 0)
    } else {
        match events[0] {
            XmlEventView::Start(tag) => if tag.name() == "include".spec_bytes() {
                (ContentOutcome::Include, found, 1)
            } else if tag.name() == "message".spec_bytes() {
                match spec_message_id(tag) {
                    Err(e) => (ContentOutcome::Failed(e), found, 1),
                    Ok(id) => {
                        let (result, taken) = spec_msg_run(events.skip(1), spec_msg_start());
                        match result {
                            Err(e) => (
                                ContentOutcome::Failed(ParseErrorView::MessageParser(e)),
                                found,
                                taken + 1,
                            ),
                            Ok(offsets) => {
                                let found = match offsets {
                                    Some(o) => found.push((id, o)),
                                    None => found,
                                };
                                proof {
                                    lemma_msg_run_taken(events.skip(1), spec_msg_start());
                                }
                                let (outcome, found, more) = spec_content_run(
                                    events.skip(taken as int + 1),
                                    found,
                                );
                                (outcome, found, more + taken + 1)
                            },
                        }
                    },
                }
            } else {
                let (outcome, found, more) = spec_content_run(events.skip(1), found);
                (outcome, found, more + 1)
            },
            XmlEventView::Eof => (ContentOutcome::Finished, found, 1),
            XmlEventView::Failed => (ContentOutcome::Failed(ParseErrorView::QuickXml), found, 1),
            _ => {
                let (outcome, found, more) = spec_content_run(events.skip(1), found);
                (outcome, found, more + 1)
            },
        }
    }
}

/// What a walk that has taken `taken` events of `before`, the last of them
/// the opening tag of an `include` element, returns and where it leaves the
/// reader. Where the text of the element can be read, that text is
/// returned, and the reader stands behind the closing tag of the element.
/// Where it cannot, the walk fails with the reader's error.
pub open spec fn spec_paused_at_include(
    before: Reader<&[u8]>,
    taken: nat,
    r: Result<Option<String>, ParseError>,
    after: Reader<&[u8]>,
) -> bool {
    let inside = spec_pending(before).skip(taken as int);
    match spec_text_to_end(before, taken, "include".spec_bytes()) {
        Some(text) => {
            &&& r matches Ok(Some(file))
            &&& file@ == text
            &&& spec_skip_to_end(inside, "include".spec_bytes(), 0) matches Some(n)
            &&& n <= inside.len()
            &&& spec_pending(after) == inside.skip(n as int)
        },
        None => r matches Err(e) && e@ == ParseErrorView::QuickXml,
    }
}

/// Reads the id of a message from its tag.
pub fn message_id(tag: &XmlTag) -> (r: Result<u32, ParseError>)
    requires
        tag.wf(),
    ensures
        match r {
            Ok(id) => spec_message_id(tag@) == Ok::<_, ParseErrorView>(id),
            Err(e) => spec_message_id(tag@) == Err::<u32, _>(e@),
        },
{
    match attribute_text(tag, "id") {
        Err(e) => Err(ParseError::QuickXml(e)),
        Ok(None) => Err(ParseError::MessageWithoutId),
        Ok(Some(text)) => match parse_u32(text.as_str()) {
            Some(id) => Ok(id),
            None => Err(ParseError::InvalidMessageId(text)),
        },
    }
}

/// Walks dialect files and collects their targeted messages.
pub struct Parser {
    pub targeted_messages: Vec<TargetedMessage>,
    // The files begun. A list, searched in order: the standard hash set is
    // specified for keys that are integers, and these are texts.
    visited_xml_files: Vec<String>,
}

impl Parser {
    /// The paths of the files that were begun.
    pub closed spec fn visited(&self) -> Set<Seq<char>> {
        self.visited_xml_files@.map_values(|p: String| p@).to_set()
    }

    /// The targeted messages found so far.
    pub closed spec fn messages(&self) -> Seq<TargetedMessage> {
        self.targeted_messages@
    }

    /// The targeted messages found so far, as plain values.
    pub open spec fn found(&self) -> Seq<(u32, (usize, Option<usize>))> {
        spec_message_views(self.messages())
    }

    /// A parser that has seen no file.
    pub fn new() -> (r: Self)
        ensures
            r.messages() == Seq::<TargetedMessage>::empty(),
            r.visited() == Set::<Seq<char>>::empty(),
    {
        let r = Self { targeted_messages: Vec::new(), visited_xml_files: Vec::new() };
        assert(r.visited_xml_files@.map_values(|p: String| p@) == Seq::<Seq<char>>::empty());
        assert(Seq::<Seq<char>>::empty().to_set() == Set::<Seq<char>>::empty());
        r
    }

    /// Hands out the targeted messages found.
    pub fn into_messages(self) -> (r: Vec<TargetedMessage>)
        ensures
            r@ == self.messages(),
    {
        self.targeted_messages
    }

    /// Was the file at `path` begun before?
    pub fn is_visited(&self, path: &str) -> (r: bool)
        ensures
            r == self.visited().contains(path@),
    {
        let ghost paths = self.visited_xml_files@.map_values(|p: String| p@);
        let mut i: usize = 0;
        while i < self.visited_xml_files.len()
            invariant
                i <= self.visited_xml_files.len(),
                paths == self.visited_xml_files@.map_values(|p: String| p@),
                forall|j: int| 0 <= j < i ==> paths[j] != path@,
            decreases self.visited_xml_files.len() - i,
        {
            if str_equal(self.visited_xml_files[i].as_str(), path) {
                assert(paths[i as int] == path@);
                return true;
            }
            i += 1;
        }
        false
    }

    /// Decides what to do with the file at `path`, given what the file
    /// system says of it. A file begun before is skipped, with `Ok(false)`.
    /// A path that does not exist, or is no file, is an error. Otherwise the
    /// file is to be read, and counts as begun from now on.
    pub fn begin_file(&mut self, path: &str, exists: bool, is_file: bool) -> (r: Result<
        bool,
        ParseError,
    >)
        ensures
            final(self).messages() == old(self).messages(),
            match r {
                Ok(read) => {
                    &&& read == !old(self).visited().contains(path@)
                    &&& !read ==> final(self).visited() == old(self).visited()
                    &&& read ==> exists && is_file && final(self).visited() == old(
                        self,
                    ).visited().insert(path@)
                },
                Err(e) => {
                    &&& !old(self).visited().contains(path@)
                    &&& final(self).visited() == old(self).visited()
                    &&& if !exists {
                        e@ == ParseErrorView::FileDoesNotExist(path@)
                    } else {
                        !is_file && e@ == ParseErrorView::NotAFile(path@)
                    }
                },
            },
    {
        if self.is_visited(path) {
            return Ok(false);
        }
        if !exists {
            return Err(ParseError::FileDoesNotExist(path.to_owned()));
        }
        if !is_file {
            return Err(ParseError::NotAFile(path.to_owned()));
        }
        let ghost before = self.visited_xml_files@.map_values(|p: String| p@);
        let owned = path.to_owned();
        self.visited_xml_files.push(owned);
        proof {
            let after = self.visited_xml_files@.map_values(|p: String| p@);
            assert(after == before.push(path@));
            assert(after.to_set() =~= before.to_set().insert(path@)) by {
                assert forall|x: Seq<char>| after.to_set().contains(x) implies before.to_set().insert(
                    path@,
                ).contains(x) by {
                    let k = choose|k: int| 0 <= k < after.len() && after[k] == x;
                    if k < before.len() {
                        assert(before[k] == x);
                    }
                }
                assert forall|x: Seq<char>|
                    before.to_set().insert(path@).contains(x) implies after.to_set().contains(
                    x,
                ) by {
                    if x == path@ {
                        assert(after[before.len() as int] == x);
                    } else {
                        let k = choose|k: int| 0 <= k < before.len() && before[k] == x;
                        assert(after[k] == x);
                    }
                }
            }
        }
        Ok(true)
    }

    /// Walks on through a file, from where `reader` stands, to the next
    /// `include` element or to the end of the input. At an `include`
    /// element the walk reads the text of the element, which names the file
    /// to walk through before going on, and pauses behind the element; an
    /// element whose text cannot be read fails the walk. At the end of the
    /// input the walk returns `None`. The targeted messages passed on the
    /// way are added to those found.
    pub fn parse_content(&mut self, reader: &mut Reader<&[u8]>) -> (r: Result<
        Option<String>,
        ParseError,
    >)
        ensures
            final(self).visited() == old(self).visited(),
            final(self).found() == spec_content_run(
                spec_pending(*old(reader)),
                old(self).found(),
            ).1,
            match spec_content_run(spec_pending(*old(reader)), old(self).found()).0 {
                ContentOutcome::Finished => r matches Ok(None),
                ContentOutcome::Failed(e) => r matches Err(x) && x@ == e,
                ContentOutcome::Include => spec_paused_at_include(
                    *old(reader),
                    spec_content_run(spec_pending(*old(reader)), old(self).found()).2,
                    r,
                    *final(reader),
                ),
            },
    {
        let ghost all = spec_pending(*reader);
        let ghost start = self.found();
        let ghost taken: nat = 0;
        assert(all.skip(0) == all);
        loop
            invariant
                self.visited() == old(self).visited(),
                all == spec_pending(*old(reader)),
                start == old(self).found(),
                taken <= all.len(),
                spec_pending(*reader) == all.skip(taken as int),
                forall|k: nat, end: Seq<u8>| #[trigger]
                    spec_text_to_end(*reader, k, end) == spec_text_to_end(
                        *old(reader),
                        k + taken,
                        end,
                    ),
                spec_content_run(all, start).0 == spec_content_run(
                    spec_pending(*reader),
                    self.found(),
                ).0,
                spec_content_run(all, start).1 == spec_content_run(
                    spec_pending(*reader),
                    self.found(),
                ).1,
                spec_content_run(all, start).2 == spec_content_run(
                    spec_pending(*reader),
                    self.found(),
                ).2 + taken,
            decreases spec_pending(*reader).len(),
        {
            let ghost now = spec_pending(*reader);
            let event = match next_event(reader) {
                Ok(event) => event,
                Err(e) => {
                    return Err(ParseError::QuickXml(e));
                },
            };
            proof {
                assert(now.skip(1) == all.skip(taken as int + 1));
                taken = taken + 1;
            }
            match event {
                XmlEvent::Start(e) => {
                    if e.is_named("include") {
                        let name = e.name();
                        proof {
                            assert(spec_content_run(all, start).2 == taken);
                            assert(spec_text_to_end(*reader, 0, name@) == spec_text_to_end(
                                *old(reader),
                                taken,
                                name@,
                            ));
                        }
                        return match read_text(reader, name) {
                            Ok(include_file) => Ok(Some(include_file)),
                            Err(e) => Err(ParseError::QuickXml(e)),
                        };
                    } else if e.is_named("message") {
                        let id = message_id(&e)?;
                        let ghost behind = spec_pending(*reader);
                        proof {
                            lemma_msg_run_taken(behind, spec_msg_start());
                        }
                        let offsets = match try_get_offsets_from_msg(reader) {
                            Ok(offsets) => offsets,
                            Err(e) => {
                                return Err(ParseError::MessageParser(e));
                            },
                        };
                        proof {
                            let n = spec_msg_run(behind, spec_msg_start()).1;
                            assert(behind == now.skip(1));
                            assert(behind.skip(n as int) == now.skip(n as int + 1));
                            assert(behind.skip(n as int) == all.skip(taken as int + n as int));
                            taken = taken + n;
                        }
                        if let Some(offsets) = offsets {
                            let ghost before = self.targeted_messages@;
                            let message = TargetedMessage { id, offsets };
                            self.targeted_messages.push(message);
                            assert(spec_message_views(before.push(message)) == spec_message_views(
                                before,
                            ).push((id, offsets@)));
                        }
                    }
                },
                XmlEvent::Eof => {
                    return Ok(None);
                },
                _ => {},
            }
        }
    }
}

} // verus!
