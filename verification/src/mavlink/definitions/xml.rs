//! The XML reader that the resolver drives, and what is assumed of it.
//!
//! The reader is `quick_xml::Reader` over a byte slice. The resolver sees it
//! as a cursor over the events that it will still hand out. A tag is kept
//! as the reader hands it out, and is known by the bytes between its angle
//! brackets.

use quick_xml::events::attributes::Attribute;
use quick_xml::events::{BytesStart, Event};
use quick_xml::name::QName;
use quick_xml::Reader;
use std::borrow::Cow;
use vstd::prelude::*;
use vstd::string::*;

verus! {

/// The error type of the XML reader. Nothing is assumed of its contents.
#[verifier::external_type_specification]
#[verifier::external_body]
pub struct ExXmlError(quick_xml::Error);

/// The XML reader. It is known only through `spec_pending` and
/// `spec_text_to_end`.
#[verifier::external_type_specification]
#[verifier::external_body]
#[verifier::reject_recursive_types(R)]
pub struct ExXmlReader<R>(Reader<R>);

/// A tag as the reader hands it out. It is known only through
/// `spec_tag_content` and `spec_tag_name_len`.
#[verifier::external_type_specification]
#[verifier::external_body]
pub struct ExXmlStart<'a>(BytesStart<'a>);

/// The bytes that a tag holds: what stands between `<` and `>`, without a
/// closing `/`.
pub uninterp spec fn spec_tag_content(start: BytesStart<'static>) -> Seq<u8>;

/// How many of the bytes that a tag holds, counted from the first, are its
/// name.
pub uninterp spec fn spec_tag_name_len(start: BytesStart<'static>) -> nat;

/// An opening or self-closing tag.
#[derive(Debug)]
pub struct XmlTag {
    start: BytesStart<'static>,
}

/// A tag as a plain value: the bytes between `<` and `>` (without a closing
/// `/`), of which the first `name_len` are the tag's name.
pub struct XmlTagView {
    pub content: Seq<u8>,
    pub name_len: nat,
}

impl XmlTagView {
    /// The name of the tag.
    pub open spec fn name(self) -> Seq<u8> {
        self.content.subrange(0, self.name_len as int)
    }
}

impl View for XmlTag {
    type V = XmlTagView;

    open spec fn view(&self) -> XmlTagView {
        XmlTagView {
            content: spec_tag_content(self.held()),
            name_len: spec_tag_name_len(self.held()),
        }
    }
}

impl XmlTag {
    /// The tag as the reader handed it out.
    pub closed spec fn held(&self) -> BytesStart<'static> {
        self.start
    }

    /// The name lies within the tag.
    pub open spec fn wf(&self) -> bool {
        self@.name_len <= self@.content.len()
    }
}

/// What the reader hands out, as far as the resolver tells events apart.
#[derive(Debug)]
pub enum XmlEvent {
    /// An opening tag.
    Start(XmlTag),
    /// A self-closing tag.
    Empty(XmlTag),
    /// A closing tag, with its name.
    End(Vec<u8>),
    /// The end of the input.
    Eof,
    /// Text, a comment, a declaration or another event without meaning here.
    Other,
}

/// An event as a plain value. `Failed` stands for a call that returned an
/// error in place of an event.
pub enum XmlEventView {
    Start(XmlTagView),
    Empty(XmlTagView),
    End(Seq<u8>),
    Eof,
    Other,
    Failed,
}

impl XmlEventView {
    /// After `Eof` and after an error the reader hands out nothing more.
    pub open spec fn is_last(self) -> bool {
        self is Eof || self is Failed
    }
}

impl View for XmlEvent {
    type V = XmlEventView;

    open spec fn view(&self) -> XmlEventView {
        match self {
            XmlEvent::Start(tag) => XmlEventView::Start(tag@),
            XmlEvent::Empty(tag) => XmlEventView::Empty(tag@),
            XmlEvent::End(name) => XmlEventView::End(name@),
            XmlEvent::Eof => XmlEventView::Eof,
            XmlEvent::Other => XmlEventView::Other,
        }
    }
}

/// The events that the reader will hand out from its present state, up to
/// and including the first `Eof` or error.
pub uninterp spec fn spec_pending(reader: Reader<&[u8]>) -> Seq<XmlEventView>;

/// The text that `Reader::read_text` returns for the closing tag called
/// `end`, when it is called once the reader has handed out `skipped` more
/// events: input that stands before that tag, as it is written. `None`
/// where that call fails: where the tag is not found, or where that input
/// is no UTF-8 text.
pub uninterp spec fn spec_text_to_end(reader: Reader<&[u8]>, skipped: nat, end: Seq<u8>) -> Option<
    Seq<char>,
>;

/// What looking `key` up among the attributes of a tag gives, where the
/// tag holds the bytes `content` with a name of `name_len` bytes: `None`
/// where the attributes are malformed, `Some(None)` where no attribute has
/// that key, else the raw value of the first attribute with that key.
pub uninterp spec fn spec_raw_attribute(content: Seq<u8>, name_len: nat, key: Seq<char>) -> Option<
    Option<Seq<u8>>,
>;

/// The text that a raw attribute value stands for once its escape sequences
/// are replaced, or `None` where it cannot be decoded or unescaped.
pub uninterp spec fn spec_unescaped(raw: Seq<u8>) -> Option<Seq<char>>;

/// Calls `Reader::read_event`. The call hands out the first pending event;
/// an error comes in place of a pending `Failed`. After an event other than
/// `Eof` the rest is pending. Every tag handed out holds its name. What
/// the reader would give after `k` more events, it would have given before
/// the call after `k + 1`.
#[verifier::external_body]
pub(crate) fn next_event(reader: &mut Reader<&[u8]>) -> (r: Result<XmlEvent, quick_xml::Error>)
    ensures
        spec_pending(*old(reader)).len() > 0,
        match r {
            Ok(event) => event@ == spec_pending(*old(reader))[0],
            Err(_) => spec_pending(*old(reader))[0] is Failed,
        },
        !spec_pending(*old(reader))[0].is_last() ==> spec_pending(*final(reader)) == spec_pending(
            *old(reader),
        ).skip(1),
        r matches Ok(XmlEvent::Start(tag)) ==> tag.wf(),
        r matches Ok(XmlEvent::Empty(tag)) ==> tag.wf(),
        forall|k: nat, end: Seq<u8>| #[trigger]
            spec_text_to_end(*final(reader), k, end) == spec_text_to_end(*old(reader), k + 1, end),
{
    Ok(match reader.read_event()? {
        Event::Start(e) => XmlEvent::Start(XmlTag { start: e.into_owned() }),
        Event::Empty(e) => XmlEvent::Empty(XmlTag { start: e.into_owned() }),
        Event::End(e) => XmlEvent::End(e.name().0.to_vec()),
        Event::Eof => XmlEvent::Eof,
        _ => XmlEvent::Other,
    })
}

/// How many of `events` a search for the closing tag called `end` takes,
/// that tag included, with `depth` elements of that name open inside the
/// one searched: an opening tag of that name opens one more, a closing tag
/// of that name closes the innermost. `None` where the events end or fail
/// before the tag is found.
pub open spec fn spec_skip_to_end(events: Seq<XmlEventView>, end: Seq<u8>, depth: nat) -> Option<nat>
    decreases events.len(),
{
    if events.len() == 0 {
        None
    } else {
        match events[0] {
            XmlEventView::Eof => None,
            XmlEventView::Failed => None,
            XmlEventView::Start(tag) => {
                let depth = if tag.name() == end {
                    depth + 1
                } else {
                    depth
                };
                match spec_skip_to_end(events.skip(1), end, depth) {
                    Some(n) => Some(n + 1),
                    None => None,
                }
            },
            XmlEventView::End(name) => if name == end && depth == 0 {
                Some(1)
            } else {
                let depth = if name == end {
                    (depth - 1) as nat
                } else {
                    depth
                };
                match spec_skip_to_end(events.skip(1), end, depth) {
                    Some(n) => Some(n + 1),
                    None => None,
                }
            },
            _ => match spec_skip_to_end(events.skip(1), end, depth) {
                Some(n) => Some(n + 1),
                None => None,
            },
        }
    }
}

/// A search that finds the closing tag takes at least that tag, and no more
/// events than there are.
pub proof fn lemma_skip_to_end_taken(events: Seq<XmlEventView>, end: Seq<u8>, depth: nat)
    ensures
        spec_skip_to_end(events, end, depth) matches Some(n) ==> 1 <= n <= events.len(),
    decreases events.len(),
{
    if events.len() > 0 {
        lemma_skip_to_end_taken(events.skip(1), end, depth);
        lemma_skip_to_end_taken(events.skip(1), end, depth + 1);
        if depth > 0 {
            lemma_skip_to_end_taken(events.skip(1), end, (depth - 1) as nat);
        }
    }
}

/// Calls `Reader::read_text`, which reads on to the closing tag called `end`
/// and returns input that stands before it as text. The call fails where
/// that tag is not among the pending events before they end or fail, and
/// also where that input is no UTF-8 text. Where it succeeds it has taken
/// the events up to and including that tag.
#[verifier::external_body]
pub(crate) fn read_text(reader: &mut Reader<&[u8]>, end: &[u8]) -> (r: Result<
    String,
    quick_xml::Error,
>)
    ensures
        match r {
            Ok(text) => {
                &&& spec_text_to_end(*old(reader), 0, end@) == Some(text@)
                &&& spec_skip_to_end(spec_pending(*old(reader)), end@, 0) matches Some(n)
                &&& n <= spec_pending(*old(reader)).len()
                &&& spec_pending(*final(reader)) == spec_pending(*old(reader)).skip(n as int)
            },
            Err(_) => spec_text_to_end(*old(reader), 0, end@) is None,
        },
{
    Ok(reader.read_text(QName(end))?.into_owned())
}

/// Calls `BytesStart::from_content`: a tag that holds the bytes of
/// `content`, the first `name_len` of them as its name.
#[verifier::external_body]
pub(crate) fn tag_from_content(content: &str, name_len: usize) -> (tag: XmlTag)
    ensures
        spec_tag_content(tag.held()) == content.spec_bytes(),
        spec_tag_name_len(tag.held()) == name_len,
{
    XmlTag { start: BytesStart::from_content(content.to_owned(), name_len) }
}

/// Calls `BytesStart::name`: the bytes of the tag's name.
#[verifier::external_body]
pub(crate) fn tag_name(tag: &XmlTag) -> (name: &[u8])
    requires
        tag.wf(),
    ensures
        name@ == spec_tag_content(tag.held()).subrange(0, spec_tag_name_len(tag.held()) as int),
{
    tag.start.name().0
}

/// Calls `BytesStart::try_get_attribute` on the tag.
#[verifier::external_body]
pub(crate) fn raw_attribute(tag: &XmlTag, key: &str) -> (r: Result<Option<Vec<u8>>, quick_xml::Error>)
    requires
        tag.wf(),
    ensures
        match r {
            Ok(Some(raw)) => spec_raw_attribute(tag@.content, tag@.name_len, key@) == Some(
                Some(raw@),
            ),
            Ok(None) => spec_raw_attribute(tag@.content, tag@.name_len, key@) == Some(
                None::<Seq<u8>>,
            ),
            Err(_) => spec_raw_attribute(tag@.content, tag@.name_len, key@) is None,
        },
{
    Ok(tag.start.try_get_attribute(key)?.map(|a| a.value.into_owned()))
}

/// Calls `Attribute::unescape_value` on a raw attribute value.
#[verifier::external_body]
pub(crate) fn unescape_value(raw: &Vec<u8>) -> (r: Result<String, quick_xml::Error>)
    ensures
        match r {
            Ok(text) => spec_unescaped(raw@) == Some(text@),
            Err(_) => spec_unescaped(raw@) is None,
        },
{
    let attribute = Attribute { key: QName(b""), value: Cow::Borrowed(raw.as_slice()) };
    Ok(attribute.unescape_value()?.into_owned())
}

/// Is `name` the word `word`, byte for byte?
pub fn name_is(name: &[u8], word: &str) -> (r: bool)
    ensures
        r == (name@ == word.spec_bytes()),
{
    let bytes = word.as_bytes();
    if name.len() != bytes.len() {
        return false;
    }
    let mut i: usize = 0;
    while i < name.len()
        invariant
            i <= name.len(),
            name.len() == bytes.len(),
            bytes@ == word.spec_bytes(),
            forall|j: int| 0 <= j < i ==> name@[j] == bytes@[j],
        decreases name.len() - i,
    {
        if name[i] != bytes[i] {
            return false;
        }
        i += 1;
    }
    assert(name@ =~= bytes@);
    true
}

impl XmlTag {
    /// A tag that holds the bytes of `content`, the first `name_len` of
    /// them as its name; `None` where `content` has fewer bytes.
    pub fn new(content: &str, name_len: usize) -> (r: Option<Self>)
        ensures
            match r {
                Some(tag) => {
                    &&& name_len <= content.spec_bytes().len()
                    &&& tag@.content == content.spec_bytes()
                    &&& tag@.name_len == name_len
                    &&& tag.wf()
                },
                None => name_len > content.spec_bytes().len(),
            },
    {
        if name_len > content.as_bytes().len() {
            None
        } else {
            Some(tag_from_content(content, name_len))
        }
    }

    /// The bytes of the tag's name.
    pub fn name(&self) -> (name: &[u8])
        requires
            self.wf(),
        ensures
            name@ == self@.name(),
    {
        tag_name(self)
    }

    /// Is the tag called `word`?
    pub fn is_named(&self, word: &str) -> (r: bool)
        requires
            self.wf(),
        ensures
            r == (self@.name() == word.spec_bytes()),
    {
        name_is(tag_name(self), word)
    }
}

} // verus!
