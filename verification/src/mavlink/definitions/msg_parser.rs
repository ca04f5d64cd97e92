//! The fields of one message definition and the layout of its payload.

use super::text::{chars_of, find_char, parse_usize, range_is_word, str_equal};
use super::text::{spec_find, spec_parse_usize};
use super::xml::{
    next_event, raw_attribute, spec_pending, spec_raw_attribute, spec_text_to_end, spec_unescaped,
    unescape_value, XmlEvent, XmlEventView, XmlTag, XmlTagView,
};
use super::Offsets;
use quick_xml::Reader;
use vstd::prelude::*;
use vstd::string::*;

verus! {

/// Why a message definition was rejected.
#[derive(Debug)]
pub enum MsgParseError {
    /// The XML reader failed.
    QuickXml(quick_xml::Error),
    /// A field's type opens an array size with `[` and never closes it.
    MalformedArraySize,
    /// The text between `[` and `]` of the named type is no number.
    FailedToParseArraySize(String),
    /// A field's array size is zero.
    ZeroArraySize,
    /// The named type is none of the MAVLink primitive types.
    UnknownType(String),
    /// A field has no `name` attribute.
    FieldWithoutName,
    /// A field has no `type` attribute.
    FieldWithoutType,
    /// A message holds more than one `extensions` marker.
    MultipleExtensionsFields,
    /// A target field is declared with another type than `uint8_t`.
    TargetFieldNotU8,
    /// A target field is declared as an array.
    TargetFieldNotSingleValue,
    /// The input ended inside a message definition.
    UnexpectedEof,
    /// The message names a target component and no target system.
    MissingTargetSystem,
    /// The fields of the message add up to more bytes than a `usize` counts.
    MessageTooLarge,
}

/// A `MsgParseError` as a plain value: the variant, and the text it carries.
pub enum MsgParseErrorView {
    QuickXml,
    MalformedArraySize,
    FailedToParseArraySize(Seq<char>),
    ZeroArraySize,
    UnknownType(Seq<char>),
    FieldWithoutName,
    FieldWithoutType,
    MultipleExtensionsFields,
    TargetFieldNotU8,
    TargetFieldNotSingleValue,
    UnexpectedEof,
    MissingTargetSystem,
    MessageTooLarge,
}

impl View for MsgParseError {
    type V = MsgParseErrorView;

    open spec fn view(&self) -> MsgParseErrorView {
        match self {
            MsgParseError::QuickXml(_) => MsgParseErrorView::QuickXml,
            MsgParseError::MalformedArraySize => MsgParseErrorView::MalformedArraySize,
            MsgParseError::FailedToParseArraySize(s) => MsgParseErrorView::FailedToParseArraySize(
                s@,
            ),
            MsgParseError::ZeroArraySize => MsgParseErrorView::ZeroArraySize,
            MsgParseError::UnknownType(s) => MsgParseErrorView::UnknownType(s@),
            MsgParseError::FieldWithoutName => MsgParseErrorView::FieldWithoutName,
            MsgParseError::FieldWithoutType => MsgParseErrorView::FieldWithoutType,
            MsgParseError::MultipleExtensionsFields => MsgParseErrorView::MultipleExtensionsFields,
            MsgParseError::TargetFieldNotU8 => MsgParseErrorView::TargetFieldNotU8,
            MsgParseError::TargetFieldNotSingleValue => MsgParseErrorView::TargetFieldNotSingleValue,
            MsgParseError::UnexpectedEof => MsgParseErrorView::UnexpectedEof,
            MsgParseError::MissingTargetSystem => MsgParseErrorView::MissingTargetSystem,
            MsgParseError::MessageTooLarge => MsgParseErrorView::MessageTooLarge,
        }
    }
}

/// The primitive type of a message field.
#[derive(Debug, Clone, Copy, PartialEq, Eq, Structural)]
pub enum MessageFieldKind {
    Char,
    U8,
    U16,
    U32,
    U64,
    I8,
    I16,
    I32,
    I64,
    F32,
    F64,
}

/// The primitive type that a type name stands for.
pub open spec fn spec_kind_of_name(name: Seq<char>) -> Option<MessageFieldKind> {
    if name == "char"@ {
        Some(MessageFieldKind::Char)
    } else if name == "uint8_t"@ {
        Some(MessageFieldKind::U8)
    } else if name == "uint16_t"@ {
        Some(MessageFieldKind::U16)
    } else if name == "uint32_t"@ {
        Some(MessageFieldKind::U32)
    } else if name == "uint64_t"@ {
        Some(MessageFieldKind::U64)
    } else if name == "int8_t"@ {
        Some(MessageFieldKind::I8)
    } else if name == "uint8_t_mavlink_version"@ {
        Some(MessageFieldKind::I8)
    } else if name == "int16_t"@ {
        Some(MessageFieldKind::I16)
    } else if name == "int32_t"@ {
        Some(MessageFieldKind::I32)
    } else if name == "int64_t"@ {
        Some(MessageFieldKind::I64)
    } else if name == "float"@ {
        Some(MessageFieldKind::F32)
    } else if name == "double"@ {
        Some(MessageFieldKind::F64)
    } else {
        None
    }
}

/// The kind named by `name` with multiplicity `n`, or the error that carries
/// the whole type text `p`.
pub open spec fn spec_named_kind(name: Seq<char>, n: usize, p: Seq<char>) -> Result<
    (MessageFieldKind, usize),
    MsgParseErrorView,
> {
    match spec_kind_of_name(name) {
        Some(kind) => Ok((kind, n)),
        None => Err(MsgParseErrorView::UnknownType(p)),
    }
}

/// What a `type` attribute means: a primitive type name, optionally followed
/// by an array size in square brackets. The size is read between the first
/// `[` and the first `]` after it; it must be a number, and not zero. The
/// size is judged before the name.
pub open spec fn spec_field_type(p: Seq<char>) -> Result<
    (MessageFieldKind, usize),
    MsgParseErrorView,
> {
    match spec_find(p, 0, '[') {
        Some(open) => match spec_find(p, open, ']') {
            None => Err(MsgParseErrorView::MalformedArraySize),
            Some(close) => match spec_parse_usize(p.subrange(open + 1, close)) {
                None => Err(MsgParseErrorView::FailedToParseArraySize(p)),
                Some(n) => if n == 0 {
                    Err(MsgParseErrorView::ZeroArraySize)
                } else {
                    spec_named_kind(p.subrange(0, open), n, p)
                },
            },
        },
        None => spec_named_kind(p, 1, p),
    }
}

impl MessageFieldKind {
    /// Size in bytes of one value of the kind.
    pub open spec fn spec_size(&self) -> nat {
        match self {
            MessageFieldKind::Char => 1,
            MessageFieldKind::U8 => 1,
            MessageFieldKind::U16 => 2,
            MessageFieldKind::U32 => 4,
            MessageFieldKind::U64 => 8,
            MessageFieldKind::I8 => 1,
            MessageFieldKind::I16 => 2,
            MessageFieldKind::I32 => 4,
            MessageFieldKind::I64 => 8,
            MessageFieldKind::F32 => 4,
            MessageFieldKind::F64 => 8,
        }
    }

    /// Looks a type name up among the primitive types.
    fn of_name(text: &Vec<char>, to: usize) -> (r: Option<Self>)
        requires
            to <= text.len(),
        ensures
            r == spec_kind_of_name(text@.subrange(0, to as int)),
    {
        if range_is_word(text, 0, to, "char") {
            Some(Self::Char)
        } else if range_is_word(text, 0, to, "uint8_t") {
            Some(Self::U8)
        } else if range_is_word(text, 0, to, "uint16_t") {
            Some(Self::U16)
        } else if range_is_word(text, 0, to, "uint32_t") {
            Some(Self::U32)
        } else if range_is_word(text, 0, to, "uint64_t") {
            Some(Self::U64)
        } else if range_is_word(text, 0, to, "int8_t") {
            Some(Self::I8)
        } else if range_is_word(text, 0, to, "uint8_t_mavlink_version") {
            Some(Self::I8)
        } else if range_is_word(text, 0, to, "int16_t") {
            Some(Self::I16)
        } else if range_is_word(text, 0, to, "int32_t") {
            Some(Self::I32)
        } else if range_is_word(text, 0, to, "int64_t") {
            Some(Self::I64)
        } else if range_is_word(text, 0, to, "float") {
            Some(Self::F32)
        } else if range_is_word(text, 0, to, "double") {
            Some(Self::F64)
        } else {
            None
        }
    }

    /// Reads a `type` attribute: the primitive kind and the multiplicity,
    /// which is 1 where no array size is given.
    pub fn from_str(p: &str) -> (r: Result<(Self, usize), MsgParseError>)
        ensures
            match r {
                Ok(v) => spec_field_type(p@) == Ok::<_, MsgParseErrorView>(v),
                Err(e) => spec_field_type(p@) == Err::<(Self, usize), _>(e@),
            },
            r matches Ok(v) ==> v.1 >= 1,
    {
        let text = chars_of(p);
        let (name_end, n): (usize, usize) = match find_char(&text, 0, '[') {
            Some(open) => {
                proof {
                    super::text::lemma_find_is_first(text@, 0, '[');
                    super::text::lemma_find_is_first(text@, open as int, ']');
                }
                let close = match find_char(&text, open, ']') {
                    Some(close) => close,
                    None => {
                        return Err(MsgParseError::MalformedArraySize);
                    },
                };
                let n = match parse_usize(&text, open + 1, close) {
                    Some(n) => n,
                    None => {
                        return Err(MsgParseError::FailedToParseArraySize(p.to_owned()));
                    },
                };
                if n == 0 {
                    return Err(MsgParseError::ZeroArraySize);
                }
                (open, n)
            },
            None => {
                assert(text@.subrange(0, text.len() as int) == text@);
                (text.len(), 1)
            },
        };
        match Self::of_name(&text, name_end) {
            Some(kind) => Ok((kind, n)),
            None => Err(MsgParseError::UnknownType(p.to_owned())),
        }
    }

    /// Size in bytes of one value of the kind.
    pub fn size(&self) -> (r: usize)
        ensures
            r == self.spec_size(),
            r == 1 || r == 2 || r == 4 || r == 8,
    {
        match self {
            Self::Char => 1,
            Self::U8 => 1,
            Self::U16 => 2,
            Self::U32 => 4,
            Self::U64 => 8,
            Self::I8 => 1,
            Self::I16 => 2,
            Self::I32 => 4,
            Self::I64 => 8,
            Self::F32 => 4,
            Self::F64 => 8,
        }
    }
}

/// One field of a message definition.
#[derive(Debug)]
pub struct MessageField {
    pub name: String,
    pub kind: MessageFieldKind,
    pub multiplicity: usize,
}

/// A field as a plain value.
pub struct FieldView {
    pub name: Seq<char>,
    pub kind: MessageFieldKind,
    pub multiplicity: nat,
}

impl FieldView {
    /// Bytes that the field takes in the payload.
    pub open spec fn size(self) -> nat {
        self.kind.spec_size() * self.multiplicity
    }

    /// Bytes of one value of the field: what the payload is ordered by.
    pub open spec fn width(self) -> nat {
        self.kind.spec_size()
    }

    /// Does the field name the target of the message?
    pub open spec fn is_target(self) -> bool {
        self.name == "target_system"@ || self.name == "target_component"@
    }
}

impl View for MessageField {
    type V = FieldView;

    open spec fn view(&self) -> FieldView {
        FieldView { name: self.name@, kind: self.kind, multiplicity: self.multiplicity as nat }
    }
}

/// The views of a list of fields, in order.
pub open spec fn spec_views(fields: Seq<MessageField>) -> Seq<FieldView> {
    fields.map_values(|f: MessageField| f@)
}

impl MessageField {
    /// Bytes that the field takes in the payload.
    pub fn size(&self) -> (r: usize)
        requires
            self@.size() <= usize::MAX,
        ensures
            r == self@.size(),
    {
        self.kind.size() * self.multiplicity
    }

    /// The size of the field, unless it exceeds `usize`.
    pub fn checked_size(&self) -> (r: Option<usize>)
        ensures
            r == if self@.size() <= usize::MAX {
                Some(self@.size() as usize)
            } else {
                None
            },
    {
        self.kind.size().checked_mul(self.multiplicity)
    }

    /// A copy of the field.
    pub fn duplicate(&self) -> (r: Self)
        ensures
            r == *self,
    {
        Self { name: self.name.clone(), kind: self.kind, multiplicity: self.multiplicity }
    }
}

/// The fields of width `width` among `fields`, in their order.
pub open spec fn spec_pick(fields: Seq<FieldView>, width: nat) -> Seq<FieldView>
    decreases fields.len(),
{
    if fields.len() == 0 {
        Seq::empty()
    } else if fields.last().width() == width {
        spec_pick(fields.drop_last(), width).push(fields.last())
    } else {
        spec_pick(fields.drop_last(), width)
    }
}

/// The base fields in payload order: widest first, and fields of one width
/// in the order of their declaration.
pub open spec fn spec_sorted(base: Seq<FieldView>) -> Seq<FieldView> {
    spec_pick(base, 8) + spec_pick(base, 4) + spec_pick(base, 2) + spec_pick(base, 1)
}

/// Where the extension fields start: at the marker, or after the last field.
pub open spec fn spec_split(fields: Seq<FieldView>, extensions: Option<usize>) -> int {
    match extensions {
        Some(i) => i as int,
        None => fields.len() as int,
    }
}

/// The payload order of a message: the base fields sorted by width, then the
/// extension fields as declared.
pub open spec fn spec_layout(fields: Seq<FieldView>, extensions: Option<usize>) -> Seq<FieldView> {
    let split = spec_split(fields, extensions);
    spec_sorted(fields.subrange(0, split)) + fields.subrange(split, fields.len() as int)
}

/// Bytes that `fields` take together.
pub open spec fn spec_total_size(fields: Seq<FieldView>) -> nat
    decreases fields.len(),
{
    if fields.len() == 0 {
        0
    } else {
        spec_total_size(fields.drop_last()) + fields.last().size()
    }
}

/// Offset of the field called `name` in `layout`: the bytes of the fields
/// before it. Of several fields with that name the last one counts.
pub open spec fn spec_offset_of(layout: Seq<FieldView>, name: Seq<char>) -> Option<nat>
    decreases layout.len(),
{
    if layout.len() == 0 {
        None
    } else if layout.last().name == name {
        Some(spec_total_size(layout.drop_last()))
    } else {
        spec_offset_of(layout.drop_last(), name)
    }
}

/// What a message definition resolves to. A message without target fields
/// resolves to nothing. A targeted message too large to lay out is refused;
/// otherwise the offsets of its target fields in the payload order are
/// returned, and a target component without a target system is an error.
pub open spec fn spec_compute_offsets(
    fields: Seq<FieldView>,
    extensions: Option<usize>,
    targeted: bool,
) -> Result<Option<(usize, Option<usize>)>, MsgParseErrorView> {
    let layout = spec_layout(fields, extensions);
    if !targeted {
        Ok(None)
    } else if spec_total_size(layout) > usize::MAX {
        Err(MsgParseErrorView::MessageTooLarge)
    } else {
        match (
            spec_offset_of(layout, "target_system"@),
            spec_offset_of(layout, "target_component"@),
        ) {
            (Some(system), Some(component)) => Ok(
                Some((system as usize, Some(component as usize))),
            ),
            (Some(system), None) => Ok(Some((system as usize, None))),
            (None, Some(_)) => Err(MsgParseErrorView::MissingTargetSystem),
            (None, None) => Ok(None),
        }
    }
}

/// Collects the fields of one message definition, in the order of their
/// declaration, and resolves the offsets of its target fields.
pub struct MsgParser {
    // The fields of the message.
    msg_fields: Vec<MessageField>,
    // The index where the extension fields start in `msg_fields`.
    extensions_start_idx: Option<usize>,
    // Whether a target field was declared.
    is_targeted_msg: bool,
}

impl MsgParser {
    /// The extension marker, once seen, lies within the fields.
    pub closed spec fn wf(&self) -> bool {
        self.extensions_start_idx matches Some(i) ==> i <= self.msg_fields.len()
    }

    /// The fields collected so far.
    pub closed spec fn fields(&self) -> Seq<FieldView> {
        spec_views(self.msg_fields@)
    }

    /// Where the extension fields start, once the marker was seen.
    pub closed spec fn extensions(&self) -> Option<usize> {
        self.extensions_start_idx
    }

    /// Whether a target field was declared.
    pub closed spec fn targeted(&self) -> bool {
        self.is_targeted_msg
    }

    /// A parser that has seen nothing.
    pub fn new() -> (r: Self)
        ensures
            r.wf(),
            r.fields() == Seq::<FieldView>::empty(),
            r.extensions() is None,
            !r.targeted(),
    {
        Self { msg_fields: Vec::new(), extensions_start_idx: None, is_targeted_msg: false }
    }

    /// Notes that the fields from here on are extensions. A message has at
    /// most one such marker.
    pub fn record_extension_start(&mut self) -> (r: Result<(), MsgParseError>)
        requires
            old(self).wf(),
        ensures
            final(self).wf(),
            final(self).fields() == old(self).fields(),
            final(self).targeted() == old(self).targeted(),
            match r {
                Ok(_) => old(self).extensions() is None && final(self).extensions() == Some(
                    old(self).fields().len() as usize,
                ),
                Err(e) => old(self).extensions() is Some && e@
                    == MsgParseErrorView::MultipleExtensionsFields && final(self).extensions()
                    == old(self).extensions(),
            },
    {
        match self.extensions_start_idx {
            Some(_) => {
                return Err(MsgParseError::MultipleExtensionsFields);
            },
            None => {
                self.extensions_start_idx = Some(self.msg_fields.len());
            },
        }
        Ok(())
    }

    /// Adds a field. A target field must be a single `uint8_t`; the kind is
    /// judged before the multiplicity. A rejected field is not added.
    pub fn parse_msg_field(&mut self, msg_field: MessageField) -> (r: Result<(), MsgParseError>)
        requires
            old(self).wf(),
        ensures
            final(self).wf(),
            final(self).extensions() == old(self).extensions(),
            match r {
                Ok(_) => {
                    &&& msg_field@.is_target() ==> msg_field.kind == MessageFieldKind::U8
                        && msg_field.multiplicity == 1
                    &&& final(self).fields() == old(self).fields().push(msg_field@)
                    &&& final(self).targeted() == (old(self).targeted() || msg_field@.is_target())
                },
                Err(e) => {
                    &&& msg_field@.is_target()
                    &&& if msg_field.kind != MessageFieldKind::U8 {
                        e@ == MsgParseErrorView::TargetFieldNotU8
                    } else {
                        msg_field.multiplicity != 1 && e@
                            == MsgParseErrorView::TargetFieldNotSingleValue
                    }
                    &&& final(self).fields() == old(self).fields()
                    &&& final(self).targeted() == old(self).targeted()
                },
            },
    {
        if str_equal(msg_field.name.as_str(), "target_system") || str_equal(
            msg_field.name.as_str(),
            "target_component",
        ) {
            if msg_field.kind != MessageFieldKind::U8 {
                return Err(MsgParseError::TargetFieldNotU8);
            }
            if msg_field.multiplicity != 1 {
                return Err(MsgParseError::TargetFieldNotSingleValue);
            }
            self.is_targeted_msg = true;
        }
        let ghost before = self.msg_fields@;
        self.msg_fields.push(msg_field);
        assert(spec_views(before.push(msg_field)) == spec_views(before).push(msg_field@));
        Ok(())
    }
}

/// Every field falls into exactly one of the four widths, so sorting keeps
/// the number of fields.
pub proof fn lemma_sorted_len(base: Seq<FieldView>)
    ensures
        spec_sorted(base).len() == base.len(),
    decreases base.len(),
{
    if base.len() > 0 {
        lemma_sorted_len(base.drop_last());
    }
}

/// The first `k` of a list of fields take no more bytes than all of them.
pub proof fn lemma_total_size_prefix(fields: Seq<FieldView>, k: int)
    requires
        0 <= k <= fields.len(),
    ensures
        spec_total_size(fields.subrange(0, k)) <= spec_total_size(fields),
    decreases fields.len() - k,
{
    if k == fields.len() {
        assert(fields.subrange(0, k) == fields);
    } else {
        assert(fields.subrange(0, k + 1).drop_last() == fields.subrange(0, k));
        lemma_total_size_prefix(fields, k + 1);
    }
}

/// Copies the fields of width `width` among `src[..split]` to the end of
/// `out`, in their order.
fn append_width(src: &Vec<MessageField>, split: usize, width: usize, out: &mut Vec<MessageField>)
    requires
        split <= src.len(),
    ensures
        spec_views(final(out)@) == spec_views(old(out)@) + spec_pick(
            spec_views(src@).subrange(0, split as int),
            width as nat,
        ),
{
    let ghost start = spec_views(out@);
    let ghost base = spec_views(src@).subrange(0, split as int);
    let mut i: usize = 0;
    assert(base.subrange(0, 0) == Seq::<FieldView>::empty());
    assert(start + Seq::<FieldView>::empty() == start);
    while i < split
        invariant
            i <= split <= src.len(),
            base == spec_views(src@).subrange(0, split as int),
            spec_views(out@) == start + spec_pick(base.subrange(0, i as int), width as nat),
        decreases split - i,
    {
        let ghost seen = base.subrange(0, i as int);
        let ghost next = base.subrange(0, i + 1);
        proof {
            assert(next.drop_last() == seen);
            assert(next.last() == src@[i as int]@);
        }
        if src[i].kind.size() == width {
            let ghost before = out@;
            let copy = src[i].duplicate();
            out.push(copy);
            proof {
                assert(spec_views(before.push(copy)) == spec_views(before).push(copy@));
                assert(start + spec_pick(seen, width as nat).push(copy@) == (start + spec_pick(
                    seen,
                    width as nat,
                )).push(copy@));
            }
        }
        i += 1;
    }
    assert(base.subrange(0, split as int) == base);
}

/// Copies `src[from..]` to the end of `out`.
fn append_rest(src: &Vec<MessageField>, from: usize, out: &mut Vec<MessageField>)
    requires
        from <= src.len(),
    ensures
        spec_views(final(out)@) == spec_views(old(out)@) + spec_views(src@).subrange(
            from as int,
            src.len() as int,
        ),
{
    let ghost start = spec_views(out@);
    let ghost all = spec_views(src@);
    let mut i: usize = from;
    assert(start + all.subrange(from as int, from as int) == start);
    while i < src.len()
        invariant
            from <= i <= src.len(),
            all == spec_views(src@),
            spec_views(out@) == start + all.subrange(from as int, i as int),
        decreases src.len() - i,
    {
        let ghost before = out@;
        let copy = src[i].duplicate();
        out.push(copy);
        proof {
            assert(spec_views(before.push(copy)) == spec_views(before).push(copy@));
            assert(start + all.subrange(from as int, i + 1) == (start + all.subrange(
                from as int,
                i as int,
            )).push(copy@));
        }
        i += 1;
    }
}

impl MsgParser {
    /// Resolves the offsets of the target fields. For a targeted message the
    /// collected fields are left in payload order.
    pub fn compute_offsets(&mut self) -> (r: Result<Option<Offsets>, MsgParseError>)
        requires
            old(self).wf(),
        ensures
            final(self).wf(),
            final(self).extensions() == old(self).extensions(),
            final(self).targeted() == old(self).targeted(),
            final(self).fields() == if old(self).targeted() {
                spec_layout(old(self).fields(), old(self).extensions())
            } else {
                old(self).fields()
            },
            match r {
                Ok(Some(offsets)) => spec_compute_offsets(
                    old(self).fields(),
                    old(self).extensions(),
                    old(self).targeted(),
                ) == Ok::<_, MsgParseErrorView>(Some(offsets@)),
                Ok(None) => spec_compute_offsets(
                    old(self).fields(),
                    old(self).extensions(),
                    old(self).targeted(),
                ) == Ok::<Option<(usize, Option<usize>)>, MsgParseErrorView>(None),
                Err(e) => spec_compute_offsets(
                    old(self).fields(),
                    old(self).extensions(),
                    old(self).targeted(),
                ) == Err::<Option<(usize, Option<usize>)>, _>(e@),
            },
    {
        if !self.is_targeted_msg {
            return Ok(None);
        }
        // Sort the base fields by descending width; the extension fields stay
        // at the end, in the order of the definition.

        let num_fields = self.msg_fields.len();
        let split = match self.extensions_start_idx {
            Some(i) => i,
            None => num_fields,
        };
        let ghost declared = spec_views(self.msg_fields@);
        let ghost layout = spec_layout(declared, self.extensions_start_idx);
        let mut sorted: Vec<MessageField> = Vec::new();
        assert(spec_views(sorted@) == Seq::<FieldView>::empty());
        append_width(&self.msg_fields, split, 8, &mut sorted);
        append_width(&self.msg_fields, split, 4, &mut sorted);
        append_width(&self.msg_fields, split, 2, &mut sorted);
        append_width(&self.msg_fields, split, 1, &mut sorted);
        append_rest(&self.msg_fields, split, &mut sorted);
        proof {
            assert(spec_views(sorted@) == layout);
            lemma_sorted_len(declared.subrange(0, split as int));
            assert(sorted@.len() == spec_views(sorted@).len());
        }
        self.msg_fields = sorted;

        let mut system_offset: Option<usize> = None;
        let mut component_offset: Option<usize> = None;
        let mut offset: usize = 0;
        let mut i: usize = 0;
        assert(layout.subrange(0, 0) == Seq::<FieldView>::empty());
        while i < self.msg_fields.len()
            invariant
                i <= self.msg_fields.len(),
                self.msg_fields.len() == num_fields,
                self.wf(),
                self.is_targeted_msg,
                old(self).is_targeted_msg,
                self.extensions_start_idx == old(self).extensions_start_idx,
                layout == spec_views(self.msg_fields@),
                layout == spec_layout(
                    spec_views(old(self).msg_fields@),
                    old(self).extensions_start_idx,
                ),
                offset == spec_total_size(layout.subrange(0, i as int)),
                spec_offset_of(layout.subrange(0, i as int), "target_system"@) == match system_offset {
                    Some(o) => Some(o as nat),
                    None => None,
                },
                spec_offset_of(layout.subrange(0, i as int), "target_component"@)
                    == match component_offset {
                    Some(o) => Some(o as nat),
                    None => None,
                },
            decreases self.msg_fields.len() - i,
        {
            let field = &self.msg_fields[i];
            proof {
                assert(layout.subrange(0, i + 1).drop_last() == layout.subrange(0, i as int));
                assert(layout.subrange(0, i + 1).last() == field@);
                lemma_total_size_prefix(layout, i + 1);
            }
            if str_equal(field.name.as_str(), "target_system") {
                system_offset = Some(offset);
            }
            if str_equal(field.name.as_str(), "target_component") {
                component_offset = Some(offset);
            }
            let size = match field.checked_size() {
                Some(size) => size,
                None => {
                    return Err(MsgParseError::MessageTooLarge);
                },
            };
            offset = match offset.checked_add(size) {
                Some(next) => next,
                None => {
                    return Err(MsgParseError::MessageTooLarge);
                },
            };
            i += 1;
        }
        assert(layout.subrange(0, i as int) == layout);

        // A targeted message may lack a target component; it may not lack a
        // target system.
        match (system_offset, component_offset) {
            (Some(system_offset), Some(component_offset)) => {
                Ok(Some(Offsets::new(system_offset, Some(component_offset))))
            },
            (Some(system_offset), None) => Ok(Some(Offsets::new(system_offset, None))),
            (None, Some(_)) => Err(MsgParseError::MissingTargetSystem),
            (None, None) => Ok(None),
        }
    }
}

/// The text of the attribute `key` of a tag: `None` where the reader fails
/// on the attributes or on the value, `Some(None)` where the tag has no
/// such attribute.
pub open spec fn spec_attribute_text(tag: XmlTagView, key: Seq<char>) -> Option<Option<Seq<char>>> {
    match spec_raw_attribute(tag.content, tag.name_len, key) {
        None => None,
        Some(None) => Some(None),
        Some(Some(raw)) => match spec_unescaped(raw) {
            None => None,
            Some(text) => Some(Some(text)),
        },
    }
}

/// Looks the attribute `key` of a tag up and unescapes its value.
pub fn attribute_text(tag: &XmlTag, key: &str) -> (r: Result<Option<String>, quick_xml::Error>)
    requires
        tag.wf(),
    ensures
        match r {
            Ok(Some(text)) => spec_attribute_text(tag@, key@) == Some(Some(text@)),
            Ok(None) => spec_attribute_text(tag@, key@) == Some(None::<Seq<char>>),
            Err(_) => spec_attribute_text(tag@, key@) is None,
        },
{
    match raw_attribute(tag, key) {
        Err(e) => Err(e),
        Ok(None) => Ok(None),
        Ok(Some(raw)) => match unescape_value(&raw) {
            Err(e) => Err(e),
            Ok(text) => Ok(Some(text)),
        },
    }
}

/// The field that a name and a type attribute declare. The name is asked
/// for before the type.
pub open spec fn spec_field_of_attributes(
    name: Option<Seq<char>>,
    field_type: Option<Seq<char>>,
) -> Result<FieldView, MsgParseErrorView> {
    match name {
        None => Err(MsgParseErrorView::FieldWithoutName),
        Some(name) => match field_type {
            None => Err(MsgParseErrorView::FieldWithoutType),
            Some(field_type) => match spec_field_type(field_type) {
                Ok((kind, n)) => Ok(FieldView { name, kind, multiplicity: n as nat }),
                Err(e) => Err(e),
            },
        },
    }
}

/// The field that a `field` tag declares.
pub open spec fn spec_field_of_tag(tag: XmlTagView) -> Result<FieldView, MsgParseErrorView> {
    match spec_attribute_text(tag, "name"@) {
        None => Err(MsgParseErrorView::QuickXml),
        Some(None) => Err(MsgParseErrorView::FieldWithoutName),
        Some(Some(name)) => match spec_attribute_text(tag, "type"@) {
            None => Err(MsgParseErrorView::QuickXml),
            Some(field_type) => spec_field_of_attributes(Some(name), field_type),
        },
    }
}

impl MessageField {
    /// Builds a field from the values of its `name` and `type` attributes.
    pub fn from_attributes(name: Option<String>, field_type: Option<String>) -> (r: Result<
        Self,
        MsgParseError,
    >)
        ensures
            match r {
                Ok(field) => spec_field_of_attributes(
                    match name {
                        Some(s) => Some(s@),
                        None => None,
                    },
                    match field_type {
                        Some(s) => Some(s@),
                        None => None,
                    },
                ) == Ok::<_, MsgParseErrorView>(field@),
                Err(e) => spec_field_of_attributes(
                    match name {
                        Some(s) => Some(s@),
                        None => None,
                    },
                    match field_type {
                        Some(s) => Some(s@),
                        None => None,
                    },
                ) == Err::<FieldView, _>(e@),
            },
    {
        let name = match name {
            Some(name) => name,
            None => {
                return Err(MsgParseError::FieldWithoutName);
            },
        };
        let field_type = match field_type {
            Some(field_type) => field_type,
            None => {
                return Err(MsgParseError::FieldWithoutType);
            },
        };
        match MessageFieldKind::from_str(field_type.as_str()) {
            Ok((kind, multiplicity)) => Ok(Self { name, kind, multiplicity }),
            Err(e) => Err(e),
        }
    }

    /// Reads a field from its tag.
    pub fn from_bytes(tag: &XmlTag) -> (r: Result<Self, MsgParseError>)
        requires
            tag.wf(),
        ensures
            match r {
                Ok(field) => spec_field_of_tag(tag@) == Ok::<_, MsgParseErrorView>(field@),
                Err(e) => spec_field_of_tag(tag@) == Err::<FieldView, _>(e@),
            },
    {
        let name = match attribute_text(tag, "name") {
            Ok(Some(name)) => name,
            Ok(None) => {
                return Err(MsgParseError::FieldWithoutName);
            },
            Err(e) => {
                return Err(MsgParseError::QuickXml(e));
            },
        };
        let field_type = match attribute_text(tag, "type") {
            Ok(field_type) => field_type,
            Err(e) => {
                return Err(MsgParseError::QuickXml(e));
            },
        };
        Self::from_attributes(Some(name), field_type)
    }
}

/// What a message parser has collected, as a plain value.
pub struct MsgState {
    pub fields: Seq<FieldView>,
    pub extensions: Option<usize>,
    pub targeted: bool,
}

/// What one event does to the parse of a message.
pub enum MsgStep {
    /// The message goes on.
    Continue(MsgState),
    /// The message ends with this result.
    Done(Result<Option<(usize, Option<usize>)>, MsgParseErrorView>),
}

/// Adding a field: a target field must be a single `uint8_t`.
pub open spec fn spec_add_field(state: MsgState, field: FieldView) -> Result<
    MsgState,
    MsgParseErrorView,
> {
    if field.is_target() && field.kind != MessageFieldKind::U8 {
        Err(MsgParseErrorView::TargetFieldNotU8)
    } else if field.is_target() && field.multiplicity != 1 {
        Err(MsgParseErrorView::TargetFieldNotSingleValue)
    } else {
        Ok(
            MsgState {
                fields: state.fields.push(field),
                extensions: state.extensions,
                targeted: state.targeted || field.is_target(),
            },
        )
    }
}

/// One step of a message: an opening `field` tag adds a field, a
/// self-closing `extensions` tag marks the extensions, the closing `message`
/// tag resolves the offsets, and the input may not end before that. Every
/// other event is passed over.
pub open spec fn spec_msg_step(state: MsgState, event: XmlEventView) -> MsgStep {
    match event {
        XmlEventView::Start(tag) => if tag.name() == "field".spec_bytes() {
            match spec_field_of_tag(tag) {
                Err(e) => MsgStep::Done(Err(e)),
                Ok(field) => match spec_add_field(state, field) {
                    Err(e) => MsgStep::Done(Err(e)),
                    Ok(next) => MsgStep::Continue(next),
                },
            }
        } else {
            MsgStep::Continue(state)
        },
        XmlEventView::Empty(tag) => if tag.name() == "extensions".spec_bytes() {
            if state.extensions is Some {
                MsgStep::Done(Err(MsgParseErrorView::MultipleExtensionsFields))
            } else {
                MsgStep::Continue(
                    MsgState {
                        fields: state.fields,
                        extensions: Some(state.fields.len() as usize),
                        targeted: state.targeted,
                    },
                )
            }
        } else {
            MsgStep::Continue(state)
        },
        XmlEventView::End(name) => if name == "message".spec_bytes() {
            MsgStep::Done(spec_compute_offsets(state.fields, state.extensions, state.targeted))
        } else {
            MsgStep::Continue(state)
        },
        XmlEventView::Eof => MsgStep::Done(Err(MsgParseErrorView::UnexpectedEof)),
        XmlEventView::Failed => MsgStep::Done(Err(MsgParseErrorView::QuickXml)),
        XmlEventView::Other => MsgStep::Continue(state),
    }
}

/// The parse of a message from `events`: its result, and the number of
/// events that it takes.
pub open spec fn spec_msg_run(events: Seq<XmlEventView>, state: MsgState) -> (
    Result<Option<(usize, Option<usize>)>, MsgParseErrorView>,
    nat,
)
    decreases events.len(),
{
    if events.len() == 0 {
        (Err(MsgParseErrorView::UnexpectedEof), 0)
    } else {
        match spec_msg_step(state, events[0]) {
            MsgStep::Done(result) => (result, 1),
            MsgStep::Continue(next) => {
                let (result, taken) = spec_msg_run(events.skip(1), next);
                (result, taken + 1)
            },
        }
    }
}

/// The state of a parser that has seen nothing.
pub open spec fn spec_msg_start() -> MsgState {
    MsgState { fields: Seq::empty(), extensions: None, targeted: false }
}

impl MsgParser {
    /// What the parser has collected.
    pub open spec fn state(&self) -> MsgState {
        MsgState {
            fields: self.fields(),
            extensions: self.extensions(),
            targeted: self.targeted(),
        }
    }
}

/// Does the exec result say what the model says?
pub open spec fn spec_same_result(
    r: Result<Option<Offsets>, MsgParseError>,
    model: Result<Option<(usize, Option<usize>)>, MsgParseErrorView>,
) -> bool {
    match r {
        Ok(Some(offsets)) => model == Ok::<_, MsgParseErrorView>(Some(offsets@)),
        Ok(None) => model == Ok::<Option<(usize, Option<usize>)>, MsgParseErrorView>(None),
        Err(e) => model == Err::<Option<(usize, Option<usize>)>, _>(e@),
    }
}

/// Reads one message definition, whose opening tag was just read, up to its
/// closing tag, and resolves the offsets of its target fields. The result is
/// that of `spec_msg_run` on the pending events; the events that it takes
/// are taken from the reader.
pub fn try_get_offsets_from_msg(reader: &mut Reader<&[u8]>) -> (r: Result<
    Option<Offsets>,
    MsgParseError,
>)
    ensures
        spec_same_result(r, spec_msg_run(spec_pending(*old(reader)), spec_msg_start()).0),
        spec_msg_run(spec_pending(*old(reader)), spec_msg_start()).1 <= spec_pending(
            *old(reader),
        ).len(),
        r is Ok ==> spec_pending(*final(reader)) == spec_pending(*old(reader)).skip(
            spec_msg_run(spec_pending(*old(reader)), spec_msg_start()).1 as int,
        ),
        r is Ok ==> forall|k: nat, end: Seq<u8>| #[trigger]
            spec_text_to_end(*final(reader), k, end) == spec_text_to_end(
                *old(reader),
                k + spec_msg_run(spec_pending(*old(reader)), spec_msg_start()).1,
                end,
            ),
{
    let mut parser = MsgParser::new();
    let ghost all = spec_pending(*reader);
    let ghost taken: nat = 0;
    assert(all.skip(0) == all);
    loop
        invariant
            parser.wf(),
            all == spec_pending(*old(reader)),
            taken <= all.len(),
            spec_pending(*reader) == all.skip(taken as int),
            forall|k: nat, end: Seq<u8>| #[trigger]
                spec_text_to_end(*reader, k, end) == spec_text_to_end(*old(reader), k + taken, end),
            spec_msg_run(all, spec_msg_start()).0 == spec_msg_run(
                spec_pending(*reader),
                parser.state(),
            ).0,
            spec_msg_run(all, spec_msg_start()).1 == spec_msg_run(
                spec_pending(*reader),
                parser.state(),
            ).1 + taken,
        decreases spec_pending(*reader).len(),
    {
        let ghost now = spec_pending(*reader);
        let ghost before = parser.state();
        let event = match next_event(reader) {
            Ok(event) => event,
            Err(e) => {
                return Err(MsgParseError::QuickXml(e));
            },
        };
        proof {
            assert(now.skip(1) == all.skip(taken as int + 1));
        }
        match event {
            XmlEvent::Start(f) => {
                if f.is_named("field") {
                    let field = MessageField::from_bytes(&f)?;
                    parser.parse_msg_field(field)?;
                }
            },
            XmlEvent::Empty(f) => {
                if f.is_named("extensions") {
                    parser.record_extension_start()?;
                }
            },
            XmlEvent::End(name) => {
                if super::xml::name_is(name.as_slice(), "message") {
                    return parser.compute_offsets();
                }
            },
            XmlEvent::Eof => {
                return Err(MsgParseError::UnexpectedEof);
            },
            XmlEvent::Other => {},
        }
        proof {
            assert(spec_msg_step(before, now[0]) == MsgStep::Continue(parser.state()));
            taken = taken + 1;
        }
    }
}

} // verus!
