//! Protobuf messages without a schema.
//!
//! * An empty buffer decodes to an empty message, and that is a success.
//! * Truncated input, field number 0, field numbers above 2^29-1, malformed
//!   varints, reserved wire types and unterminated groups are refused.
//! * Field order is kept, including repeated occurrences of one number.
//! * Encoding is canonical: varints are minimal and length prefixes recomputed.
use crate::endian;
use crate::text;
use vstd::prelude::*;

verus! {

/// Highest field number the wire format allows.
pub const MAX_FIELD_NUMBER: u32 = 0x1FFF_FFFF;

pub const WT_VARINT: u8 = 0;

pub const WT_FIXED64: u8 = 1;

pub const WT_LEN: u8 = 2;

pub const WT_START_GROUP: u8 = 3;

pub const WT_END_GROUP: u8 = 4;

pub const WT_FIXED32: u8 = 5;

#[derive(Debug, Clone, Copy, PartialEq, Eq, Structural)]
pub enum ProtoError {
    /// Ran out of bytes in the middle of a value.
    Truncated,
    /// A varint longer than ten bytes, or a tenth byte with bits above the 64th.
    MalformedVarint,
    /// Field number 0, or above [`MAX_FIELD_NUMBER`].
    InvalidFieldNumber(u32),
    /// Wire types 6 and 7 do not exist.
    InvalidWireType(u8),
    /// An end-group that no matching start-group opened.
    UnexpectedEndGroup(u32),
    /// A length prefix that claims more bytes than are left.
    LengthOverflow { declared: u64, remaining: usize },
}

/// One field's value, tagged with the wire type it was decoded from.
#[derive(Debug, PartialEq, Eq)]
pub enum Value {
    Varint(u64),
    Fixed64(u64),
    LengthDelimited(Vec<u8>),
    Fixed32(u32),
    Group(Vec<Field>),
}

#[derive(Debug, PartialEq, Eq)]
pub struct Field {
    pub number: u32,
    pub value: Value,
}

#[derive(Debug, PartialEq, Eq)]
pub struct Message {
    pub fields: Vec<Field>,
}

/// What a [`Value`] holds.
pub enum ValueView {
    Varint(u64),
    Fixed64(u64),
    LengthDelimited(Seq<u8>),
    Fixed32(u32),
    Group(Seq<FieldView>),
}

/// What a [`Field`] holds.
pub struct FieldView {
    pub number: u32,
    pub value: ValueView,
}

impl Value {
    pub open spec fn model(self) -> ValueView
        decreases self,
    {
        match self {
            Value::Varint(v) => ValueView::Varint(v),
            Value::Fixed64(v) => ValueView::Fixed64(v),
            Value::LengthDelimited(b) => ValueView::LengthDelimited(b@),
            Value::Fixed32(v) => ValueView::Fixed32(v),
            Value::Group(fields) => ValueView::Group(fields_model(fields@)),
        }
    }
}

impl Field {
    pub open spec fn model(self) -> FieldView
        decreases self,
    {
        FieldView { number: self.number, value: self.value.model() }
    }
}

/// What a sequence of fields holds.
pub open spec fn fields_model(fields: Seq<Field>) -> Seq<FieldView>
    decreases fields,
{
    Seq::new(
        fields.len(),
        |i: int|
            if 0 <= i < fields.len() {
                fields[i].model()
            } else {
                arbitrary()
            },
    )
}

impl View for Message {
    type V = Seq<FieldView>;

    open spec fn view(&self) -> Seq<FieldView> {
        fields_model(self.fields@)
    }
}

/// The varint that starts at `pos`, `index` bytes of it having been read before:
/// its value and the position behind it.
pub open spec fn varint_from(buf: Seq<u8>, pos: int, index: int) -> Result<(nat, int), ProtoError>
    decreases 10 - index,
{
    if index >= 10 {
        Err(ProtoError::MalformedVarint)
    } else if pos >= buf.len() {
        Err(ProtoError::Truncated)
    } else if index == 9 && buf[pos] > 1 {
        Err(ProtoError::MalformedVarint)
    } else if buf[pos] < 0x80 {
        Ok((buf[pos] as nat, pos + 1))
    } else {
        match varint_from(buf, pos + 1, index + 1) {
            Ok((high, next)) => Ok(((buf[pos] - 0x80 + 0x80 * high) as nat, next)),
            Err(e) => Err(e),
        }
    }
}

/// The varint that starts at `pos`.
pub open spec fn varint_at(buf: Seq<u8>, pos: int) -> Result<(nat, int), ProtoError> {
    varint_from(buf, pos, 0)
}

/// The shortest varint for `v`.
pub open spec fn varint_bytes(v: nat) -> Seq<u8>
    decreases v,
{
    if v < 0x80 {
        seq![v as u8]
    } else {
        seq![(v % 0x80 + 0x80) as u8] + varint_bytes(v / 0x80)
    }
}

/// The tag of a field.
pub open spec fn tag_bytes(number: u32, wire_type: u8) -> Seq<u8> {
    varint_bytes((number * 8 + wire_type) as nat)
}

/// The field number in a tag, as far as 32 bits go.
pub open spec fn tag_number(tag: nat) -> u32 {
    (tag / 8 % 0x1_0000_0000) as u32
}

/// Whether the field number in a tag is one that the wire format allows.
pub open spec fn valid_tag(tag: nat) -> bool {
    0 < tag / 8 <= MAX_FIELD_NUMBER
}

/// The wire type in a tag.
pub open spec fn tag_wire_type(tag: nat) -> u8 {
    (tag % 8) as u8
}

pub open spec fn valid_number(number: u32) -> bool {
    0 < number <= MAX_FIELD_NUMBER
}

/// The value of wire type `wire_type` that starts at `pos`, and the position behind it.
pub open spec fn value_at(buf: Seq<u8>, pos: int, number: u32, wire_type: u8) -> Result<
    (ValueView, int),
    ProtoError,
>
    decreases buf.len() - pos, 1int,
{
    if wire_type == WT_VARINT {
        match varint_at(buf, pos) {
            Ok((v, next)) => Ok((ValueView::Varint(v as u64), next)),
            Err(e) => Err(e),
        }
    } else if wire_type == WT_FIXED64 {
        if pos + 8 > buf.len() {
            Err(ProtoError::Truncated)
        } else {
            Ok((ValueView::Fixed64(endian::le64(buf, pos) as u64), pos + 8))
        }
    } else if wire_type == WT_LEN {
        match varint_at(buf, pos) {
            Ok((declared, next)) => if declared > buf.len() - next {
                Err(
                    ProtoError::LengthOverflow {
                        declared: declared as u64,
                        remaining: (buf.len() - next) as usize,
                    },
                )
            } else {
                Ok((ValueView::LengthDelimited(buf.subrange(next, next + declared)), next + declared))
            },
            Err(e) => Err(e),
        }
    } else if wire_type == WT_START_GROUP {
        match fields_at(buf, pos, Some(number)) {
            Ok((fields, next)) => Ok((ValueView::Group(fields), next)),
            Err(e) => Err(e),
        }
    } else if wire_type == WT_FIXED32 {
        if pos + 4 > buf.len() {
            Err(ProtoError::Truncated)
        } else {
            Ok((ValueView::Fixed32(endian::le32(buf, pos) as u32), pos + 4))
        }
    } else {
        Err(ProtoError::InvalidWireType(wire_type))
    }
}

/// The fields from `pos` on, up to the end of the buffer or, inside group `group`,
/// up to its end tag; and the position behind them. The first thing that is wrong
/// decides the error.
pub open spec fn fields_at(buf: Seq<u8>, pos: int, group: Option<u32>) -> Result<
    (Seq<FieldView>, int),
    ProtoError,
>
    decreases buf.len() - pos, 0int,
{
    if pos >= buf.len() {
        match group {
            Some(_) => Err(ProtoError::Truncated),
            None => Ok((Seq::empty(), pos)),
        }
    } else {
        match varint_at(buf, pos) {
            Err(e) => Err(e),
            Ok((tag, after_tag)) => {
                let number = tag_number(tag);
                let wire_type = tag_wire_type(tag);
                if !valid_tag(tag) {
                    Err(ProtoError::InvalidFieldNumber(number))
                } else if wire_type == WT_END_GROUP {
                    if group == Some(number) {
                        Ok((Seq::empty(), after_tag))
                    } else {
                        Err(ProtoError::UnexpectedEndGroup(number))
                    }
                } else {
                    proof {
                        lemma_varint_bounds(buf, pos, 0);
                    }
                    match value_at(buf, after_tag, number, wire_type) {
                        Err(e) => Err(e),
                        // A value always ends behind its tag and inside the buffer: the
                        // test only shows that the recursion is well founded.
                        Ok((value, next)) => if next <= pos || next > buf.len() {
                            arbitrary()
                        } else {
                            after_field(FieldView { number, value }, fields_at(buf, next, group))
                        },
                    }
                }
            },
        }
    }
}

/// `field` in front of what follows it.
pub open spec fn after_field(
    field: FieldView,
    rest: Result<(Seq<FieldView>, int), ProtoError>,
) -> Result<(Seq<FieldView>, int), ProtoError> {
    after_fields(seq![field], rest)
}

/// `fields` in front of what follows them.
pub open spec fn after_fields(
    fields: Seq<FieldView>,
    rest: Result<(Seq<FieldView>, int), ProtoError>,
) -> Result<(Seq<FieldView>, int), ProtoError> {
    match rest {
        Ok((tail, end)) => Ok((fields + tail, end)),
        Err(e) => Err(e),
    }
}

/// What a buffer decodes to.
pub open spec fn decoded(buf: Seq<u8>) -> Result<Seq<FieldView>, ProtoError> {
    match fields_at(buf, 0, None) {
        Ok((fields, _)) => Ok(fields),
        Err(e) => Err(e),
    }
}

/// The encoding of one field.
pub open spec fn field_bytes(number: u32, value: ValueView) -> Seq<u8>
    decreases value,
{
    match value {
        ValueView::Varint(v) => tag_bytes(number, WT_VARINT) + varint_bytes(v as nat),
        ValueView::Fixed64(v) => tag_bytes(number, WT_FIXED64) + endian::le64_bytes(v),
        ValueView::LengthDelimited(b) => tag_bytes(number, WT_LEN) + varint_bytes(b.len()) + b,
        ValueView::Fixed32(v) => tag_bytes(number, WT_FIXED32) + endian::le32_bytes(v),
        ValueView::Group(fields) => tag_bytes(number, WT_START_GROUP) + encoded(fields) + tag_bytes(
            number,
            WT_END_GROUP,
        ),
    }
}

/// The encoding of a sequence of fields.
pub open spec fn encoded(fields: Seq<FieldView>) -> Seq<u8>
    decreases fields,
{
    if fields.len() == 0 {
        Seq::empty()
    } else {
        field_bytes(fields[0].number, fields[0].value) + encoded(fields.subrange(1, fields.len() as int))
    }
}

/// A value that the wire format can carry.
pub open spec fn valid_value(value: ValueView) -> bool
    decreases value,
{
    match value {
        ValueView::LengthDelimited(b) => b.len() <= u64::MAX,
        ValueView::Group(fields) => valid_fields(fields),
        _ => true,
    }
}

/// Fields that the wire format can carry: every number is in range, in groups too.
pub open spec fn valid_fields(fields: Seq<FieldView>) -> bool
    decreases fields,
{
    forall|i: int|
        0 <= i < fields.len() ==> valid_number(#[trigger] fields[i].number) && valid_value(
            fields[i].value,
        )
}

/// A varint is not empty and ends inside the buffer.
pub proof fn lemma_varint_bounds(buf: Seq<u8>, pos: int, index: int)
    requires
        0 <= index,
    ensures
        varint_from(buf, pos, index) matches Ok((v, next)) ==> pos < next <= buf.len(),
    decreases 10 - index,
{
    if index < 10 {
        lemma_varint_bounds(buf, pos + 1, index + 1);
    }
}

/// 128 to the power `index`.
spec fn scale_of(index: int) -> int {
    if index == 0 {
        1
    } else if index == 1 {
        0x80
    } else if index == 2 {
        0x4000
    } else if index == 3 {
        0x20_0000
    } else if index == 4 {
        0x1000_0000
    } else if index == 5 {
        0x8_0000_0000
    } else if index == 6 {
        0x400_0000_0000
    } else if index == 7 {
        0x2_0000_0000_0000
    } else if index == 8 {
        0x100_0000_0000_0000
    } else {
        0x8000_0000_0000_0000
    }
}

proof fn lemma_varint_range(buf: Seq<u8>, pos: int, index: int)
    requires
        0 <= index,
    ensures
        varint_from(buf, pos, index) matches Ok((v, next)) ==> v * scale_of(index) <= u64::MAX,
    decreases 10 - index,
{
    if index < 10 {
        lemma_varint_range(buf, pos + 1, index + 1);
    }
}

proof fn lemma_varint_round_trip(buf: Seq<u8>, pos: int, index: int, v: nat)
    requires
        0 <= index < 10,
        0 <= pos,
        v * scale_of(index) <= u64::MAX,
        pos + varint_bytes(v).len() <= buf.len(),
        buf.subrange(pos, pos + varint_bytes(v).len()) == varint_bytes(v),
    ensures
        varint_from(buf, pos, index) == Ok::<(nat, int), ProtoError>(
            (v, pos + varint_bytes(v).len()),
        ),
    decreases v,
{
    let bytes = varint_bytes(v);
    assert(buf[pos] == buf.subrange(pos, pos + bytes.len())[0]);
    if v >= 0x80 {
        let tail = varint_bytes(v / 0x80);
        assert(bytes.subrange(1, bytes.len() as int) =~= tail);
        assert(buf.subrange(pos + 1, pos + 1 + tail.len()) =~= bytes.subrange(
            1,
            bytes.len() as int,
        ));
        lemma_varint_round_trip(buf, pos + 1, index + 1, v / 0x80);
    }
}

proof fn lemma_value_bounds(buf: Seq<u8>, pos: int, number: u32, wire_type: u8)
    requires
        0 <= pos <= buf.len(),
    ensures
        value_at(buf, pos, number, wire_type) matches Ok((v, next)) ==> pos <= next <= buf.len(),
    decreases buf.len() - pos, 1int,
{
    lemma_varint_bounds(buf, pos, 0);
    if wire_type == WT_START_GROUP {
        lemma_fields_bounds(buf, pos, Some(number));
    }
}

proof fn lemma_fields_bounds(buf: Seq<u8>, pos: int, group: Option<u32>)
    requires
        0 <= pos <= buf.len(),
    ensures
        fields_at(buf, pos, group) matches Ok((f, next)) ==> pos <= next <= buf.len(),
    decreases buf.len() - pos, 0int,
{
    if pos < buf.len() {
        lemma_varint_bounds(buf, pos, 0);
        if let Ok((tag, after_tag)) = varint_at(buf, pos) {
            let number = tag_number(tag);
            let wire_type = tag_wire_type(tag);
            if valid_tag(tag) && wire_type != WT_END_GROUP {
                lemma_value_bounds(buf, after_tag, number, wire_type);
                if let Ok((value, next)) = value_at(buf, after_tag, number, wire_type) {
                    lemma_fields_bounds(buf, next, group);
                }
            }
        }
    }
}

proof fn lemma_valid_cons(field: FieldView, tail: Seq<FieldView>)
    requires
        valid_number(field.number),
        valid_value(field.value),
        valid_fields(tail),
    ensures
        valid_fields(seq![field] + tail),
{
    let fields = seq![field] + tail;
    assert forall|i: int| 0 <= i < fields.len() implies valid_number(#[trigger] fields[i].number)
        && valid_value(fields[i].value) by {
        if i > 0 {
            assert(fields[i] == tail[i - 1]);
            assert(valid_number(tail[i - 1].number));
        }
    }
}

/// What is decoded can be carried by the wire format again, and a length-delimited
/// value is shorter than the bytes it was decoded from.
proof fn lemma_fields_valid(buf: Seq<u8>, pos: int, group: Option<u32>)
    requires
        0 <= pos <= buf.len(),
    ensures
        fields_at(buf, pos, group) matches Ok((f, next)) ==> {
            &&& buf.len() <= u64::MAX ==> valid_fields(f)
            &&& forall|i: int|
                0 <= i < f.len() ==> (#[trigger] f[i].value matches ValueView::LengthDelimited(b)
                    ==> b.len() < buf.len() - pos)
        },
    decreases buf.len() - pos, 0int,
{
    if pos < buf.len() {
        lemma_varint_bounds(buf, pos, 0);
        if let Ok((tag, after_tag)) = varint_at(buf, pos) {
            let number = tag_number(tag);
            let wire_type = tag_wire_type(tag);
            if valid_tag(tag) && wire_type != WT_END_GROUP {
                lemma_value_bounds(buf, after_tag, number, wire_type);
                lemma_varint_bounds(buf, after_tag, 0);
                if wire_type == WT_START_GROUP {
                    lemma_fields_valid(buf, after_tag, Some(number));
                }
                if let Ok((value, next)) = value_at(buf, after_tag, number, wire_type) {
                    lemma_fields_valid(buf, next, group);
                    if let Ok((tail, end)) = fields_at(buf, next, group) {
                        let f = seq![FieldView { number, value }] + tail;
                        assert(fields_at(buf, pos, group) == Ok::<(Seq<FieldView>, int), ProtoError>(
                            (f, end),
                        ));
                        if buf.len() <= u64::MAX {
                            lemma_valid_cons(FieldView { number, value }, tail);
                        }
                        assert forall|i: int| 0 <= i < f.len() implies (
                        #[trigger] f[i].value matches ValueView::LengthDelimited(b) ==> b.len()
                            < buf.len() - pos) by {
                            if i > 0 {
                                assert(f[i].value == tail[i - 1].value);
                            }
                        }
                    }
                }
            }
        }
    }
}

/// The nested payloads of a decoded message are shorter than the message.
pub proof fn lemma_nested_payload_shorter(buf: Seq<u8>)
    ensures
        decoded(buf) matches Ok(fields) ==> forall|i: int|
            0 <= i < fields.len() ==> (#[trigger] fields[i].value matches ValueView::LengthDelimited(b)
                ==> b.len() < buf.len()),
{
    lemma_fields_valid(buf, 0, None);
}


proof fn lemma_tag_round_trip(buf: Seq<u8>, pos: int, number: u32, wire_type: u8)
    requires
        0 <= pos,
        valid_number(number),
        wire_type < 8,
        pos + tag_bytes(number, wire_type).len() <= buf.len(),
        buf.subrange(pos, pos + tag_bytes(number, wire_type).len()) == tag_bytes(number, wire_type),
    ensures
        varint_at(buf, pos) matches Ok((tag, next)) && {
            &&& next == pos + tag_bytes(number, wire_type).len()
            &&& valid_tag(tag)
            &&& tag_number(tag) == number
            &&& tag_wire_type(tag) == wire_type
        },
{
    lemma_varint_round_trip(buf, pos, 0, (number * 8 + wire_type) as nat);
}

/// What stands behind the fields of a level: the end of the buffer, or the end tag of
/// the group.
spec fn level_ends(buf: Seq<u8>, pos: int, group: Option<u32>) -> bool {
    match group {
        None => pos == buf.len(),
        Some(number) => {
            let tag = tag_bytes(number, WT_END_GROUP);
            &&& valid_number(number)
            &&& pos + tag.len() <= buf.len()
            &&& buf.subrange(pos, pos + tag.len()) == tag
        },
    }
}

spec fn level_end(pos: int, group: Option<u32>) -> int {
    match group {
        None => pos,
        Some(number) => pos + tag_bytes(number, WT_END_GROUP).len(),
    }
}

proof fn lemma_subrange_split(buf: Seq<u8>, pos: int, a: Seq<u8>, b: Seq<u8>)
    requires
        0 <= pos,
        pos + a.len() + b.len() <= buf.len(),
        buf.subrange(pos, pos + (a + b).len()) == a + b,
    ensures
        buf.subrange(pos, pos + a.len()) == a,
        buf.subrange(pos + a.len(), pos + a.len() + b.len()) == b,
{
    let whole = buf.subrange(pos, pos + (a + b).len());
    assert forall|i: int| 0 <= i < a.len() implies buf.subrange(pos, pos + a.len())[i] == a[i] by {
        assert(whole[i] == (a + b)[i]);
    }
    assert(buf.subrange(pos, pos + a.len()) =~= a);
    assert forall|i: int| 0 <= i < b.len() implies buf.subrange(
        pos + a.len(),
        pos + a.len() + b.len(),
    )[i] == b[i] by {
        assert(whole[a.len() + i] == (a + b)[a.len() + i]);
    }
    assert(buf.subrange(pos + a.len(), pos + a.len() + b.len()) =~= b);
}

/// Decoding an encoded value gives it back.
proof fn lemma_value_round_trip(buf: Seq<u8>, pos: int, number: u32, value: ValueView)
    requires
        0 <= pos,
        valid_number(number),
        valid_value(value),
        pos + field_bytes(number, value).len() <= buf.len(),
        buf.subrange(pos, pos + field_bytes(number, value).len()) == field_bytes(number, value),
    ensures
        varint_at(buf, pos) matches Ok((tag, after_tag)) && {
            &&& valid_tag(tag)
            &&& tag_number(tag) == number
            &&& tag_wire_type(tag) != WT_END_GROUP
            &&& value_at(buf, after_tag, number, tag_wire_type(tag)) == Ok::<
                (ValueView, int),
                ProtoError,
            >((value, pos + field_bytes(number, value).len()))
        },
    decreases value,
{
    match value {
        ValueView::Varint(v) => {
            let tag = tag_bytes(number, WT_VARINT);
            lemma_subrange_split(buf, pos, tag, varint_bytes(v as nat));
            lemma_tag_round_trip(buf, pos, number, WT_VARINT);
            lemma_varint_round_trip(buf, pos + tag.len(), 0, v as nat);
        },
        ValueView::Fixed64(v) => {
            let tag = tag_bytes(number, WT_FIXED64);
            lemma_subrange_split(buf, pos, tag, endian::le64_bytes(v));
            lemma_tag_round_trip(buf, pos, number, WT_FIXED64);
            endian::lemma_round_trip_64(buf, pos + tag.len(), v);
        },
        ValueView::Fixed32(v) => {
            let tag = tag_bytes(number, WT_FIXED32);
            lemma_subrange_split(buf, pos, tag, endian::le32_bytes(v));
            lemma_tag_round_trip(buf, pos, number, WT_FIXED32);
            endian::lemma_round_trip_32(buf, pos + tag.len(), v);
        },
        ValueView::LengthDelimited(b) => {
            let tag = tag_bytes(number, WT_LEN);
            let prefix = varint_bytes(b.len());
            lemma_subrange_split(buf, pos, tag + prefix, b);
            lemma_subrange_split(buf, pos, tag, prefix);
            lemma_tag_round_trip(buf, pos, number, WT_LEN);
            lemma_varint_round_trip(buf, pos + tag.len(), 0, b.len());
        },
        ValueView::Group(fields) => {
            let tag = tag_bytes(number, WT_START_GROUP);
            let body = encoded(fields);
            let close = tag_bytes(number, WT_END_GROUP);
            lemma_subrange_split(buf, pos, tag + body, close);
            lemma_subrange_split(buf, pos, tag, body);
            lemma_tag_round_trip(buf, pos, number, WT_START_GROUP);
            lemma_fields_round_trip(buf, pos + tag.len(), Some(number), fields);
        },
    }
}

/// One field, and what follows it.
proof fn lemma_fields_step(
    buf: Seq<u8>,
    pos: int,
    group: Option<u32>,
    field: FieldView,
    next: int,
)
    requires
        0 <= pos < next <= buf.len(),
        valid_number(field.number),
        varint_at(buf, pos) matches Ok((tag, after_tag)) && {
            &&& valid_tag(tag)
            &&& tag_number(tag) == field.number
            &&& tag_wire_type(tag) != WT_END_GROUP
            &&& value_at(buf, after_tag, field.number, tag_wire_type(tag)) == Ok::<
                (ValueView, int),
                ProtoError,
            >((field.value, next))
        },
    ensures
        fields_at(buf, pos, group) == after_field(field, fields_at(buf, next, group)),
{
}

/// Decoding encoded fields gives them back.
#[verifier::spinoff_prover]
proof fn lemma_fields_round_trip(
    buf: Seq<u8>,
    pos: int,
    group: Option<u32>,
    fields: Seq<FieldView>,
)
    requires
        0 <= pos,
        valid_fields(fields),
        pos + encoded(fields).len() <= buf.len(),
        buf.subrange(pos, pos + encoded(fields).len()) == encoded(fields),
        level_ends(buf, pos + encoded(fields).len(), group),
    ensures
        fields_at(buf, pos, group) == Ok::<(Seq<FieldView>, int), ProtoError>(
            (fields, level_end(pos + encoded(fields).len(), group)),
        ),
    decreases fields,
{
    if fields.len() == 0 {
        assert(encoded(fields).len() == 0);
        if let Some(number) = group {
            lemma_tag_round_trip(buf, pos, number, WT_END_GROUP);
            lemma_varint_bounds(buf, pos, 0);
        }
        assert(fields =~= Seq::empty());
    } else {
        let head = field_bytes(fields[0].number, fields[0].value);
        let tail = fields.subrange(1, fields.len() as int);
        assert forall|i: int| 0 <= i < tail.len() implies valid_number(#[trigger] tail[i].number)
            && valid_value(tail[i].value) by {
            assert(valid_number(fields[i + 1].number));
        }
        assert(valid_number(fields[0].number));
        lemma_subrange_split(buf, pos, head, encoded(tail));
        lemma_value_round_trip(buf, pos, fields[0].number, fields[0].value);
        lemma_varint_bounds(buf, pos, 0);
        let next = pos + head.len();
        let after_tag = varint_at(buf, pos)->Ok_0.1;
        let wire_type = tag_wire_type(varint_at(buf, pos)->Ok_0.0);
        lemma_value_bounds(buf, after_tag, fields[0].number, wire_type);
        lemma_fields_step(buf, pos, group, fields[0], next);
        assert(encoded(fields).len() == head.len() + encoded(tail).len());
        lemma_fields_round_trip(buf, next, group, tail);
        assert(seq![fields[0]] + tail =~= fields);
    }
}

/// Decoding what was encoded gives the message back, for every message that the wire
/// format can carry.
pub proof fn law_decode_undoes_encode(fields: Seq<FieldView>)
    requires
        valid_fields(fields),
    ensures
        decoded(encoded(fields)) == Ok::<Seq<FieldView>, ProtoError>(fields),
{
    let buf = encoded(fields);
    assert(buf.subrange(0, 0int + buf.len()) =~= buf);
    lemma_fields_round_trip(buf, 0, None, fields);
}

/// Encoding is canonical: what was decoded from any bytes is encoded to bytes that
/// decode to the same message, and encoding that once more changes nothing.
pub proof fn law_encoding_is_canonical(buf: Seq<u8>)
    requires
        buf.len() <= u64::MAX,
    ensures
        decoded(buf) matches Ok(fields) ==> {
            &&& valid_fields(fields)
            &&& decoded(encoded(fields)) == Ok::<Seq<FieldView>, ProtoError>(fields)
        },
{
    lemma_fields_valid(buf, 0, None);
    if let Ok(fields) = decoded(buf) {
        law_decode_undoes_encode(fields);
    }
}

/// An empty buffer is a message without fields.
pub proof fn law_empty_is_valid()
    ensures
        decoded(Seq::empty()) == Ok::<Seq<FieldView>, ProtoError>(Seq::empty()),
        encoded(Seq::empty()) == Seq::<u8>::empty(),
{
}

/// Encoding one more field appends its bytes.
pub proof fn lemma_encoded_push(fields: Seq<FieldView>, field: FieldView)
    ensures
        encoded(fields.push(field)) == encoded(fields) + field_bytes(field.number, field.value),
    decreases fields.len(),
{
    let more = fields.push(field);
    if fields.len() == 0 {
        assert(more.subrange(1, more.len() as int) =~= Seq::empty());
        assert(encoded(Seq::<FieldView>::empty()) =~= Seq::empty());
        assert(encoded(more) =~= field_bytes(field.number, field.value));
        assert(encoded(fields) =~= Seq::empty());
        assert(encoded(fields) + field_bytes(field.number, field.value) =~= field_bytes(
            field.number,
            field.value,
        ));
    } else {
        let tail = fields.subrange(1, fields.len() as int);
        assert(more.subrange(1, more.len() as int) =~= tail.push(field));
        lemma_encoded_push(tail, field);
        assert(more[0] == fields[0]);
        assert(encoded(more) =~= encoded(fields) + field_bytes(field.number, field.value));
    }
}

/// Reads the varint at `*pos` and moves `*pos` behind it. One that is cut off is read to the
/// end of the buffer, and a malformed one to its tenth byte.
pub fn read_varint(buf: &[u8], pos: &mut usize) -> (r: Result<u64, ProtoError>)
    ensures
        *old(pos) <= buf.len() ==> *final(pos) <= buf.len(),
        match varint_at(buf@, *old(pos) as int) {
            Ok((v, next)) => r == Ok::<u64, ProtoError>(v as u64) && v <= u64::MAX && *final(pos)
                == next,
            Err(ProtoError::MalformedVarint) => r == Err::<u64, ProtoError>(
                ProtoError::MalformedVarint,
            ) && *final(pos) == *old(pos) + 10,
            Err(e) => r == Err::<u64, ProtoError>(e) && *final(pos) == if *old(pos) <= buf.len() {
                buf.len()
            } else {
                *old(pos)
            },
        },
{
    let mut result: u64 = 0;
    let mut scale: u64 = 1;
    let mut i: u32 = 0;
    let ghost start = *pos as int;
    while i < 10
        invariant
            i <= 9,
            i > 0 ==> *pos <= buf.len(),
            start == *old(pos),
            *pos == start + i,
            scale == scale_of(i as int),
            result < scale,
            varint_at(buf@, start) == match varint_from(buf@, *pos as int, i as int) {
                Ok((high, next)) => Ok::<(nat, int), ProtoError>(
                    ((result + scale * high) as nat, next),
                ),
                Err(e) => Err(e),
            },
        decreases 10 - i,
    {
        proof {
            lemma_varint_range(buf@, *pos as int, i as int);
        }
        if *pos >= buf.len() {
            return Err(ProtoError::Truncated);
        }
        let byte: u8 = buf[*pos];
        *pos = *pos + 1;
        // The tenth byte may only contribute the single bit that is still free.
        if i == 9 && byte > 1 {
            return Err(ProtoError::MalformedVarint);
        }
        let low: u64 = if byte < 0x80 {
            byte as u64
        } else {
            (byte - 0x80) as u64
        };
        assert(low * scale <= 127 * scale) by (nonlinear_arith)
            requires
                low <= 127,
        ;
        assert(i == 9 ==> low * scale <= 0x8000_0000_0000_0000);
        result = result + low * scale;
        if byte < 0x80 {
            assert(scale * low == low * scale) by (nonlinear_arith);
            return Ok(result);
        }
        assert(i < 9);
        proof {
            if let Ok((high, next)) = varint_from(buf@, *pos as int, i + 1) {
                assert(scale * (low + 0x80 * high) == low * scale + (scale * 0x80) * high)
                    by (nonlinear_arith);
            }
        }
        scale = scale * 0x80;
        i = i + 1;
    }
    Err(ProtoError::MalformedVarint)
}

/// Appends the shortest varint for `value`.
pub fn write_varint(out: &mut Vec<u8>, value: u64)
    ensures
        final(out)@ == old(out)@ + varint_bytes(value as nat),
{
    let mut value: u64 = value;
    let ghost all = value as nat;
    let ghost before = out@;
    while value >= 0x80
        invariant
            before + varint_bytes(all) == out@ + varint_bytes(value as nat),
        decreases value,
    {
        let ghost rest = varint_bytes(value as nat / 0x80);
        let ghost so_far = out@;
        out.push((value % 0x80 + 0x80) as u8);
        assert(so_far + varint_bytes(value as nat) =~= out@ + rest);
        value = value / 0x80;
    }
    let ghost so_far = out@;
    out.push(value as u8);
    assert(so_far + varint_bytes(value as nat) =~= out@);
}

/// Appends the tag of a field. A wire type takes three bits; further ones run into the number.
pub fn write_tag(out: &mut Vec<u8>, number: u32, wire_type: u8)
    ensures
        final(out)@ == old(out)@ + varint_bytes(((number as u64) << 3 | wire_type as u64) as nat),
        wire_type < 8 ==> final(out)@ == old(out)@ + tag_bytes(number, wire_type),
{
    assert(wire_type < 8 ==> ((number as u64) << 3 | wire_type as u64) == number * 8 + wire_type)
        by (bit_vector);
    write_varint(out, ((number as u64) << 3) | wire_type as u64);
}

/// `group` is the number of the enclosing group, if any: its end tag ends this level.
fn decode_fields(buf: &[u8], pos: &mut usize, group: Option<u32>) -> (r: Result<
    Vec<Field>,
    ProtoError,
>)
    requires
        *old(pos) <= buf.len(),
    ensures
        *final(pos) <= buf.len(),
        match fields_at(buf@, *old(pos) as int, group) {
            Ok((fields, next)) => r is Ok && fields_model(r->Ok_0@) == fields && *final(pos)
                == next,
            Err(e) => r == Err::<Vec<Field>, ProtoError>(e),
        },
    decreases buf.len() - *old(pos),
{
    let mut fields: Vec<Field> = Vec::new();
    let ghost start = *pos as int;
    assert(fields_model(fields@) =~= Seq::empty());
    assert(fields_at(buf@, start, group) == after_fields(
        fields_model(fields@),
        fields_at(buf@, start, group),
    )) by {
        if let Ok((tail, end)) = fields_at(buf@, start, group) {
            assert(fields_model(fields@) + tail =~= tail);
        }
    }
    while *pos < buf.len()
        invariant
            start == *old(pos),
            start <= *pos <= buf.len(),
            fields_at(buf@, start, group) == after_fields(
                fields_model(fields@),
                fields_at(buf@, *pos as int, group),
            ),
        decreases buf.len() - *pos,
    {
        let ghost at = *pos as int;
        proof {
            lemma_varint_bounds(buf@, at, 0);
        }
        let tag: u64 = match read_varint(buf, pos) {
            Ok(tag) => tag,
            Err(e) => {
                return Err(e);
            },
        };
        let whole: u64 = tag / 8;
        let number: u32 = (whole % 0x1_0000_0000) as u32;
        let wire_type: u8 = (tag % 8) as u8;
        assert(number == tag_number(tag as nat) && wire_type == tag_wire_type(tag as nat));
        if whole == 0 || whole > MAX_FIELD_NUMBER as u64 {
            return Err(ProtoError::InvalidFieldNumber(number));
        }
        if wire_type == WT_END_GROUP {
            match group {
                Some(open) => {
                    if open == number {
                        proof {
                            assert(fields_model(fields@) + Seq::<FieldView>::empty()
                                =~= fields_model(fields@));
                        }
                        return Ok(fields);
                    }
                },
                None => {},
            }
            return Err(ProtoError::UnexpectedEndGroup(number));
        }
        let ghost after_tag = *pos as int;
        proof {
            lemma_value_bounds(buf@, after_tag, number, wire_type);
            lemma_varint_bounds(buf@, after_tag, 0);
        }
        let value: Value = if wire_type == WT_VARINT {
            match read_varint(buf, pos) {
                Ok(v) => Value::Varint(v),
                Err(e) => {
                    return Err(e);
                },
            }
        } else if wire_type == WT_FIXED64 {
            if buf.len() - *pos < 8 {
                return Err(ProtoError::Truncated);
            }
            let v: u64 = endian::read_le64(buf, *pos);
            *pos = *pos + 8;
            Value::Fixed64(v)
        } else if wire_type == WT_LEN {
            let declared: u64 = match read_varint(buf, pos) {
                Ok(declared) => declared,
                Err(e) => {
                    return Err(e);
                },
            };
            let remaining: usize = buf.len() - *pos;
            if declared > remaining as u64 {
                return Err(ProtoError::LengthOverflow { declared, remaining });
            }
            let end: usize = *pos + declared as usize;
            let bytes: Vec<u8> = vstd::slice::slice_to_vec(
                vstd::slice::slice_subrange(buf, *pos, end),
            );
            *pos = end;
            Value::LengthDelimited(bytes)
        } else if wire_type == WT_START_GROUP {
            match decode_fields(buf, pos, Some(number)) {
                Ok(inner) => Value::Group(inner),
                Err(e) => {
                    return Err(e);
                },
            }
        } else if wire_type == WT_FIXED32 {
            if buf.len() - *pos < 4 {
                return Err(ProtoError::Truncated);
            }
            let v: u32 = endian::read_le32(buf, *pos);
            *pos = *pos + 4;
            Value::Fixed32(v)
        } else {
            return Err(ProtoError::InvalidWireType(wire_type));
        };
        assert(value_at(buf@, after_tag, number, wire_type) == Ok::<(ValueView, int), ProtoError>(
            (value.model(), *pos as int),
        ));
        let ghost before = fields@;
        let field = Field { number, value };
        fields.push(field);
        proof {
            assert(fields_model(fields@) =~= fields_model(before) + seq![field.model()]);
            if let Ok((tail, end)) = fields_at(buf@, *pos as int, group) {
                assert(fields_model(before) + (seq![field.model()] + tail) =~= fields_model(fields@)
                    + tail);
            }
        }
    }
    proof {
        assert(fields_model(fields@) + Seq::<FieldView>::empty() =~= fields_model(fields@));
    }
    match group {
        // Reaching the end of the buffer inside a group means it never closed.
        Some(_) => Err(ProtoError::Truncated),
        None => Ok(fields),
    }
}

/// Appends the encoding of `fields`.
fn encode_fields(fields: &Vec<Field>, out: &mut Vec<u8>)
    ensures
        final(out)@ == old(out)@ + encoded(fields_model(fields@)),
    decreases fields@,
{
    let ghost before = out@;
    let ghost model = fields_model(fields@);
    let mut i: usize = 0;
    assert(model.take(0) =~= Seq::empty());
    assert(out@ =~= before + encoded(model.take(0)));
    while i < fields.len()
        invariant
            i <= fields.len(),
            model == fields_model(fields@),
            model.len() == fields@.len(),
            out@ == before + encoded(model.take(i as int)),
        decreases fields.len() - i,
    {
        let field = &fields[i];
        let ghost so_far = out@;
        let number: u32 = field.number;
        match &field.value {
            Value::Varint(v) => {
                write_tag(out, number, WT_VARINT);
                write_varint(out, *v);
            },
            Value::Fixed64(v) => {
                write_tag(out, number, WT_FIXED64);
                endian::push_le64(out, *v);
            },
            Value::LengthDelimited(bytes) => {
                write_tag(out, number, WT_LEN);
                write_varint(out, bytes.len() as u64);
                out.extend_from_slice(bytes.as_slice());
            },
            Value::Group(inner) => {
                write_tag(out, number, WT_START_GROUP);
                encode_fields(inner, out);
                write_tag(out, number, WT_END_GROUP);
            },
            Value::Fixed32(v) => {
                write_tag(out, number, WT_FIXED32);
                endian::push_le32(out, *v);
            },
        }
        proof {
            assert(model[i as int] == field.model());
            assert(out@ =~= so_far + field_bytes(number, field.value.model()));
            assert(model.take(i + 1) =~= model.take(i as int).push(model[i as int]));
            lemma_encoded_push(model.take(i as int), model[i as int]);
            assert(out@ =~= before + encoded(model.take(i + 1)));
        }
        i = i + 1;
    }
    assert(model.take(i as int) =~= model);
}

/// A copy of `fields`.
fn copy_fields(fields: &Vec<Field>) -> (r: Vec<Field>)
    ensures
        fields_model(r@) == fields_model(fields@),
    decreases fields@,
{
    let mut out: Vec<Field> = Vec::new();
    let mut i: usize = 0;
    while i < fields.len()
        invariant
            i <= fields.len(),
            fields_model(out@) == fields_model(fields@).take(i as int),
        decreases fields.len() - i,
    {
        let field = &fields[i];
        let value: Value = match &field.value {
            Value::Varint(v) => Value::Varint(*v),
            Value::Fixed64(v) => Value::Fixed64(*v),
            Value::LengthDelimited(bytes) => Value::LengthDelimited(
                vstd::slice::slice_to_vec(bytes.as_slice()),
            ),
            Value::Fixed32(v) => Value::Fixed32(*v),
            Value::Group(inner) => Value::Group(copy_fields(inner)),
        };
        assert(value.model() == field.value.model());
        let ghost before = out@;
        out.push(Field { number: field.number, value });
        assert(fields_model(out@) =~= fields_model(fields@).take(i + 1)) by {
            assert(fields_model(out@) =~= fields_model(before).push(field.model()));
        }
        i = i + 1;
    }
    assert(fields_model(fields@).take(i as int) =~= fields_model(fields@));
    out
}

impl Clone for Value {
    fn clone(&self) -> (r: Value)
        ensures
            r.model() == self.model(),
    {
        match self {
            Value::Varint(v) => Value::Varint(*v),
            Value::Fixed64(v) => Value::Fixed64(*v),
            Value::LengthDelimited(bytes) => Value::LengthDelimited(
                vstd::slice::slice_to_vec(bytes.as_slice()),
            ),
            Value::Fixed32(v) => Value::Fixed32(*v),
            Value::Group(inner) => Value::Group(copy_fields(inner)),
        }
    }
}

impl Clone for Field {
    fn clone(&self) -> (r: Field)
        ensures
            r.model() == self.model(),
    {
        Field { number: self.number, value: self.value.clone() }
    }
}

impl Clone for Message {
    fn clone(&self) -> (r: Message)
        ensures
            r@ == self@,
    {
        Message { fields: copy_fields(&self.fields) }
    }
}

impl Default for Message {
    fn default() -> (r: Message)
        ensures
            r@ == Seq::<FieldView>::empty(),
    {
        let r = Message { fields: Vec::new() };
        assert(r@ =~= Seq::empty());
        r
    }
}

impl ProtoError {
    /// What went wrong, in words.
    pub open spec fn text(self) -> Seq<char> {
        match self {
            ProtoError::Truncated => "protobuf: truncated input"@,
            ProtoError::MalformedVarint => "protobuf: malformed varint"@,
            ProtoError::InvalidFieldNumber(n) => "protobuf: invalid field number "@ + text::decimal(
                n as nat,
            ),
            ProtoError::InvalidWireType(w) => "protobuf: invalid wire type "@ + text::decimal(
                w as nat,
            ),
            ProtoError::UnexpectedEndGroup(n) => "protobuf: unexpected end-group for field "@
                + text::decimal(n as nat),
            ProtoError::LengthOverflow { declared, remaining } => "protobuf: nested length "@
                + text::decimal(declared as nat) + " exceeds "@ + text::decimal(remaining as nat)
                + " remaining bytes"@,
        }
    }

    pub fn to_string(&self) -> (r: String)
        ensures
            r@ == self.text(),
    {
        match *self {
            ProtoError::Truncated => "protobuf: truncated input".to_owned(),
            ProtoError::MalformedVarint => "protobuf: malformed varint".to_owned(),
            ProtoError::InvalidFieldNumber(n) => text::with_number(
                "protobuf: invalid field number ",
                n as u64,
            ),
            ProtoError::InvalidWireType(w) => text::with_number(
                "protobuf: invalid wire type ",
                w as u64,
            ),
            ProtoError::UnexpectedEndGroup(n) => text::with_number(
                "protobuf: unexpected end-group for field ",
                n as u64,
            ),
            ProtoError::LengthOverflow { declared, remaining } => {
                let mut out: String = text::with_number("protobuf: nested length ", declared);
                out.push_str(" exceeds ");
                text::push_decimal(&mut out, remaining as u64);
                out.push_str(" remaining bytes");
                out
            },
        }
    }
}

/// The varint in a value, if it is one.
pub open spec fn varint_of(value: ValueView) -> Option<u64> {
    match value {
        ValueView::Varint(v) => Some(v),
        _ => None,
    }
}

/// The bytes in a value, if it is length-delimited.
pub open spec fn bytes_of(value: ValueView) -> Option<Seq<u8>> {
    match value {
        ValueView::LengthDelimited(b) => Some(b),
        _ => None,
    }
}

/// The message in a value, if it is length-delimited and its bytes decode.
pub open spec fn message_of(value: ValueView) -> Option<Seq<FieldView>> {
    match value {
        ValueView::LengthDelimited(b) => match decoded(b) {
            Ok(fields) => Some(fields),
            Err(_) => None,
        },
        _ => None,
    }
}

pub open spec fn wire_type_of(value: ValueView) -> u8 {
    match value {
        ValueView::Varint(_) => WT_VARINT,
        ValueView::Fixed64(_) => WT_FIXED64,
        ValueView::LengthDelimited(_) => WT_LEN,
        ValueView::Fixed32(_) => WT_FIXED32,
        ValueView::Group(_) => WT_START_GROUP,
    }
}

/// The value of the first field with this number.
pub open spec fn first_value(fields: Seq<FieldView>, number: u32) -> Option<ValueView>
    decreases fields.len(),
{
    if fields.len() == 0 {
        None
    } else if fields[0].number == number {
        Some(fields[0].value)
    } else {
        first_value(fields.skip(1), number)
    }
}

/// `i` is the position of the first field with this number.
pub open spec fn is_first(fields: Seq<FieldView>, number: u32, i: int) -> bool {
    &&& 0 <= i < fields.len()
    &&& fields[i].number == number
    &&& forall|k: int| 0 <= k < i ==> (#[trigger] fields[k]).number != number
}

proof fn lemma_first_value(fields: Seq<FieldView>, number: u32, i: int)
    requires
        0 <= i <= fields.len(),
        forall|k: int| 0 <= k < i ==> (#[trigger] fields[k]).number != number,
    ensures
        i < fields.len() && fields[i].number == number ==> first_value(fields, number) == Some(
            fields[i].value,
        ),
        i == fields.len() ==> first_value(fields, number) is None,
    decreases i,
{
    if i > 0 {
        let tail = fields.skip(1);
        assert forall|k: int| 0 <= k < i - 1 implies (#[trigger] tail[k]).number != number by {
            assert(tail[k] == fields[k + 1]);
        }
        lemma_first_value(tail, number, i - 1);
        assert(fields[0].number != number);
    }
}

impl Value {
    pub fn wire_type(&self) -> (r: u8)
        ensures
            r == wire_type_of(self.model()),
    {
        match self {
            Value::Varint(_) => WT_VARINT,
            Value::Fixed64(_) => WT_FIXED64,
            Value::LengthDelimited(_) => WT_LEN,
            Value::Group(_) => WT_START_GROUP,
            Value::Fixed32(_) => WT_FIXED32,
        }
    }

    pub fn as_varint(&self) -> (r: Option<u64>)
        ensures
            r == varint_of(self.model()),
    {
        match self {
            Value::Varint(v) => Some(*v),
            _ => None,
        }
    }

    pub fn as_bytes(&self) -> (r: Option<&[u8]>)
        ensures
            match bytes_of(self.model()) {
                Some(b) => r is Some && r->Some_0@ == b,
                None => r is None,
            },
    {
        match self {
            Value::LengthDelimited(b) => Some(b.as_slice()),
            _ => None,
        }
    }

    /// Decodes a length-delimited value as a nested message.
    pub fn as_message(&self) -> (r: Option<Message>)
        ensures
            match message_of(self.model()) {
                Some(fields) => r is Some && r->Some_0@ == fields,
                None => r is None,
            },
    {
        match self {
            Value::LengthDelimited(b) => match Message::decode(b.as_slice()) {
                Ok(message) => Some(message),
                Err(_) => None,
            },
            _ => None,
        }
    }
}

impl Field {
    pub fn new(number: u32, value: Value) -> (r: Field)
        ensures
            r.number == number,
            r.value == value,
    {
        Field { number, value }
    }
}

impl Message {
    /// Decodes a buffer.
    pub fn decode(buf: &[u8]) -> (r: Result<Message, ProtoError>)
        ensures
            match decoded(buf@) {
                Ok(fields) => r is Ok && r->Ok_0@ == fields,
                Err(e) => r == Err::<Message, ProtoError>(e),
            },
    {
        let mut pos: usize = 0;
        match decode_fields(buf, &mut pos, None) {
            Ok(fields) => Ok(Message { fields }),
            Err(e) => Err(e),
        }
    }

    /// Encodes the message.
    pub fn encode(&self) -> (r: Vec<u8>)
        ensures
            r@ == encoded(self@),
    {
        let mut out: Vec<u8> = Vec::new();
        encode_fields(&self.fields, &mut out);
        assert(out@ =~= encoded(self@));
        out
    }

    pub fn is_empty(&self) -> (r: bool)
        ensures
            r == (self@.len() == 0),
    {
        self.fields.len() == 0
    }

    /// Every field with this number, in the order they stand in.
    pub fn get(&self, number: u32) -> (r: Vec<&Field>)
        ensures
            r@.map_values(|f: &Field| f.model()) == self@.filter(|f: FieldView| f.number == number),
    {
        let mut out: Vec<&Field> = Vec::new();
        let ghost wanted = |f: FieldView| f.number == number;
        let ghost model = |f: &Field| f.model();
        let mut i: usize = 0;
        assert(self@.take(0) =~= Seq::empty());
        assert(self@.take(0).filter(wanted) =~= Seq::empty()) by {
            reveal(Seq::filter);
        }
        while i < self.fields.len()
            invariant
                i <= self.fields.len(),
                wanted == (|f: FieldView| f.number == number),
                model == (|f: &Field| f.model()),
                out@.map_values(model) == self@.take(i as int).filter(wanted),
            decreases self.fields.len() - i,
        {
            let field = &self.fields[i];
            let ghost before = out@;
            assert(self@.take(i + 1) =~= self@.take(i as int).push(self@[i as int]));
            assert(self@.take(i + 1).drop_last() =~= self@.take(i as int));
            assert(self@[i as int] == field.model());
            assert(self@.take(i + 1).filter(wanted) == if wanted(field.model()) {
                self@.take(i as int).filter(wanted).push(field.model())
            } else {
                self@.take(i as int).filter(wanted)
            }) by {
                reveal(Seq::filter);
            }
            if field.number == number {
                out.push(field);
                assert(out@.map_values(model) =~= before.map_values(model).push(field.model()));
            }
            i = i + 1;
        }
        assert(self@.take(i as int) =~= self@);
        out
    }

    /// The position of the first field with this number, or the number of fields.
    fn first_index(&self, number: u32) -> (r: usize)
        ensures
            r <= self.fields@.len(),
            r < self.fields@.len() ==> is_first(self@, number, r as int) && first_value(self@, number)
                == Some(self@[r as int].value),
            r == self.fields@.len() ==> first_value(self@, number) is None && forall|k: int|
                0 <= k < self@.len() ==> (#[trigger] self@[k]).number != number,
    {
        let mut i: usize = 0;
        while i < self.fields.len() && self.fields[i].number != number
            invariant
                i <= self.fields.len(),
                forall|k: int| 0 <= k < i ==> (#[trigger] self@[k]).number != number,
            decreases self.fields.len() - i,
        {
            assert(self@[i as int] == self.fields@[i as int].model());
            i = i + 1;
        }
        proof {
            if i < self.fields@.len() {
                assert(self@[i as int] == self.fields@[i as int].model());
            }
            lemma_first_value(self@, number, i as int);
        }
        i
    }

    /// The first field with this number.
    pub fn first(&self, number: u32) -> (r: Option<&Field>)
        ensures
            match first_value(self@, number) {
                Some(value) => r is Some && r->Some_0.model() == (FieldView { number, value }),
                None => r is None,
            },
    {
        let i: usize = self.first_index(number);
        if i < self.fields.len() {
            assert(self@[i as int] == self.fields@[i as int].model());
            Some(&self.fields[i])
        } else {
            None
        }
    }

    /// The first field with this number, to be changed.
    pub fn first_mut(&mut self, number: u32) -> (r: Option<&mut Field>)
        ensures
            match r {
                Some(field) => exists|i: int|
                    {
                        &&& #[trigger] is_first(old(self)@, number, i)
                        &&& *field == old(self).fields@[i]
                        &&& final(self).fields@ == old(self).fields@.update(i, *final(field))
                    },
                None => first_value(old(self)@, number) is None && *final(self) == *old(self),
            },
    {
        let i: usize = self.first_index(number);
        if i < self.fields.len() {
            Some(&mut self.fields[i])
        } else {
            None
        }
    }

    pub fn varint(&self, number: u32) -> (r: Option<u64>)
        ensures
            r == match first_value(self@, number) {
                Some(value) => varint_of(value),
                None => None,
            },
    {
        match self.first(number) {
            Some(field) => field.value.as_varint(),
            None => None,
        }
    }

    pub fn bytes(&self, number: u32) -> (r: Option<&[u8]>)
        ensures
            match first_value(self@, number) {
                Some(value) => match bytes_of(value) {
                    Some(b) => r is Some && r->Some_0@ == b,
                    None => r is None,
                },
                None => r is None,
            },
    {
        match self.first(number) {
            Some(field) => field.value.as_bytes(),
            None => None,
        }
    }

    pub fn nested(&self, number: u32) -> (r: Option<Message>)
        ensures
            match first_value(self@, number) {
                Some(value) => match message_of(value) {
                    Some(fields) => r is Some && r->Some_0@ == fields,
                    None => r is None,
                },
                None => r is None,
            },
    {
        match self.first(number) {
            Some(field) => field.value.as_message(),
            None => None,
        }
    }
}

/// The varints from `pos` on, cut to 32 bits each, up to the first that does not
/// decode.
pub open spec fn packed_uints(data: Seq<u8>, pos: int) -> Seq<u32>
    decreases data.len() - pos,
{
    if pos >= data.len() {
        Seq::empty()
    } else {
        proof {
            lemma_varint_bounds(data, pos, 0);
        }
        match varint_at(data, pos) {
            Ok((v, next)) => seq![(v % 0x1_0000_0000) as u32] + packed_uints(data, next),
            Err(_) => Seq::empty(),
        }
    }
}

/// The integers a field carries: one for a varint, a packed list for a length-delimited
/// field, none otherwise.
pub open spec fn uints_of(value: ValueView) -> Seq<u32> {
    match value {
        ValueView::Varint(v) => seq![(v % 0x1_0000_0000) as u32],
        ValueView::LengthDelimited(data) => packed_uints(data, 0),
        _ => Seq::empty(),
    }
}

/// Reads the integers a field carries, keeping whatever was decoded before a packed
/// list turns out to be malformed.
pub fn collect_packed_uints(field: &Field) -> (r: Vec<u32>)
    ensures
        r@ == uints_of(field.value.model()),
{
    let mut out: Vec<u32> = Vec::new();
    match &field.value {
        Value::Varint(v) => {
            out.push((*v % 0x1_0000_0000) as u32);
        },
        Value::LengthDelimited(data) => {
            let mut pos: usize = 0;
            assert(packed_uints(data@, 0) =~= out@ + packed_uints(data@, 0));
            while pos < data.len()
                invariant_except_break
                    pos <= data.len(),
                    packed_uints(data@, 0) == out@ + packed_uints(data@, pos as int),
                ensures
                    packed_uints(data@, 0) == out@,
                decreases data.len() - pos,
            {
                let ghost at = pos as int;
                let ghost before = out@;
                proof {
                    lemma_varint_bounds(data@, at, 0);
                }
                match read_varint(data.as_slice(), &mut pos) {
                    Ok(v) => {
                        out.push((v % 0x1_0000_0000) as u32);
                        assert(before + packed_uints(data@, at) =~= out@ + packed_uints(
                            data@,
                            pos as int,
                        ));
                    },
                    Err(_) => {
                        assert(before + Seq::<u32>::empty() =~= before);
                        break;
                    },
                }
                assert(pos == data@.len() ==> out@ + packed_uints(data@, pos as int) =~= out@);
            }
        },
        _ => {},
    }
    assert(out@ =~= uints_of(field.value.model()));
    out
}

/// The decoder comes to what follows some fields with the fields in hand.
#[verifier::spinoff_prover]
proof fn lemma_fields_in_front(buf: Seq<u8>, pos: int, fields: Seq<FieldView>)
    requires
        0 <= pos,
        valid_fields(fields),
        pos + encoded(fields).len() <= buf.len(),
        buf.subrange(pos, pos + encoded(fields).len()) == encoded(fields),
    ensures
        fields_at(buf, pos, None) == after_fields(
            fields,
            fields_at(buf, pos + encoded(fields).len(), None),
        ),
    decreases fields.len(),
{
    if fields.len() == 0 {
        assert(encoded(fields).len() == 0);
        if let Ok((tail, end)) = fields_at(buf, pos, None) {
            assert(fields + tail =~= tail);
        }
    } else {
        let head = field_bytes(fields[0].number, fields[0].value);
        let tail = fields.subrange(1, fields.len() as int);
        assert forall|i: int| 0 <= i < tail.len() implies valid_number(#[trigger] tail[i].number)
            && valid_value(tail[i].value) by {
            assert(valid_number(fields[i + 1].number));
        }
        assert(valid_number(fields[0].number));
        lemma_subrange_split(buf, pos, head, encoded(tail));
        lemma_value_round_trip(buf, pos, fields[0].number, fields[0].value);
        lemma_varint_bounds(buf, pos, 0);
        let next = pos + head.len();
        let after_tag = varint_at(buf, pos)->Ok_0.1;
        let wire_type = tag_wire_type(varint_at(buf, pos)->Ok_0.0);
        lemma_value_bounds(buf, after_tag, fields[0].number, wire_type);
        lemma_fields_step(buf, pos, None, fields[0], next);
        assert(encoded(fields).len() == head.len() + encoded(tail).len());
        lemma_fields_in_front(buf, next, tail);
        if let Ok((rest, end)) = fields_at(buf, next + encoded(tail).len(), None) {
            assert(seq![fields[0]] + (tail + rest) =~= fields + rest);
        }
    }
}

/// A value that cannot be read decides.
proof fn lemma_bad_value(buf: Seq<u8>, pos: int, number: u32, wire_type: u8, error: ProtoError)
    requires
        0 <= pos < buf.len(),
        wire_type != WT_END_GROUP,
        varint_at(buf, pos) matches Ok((tag, after_tag)) && {
            &&& valid_tag(tag)
            &&& tag_number(tag) == number
            &&& tag_wire_type(tag) == wire_type
            &&& value_at(buf, after_tag, number, wire_type) == Err::<(ValueView, int), ProtoError>(
                error,
            )
        },
    ensures
        fields_at(buf, pos, None) == Err::<(Seq<FieldView>, int), ProtoError>(error),
{
}

/// What is wrong behind some fields is not passed over, and the error says what it is: a wire
/// type that there is not, the end of a group that did not start, or a value that is cut short.
pub proof fn law_what_is_wrong_is_told(
    fields: Seq<FieldView>,
    number: u32,
    wire_type: u8,
    rest: Seq<u8>,
)
    requires
        valid_fields(fields),
        valid_number(number),
        wire_type < 8,
    ensures
        ({
            let r = decoded(encoded(fields) + varint_bytes((number * 8 + wire_type) as nat) + rest);
            &&& wire_type == 6 || wire_type == 7 ==> r == Err::<Seq<FieldView>, ProtoError>(
                ProtoError::InvalidWireType(wire_type),
            )
            &&& wire_type == 4 ==> r == Err::<Seq<FieldView>, ProtoError>(
                ProtoError::UnexpectedEndGroup(number),
            )
            &&& wire_type == 1 && rest.len() < 8 ==> r == Err::<Seq<FieldView>, ProtoError>(
                ProtoError::Truncated,
            )
            &&& wire_type == 5 && rest.len() < 4 ==> r == Err::<Seq<FieldView>, ProtoError>(
                ProtoError::Truncated,
            )
            &&& (wire_type == 0 || wire_type == 2 || wire_type == 3) && rest.len() == 0 ==> r
                == Err::<Seq<FieldView>, ProtoError>(ProtoError::Truncated)
        }),
{
    let front = encoded(fields);
    let tag = tag_bytes(number, wire_type);
    let buf = front + tag + rest;
    let at = front.len() as int;
    assert(buf.subrange(0, 0int + front.len()) =~= front);
    assert(buf.subrange(at, at + tag.len()) =~= tag);
    lemma_fields_in_front(buf, 0, fields);
    lemma_tag_round_trip(buf, at, number, wire_type);
    assert(tag.len() > 0);
    let value = value_at(buf, at + tag.len(), number, wire_type);
    if wire_type == 4 {
        assert(fields_at(buf, at, None) == Err::<(Seq<FieldView>, int), ProtoError>(
            ProtoError::UnexpectedEndGroup(number),
        ));
    } else if wire_type == 3 && rest.len() == 0 {
        assert(fields_at(buf, at + tag.len(), Some(number)) == Err::<
            (Seq<FieldView>, int),
            ProtoError,
        >(ProtoError::Truncated));
        lemma_bad_value(buf, at, number, wire_type, ProtoError::Truncated);
    } else if let Err(error) = value {
        lemma_bad_value(buf, at, number, wire_type, error);
    }
}

/// A length that goes beyond the end is an overflow, told with what was declared and what is
/// there, and so no part of the value is taken for it.
pub proof fn law_a_length_beyond_the_end_is_told(
    fields: Seq<FieldView>,
    number: u32,
    declared: u64,
    rest: Seq<u8>,
)
    requires
        valid_fields(fields),
        valid_number(number),
        declared > rest.len(),
    ensures
        decoded(
            encoded(fields) + varint_bytes((number * 8 + 2) as nat) + varint_bytes(declared as nat)
                + rest,
        ) == Err::<Seq<FieldView>, ProtoError>(
            ProtoError::LengthOverflow { declared, remaining: rest.len() as usize },
        ),
{
    let front = encoded(fields);
    let tag = tag_bytes(number, 2);
    let size = varint_bytes(declared as nat);
    let buf = front + tag + size + rest;
    let at = front.len() as int;
    let then = at + tag.len();
    assert(buf.subrange(0, 0int + front.len()) =~= front);
    assert(buf.subrange(at, at + tag.len()) =~= tag);
    assert(buf.subrange(then, then + size.len()) =~= size);
    lemma_fields_in_front(buf, 0, fields);
    lemma_tag_round_trip(buf, at, number, 2);
    assert(tag.len() > 0);
    lemma_varint_round_trip(buf, then, 0, declared as nat);
    lemma_bad_value(
        buf,
        at,
        number,
        2,
        ProtoError::LengthOverflow { declared, remaining: rest.len() as usize },
    );
}

/// A field is written as its tag, eight times its number and its wire type, and its value: a
/// varint, eight or four bytes, the lowest first, or a length and as many bytes.
pub proof fn law_the_form_of_a_field(number: u32, v: u64, w: u32, b: Seq<u8>)
    ensures
        field_bytes(number, ValueView::Varint(v)) == varint_bytes((8 * number) as nat)
            + varint_bytes(v as nat),
        field_bytes(number, ValueView::Fixed64(v)) == varint_bytes((8 * number + 1) as nat)
            + endian::le64_bytes(v),
        field_bytes(number, ValueView::LengthDelimited(b)) == varint_bytes((8 * number + 2) as nat)
            + varint_bytes(b.len()) + b,
        field_bytes(number, ValueView::Fixed32(w)) == varint_bytes((8 * number + 5) as nat)
            + endian::le32_bytes(w),
{
}

/// A varint holds seven bits in each byte, the lowest first, and every byte but the last has its
/// highest bit set.
pub proof fn law_varints_hold_seven_bits_a_byte(v: nat, i: int)
    requires
        0 <= i < varint_bytes(v).len(),
    ensures
        v < 128 ==> varint_bytes(v) == seq![v as u8],
        v >= 128 ==> varint_bytes(v)[0] == 128 + v % 128 && varint_bytes(v).skip(1) == varint_bytes(
            v / 128,
        ),
        varint_bytes(v)[i] < 128 <==> i == varint_bytes(v).len() - 1,
    decreases v,
{
    if v >= 128 {
        let tail = varint_bytes(v / 128);
        assert(varint_bytes(v).skip(1) =~= tail);
        if i > 0 {
            law_varints_hold_seven_bits_a_byte(v / 128, i - 1);
            assert(varint_bytes(v)[i] == tail[i - 1]);
        } else {
            assert(tail.len() > 0);
        }
    }
}

/// Integers one behind the other, each as a varint.
pub open spec fn packed_bytes(list: Seq<u32>) -> Seq<u8>
    decreases list.len(),
{
    if list.len() == 0 {
        Seq::empty()
    } else {
        varint_bytes(list[0] as nat) + packed_bytes(list.skip(1))
    }
}

proof fn lemma_packed_from(buf: Seq<u8>, pos: int, list: Seq<u32>)
    requires
        0 <= pos <= buf.len(),
        buf.skip(pos) == packed_bytes(list),
    ensures
        packed_uints(buf, pos) == list,
    decreases list.len(),
{
    if list.len() == 0 {
        assert(buf.skip(pos).len() == 0);
        assert(list =~= Seq::empty());
    } else {
        let head = varint_bytes(list[0] as nat);
        let tail = packed_bytes(list.skip(1));
        assert(head.len() > 0);
        assert(buf.subrange(pos, pos + head.len()) =~= buf.skip(pos).take(head.len() as int));
        assert(buf.skip(pos).take(head.len() as int) =~= head);
        lemma_varint_round_trip(buf, pos, 0, list[0] as nat);
        let next = pos + head.len();
        assert(buf.skip(next) =~= buf.skip(pos).skip(head.len() as int));
        assert(buf.skip(pos).skip(head.len() as int) =~= tail);
        lemma_packed_from(buf, next, list.skip(1));
        assert(seq![list[0]] + list.skip(1) =~= list);
    }
}

/// A packed list of integers is read back whole, and a single integer as a list of one.
pub proof fn law_packed_integers_are_read_back(list: Seq<u32>, v: u32)
    ensures
        uints_of(ValueView::LengthDelimited(packed_bytes(list))) == list,
        uints_of(ValueView::Varint(v as u64)) == seq![v],
{
    let buf = packed_bytes(list);
    assert(buf.skip(0) =~= buf);
    lemma_packed_from(buf, 0, list);
}

/// The first field with a number gives its value, and a number that no field has gives none.
pub proof fn law_the_first_of_a_number_is_found(fields: Seq<FieldView>, number: u32, i: int)
    ensures
        is_first(fields, number, i) ==> first_value(fields, number) == Some(fields[i].value),
        (forall|k: int| 0 <= k < fields.len() ==> (#[trigger] fields[k]).number != number)
            ==> first_value(fields, number) is None,
{
    if is_first(fields, number, i) {
        lemma_first_value(fields, number, i);
    }
    if forall|k: int| 0 <= k < fields.len() ==> (#[trigger] fields[k]).number != number {
        lemma_first_value(fields, number, fields.len() as int);
    }
}

} // verus!
