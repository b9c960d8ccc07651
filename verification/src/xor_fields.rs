//! Field values are hidden on the wire by XORing them with constants from the descriptor
//! index. Submessages are followed through the type their descriptor names, and written
//! back in place.
use crate::lookup;
use crate::proto;
use crate::proto::{Field, FieldView, Message, Value, ValueView};
use crate::protonap;
use crate::protonap::{ProtoEntry, ProtoEntryField, ProtoEntryFieldView, ProtoEntryView, Protonap};
use vstd::prelude::*;

verus! {

/// The descriptor of a field number: the first that has it.
pub open spec fn descriptor_for(entry: ProtoEntryView, number: u32) -> Option<ProtoEntryFieldView> {
    lookup::find_first(entry.fields, |d: ProtoEntryFieldView| d.number as int == number as int)
}

/// Neither a native type nor an enum: the field holds a submessage.
pub open spec fn is_submessage(descriptor: ProtoEntryFieldView) -> bool {
    !descriptor.is_native_type && !descriptor.is_enum
}

/// A scalar XORed with a constant. Length-delimited values and groups keep what they hold.
pub open spec fn xor_scalar(value: ValueView, x: u32) -> ValueView {
    match value {
        ValueView::Varint(v) => ValueView::Varint(v ^ (x as u64)),
        ValueView::Fixed32(v) => ValueView::Fixed32(v ^ x),
        ValueView::Fixed64(v) => ValueView::Fixed64(v ^ (x as u64)),
        _ => value,
    }
}

/// How much a value leaves to recurse into.
pub open spec fn payload_size(value: ValueView) -> nat {
    match value {
        ValueView::LengthDelimited(b) => b.len() + 1,
        _ => 0,
    }
}

/// The largest payload in a sequence of fields.
pub open spec fn largest_payload(fields: Seq<FieldView>) -> nat
    decreases fields.len(),
{
    if fields.len() == 0 {
        0
    } else {
        let rest = largest_payload(fields.drop_last());
        let last = payload_size(fields.last().value);
        if last > rest {
            last
        } else {
            rest
        }
    }
}

pub proof fn lemma_largest_payload(fields: Seq<FieldView>, bound: nat)
    ensures
        forall|i: int|
            0 <= i < fields.len() ==> payload_size(#[trigger] fields[i].value) <= largest_payload(fields),
        (forall|i: int| 0 <= i < fields.len() ==> payload_size(#[trigger] fields[i].value) <= bound)
            ==> largest_payload(fields) <= bound,
    decreases fields.len(),
{
    if fields.len() > 0 {
        let init = fields.drop_last();
        lemma_largest_payload(init, bound);
        assert forall|i: int| 0 <= i < fields.len() implies payload_size(#[trigger] fields[i].value)
            <= largest_payload(fields) by {
            if i < init.len() {
                assert(init[i].value == fields[i].value);
            }
        }
        if forall|i: int| 0 <= i < fields.len() ==> payload_size(#[trigger] fields[i].value) <= bound {
            assert forall|i: int| 0 <= i < init.len() implies payload_size(#[trigger] init[i].value)
                <= bound by {
                assert(init[i].value == fields[i].value);
            }
            assert(payload_size(fields[fields.len() - 1].value) <= bound);
        }
    }
}

pub proof fn lemma_nested_payload(bytes: Seq<u8>)
    ensures
        proto::decoded(bytes) matches Ok(fields) ==> largest_payload(fields) < bytes.len() + 1,
{
    proto::lemma_nested_payload_shorter(bytes);
    if let Ok(fields) = proto::decoded(bytes) {
        assert forall|i: int| 0 <= i < fields.len() implies payload_size(#[trigger] fields[i].value)
            <= bytes.len() by {}
        lemma_largest_payload(fields, bytes.len());
    }
}

/// A value as its descriptor has it.
pub open spec fn xor_value(
    value: ValueView,
    descriptor: ProtoEntryFieldView,
    nap: Seq<ProtoEntryView>,
) -> ValueView
    decreases payload_size(value), 0int,
{
    if is_submessage(descriptor) {
        match value {
            ValueView::LengthDelimited(bytes) => {
                proof {
                    lemma_nested_payload(bytes);
                }
                match proto::decoded(bytes) {
                    Ok(fields) => ValueView::LengthDelimited(
                        proto::encoded(
                            xored(fields, protonap::by_name(nap, descriptor.type_ref), nap),
                        ),
                    ),
                    Err(_) => value,
                }
            },
            _ => value,
        }
    } else {
        match descriptor.xor_value {
            Some(x) => xor_scalar(value, x),
            None => value,
        }
    }
}

/// A message as its entry has it. Without an entry it stays as it is; a field that the
/// entry does not describe too.
pub open spec fn xored(
    fields: Seq<FieldView>,
    entry: Option<ProtoEntryView>,
    nap: Seq<ProtoEntryView>,
) -> Seq<FieldView>
    decreases largest_payload(fields), 1int,
{
    proof {
        lemma_largest_payload(fields, 0);
    }
    match entry {
        None => fields,
        Some(entry) => Seq::new(
            fields.len(),
            |i: int|
                if 0 <= i < fields.len() {
                    match descriptor_for(entry, fields[i].number) {
                        Some(descriptor) => FieldView {
                            number: fields[i].number,
                            value: xor_value(fields[i].value, descriptor, nap),
                        },
                        None => fields[i],
                    }
                } else {
                    arbitrary()
                },
        ),
    }
}

/// The descriptor of a field number, if the entry has one.
fn find_descriptor(entry: &ProtoEntry, number: u32) -> (r: Option<&ProtoEntryField>)
    ensures
        match descriptor_for(entry@, number) {
            Some(d) => r is Some && r->Some_0@ == d,
            None => r is None,
        },
{
    let ghost p = |d: ProtoEntryFieldView| d.number as int == number as int;
    let mut i: usize = 0;
    while i < entry.fields.len()
        invariant
            i <= entry.fields@.len(),
            p == (|d: ProtoEntryFieldView| d.number as int == number as int),
            forall|k: int| 0 <= k < i ==> !p(#[trigger] entry@.fields[k]),
        decreases entry.fields.len() - i,
    {
        assert(entry@.fields[i as int] == entry.fields@[i as int]@);
        if entry.fields[i].number as i64 == number as i64 {
            proof {
                lookup::lemma_find_first(entry@.fields, p, i as int);
            }
            return Some(&entry.fields[i]);
        }
        i = i + 1;
    }
    proof {
        lookup::lemma_find_first(entry@.fields, p, i as int);
    }
    None
}

/// A value as its descriptor has it.
fn xor_one(value: &Value, descriptor: &ProtoEntryField, nap: &Protonap) -> (r: Value)
    ensures
        r.model() == xor_value(value.model(), descriptor@, nap@),
    decreases payload_size(value.model()), 0int,
{
    if !descriptor.is_native_type && !descriptor.is_enum {
        if let Value::LengthDelimited(bytes) = value {
            proof {
                lemma_nested_payload(bytes@);
            }
            if let Ok(nested) = Message::decode(bytes.as_slice()) {
                let mut nested: Message = nested;
                xor_proto_fields(&mut nested, nap.entry_by_name(descriptor.type_ref.as_str()), nap);
                return Value::LengthDelimited(nested.encode());
            }
        }
        return value.clone();
    }
    match descriptor.xor_value {
        // 0 is a value like any other: only a descriptor without one means nothing to do.
        Some(x) => match value {
            Value::Varint(v) => Value::Varint(*v ^ (x as u64)),
            Value::Fixed32(v) => Value::Fixed32(*v ^ x),
            Value::Fixed64(v) => Value::Fixed64(*v ^ (x as u64)),
            _ => value.clone(),
        },
        None => value.clone(),
    }
}

/// Rewrites every field of `message` that `entry` describes. An unknown command has no
/// entry, and its message is left alone.
pub fn xor_proto_fields(message: &mut Message, entry: Option<&ProtoEntry>, nap: &Protonap)
    ensures
        final(message)@ == xored(old(message)@, protonap::entry_view(entry), nap@),
    decreases largest_payload(old(message)@), 1int,
{
    let entry: &ProtoEntry = match entry {
        Some(entry) => entry,
        None => {
            return;
        },
    };
    let ghost before = message@;
    let ghost target = xored(before, Some(entry@), nap@);
    proof {
        lemma_largest_payload(before, 0);
    }
    let mut i: usize = 0;
    while i < message.fields.len()
        invariant
            i <= message.fields@.len(),
            message@.len() == message.fields@.len(),
            message@.len() == before.len(),
            before == old(message)@,
            target == xored(before, Some(entry@), nap@),
            target.len() == before.len(),
            forall|k: int|
                0 <= k < before.len() ==> payload_size(#[trigger] before[k].value)
                    <= largest_payload(before),
            forall|k: int| 0 <= k < i ==> #[trigger] message@[k] == target[k],
            forall|k: int| i <= k < before.len() ==> #[trigger] message@[k] == before[k],
        decreases message.fields.len() - i,
    {
        let ghost at = message.fields@;
        assert(message@[i as int] == at[i as int].model());
        assert(before[i as int].value == at[i as int].value.model());
        let number: u32 = message.fields[i].number;
        if let Some(descriptor) = find_descriptor(entry, number) {
            let value: Value = xor_one(&message.fields[i].value, descriptor, nap);
            message.fields.set(i, Field { number, value });
            assert(message@[i as int] == target[i as int]);
            assert(message@ =~= proto::fields_model(at).update(i as int, target[i as int]));
        } else {
            assert(message@[i as int] == target[i as int]);
        }
        i = i + 1;
    }
    assert(message@ =~= target);
}

/// A value whose submessages, those that their descriptors lead to, were encoded canonically
/// or do not decode.
pub open spec fn canonical(
    value: ValueView,
    descriptor: ProtoEntryFieldView,
    nap: Seq<ProtoEntryView>,
) -> bool
    decreases payload_size(value),
{
    if is_submessage(descriptor) {
        match value {
            ValueView::LengthDelimited(bytes) => {
                proof {
                    lemma_nested_payload(bytes);
                    if let Ok(fields) = proto::decoded(bytes) {
                        lemma_largest_payload(fields, 0);
                    }
                }
                match proto::decoded(bytes) {
                    Ok(fields) => {
                        &&& proto::encoded(fields) == bytes
                        &&& match protonap::by_name(nap, descriptor.type_ref) {
                            Some(entry) => forall|i: int|
                                0 <= i < fields.len() ==> match descriptor_for(
                                    entry,
                                    (#[trigger] fields[i]).number,
                                ) {
                                    Some(d) => canonical(fields[i].value, d, nap),
                                    None => true,
                                },
                            None => true,
                        }
                    },
                    Err(_) => true,
                }
            },
            _ => true,
        }
    } else {
        true
    }
}

/// A value whose length could still be written down if it were ten times as long: a varint of
/// one byte may need ten once it is XORed.
pub open spec fn has_headroom(value: ValueView) -> bool {
    10 * payload_size(value) <= u64::MAX
}

/// Values from here on take more than `n` bytes as a varint.
spec fn varint_limit(n: nat) -> nat
    decreases n,
{
    if n == 0 {
        1
    } else {
        0x80 * varint_limit((n - 1) as nat)
    }
}

proof fn lemma_varint_length(v: nat, n: nat)
    requires
        n > 0,
        v < varint_limit(n),
    ensures
        1 <= proto::varint_bytes(v).len() <= n,
    decreases n,
{
    if v >= 0x80 {
        if n == 1 {
            assert(varint_limit(0) == 1);
        } else {
            lemma_varint_length(v / 0x80, (n - 1) as nat);
        }
    }
}

proof fn lemma_varint_at_most_ten(v: nat)
    requires
        v <= u64::MAX,
    ensures
        1 <= proto::varint_bytes(v).len() <= 10,
{
    reveal_with_fuel(varint_limit, 11);
    lemma_varint_length(v, 10);
}

/// The encoding of a field grows tenfold at most where its value keeps its kind and its
/// payload grows tenfold at most.
proof fn lemma_field_growth(number: u32, value: ValueView, other: ValueView)
    requires
        has_headroom(value),
        value == other || match (value, other) {
            (ValueView::Varint(_), ValueView::Varint(_)) => true,
            (ValueView::Fixed32(_), ValueView::Fixed32(_)) => true,
            (ValueView::Fixed64(_), ValueView::Fixed64(_)) => true,
            (ValueView::LengthDelimited(a), ValueView::LengthDelimited(b)) => b.len() <= 10
                * a.len(),
            _ => false,
        },
    ensures
        proto::field_bytes(number, other).len() <= 10 * proto::field_bytes(number, value).len(),
{
    match (value, other) {
        (ValueView::Varint(v), ValueView::Varint(w)) => {
            lemma_varint_at_most_ten(v as nat);
            lemma_varint_at_most_ten(w as nat);
        },
        (ValueView::LengthDelimited(a), ValueView::LengthDelimited(b)) => {
            if value != other {
                lemma_varint_at_most_ten(a.len());
                lemma_varint_at_most_ten(b.len());
            }
        },
        _ => {},
    }
}

proof fn lemma_encoded_growth(fields: Seq<FieldView>, others: Seq<FieldView>)
    requires
        fields.len() == others.len(),
        forall|i: int|
            0 <= i < fields.len() ==> proto::field_bytes(
                (#[trigger] others[i]).number,
                others[i].value,
            ).len() <= 10 * proto::field_bytes(fields[i].number, fields[i].value).len(),
    ensures
        proto::encoded(others).len() <= 10 * proto::encoded(fields).len(),
    decreases fields.len(),
{
    if fields.len() > 0 {
        let n = fields.len() as int;
        let tail = fields.subrange(1, n);
        let rest = others.subrange(1, n);
        assert forall|i: int| 0 <= i < tail.len() implies proto::field_bytes(
            (#[trigger] rest[i]).number,
            rest[i].value,
        ).len() <= 10 * proto::field_bytes(tail[i].number, tail[i].value).len() by {
            assert(rest[i] == others[i + 1] && tail[i] == fields[i + 1]);
        }
        lemma_encoded_growth(tail, rest);
        assert(proto::field_bytes(others[0].number, others[0].value).len() <= 10
            * proto::field_bytes(fields[0].number, fields[0].value).len());
    }
}

/// What XORing makes of a value: it keeps its kind, a payload grows tenfold at most, and the
/// fields of a submessage can be carried by the wire format.
proof fn lemma_xor_growth(
    value: ValueView,
    descriptor: ProtoEntryFieldView,
    nap: Seq<ProtoEntryView>,
)
    requires
        canonical(value, descriptor, nap),
        has_headroom(value),
    ensures
        value matches ValueView::LengthDelimited(bytes) ==> {
            &&& xor_value(value, descriptor, nap) matches ValueView::LengthDelimited(other)
                && other.len() <= 10 * bytes.len()
            &&& is_submessage(descriptor) ==> (proto::decoded(bytes) matches Ok(fields)
                ==> proto::valid_fields(
                xored(fields, protonap::by_name(nap, descriptor.type_ref), nap),
            ))
        },
        value is Varint ==> xor_value(value, descriptor, nap) is Varint,
        value is Fixed32 ==> xor_value(value, descriptor, nap) is Fixed32,
        value is Fixed64 ==> xor_value(value, descriptor, nap) is Fixed64,
        value is Group ==> xor_value(value, descriptor, nap) == value,
    decreases payload_size(value),
{
    if is_submessage(descriptor) {
        if let ValueView::LengthDelimited(bytes) = value {
            lemma_nested_payload(bytes);
            proto::law_encoding_is_canonical(bytes);
            if let Ok(fields) = proto::decoded(bytes) {
                lemma_largest_payload(fields, 0);
                if let Some(entry) = protonap::by_name(nap, descriptor.type_ref) {
                    let once = xored(fields, Some(entry), nap);
                    assert forall|i: int| 0 <= i < fields.len() implies proto::valid_number(
                        #[trigger] once[i].number,
                    ) && proto::valid_value(once[i].value) && proto::field_bytes(
                        once[i].number,
                        once[i].value,
                    ).len() <= 10 * proto::field_bytes(fields[i].number, fields[i].value).len() by {
                        assert(proto::valid_number(fields[i].number));
                        assert(payload_size(fields[i].value) <= largest_payload(fields));
                        if let Some(d) = descriptor_for(entry, fields[i].number) {
                            assert(once[i].value == xor_value(fields[i].value, d, nap));
                            lemma_xor_growth(fields[i].value, d, nap);
                        }
                        lemma_field_growth(fields[i].number, fields[i].value, once[i].value);
                    }
                    lemma_encoded_growth(fields, once);
                }
            }
        }
    }
}

proof fn lemma_xor_scalar_twice(value: ValueView, x: u32)
    ensures
        xor_scalar(xor_scalar(value, x), x) == value,
{
    match value {
        ValueView::Varint(v) => {
            let y = x as u64;
            assert((v ^ y) ^ y == v) by (bit_vector);
        },
        ValueView::Fixed32(v) => {
            assert((v ^ x) ^ x == v) by (bit_vector);
        },
        ValueView::Fixed64(v) => {
            let y = x as u64;
            assert((v ^ y) ^ y == v) by (bit_vector);
        },
        _ => {},
    }
}

/// XORing a value twice gives it back where its submessages are [`canonical`].
pub proof fn law_xor_twice(
    value: ValueView,
    descriptor: ProtoEntryFieldView,
    nap: Seq<ProtoEntryView>,
)
    requires
        canonical(value, descriptor, nap),
        has_headroom(value),
    ensures
        xor_value(xor_value(value, descriptor, nap), descriptor, nap) == value,
    decreases payload_size(value),
{
    if is_submessage(descriptor) {
        if let ValueView::LengthDelimited(bytes) = value {
            lemma_nested_payload(bytes);
            lemma_xor_growth(value, descriptor, nap);
            if let Ok(fields) = proto::decoded(bytes) {
                lemma_largest_payload(fields, 0);
                if let Some(entry) = protonap::by_name(nap, descriptor.type_ref) {
                    let once = xored(fields, Some(entry), nap);
                    proto::law_decode_undoes_encode(once);
                    let twice = xored(once, Some(entry), nap);
                    assert forall|i: int| 0 <= i < fields.len() implies twice[i] == fields[i] by {
                        assert(once[i].number == fields[i].number);
                        assert(payload_size(fields[i].value) <= largest_payload(fields));
                        if let Some(d) = descriptor_for(entry, fields[i].number) {
                            law_xor_twice(fields[i].value, d, nap);
                        }
                    }
                    assert(twice =~= fields);
                }
            }
        }
    } else if let Some(x) = descriptor.xor_value {
        lemma_xor_scalar_twice(value, x);
    }
}

/// XORing a message twice gives it back where every payload that the entry, and the entries it
/// leads to, treat as a submessage was encoded canonically or does not decode.
pub proof fn law_xor_message_twice(
    fields: Seq<FieldView>,
    entry: Option<ProtoEntryView>,
    nap: Seq<ProtoEntryView>,
)
    requires
        forall|i: int|
            0 <= i < fields.len() ==> (entry matches Some(e) ==> (descriptor_for(
                e,
                (#[trigger] fields[i]).number,
            ) matches Some(d) ==> canonical(fields[i].value, d, nap))),
        forall|i: int| 0 <= i < fields.len() ==> has_headroom((#[trigger] fields[i]).value),
    ensures
        xored(xored(fields, entry, nap), entry, nap) == fields,
{
    if let Some(e) = entry {
        let once = xored(fields, entry, nap);
        let twice = xored(once, entry, nap);
        assert forall|i: int| 0 <= i < fields.len() implies twice[i] == fields[i] by {
            assert(once[i].number == fields[i].number);
            if let Some(d) = descriptor_for(e, fields[i].number) {
                law_xor_twice(fields[i].value, d, nap);
            }
        }
        assert(twice =~= fields);
    }
}

/// XORing keeps the shape of a message: each field stays in its place with its number and its
/// wire type. Without an entry nothing changes, nor does a field without a descriptor, a
/// length-delimited field of a native type or an enum, or a group.
pub proof fn law_xor_keeps_the_shape(
    fields: Seq<FieldView>,
    entry: Option<ProtoEntryView>,
    nap: Seq<ProtoEntryView>,
)
    ensures
        xored(fields, entry, nap).len() == fields.len(),
        forall|i: int|
            0 <= i < fields.len() ==> {
                &&& (#[trigger] xored(fields, entry, nap)[i]).number == fields[i].number
                &&& proto::wire_type_of(xored(fields, entry, nap)[i].value) == proto::wire_type_of(
                    fields[i].value,
                )
            },
        entry is None ==> xored(fields, entry, nap) == fields,
        forall|i: int|
            0 <= i < fields.len() && entry is Some && (match descriptor_for(
                entry->Some_0,
                fields[i].number,
            ) {
                Some(d) => !is_submessage(d) && fields[i].value is LengthDelimited
                    || fields[i].value is Group,
                None => true,
            }) ==> #[trigger] xored(fields, entry, nap)[i] == fields[i],
{
}

/// An integer that was hidden under its descriptor's constant is recovered, whatever its wire
/// type, and so is an enum. Where there is no constant, the integer stays as it is.
pub proof fn law_hidden_integers_are_recovered(
    number: u32,
    v: u64,
    w: u32,
    descriptor: ProtoEntryFieldView,
    nap: Seq<ProtoEntryView>,
)
    requires
        descriptor.is_native_type || descriptor.is_enum,
    ensures
        descriptor.xor_value matches Some(x) ==> {
            &&& xor_value(ValueView::Varint(v ^ (x as u64)), descriptor, nap) == ValueView::Varint(v)
            &&& xor_value(ValueView::Fixed64(v ^ (x as u64)), descriptor, nap)
                == ValueView::Fixed64(v)
            &&& xor_value(ValueView::Fixed32(w ^ x), descriptor, nap) == ValueView::Fixed32(w)
        },
        descriptor.xor_value is None ==> {
            &&& xor_value(ValueView::Varint(v), descriptor, nap) == ValueView::Varint(v)
            &&& xor_value(ValueView::Fixed64(v), descriptor, nap) == ValueView::Fixed64(v)
            &&& xor_value(ValueView::Fixed32(w), descriptor, nap) == ValueView::Fixed32(w)
        },
{
    if let Some(x) = descriptor.xor_value {
        let y = x as u64;
        assert((v ^ y) ^ y == v) by (bit_vector);
        assert((w ^ x) ^ x == w) by (bit_vector);
    }
}

/// In a message each field goes by the descriptor of its number, and a field without one stays
/// as it is.
pub proof fn law_fields_go_by_their_descriptors(
    fields: Seq<FieldView>,
    entry: ProtoEntryView,
    nap: Seq<ProtoEntryView>,
    i: int,
    k: int,
)
    requires
        0 <= i < fields.len(),
        0 <= k < entry.fields.len(),
        forall|j: int|
            0 <= j < entry.fields.len() && j != k ==> (#[trigger] entry.fields[j]).number as int
                != entry.fields[k].number as int,
    ensures
        entry.fields[k].number as int == fields[i].number as int ==> xored(
            fields,
            Some(entry),
            nap,
        )[i] == (FieldView {
            number: fields[i].number,
            value: xor_value(fields[i].value, entry.fields[k], nap),
        }),
        (forall|j: int|
            0 <= j < entry.fields.len() ==> (#[trigger] entry.fields[j]).number as int
                != fields[i].number as int) ==> xored(fields, Some(entry), nap)[i] == fields[i],
{
    let p = |d: ProtoEntryFieldView| d.number as int == fields[i].number as int;
    if entry.fields[k].number as int == fields[i].number as int {
        assert forall|j: int| 0 <= j < k implies !p(#[trigger] entry.fields[j]) by {}
        lookup::lemma_find_first(entry.fields, p, k);
    }
    if forall|j: int|
        0 <= j < entry.fields.len() ==> (#[trigger] entry.fields[j]).number as int
            != fields[i].number as int {
        lookup::lemma_find_first(entry.fields, p, entry.fields.len() as int);
    }
}

/// A message inside a message goes by the entry that its descriptor names: it is decoded, each
/// of its fields is recovered, and it is encoded again. What does not decode stays as it is.
pub proof fn law_nested_messages_go_by_their_type(
    inner: Seq<FieldView>,
    other: Seq<u8>,
    descriptor: ProtoEntryFieldView,
    nap: Seq<ProtoEntryView>,
)
    requires
        !descriptor.is_native_type,
        !descriptor.is_enum,
        proto::valid_fields(inner),
        proto::decoded(other) is Err,
    ensures
        xor_value(ValueView::LengthDelimited(proto::encoded(inner)), descriptor, nap)
            == ValueView::LengthDelimited(
            proto::encoded(xored(inner, protonap::by_name(nap, descriptor.type_ref), nap)),
        ),
        xor_value(ValueView::LengthDelimited(other), descriptor, nap) == ValueView::LengthDelimited(
            other,
        ),
{
    proto::law_decode_undoes_encode(inner);
}

} // verus!
