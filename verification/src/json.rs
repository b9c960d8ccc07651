//! Writing JSON text: strings, numbers, booleans, arrays, and objects with their keys in a
//! fixed order.
use crate::text;
use crate::text::Decimal;
use vstd::prelude::*;

verus! {

/// How one character is written in a string. Only the quote, the backslash and the five
/// control characters with a short form are escaped; every other character stands for
/// itself.
pub open spec fn escaped(c: char) -> Seq<char> {
    if c == '"' {
        seq!['\\', '"']
    } else if c == '\\' {
        seq!['\\', '\\']
    } else if c == '\u{8}' {
        seq!['\\', 'b']
    } else if c == '\t' {
        seq!['\\', 't']
    } else if c == '\n' {
        seq!['\\', 'n']
    } else if c == '\u{c}' {
        seq!['\\', 'f']
    } else if c == '\r' {
        seq!['\\', 'r']
    } else {
        seq![c]
    }
}

/// The characters of a string, escaped.
pub open spec fn escaped_all(s: Seq<char>) -> Seq<char>
    decreases s.len(),
{
    if s.len() == 0 {
        Seq::empty()
    } else {
        escaped_all(s.drop_last()) + escaped(s.last())
    }
}

/// A string literal.
pub open spec fn string_text(s: Seq<char>) -> Seq<char> {
    seq!['"'] + escaped_all(s) + seq!['"']
}

/// A boolean literal.
pub open spec fn boolean_text(value: bool) -> Seq<char> {
    if value {
        "true"@
    } else {
        "false"@
    }
}

/// Encoded values behind each other, with commas between.
pub open spec fn listed(items: Seq<Seq<char>>) -> Seq<char>
    decreases items.len(),
{
    if items.len() == 0 {
        Seq::empty()
    } else if items.len() == 1 {
        items[0]
    } else {
        listed(items.drop_last()) + seq![','] + items.last()
    }
}

/// An array of encoded values.
pub open spec fn array_text(items: Seq<Seq<char>>) -> Seq<char> {
    seq!['['] + listed(items) + seq![']']
}

/// A key and its encoded value, if it has one.
pub struct FieldText {
    pub key: Seq<char>,
    pub value: Option<Seq<char>>,
}

/// The members of an object. A key without a value is left out.
pub open spec fn members(fields: Seq<FieldText>) -> Seq<Seq<char>>
    decreases fields.len(),
{
    if fields.len() == 0 {
        Seq::empty()
    } else {
        match fields.last().value {
            Some(value) => members(fields.drop_last()).push(
                string_text(fields.last().key) + seq![':'] + value,
            ),
            None => members(fields.drop_last()),
        }
    }
}

/// An object, its keys in the order given.
pub open spec fn object_text(fields: Seq<FieldText>) -> Seq<char> {
    seq!['{'] + listed(members(fields)) + seq!['}']
}

/// A field with a value.
pub open spec fn field(key: Seq<char>, value: Seq<char>) -> FieldText {
    FieldText { key, value: Some(value) }
}

/// The text of an encoded value, if there is one.
pub open spec fn value_text(value: Option<String>) -> Option<Seq<char>> {
    match value {
        Some(s) => Some(s@),
        None => None,
    }
}

pub open spec fn fields_text(fields: Seq<(&str, Option<String>)>) -> Seq<FieldText> {
    fields.map_values(|f: (&str, Option<String>)| FieldText { key: f.0@, value: value_text(f.1) })
}

fn push_escaped(out: &mut String, c: char)
    ensures
        final(out)@ == old(out)@ + escaped(c),
{
    let ghost before = out@;
    let short: char = if c == '"' {
        '"'
    } else if c == '\\' {
        '\\'
    } else if c == '\u{8}' {
        'b'
    } else if c == '\t' {
        't'
    } else if c == '\n' {
        'n'
    } else if c == '\u{c}' {
        'f'
    } else if c == '\r' {
        'r'
    } else {
        out.push(c);
        assert(out@ =~= before + seq![c]);
        return;
    };
    out.push('\\');
    out.push(short);
    assert(out@ =~= before + seq!['\\', short]);
}

pub fn string(value: &str) -> (r: String)
    ensures
        r@ == string_text(value@),
{
    let mut out: String = String::new();
    out.push('"');
    assert(out@ =~= seq!['"'] + escaped_all(value@.take(0)));
    for c in iter: value.chars()
        invariant
            iter.seq() == value@,
            out@ == seq!['"'] + escaped_all(value@.take(iter.index())),
    {
        let ghost taken = value@.take(iter.index());
        let ghost before = out@;
        push_escaped(&mut out, c);
        assert(value@.take(iter.index() + 1) =~= taken.push(c));
        assert(taken.push(c).drop_last() =~= taken);
        assert(out@ =~= seq!['"'] + (escaped_all(taken) + escaped(c)));
    }
    assert(value@.take(value@.len() as int) =~= value@);
    let ghost before = out@;
    out.push('"');
    assert(out@ =~= before + seq!['"']);
    out
}

pub fn number<T: Decimal>(value: T) -> (r: String)
    ensures
        r@ == text::decimal_int(value.value()),
{
    let mut out: String = String::new();
    value.push_to(&mut out);
    assert(out@ =~= text::decimal_int(value.value()));
    out
}

pub fn boolean(value: bool) -> (r: String)
    ensures
        r@ == boolean_text(value),
{
    if value {
        "true".to_owned()
    } else {
        "false".to_owned()
    }
}

pub fn array(items: &[String]) -> (r: String)
    ensures
        r@ == array_text(text::texts(items@)),
{
    let ghost all = text::texts(items@);
    let mut out: String = String::new();
    out.push('[');
    let mut i: usize = 0;
    assert(all.take(0) =~= Seq::empty());
    assert(out@ =~= seq!['['] + listed(all.take(0)));
    while i < items.len()
        invariant
            i <= items@.len(),
            all == text::texts(items@),
            out@ == seq!['['] + listed(all.take(i as int)),
        decreases items@.len() - i,
    {
        if i > 0 {
            out.push(',');
        }
        out.push_str(items[i].as_str());
        proof {
            let item = items@[i as int]@;
            assert(all.take(i + 1).drop_last() =~= all.take(i as int));
            assert(all.take(i + 1).last() == item);
            if i == 0 {
                assert(out@ =~= seq!['['] + item);
            } else {
                assert(out@ =~= seq!['['] + (listed(all.take(i as int)) + seq![','] + item));
            }
        }
        i = i + 1;
    }
    assert(all.take(i as int) =~= all);
    let ghost before = out@;
    out.push(']');
    assert(out@ =~= before + seq![']']);
    out
}

/// An object from keys and encoded values. A key without a value is left out; an empty list
/// is a value like any other.
pub fn object(fields: &[(&str, Option<String>)]) -> (r: String)
    ensures
        r@ == object_text(fields_text(fields@)),
{
    let ghost all = fields_text(fields@);
    let mut out: String = String::new();
    out.push('{');
    let mut first: bool = true;
    let mut i: usize = 0;
    assert(all.take(0) =~= Seq::empty());
    assert(out@ =~= seq!['{'] + listed(members(all.take(0))));
    while i < fields.len()
        invariant
            i <= fields@.len(),
            all == fields_text(fields@),
            out@ == seq!['{'] + listed(members(all.take(i as int))),
            first == (members(all.take(i as int)).len() == 0),
        decreases fields@.len() - i,
    {
        let ghost so_far = members(all.take(i as int));
        proof {
            assert(all.take(i + 1).drop_last() =~= all.take(i as int));
            assert(all.take(i + 1).last() == all[i as int]);
            assert(all[i as int] == (FieldText {
                key: fields@[i as int].0@,
                value: value_text(fields@[i as int].1),
            }));
        }
        if let Some(value) = &fields[i].1 {
            let ghost before = out@;
            if !first {
                out.push(',');
            }
            first = false;
            out.push_str(string(fields[i].0).as_str());
            out.push(':');
            out.push_str(value.as_str());
            proof {
                let member = string_text(fields@[i as int].0@) + seq![':'] + value@;
                let grown = so_far.push(member);
                assert(grown.drop_last() =~= so_far);
                assert(members(all.take(i + 1)) == grown);
                if so_far.len() == 0 {
                    assert(out@ =~= seq!['{'] + member);
                } else {
                    assert(out@ =~= seq!['{'] + (listed(so_far) + seq![','] + member));
                }
            }
        }
        i = i + 1;
    }
    assert(all.take(i as int) =~= all);
    let ghost before = out@;
    out.push('}');
    assert(out@ =~= before + seq!['}']);
    out
}

/// Fields without a value leave no trace: an object is what its other fields make.
pub proof fn law_absent_fields_leave_no_trace(fields: Seq<FieldText>)
    ensures
        object_text(fields) == object_text(fields.filter(|f: FieldText| f.value is Some)),
{
    lemma_members_of_filter(fields);
}

proof fn lemma_members_of_filter(fields: Seq<FieldText>)
    ensures
        members(fields) == members(fields.filter(|f: FieldText| f.value is Some)),
    decreases fields.len(),
{
    let present = |f: FieldText| f.value is Some;
    reveal(Seq::filter);
    if fields.len() > 0 {
        lemma_members_of_filter(fields.drop_last());
        let rest = fields.drop_last().filter(present);
        if present(fields.last()) {
            assert(fields.filter(present) == rest.push(fields.last()));
            assert(rest.push(fields.last()).drop_last() =~= rest);
        } else {
            assert(fields.filter(present) == rest);
        }
    }
}

/// What a JSON string literal stands for, from position `at` up to the closing quote.
pub open spec fn unquoted_from(text: Seq<char>, at: int) -> Option<Seq<char>>
    decreases text.len() - at,
{
    if at < 0 || at >= text.len() {
        None
    } else if text[at] == '"' {
        if at + 1 == text.len() {
            Some(Seq::empty())
        } else {
            None
        }
    } else if text[at] == '\\' {
        if at + 1 >= text.len() {
            None
        } else {
            match (named_by(text[at + 1]), unquoted_from(text, at + 2)) {
                (Some(c), Some(rest)) => Some(seq![c] + rest),
                _ => None,
            }
        }
    } else {
        match unquoted_from(text, at + 1) {
            Some(rest) => Some(seq![text[at]] + rest),
            None => None,
        }
    }
}

/// The character that a letter behind a backslash names.
pub open spec fn named_by(letter: char) -> Option<char> {
    if letter == '"' || letter == '\\' || letter == '/' {
        Some(letter)
    } else if letter == 'b' {
        Some('\u{8}')
    } else if letter == 'f' {
        Some('\u{c}')
    } else if letter == 'n' {
        Some('\n')
    } else if letter == 'r' {
        Some('\r')
    } else if letter == 't' {
        Some('\t')
    } else {
        None
    }
}

proof fn lemma_escaped_front(c: char, s: Seq<char>)
    ensures
        escaped_all(seq![c] + s) == escaped(c) + escaped_all(s),
    decreases s.len(),
{
    let all = seq![c] + s;
    if s.len() == 0 {
        assert(all.drop_last() =~= Seq::empty());
        assert(all.last() == c);
        assert(escaped_all(all.drop_last()) =~= Seq::empty());
        assert(escaped_all(all) =~= escaped(c));
        assert(escaped_all(s) =~= Seq::empty());
        assert(escaped(c) + escaped_all(s) =~= escaped(c));
    } else {
        lemma_escaped_front(c, s.drop_last());
        assert(all.drop_last() =~= seq![c] + s.drop_last());
        assert(all.last() == s.last());
        assert(escaped_all(all) =~= escaped(c) + (escaped_all(s.drop_last()) + escaped(s.last())));
    }
}

proof fn lemma_unquoted(text: Seq<char>, at: int, s: Seq<char>)
    requires
        0 <= at <= text.len(),
        text.skip(at) == escaped_all(s) + seq!['"'],
    ensures
        unquoted_from(text, at) == Some(s),
    decreases s.len(),
{
    let tail = text.skip(at);
    assert(tail.len() == text.len() - at);
    if s.len() == 0 {
        assert(tail =~= seq!['"']);
        assert(text[at] == tail[0]);
        assert(s =~= Seq::empty());
    } else {
        let c = s[0];
        let rest = s.skip(1);
        assert(s =~= seq![c] + rest);
        lemma_escaped_front(c, rest);
        let form = escaped(c);
        assert(tail =~= form + (escaped_all(rest) + seq!['"']));
        assert(text.skip(at + form.len()) =~= tail.skip(form.len() as int));
        assert(tail.skip(form.len() as int) =~= escaped_all(rest) + seq!['"']);
        lemma_unquoted(text, at + form.len(), rest);
        assert(text[at] == tail[0] && tail[0] == form[0]);
        if form.len() == 2 {
            assert(text[at + 1] == tail[1] && tail[1] == form[1]);
        }
    }
}

/// A string literal is quoted, and a reader of JSON gets the string back.
pub proof fn law_strings_are_read_back(s: Seq<char>)
    ensures
        string_text(s)[0] == '"',
        unquoted_from(string_text(s), 1) == Some(s),
{
    let text = string_text(s);
    assert(text.skip(1) =~= escaped_all(s) + seq!['"']);
    lemma_unquoted(text, 1, s);
}

/// An array is written with brackets around its elements and commas between them, in order.
pub proof fn law_arrays_are_written_in_order(items: Seq<Seq<char>>, more: Seq<char>)
    ensures
        array_text(Seq::empty()) == seq!['[', ']'],
        array_text(seq![more]) == seq!['['] + more + seq![']'],
        items.len() > 0 ==> array_text(items.push(more)) == array_text(items).drop_last() + seq![
            ',',
        ] + more + seq![']'],
{
    assert(array_text(Seq::empty()) =~= seq!['[', ']']);
    if items.len() > 0 {
        assert(items.push(more).drop_last() =~= items);
        assert(array_text(items.push(more)) =~= array_text(items).drop_last() + seq![','] + more
            + seq![']']);
    }
}

/// A key and its value stand in the text of an object, between commas or braces.
pub open spec fn has_member(object: Seq<char>, key: Seq<char>, value: Seq<char>) -> bool {
    exists|before: Seq<char>, behind: Seq<char>|
        #[trigger] stands_between(object, before, string_text(key) + seq![':'] + value, behind)
}

pub open spec fn stands_between(
    object: Seq<char>,
    before: Seq<char>,
    member: Seq<char>,
    behind: Seq<char>,
) -> bool {
    &&& object == before + member + behind
    &&& before.len() > 0 && (before.last() == '{' || before.last() == ',')
    &&& behind.len() > 0 && (behind[0] == '}' || behind[0] == ',')
}

/// Where one of some listed values stands.
proof fn lemma_listed_at(items: Seq<Seq<char>>, i: int) -> (r: (Seq<char>, Seq<char>))
    requires
        0 <= i < items.len(),
    ensures
        listed(items) == r.0 + items[i] + r.1,
        r.0.len() > 0 ==> r.0.last() == ',',
        r.1.len() > 0 ==> r.1[0] == ',',
    decreases items.len(),
{
    if items.len() == 1 {
        let none = Seq::<char>::empty();
        assert(listed(items) =~= none + items[i] + none);
        (none, none)
    } else if i == items.len() - 1 {
        let before = listed(items.drop_last()) + seq![','];
        let none = Seq::<char>::empty();
        assert(listed(items) =~= before + items[i] + none);
        (before, none)
    } else {
        let (before, behind) = lemma_listed_at(items.drop_last(), i);
        let more = behind + seq![','] + items.last();
        assert(items.drop_last()[i] == items[i]);
        assert(listed(items) =~= before + items[i] + more);
        if behind.len() > 0 {
            assert(more[0] == behind[0]);
        } else {
            assert(more[0] == ',');
        }
        (before, more)
    }
}

/// Every field with a value is among the members.
proof fn lemma_member_of(fields: Seq<FieldText>, i: int) -> (k: int)
    requires
        0 <= i < fields.len(),
        fields[i].value is Some,
    ensures
        0 <= k < members(fields).len(),
        members(fields)[k] == string_text(fields[i].key) + seq![':'] + fields[i].value->Some_0,
    decreases fields.len(),
{
    let init = fields.drop_last();
    if i == fields.len() - 1 {
        members(init).len() as int
    } else {
        let k = lemma_member_of(init, i);
        assert(init[i] == fields[i]);
        k
    }
}

/// An object holds each of its fields that has a value.
pub proof fn law_fields_are_written(fields: Seq<FieldText>, i: int)
    requires
        0 <= i < fields.len(),
        fields[i].value is Some,
    ensures
        has_member(object_text(fields), fields[i].key, fields[i].value->Some_0),
{
    let k = lemma_member_of(fields, i);
    let member = string_text(fields[i].key) + seq![':'] + fields[i].value->Some_0;
    let (before, behind) = lemma_listed_at(members(fields), k);
    let front = seq!['{'] + before;
    let back = behind + seq!['}'];
    assert(object_text(fields) =~= front + member + back);
    if before.len() > 0 {
        assert(front.last() == before.last());
    } else {
        assert(front =~= seq!['{']);
    }
    assert(back[0] == if behind.len() > 0 {
        behind[0]
    } else {
        '}'
    });
    assert(stands_between(object_text(fields), front, member, back));
}

} // verus!
