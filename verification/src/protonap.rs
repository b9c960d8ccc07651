//! The descriptor index: for each command id, every field number with its type and the
//! value it is XORed with.
use crate::lookup;
use crate::sort;
use crate::sort::Keyed;
use crate::text;
use vstd::prelude::*;

verus! {

#[derive(Debug)]
pub struct ProtoEntryField {
    pub number: i32,
    pub name: String,
    /// A scalar type (`uint32`, `string`, ...) or, for a submessage, the name of the entry
    /// that describes it.
    pub type_ref: String,
    pub xor_value: Option<u32>,
    pub is_native_type: bool,
    pub is_enum: bool,
    pub repeated: bool,
}

#[derive(Debug)]
pub struct ProtoEntry {
    pub cmd_id: Option<u16>,
    pub name: String,
    pub fields: Vec<ProtoEntryField>,
}

/// What a [`ProtoEntryField`] holds.
pub struct ProtoEntryFieldView {
    pub number: i32,
    pub name: Seq<char>,
    pub type_ref: Seq<char>,
    pub xor_value: Option<u32>,
    pub is_native_type: bool,
    pub is_enum: bool,
    pub repeated: bool,
}

/// What a [`ProtoEntry`] holds.
pub struct ProtoEntryView {
    pub cmd_id: Option<u16>,
    pub name: Seq<char>,
    pub fields: Seq<ProtoEntryFieldView>,
}

impl View for ProtoEntryField {
    type V = ProtoEntryFieldView;

    open spec fn view(&self) -> ProtoEntryFieldView {
        ProtoEntryFieldView {
            number: self.number,
            name: self.name@,
            type_ref: self.type_ref@,
            xor_value: self.xor_value,
            is_native_type: self.is_native_type,
            is_enum: self.is_enum,
            repeated: self.repeated,
        }
    }
}

impl View for ProtoEntry {
    type V = ProtoEntryView;

    open spec fn view(&self) -> ProtoEntryView {
        ProtoEntryView {
            cmd_id: self.cmd_id,
            name: self.name@,
            fields: fields_view(self.fields@),
        }
    }
}

impl Clone for ProtoEntryField {
    fn clone(&self) -> (r: ProtoEntryField)
        ensures
            r@ == self@,
    {
        ProtoEntryField {
            number: self.number,
            name: self.name.clone(),
            type_ref: self.type_ref.clone(),
            xor_value: self.xor_value,
            is_native_type: self.is_native_type,
            is_enum: self.is_enum,
            repeated: self.repeated,
        }
    }
}

impl Clone for ProtoEntry {
    fn clone(&self) -> (r: ProtoEntry)
        ensures
            r@ == self@,
    {
        let mut fields: Vec<ProtoEntryField> = Vec::new();
        let mut i: usize = 0;
        while i < self.fields.len()
            invariant
                i <= self.fields@.len(),
                fields@.len() == i,
                forall|k: int| 0 <= k < i ==> (#[trigger] fields@[k])@ == self.fields@[k]@,
            decreases self.fields@.len() - i,
        {
            fields.push(self.fields[i].clone());
            i = i + 1;
        }
        assert(fields_view(fields@) =~= fields_view(self.fields@));
        ProtoEntry { cmd_id: self.cmd_id, name: self.name.clone(), fields }
    }
}

pub open spec fn fields_view(fields: Seq<ProtoEntryField>) -> Seq<ProtoEntryFieldView> {
    fields.map_values(|f: ProtoEntryField| f@)
}

pub open spec fn entries_view(entries: Seq<ProtoEntry>) -> Seq<ProtoEntryView> {
    entries.map_values(|e: ProtoEntry| e@)
}

/// The id an entry is found by: one without a command id stands for command 0.
pub open spec fn cmd_key(entry: ProtoEntryView) -> int {
    match entry.cmd_id {
        Some(id) => id as int,
        None => 0,
    }
}

/// [`cmd_key`] as a key to sort by.
pub open spec fn cmd_order() -> spec_fn(ProtoEntryView) -> int {
    |e: ProtoEntryView| cmd_key(e)
}

/// An entry with its fields in ascending order of their numbers.
pub open spec fn with_sorted_fields(entry: ProtoEntryView) -> ProtoEntryView {
    ProtoEntryView {
        fields: sort::stable_sort(entry.fields, |f: ProtoEntryFieldView| f.number as int),
        ..entry
    }
}

pub open spec fn sorted_fields_view(entries: Seq<ProtoEntryView>) -> Seq<ProtoEntryView> {
    entries.map_values(|e: ProtoEntryView| with_sorted_fields(e))
}

/// The index over `entries`: in ascending order of the command ids.
pub open spec fn indexed(entries: Seq<ProtoEntryView>) -> Seq<ProtoEntryView> {
    sort::stable_sort(sorted_fields_view(entries), cmd_order())
}

/// The entry for a command.
pub open spec fn by_cmd(entries: Seq<ProtoEntryView>, cmd_id: u16) -> Option<ProtoEntryView> {
    lookup::find_first(entries, sort::has_key(cmd_order(), cmd_id as int))
}

/// The entry with a name: of several, the last.
pub open spec fn by_name(entries: Seq<ProtoEntryView>, name: Seq<char>) -> Option<ProtoEntryView> {
    lookup::find_last(entries, |e: ProtoEntryView| e.name == name)
}

/// The view of an optional entry.
pub open spec fn entry_view(entry: Option<&ProtoEntry>) -> Option<ProtoEntryView> {
    match entry {
        Some(e) => Some(e@),
        None => None,
    }
}

impl Keyed for ProtoEntryField {
    open spec fn key_spec(&self) -> int {
        self.number as int
    }

    fn sort_key(&self) -> (k: i128) {
        self.number as i128
    }
}

impl Keyed for ProtoEntry {
    open spec fn key_spec(&self) -> int {
        cmd_key(self@)
    }

    fn sort_key(&self) -> (k: i128) {
        match self.cmd_id {
            Some(id) => id as i128,
            None => 0,
        }
    }
}

/// The index over a set of descriptors.
#[derive(Debug)]
pub struct Protonap {
    entries: Vec<ProtoEntry>,
}

impl View for Protonap {
    type V = Seq<ProtoEntryView>;

    closed spec fn view(&self) -> Seq<ProtoEntryView> {
        entries_view(self.entries@)
    }
}

impl Default for Protonap {
    fn default() -> (r: Protonap)
        ensures
            r@ == Seq::<ProtoEntryView>::empty(),
    {
        let r = Protonap { entries: Vec::new() };
        assert(r@ =~= Seq::empty());
        r
    }
}

impl Protonap {
    #[verifier::type_invariant]
    spec fn sorted(self) -> bool {
        sort::ascending(entries_view(self.entries@), cmd_order())
    }

    /// Sorts the fields of each entry by number and the entries by command id, keeping the
    /// order of equals.
    pub fn new(entries: Vec<ProtoEntry>) -> (r: Protonap)
        ensures
            r@ == indexed(entries_view(entries@)),
    {
        let ghost given = entries_view(entries@);
        let ghost key = cmd_order();
        let mut sorted: Vec<ProtoEntry> = Vec::new();
        let mut entries: Vec<ProtoEntry> = entries;
        let ghost total = entries@.len() as int;
        // Taken from the back, so that each entry moves once.
        entries = reversed(entries);
        let ghost backwards = entries@;
        while entries.len() > 0
            invariant
                given.len() == total,
                sorted@.len() + entries@.len() == total,
                entries@ == backwards.take(entries@.len() as int),
                backwards.len() == total,
                forall|i: int| 0 <= i < total ==> (#[trigger] backwards[i])@ == given[total - 1 - i],
                forall|i: int|
                    0 <= i < sorted@.len() ==> (#[trigger] sorted@[i])@ == with_sorted_fields(given[i]),
            decreases entries.len(),
        {
            let ghost n = entries@.len() as int;
            assert(entries@[n - 1] == backwards[n - 1]);
            let entry: ProtoEntry = entries.pop().unwrap();
            assert(entries@ =~= backwards.take(n - 1));
            let ProtoEntry { cmd_id, name, fields } = entry;
            let mut fields: Vec<ProtoEntryField> = fields;
            let ghost unsorted = fields@;
            sort::sort_by_key(&mut fields);
            proof {
                sort::lemma_stable_sort_map(
                    unsorted,
                    |f: ProtoEntryField| f@,
                    |f: ProtoEntryField| f.key_spec(),
                    |f: ProtoEntryFieldView| f.number as int,
                );
            }
            let ghost before = sorted@;
            sorted.push(ProtoEntry { cmd_id, name, fields });
            assert(given[total - n] == entry@);
            assert(sorted@.last()@ == with_sorted_fields(entry@));
        }
        let ghost unsorted = sorted@;
        sort::sort_by_key(&mut sorted);
        proof {
            assert(entries_view(unsorted) =~= sorted_fields_view(given));
            sort::lemma_stable_sort_map(
                unsorted,
                |e: ProtoEntry| e@,
                |e: ProtoEntry| e.key_spec(),
                key,
            );
            sort::law_stable_sort(entries_view(unsorted), key);
        }
        Protonap { entries: sorted }
    }

    pub fn entries(&self) -> (r: &[ProtoEntry])
        ensures
            entries_view(r@) == self@,
    {
        self.entries.as_slice()
    }

    /// The entry for a command; the entries without a command id are found as command 0.
    pub fn entry_by_cmd(&self, cmd_id: u16) -> (r: Option<&ProtoEntry>)
        ensures
            entry_view(r) == by_cmd(self@, cmd_id),
    {
        proof {
            use_type_invariant(self);
        }
        let ghost key = cmd_order();
        let ghost p = sort::has_key(key, cmd_id as int);
        let wanted: i128 = cmd_id as i128;
        let mut low: usize = 0;
        let mut high: usize = self.entries.len();
        while low < high
            invariant
                low <= high <= self.entries@.len(),
                wanted == cmd_id,
                key == cmd_order(),
                sort::ascending(self@, key),
                forall|i: int| 0 <= i < low ==> key(#[trigger] self@[i]) < wanted,
                forall|i: int| high <= i < self@.len() ==> key(#[trigger] self@[i]) >= wanted,
            decreases high - low,
        {
            let middle: usize = low + (high - low) / 2;
            assert(self@[middle as int] == self.entries@[middle as int]@);
            if self.entries[middle].sort_key() < wanted {
                low = middle + 1;
            } else {
                high = middle;
            }
        }
        proof {
            lookup::lemma_find_first(self@, p, low as int);
        }
        if low < self.entries.len() && self.entries[low].sort_key() == wanted {
            assert(self@[low as int] == self.entries@[low as int]@);
            Some(&self.entries[low])
        } else {
            proof {
                assert forall|i: int| 0 <= i < self@.len() implies !p(#[trigger] self@[i]) by {
                    if i >= low {
                        assert(self@[low as int] == self.entries@[low as int]@);
                        assert(key(self@[low as int]) <= key(self@[i]));
                    }
                }
                lookup::lemma_find_first(self@, p, self@.len() as int);
            }
            None
        }
    }

    /// The entry with a name: of several, the last in the index.
    pub fn entry_by_name(&self, name: &str) -> (r: Option<&ProtoEntry>)
        ensures
            entry_view(r) == by_name(self@, name@),
    {
        let ghost p = |e: ProtoEntryView| e.name == name@;
        let mut i: usize = self.entries.len();
        while i > 0
            invariant
                i <= self.entries@.len(),
                p == (|e: ProtoEntryView| e.name == name@),
                forall|k: int| i <= k < self@.len() ==> !p(#[trigger] self@[k]),
            decreases i,
        {
            assert(self@[i - 1] == self.entries@[i - 1]@);
            if text::same(self.entries[i - 1].name.as_str(), name) {
                proof {
                    lookup::lemma_find_last(self@, p, i as int);
                }
                return Some(&self.entries[i - 1]);
            }
            i = i - 1;
        }
        proof {
            lookup::lemma_find_last(self@, p, 0);
        }
        None
    }
}

/// `entries` from the back.
fn reversed(entries: Vec<ProtoEntry>) -> (r: Vec<ProtoEntry>)
    ensures
        r@ == entries@.reverse(),
{
    let ghost all = entries@;
    let mut entries: Vec<ProtoEntry> = entries;
    let mut out: Vec<ProtoEntry> = Vec::new();
    while entries.len() > 0
        invariant
            entries@ == all.take(entries@.len() as int),
            out@.len() + entries@.len() == all.len(),
            forall|i: int| 0 <= i < out@.len() ==> #[trigger] out@[i] == all[all.len() - 1 - i],
        decreases entries.len(),
    {
        let ghost n = entries@.len() as int;
        assert(entries@[n - 1] == all[n - 1]);
        out.push(entries.pop().unwrap());
        assert(entries@ =~= all.take(n - 1));
    }
    assert(out@ =~= all.reverse());
    out
}

/// A command is described by the first entry that was given for it, whatever the order of
/// the other entries.
pub proof fn law_by_cmd_ignores_order(entries: Seq<ProtoEntryView>, cmd_id: u16)
    ensures
        by_cmd(indexed(entries), cmd_id) == by_cmd(sorted_fields_view(entries), cmd_id),
{
    sort::law_first_with_key_is_kept(sorted_fields_view(entries), cmd_order(), cmd_id as int);
}

/// The entry for a command is the first that was given with its id, with its fields in the order
/// of their numbers. An entry without an id stands for command 0.
pub proof fn law_an_entry_is_found_by_its_command(
    entries: Seq<ProtoEntryView>,
    i: int,
    cmd_id: u16,
)
    requires
        0 <= i < entries.len(),
        entries[i].cmd_id == Some(cmd_id) || (cmd_id == 0 && entries[i].cmd_id is None),
        forall|k: int|
            0 <= k < i ==> (#[trigger] entries[k]).cmd_id != Some(cmd_id) && (cmd_id != 0
                || entries[k].cmd_id is Some),
    ensures
        by_cmd(indexed(entries), cmd_id) is Some,
        by_cmd(indexed(entries), cmd_id)->Some_0.name == entries[i].name,
        by_cmd(indexed(entries), cmd_id)->Some_0.cmd_id == entries[i].cmd_id,
        by_cmd(indexed(entries), cmd_id)->Some_0.fields == sort::stable_sort(
            entries[i].fields,
            |f: ProtoEntryFieldView| f.number as int,
        ),
{
    let list = sorted_fields_view(entries);
    let p = sort::has_key(cmd_order(), cmd_id as int);
    law_by_cmd_ignores_order(entries, cmd_id);
    assert forall|k: int| 0 <= k < i implies !p(#[trigger] list[k]) by {
        assert(list[k].cmd_id == entries[k].cmd_id);
    }
    assert(list[i] == with_sorted_fields(entries[i]));
    lookup::lemma_find_first(list, p, i);
}

/// Of the entries with one name the last in the index is found.
pub proof fn law_the_last_of_a_name_is_found(
    first: Seq<ProtoEntryView>,
    entry: ProtoEntryView,
    then: Seq<ProtoEntryView>,
)
    requires
        forall|i: int| 0 <= i < then.len() ==> (#[trigger] then[i]).name != entry.name,
    ensures
        by_name(first.push(entry) + then, entry.name) == Some(entry),
{
    let all = first.push(entry) + then;
    let p = |e: ProtoEntryView| e.name == entry.name;
    assert forall|k: int| first.len() + 1 <= k < all.len() implies !p(#[trigger] all[k]) by {
        assert(all[k] == then[k - first.len() - 1]);
    }
    assert(all[first.len() as int] == entry);
    lookup::lemma_find_last(all, p, first.len() as int + 1);
}

} // verus!
