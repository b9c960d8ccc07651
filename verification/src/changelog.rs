//! The log of changes: one line for each change of an item, in a ring of limited length.
use crate::lookup;
use crate::model;
use crate::names::Names;
use crate::snapshot;
use crate::snapshot::{
    ExtractEventView, ExtractSummary, Inventory, InventoryView, ItemChange, SummaryView,
};
use crate::text;
use std::collections::VecDeque;
use vstd::prelude::*;

verus! {

/// Everything that a summary counts, added up. The sum wraps.
#[verifier::opaque]
pub open spec fn total_of(s: SummaryView) -> u64 {
    s.player_syncs.wrapping_add(s.sync_upserts).wrapping_add(s.sync_removals).wrapping_add(
        s.dismantles,
    ).wrapping_add(s.dismantle_removals).wrapping_add(s.disc_loads).wrapping_add(
        s.weapon_loads,
    ).wrapping_add(s.avatar_loads).wrapping_add(s.discs_added).wrapping_add(
        s.discs_updated,
    ).wrapping_add(s.discs_removed).wrapping_add(s.engines_added).wrapping_add(
        s.engines_updated,
    ).wrapping_add(s.engines_removed).wrapping_add(s.agents_added).wrapping_add(
        s.agents_updated,
    ).wrapping_add(s.agents_removed)
}

/// Everything that a summary counts, added up: whether anything was applied shows in it.
pub fn extraction_total(summary: &ExtractSummary) -> (r: u64)
    ensures
        r == total_of(summary@),
{
    proof {
        reveal(total_of);
    }
    let s: &ExtractSummary = summary;
    s.player_syncs.wrapping_add(s.sync_upserts).wrapping_add(s.sync_removals).wrapping_add(
        s.dismantles,
    ).wrapping_add(s.dismantle_removals).wrapping_add(s.disc_loads).wrapping_add(
        s.weapon_loads,
    ).wrapping_add(s.avatar_loads).wrapping_add(s.discs_added).wrapping_add(
        s.discs_updated,
    ).wrapping_add(s.discs_removed).wrapping_add(s.engines_added).wrapping_add(
        s.engines_updated,
    ).wrapping_add(s.engines_removed).wrapping_add(s.agents_added).wrapping_add(
        s.agents_updated,
    ).wrapping_add(s.agents_removed)
}

/// What an event adds to the total.
pub open spec fn weight_of(event: ExtractEventView) -> nat {
    match event {
        ExtractEventView::PlayerSync(result) => 1 + result.upserts as nat + result.removals as nat,
        ExtractEventView::Dismantle(result) => 1 + result.removals as nat,
        ExtractEventView::Discs { .. } => 1,
        ExtractEventView::Weapons { .. } => 1,
        ExtractEventView::Avatars { .. } => 1,
        ExtractEventView::FallbackRemoval { .. } => 0,
        ExtractEventView::Changes(changes) => changes.len(),
    }
}

/// What events add to the total.
pub open spec fn weight_of_all(events: Seq<ExtractEventView>) -> nat
    decreases events.len(),
{
    if events.len() == 0 {
        0
    } else {
        weight_of_all(events.drop_last()) + weight_of(events.last())
    }
}

/// The sum that wraps in the total.
#[verifier::opaque]
spec fn sum_of(s: SummaryView) -> int {
    s.player_syncs + s.sync_upserts + s.sync_removals + s.dismantles + s.dismantle_removals
        + s.disc_loads + s.weapon_loads + s.avatar_loads + s.discs_added + s.discs_updated
        + s.discs_removed + s.engines_added + s.engines_updated + s.engines_removed
        + s.agents_added + s.agents_updated + s.agents_removed
}

proof fn lemma_wrapped(sum: int, t: u64, x: u64)
    requires
        t == sum % 0x1_0000_0000_0000_0000,
    ensures
        t.wrapping_add(x) == (sum + x) % 0x1_0000_0000_0000_0000,
{
}

proof fn lemma_total_is_the_sum(s: SummaryView)
    ensures
        total_of(s) == sum_of(s) % 0x1_0000_0000_0000_0000,
{
    reveal(total_of);
    reveal(sum_of);
    let fields = seq![
        s.sync_upserts,
        s.sync_removals,
        s.dismantles,
        s.dismantle_removals,
        s.disc_loads,
        s.weapon_loads,
        s.avatar_loads,
        s.discs_added,
        s.discs_updated,
        s.discs_removed,
        s.engines_added,
        s.engines_updated,
        s.engines_removed,
        s.agents_added,
        s.agents_updated,
        s.agents_removed,
    ];
    let s0 = s.player_syncs as int;
    let t0 = s.player_syncs;
    lemma_wrapped(s0, t0, fields[0]);
    let (s1, t1) = (s0 + fields[0], t0.wrapping_add(fields[0]));
    lemma_wrapped(s1, t1, fields[1]);
    let (s2, t2) = (s1 + fields[1], t1.wrapping_add(fields[1]));
    lemma_wrapped(s2, t2, fields[2]);
    let (s3, t3) = (s2 + fields[2], t2.wrapping_add(fields[2]));
    lemma_wrapped(s3, t3, fields[3]);
    let (s4, t4) = (s3 + fields[3], t3.wrapping_add(fields[3]));
    lemma_wrapped(s4, t4, fields[4]);
    let (s5, t5) = (s4 + fields[4], t4.wrapping_add(fields[4]));
    lemma_wrapped(s5, t5, fields[5]);
    let (s6, t6) = (s5 + fields[5], t5.wrapping_add(fields[5]));
    lemma_wrapped(s6, t6, fields[6]);
    let (s7, t7) = (s6 + fields[6], t6.wrapping_add(fields[6]));
    lemma_wrapped(s7, t7, fields[7]);
    let (s8, t8) = (s7 + fields[7], t7.wrapping_add(fields[7]));
    lemma_wrapped(s8, t8, fields[8]);
    let (s9, t9) = (s8 + fields[8], t8.wrapping_add(fields[8]));
    lemma_wrapped(s9, t9, fields[9]);
    let (s10, t10) = (s9 + fields[9], t9.wrapping_add(fields[9]));
    lemma_wrapped(s10, t10, fields[10]);
    let (s11, t11) = (s10 + fields[10], t10.wrapping_add(fields[10]));
    lemma_wrapped(s11, t11, fields[11]);
    let (s12, t12) = (s11 + fields[11], t11.wrapping_add(fields[11]));
    lemma_wrapped(s12, t12, fields[12]);
    let (s13, t13) = (s12 + fields[12], t12.wrapping_add(fields[12]));
    lemma_wrapped(s13, t13, fields[13]);
    let (s14, t14) = (s13 + fields[13], t13.wrapping_add(fields[13]));
    lemma_wrapped(s14, t14, fields[14]);
    let (s15, t15) = (s14 + fields[14], t14.wrapping_add(fields[14]));
    lemma_wrapped(s15, t15, fields[15]);
    assert(total_of(s) == t15.wrapping_add(fields[15]));
    assert(sum_of(s) == s15 + fields[15]);
}

proof fn lemma_changes_sum(s: SummaryView, changes: Seq<ItemChange>)
    ensures
        sum_of(snapshot::changes_counted(s, changes)) % 0x1_0000_0000_0000_0000 == (sum_of(s)
            + changes.len()) % 0x1_0000_0000_0000_0000,
    decreases changes.len(),
{
    if changes.len() > 0 {
        lemma_changes_sum(s, changes.drop_last());
        let before = snapshot::changes_counted(s, changes.drop_last());
        let after = snapshot::change_counted(before, changes.last());
        assert(sum_of(after) == sum_of(before) + 1 || sum_of(after) == sum_of(before) + 1
            - 0x1_0000_0000_0000_0000) by {
            reveal(sum_of);
        }
    }
}

proof fn lemma_event_sum(s: SummaryView, event: ExtractEventView)
    ensures
        sum_of(snapshot::event_counted(s, event)) % 0x1_0000_0000_0000_0000 == (sum_of(s)
            + weight_of(event)) % 0x1_0000_0000_0000_0000,
{
    match event {
        ExtractEventView::Changes(changes) => lemma_changes_sum(s, changes),
        _ => {
            let more = sum_of(snapshot::event_counted(s, event)) - sum_of(s) - weight_of(event);
            assert(more == 0 || more == -0x1_0000_0000_0000_0000 || more == -2
                * 0x1_0000_0000_0000_0000 || more == -3 * 0x1_0000_0000_0000_0000) by {
                reveal(sum_of);
            }
        },
    }
}

/// The total grows by the weight of the events that are counted, and wraps.
pub proof fn law_the_total_grows(s: SummaryView, events: Seq<ExtractEventView>)
    ensures
        total_of(snapshot::events_counted(s, events)) == (total_of(s) + weight_of_all(events))
            % 0x1_0000_0000_0000_0000,
    decreases events.len(),
{
    lemma_total_is_the_sum(s);
    if events.len() > 0 {
        law_the_total_grows(s, events.drop_last());
        let before = snapshot::events_counted(s, events.drop_last());
        lemma_event_sum(before, events.last());
        lemma_total_is_the_sum(before);
        lemma_total_is_the_sum(snapshot::event_counted(before, events.last()));
    }
}

/// No counter of `b` is below that of `a`, and `b` lists the fallback removals of `a` first.
pub open spec fn no_less(a: SummaryView, b: SummaryView) -> bool {
    &&& a.player_syncs <= b.player_syncs
    &&& a.sync_upserts <= b.sync_upserts
    &&& a.sync_removals <= b.sync_removals
    &&& a.dismantles <= b.dismantles
    &&& a.dismantle_removals <= b.dismantle_removals
    &&& a.disc_loads <= b.disc_loads
    &&& a.weapon_loads <= b.weapon_loads
    &&& a.avatar_loads <= b.avatar_loads
    &&& a.discs_added <= b.discs_added
    &&& a.discs_updated <= b.discs_updated
    &&& a.discs_removed <= b.discs_removed
    &&& a.engines_added <= b.engines_added
    &&& a.engines_updated <= b.engines_updated
    &&& a.engines_removed <= b.engines_removed
    &&& a.agents_added <= b.agents_added
    &&& a.agents_updated <= b.agents_updated
    &&& a.agents_removed <= b.agents_removed
    &&& a.fallback_removals.is_prefix_of(b.fallback_removals)
}

/// Each counter can take `n` more without wrapping.
pub open spec fn has_room(s: SummaryView, n: nat) -> bool {
    &&& s.player_syncs + n <= u64::MAX
    &&& s.sync_upserts + n <= u64::MAX
    &&& s.sync_removals + n <= u64::MAX
    &&& s.dismantles + n <= u64::MAX
    &&& s.dismantle_removals + n <= u64::MAX
    &&& s.disc_loads + n <= u64::MAX
    &&& s.weapon_loads + n <= u64::MAX
    &&& s.avatar_loads + n <= u64::MAX
    &&& s.discs_added + n <= u64::MAX
    &&& s.discs_updated + n <= u64::MAX
    &&& s.discs_removed + n <= u64::MAX
    &&& s.engines_added + n <= u64::MAX
    &&& s.engines_updated + n <= u64::MAX
    &&& s.engines_removed + n <= u64::MAX
    &&& s.agents_added + n <= u64::MAX
    &&& s.agents_updated + n <= u64::MAX
    &&& s.agents_removed + n <= u64::MAX
}

/// Counting changes lowers nothing, and uses up no more room than there are changes.
proof fn lemma_changes_no_less(s: SummaryView, changes: Seq<ItemChange>, left: nat)
    requires
        has_room(s, left + changes.len()),
    ensures
        no_less(s, snapshot::changes_counted(s, changes)),
        has_room(snapshot::changes_counted(s, changes), left),
    decreases changes.len(),
{
    if changes.len() > 0 {
        lemma_changes_no_less(s, changes.drop_last(), left + 1);
    }
}

/// Where no counter wraps, counting events lowers none, and the fallback removals of before
/// stay listed, in front.
pub proof fn law_counting_lowers_nothing(s: SummaryView, events: Seq<ExtractEventView>, left: nat)
    requires
        has_room(s, left + weight_of_all(events)),
    ensures
        no_less(s, snapshot::events_counted(s, events)),
        has_room(snapshot::events_counted(s, events), left),
    decreases events.len(),
{
    if events.len() > 0 {
        let weight = weight_of(events.last());
        law_counting_lowers_nothing(s, events.drop_last(), left + weight);
        let before = snapshot::events_counted(s, events.drop_last());
        match events.last() {
            ExtractEventView::Changes(changes) => lemma_changes_no_less(before, changes, left),
            _ => {},
        }
    }
}

/// An agent's name, or its id.
pub open spec fn agent_label<N: Names>(id: u32, names: N) -> Seq<char> {
    match names.character_name_of(id) {
        Some(name) => name,
        None => "agent "@ + text::decimal(id as nat),
    }
}

/// The name of the w-engine with a uid, or the uid.
pub open spec fn engine_label<N: Names>(v: Option<InventoryView>, uid: u32, names: N) -> Seq<char> {
    let unnamed = "w-engine "@ + text::decimal(uid as nat);
    match v {
        Some(v) => match lookup::find_first(v.engines, snapshot::is_engine(uid)) {
            Some(engine) => match names.weapon_name_of(engine.id) {
                Some(name) => name,
                None => unnamed,
            },
            None => unnamed,
        },
        None => unnamed,
    }
}

/// A disc's set and slot, or its id.
pub open spec fn disc_label<N: Names>(id: u32, names: N) -> Seq<char> {
    match names.equipment_name_of(model::disc_set(id)) {
        Some(set) => set + " slot "@ + text::decimal(model::disc_slot(id) as nat),
        None => "disc "@ + text::decimal(id as nat),
    }
}

/// A w-engine's name, or a question mark.
pub open spec fn engine_name<N: Names>(id: u32, names: N) -> Seq<char> {
    match names.weapon_name_of(id) {
        Some(name) => name,
        None => "?"@,
    }
}

/// `Lv`, a level, a mark and a number, and the uid.
pub open spec fn item_tail(level: u32, mark: Seq<char>, number: u32, uid: u32) -> Seq<char> {
    "  Lv"@ + text::decimal(level as nat) + mark + text::decimal(number as nat) + "  (uid "@
        + text::decimal(uid as nat) + ")"@
}

/// The line for a change. Of an agent that changed, it says what became of its w-engine.
pub open spec fn described<N: Names>(change: ItemChange, names: N, v: Option<InventoryView>) -> Seq<char> {
    match change {
        ItemChange::DiscAdded { uid, id, level, rarity } => "+ disc  "@ + disc_label(id, names)
            + item_tail(level, " R"@, rarity, uid),
        ItemChange::DiscUpdated { uid, id, level, rarity } => "~ disc  "@ + disc_label(id, names)
            + item_tail(level, " R"@, rarity, uid),
        ItemChange::DiscRemoved { uid, id } => "- disc  "@ + disc_label(id, names) + "  (uid "@
            + text::decimal(uid as nat) + ")"@,
        ItemChange::EngineAdded { uid, id, level, phase } => "+ w-engine  "@ + engine_name(
            id,
            names,
        ) + item_tail(level, " P"@, phase, uid),
        ItemChange::EngineUpdated { uid, id, level, phase } => "~ w-engine  "@ + engine_name(
            id,
            names,
        ) + item_tail(level, " P"@, phase, uid),
        ItemChange::EngineRemoved { uid, id } => "- w-engine  "@ + engine_name(id, names)
            + "  (uid "@ + text::decimal(uid as nat) + ")"@,
        ItemChange::AgentAdded { id, level, weapon_uid } => if weapon_uid == 0 {
            "+ agent  "@ + agent_label(id, names) + "  Lv"@ + text::decimal(level as nat)
        } else {
            "+ agent  "@ + agent_label(id, names) + "  Lv"@ + text::decimal(level as nat)
                + "  equips "@ + engine_label(v, weapon_uid, names)
        },
        ItemChange::AgentUpdated { id, level, previous_weapon_uid, weapon_uid } =>
            if previous_weapon_uid == weapon_uid {
                "~ agent  "@ + agent_label(id, names) + "  Lv"@ + text::decimal(level as nat)
            } else if weapon_uid == 0 {
                "~ agent  "@ + agent_label(id, names) + "  unequips "@ + engine_label(
                    v,
                    previous_weapon_uid,
                    names,
                )
            } else if previous_weapon_uid == 0 {
                "~ agent  "@ + agent_label(id, names) + "  equips "@ + engine_label(
                    v,
                    weapon_uid,
                    names,
                )
            } else {
                "~ agent  "@ + agent_label(id, names) + "  swaps "@ + engine_label(
                    v,
                    previous_weapon_uid,
                    names,
                ) + " for "@ + engine_label(v, weapon_uid, names)
            },
        ItemChange::AgentRemoved { id } => "- agent  "@ + agent_label(id, names),
    }
}

/// What an inventory holds, if there is one.
pub open spec fn held(inventory: Option<&Inventory>) -> Option<InventoryView> {
    match inventory {
        Some(inventory) => Some(inventory@),
        None => None,
    }
}

fn push_agent<N: Names>(out: &mut String, id: u32, names: &N)
    ensures
        final(out)@ == old(out)@ + agent_label(id, *names),
{
    match names.character_name(id) {
        Some(name) => {
            out.push_str(name);
        },
        None => {
            let label: String = text::with_number("agent ", id as u64);
            out.push_str(label.as_str());
        },
    }
}

fn push_engine<N: Names>(out: &mut String, inventory: Option<&Inventory>, uid: u32, names: &N)
    ensures
        final(out)@ == old(out)@ + engine_label(held(inventory), uid, *names),
{
    if let Some(inventory) = inventory {
        let i: usize = inventory.engine_index(uid);
        proof {
            lookup::lemma_index_first(inventory@.engines, snapshot::is_engine(uid));
        }
        if i < inventory.engines.len() {
            if let Some(name) = names.weapon_name(inventory.engines[i].id) {
                out.push_str(name);
                return;
            }
        }
    }
    let label: String = text::with_number("w-engine ", uid as u64);
    out.push_str(label.as_str());
}

fn push_disc<N: Names>(out: &mut String, id: u32, names: &N)
    ensures
        final(out)@ == old(out)@ + disc_label(id, *names),
{
    match names.equipment_name(id / 100 * 100) {
        Some(set) => {
            let mut label: String = set.to_owned();
            label.push_str(" slot ");
            text::push_decimal(&mut label, (id % 10) as u64);
            out.push_str(label.as_str());
        },
        None => {
            let label: String = text::with_number("disc ", id as u64);
            out.push_str(label.as_str());
        },
    }
}

fn push_tail(out: &mut String, level: u32, mark: &str, number: u32, uid: u32)
    ensures
        final(out)@ == old(out)@ + item_tail(level, mark@, number, uid),
{
    let mut tail: String = text::with_number("  Lv", level as u64);
    tail.push_str(mark);
    text::push_decimal(&mut tail, number as u64);
    tail.push_str("  (uid ");
    text::push_decimal(&mut tail, uid as u64);
    tail.push_str(")");
    out.push_str(tail.as_str());
}

fn engine_text<'a, N: Names>(id: u32, names: &'a N) -> (r: &'a str)
    ensures
        r@ == engine_name(id, *names),
{
    match names.weapon_name(id) {
        Some(name) => name,
        None => "?",
    }
}

/// The line for a change.
pub fn describe_change<N: Names>(change: &ItemChange, names: &N, inventory: Option<&Inventory>) -> (r:
    String)
    ensures
        r@ == described(*change, *names, held(inventory)),
{
    match *change {
        ItemChange::DiscAdded { uid, id, level, rarity } => {
            let mut out: String = "+ disc  ".to_owned();
            push_disc(&mut out, id, names);
            push_tail(&mut out, level, " R", rarity, uid);
            out
        },
        ItemChange::DiscUpdated { uid, id, level, rarity } => {
            let mut out: String = "~ disc  ".to_owned();
            push_disc(&mut out, id, names);
            push_tail(&mut out, level, " R", rarity, uid);
            out
        },
        ItemChange::DiscRemoved { uid, id } => {
            let mut out: String = "- disc  ".to_owned();
            push_disc(&mut out, id, names);
            out.push_str("  (uid ");
            text::push_decimal(&mut out, uid as u64);
            out.push_str(")");
            out
        },
        ItemChange::EngineAdded { uid, id, level, phase } => {
            let mut out: String = "+ w-engine  ".to_owned();
            out.push_str(engine_text(id, names));
            push_tail(&mut out, level, " P", phase, uid);
            out
        },
        ItemChange::EngineUpdated { uid, id, level, phase } => {
            let mut out: String = "~ w-engine  ".to_owned();
            out.push_str(engine_text(id, names));
            push_tail(&mut out, level, " P", phase, uid);
            out
        },
        ItemChange::EngineRemoved { uid, id } => {
            let mut out: String = "- w-engine  ".to_owned();
            out.push_str(engine_text(id, names));
            out.push_str("  (uid ");
            text::push_decimal(&mut out, uid as u64);
            out.push_str(")");
            out
        },
        ItemChange::AgentAdded { id, level, weapon_uid } => {
            let mut out: String = "+ agent  ".to_owned();
            push_agent(&mut out, id, names);
            out.push_str("  Lv");
            text::push_decimal(&mut out, level as u64);
            if weapon_uid != 0 {
                out.push_str("  equips ");
                push_engine(&mut out, inventory, weapon_uid, names);
            }
            out
        },
        ItemChange::AgentUpdated { id, level, previous_weapon_uid, weapon_uid } => {
            let mut out: String = "~ agent  ".to_owned();
            push_agent(&mut out, id, names);
            if previous_weapon_uid == weapon_uid {
                out.push_str("  Lv");
                text::push_decimal(&mut out, level as u64);
            } else if weapon_uid == 0 {
                out.push_str("  unequips ");
                push_engine(&mut out, inventory, previous_weapon_uid, names);
            } else if previous_weapon_uid == 0 {
                out.push_str("  equips ");
                push_engine(&mut out, inventory, weapon_uid, names);
            } else {
                out.push_str("  swaps ");
                push_engine(&mut out, inventory, previous_weapon_uid, names);
                out.push_str(" for ");
                push_engine(&mut out, inventory, weapon_uid, names);
            }
            out
        },
        ItemChange::AgentRemoved { id } => {
            let mut out: String = "- agent  ".to_owned();
            push_agent(&mut out, id, names);
            out
        },
    }
}

/// One line of the log.
#[derive(Debug, PartialEq, Eq)]
pub struct LogEntry {
    /// Counts the lines, in the order of the capture.
    pub sequence: u64,
    /// What changed, in words.
    pub text: String,
    /// The change itself.
    pub change: ItemChange,
}

/// What a [`LogEntry`] holds.
pub struct LogEntryView {
    pub sequence: u64,
    pub text: Seq<char>,
    pub change: ItemChange,
}

impl View for LogEntry {
    type V = LogEntryView;

    open spec fn view(&self) -> LogEntryView {
        LogEntryView { sequence: self.sequence, text: self.text@, change: self.change }
    }
}

impl Clone for LogEntry {
    fn clone(&self) -> (r: LogEntry)
        ensures
            r@ == self@,
    {
        LogEntry { sequence: self.sequence, text: self.text.clone(), change: self.change }
    }
}

pub open spec fn log_view(entries: Seq<LogEntry>) -> Seq<LogEntryView> {
    entries.map_values(|e: LogEntry| e@)
}

/// What a [`ChangeLog`] holds.
pub struct ChangeLogView {
    pub entries: Seq<LogEntryView>,
    /// The number of the next line.
    pub next: u64,
    pub capacity: usize,
    /// How many lines fell out.
    pub dropped: u64,
}

/// A line with a number.
pub open spec fn numbered(entry: LogEntryView, sequence: u64) -> LogEntryView {
    LogEntryView { sequence, ..entry }
}

/// One more line; the oldest falls out where there is no room. The counters wrap.
pub open spec fn logged(v: ChangeLogView, entry: LogEntryView) -> ChangeLogView {
    let all = v.entries.push(numbered(entry, v.next));
    let full = all.len() > v.capacity;
    ChangeLogView {
        entries: if full {
            all.skip(1)
        } else {
            all
        },
        next: v.next.wrapping_add(1),
        dropped: if full {
            v.dropped.wrapping_add(1)
        } else {
            v.dropped
        },
        capacity: v.capacity,
    }
}

/// Lines in the order given.
pub open spec fn logged_all(v: ChangeLogView, entries: Seq<LogEntryView>) -> ChangeLogView
    decreases entries.len(),
{
    if entries.len() == 0 {
        v
    } else {
        logged(logged_all(v, entries.drop_last()), entries.last())
    }
}

/// A log of limited length: the oldest lines fall out.
#[derive(Debug)]
pub struct ChangeLog {
    entries: VecDeque<LogEntry>,
    next: u64,
    capacity: usize,
    dropped: u64,
}

impl View for ChangeLog {
    type V = ChangeLogView;

    closed spec fn view(&self) -> ChangeLogView {
        ChangeLogView {
            entries: log_view(self.entries@),
            next: self.next,
            capacity: self.capacity,
            dropped: self.dropped,
        }
    }
}

impl ChangeLog {
    /// A log that keeps the latest `capacity` lines. The first line has number 1.
    pub fn new(capacity: usize) -> (r: ChangeLog)
        ensures
            r@ == (ChangeLogView { entries: Seq::empty(), next: 1, capacity, dropped: 0 }),
    {
        let r = ChangeLog { entries: VecDeque::new(), next: 1, capacity, dropped: 0 };
        assert(r@.entries =~= Seq::empty());
        r
    }

    pub fn push(&mut self, entries: Vec<LogEntry>)
        ensures
            final(self)@ == logged_all(old(self)@, log_view(entries@)),
    {
        let ghost start = self@;
        let ghost all = log_view(entries@);
        let mut i: usize = 0;
        assert(all.take(0) =~= Seq::empty());
        while i < entries.len()
            invariant
                i <= entries@.len(),
                all == log_view(entries@),
                self@ == logged_all(start, all.take(i as int)),
            decreases entries@.len() - i,
        {
            assert(all[i as int] == entries@[i as int]@);
            assert(all.take(i + 1).drop_last() =~= all.take(i as int));
            assert(all.take(i + 1).last() == all[i as int]);
            let ghost before = self.entries@;
            let mut entry: LogEntry = entries[i].clone();
            entry.sequence = self.next;
            self.next = self.next.wrapping_add(1);
            self.entries.push_back(entry);
            assert(log_view(self.entries@) =~= log_view(before).push(entry@));
            if self.entries.len() > self.capacity {
                let ghost grown = self.entries@;
                let _ = self.entries.pop_front();
                self.dropped = self.dropped.wrapping_add(1);
                assert(log_view(self.entries@) =~= log_view(grown).skip(1));
            }
            i = i + 1;
        }
        assert(all.take(i as int) =~= all);
    }

    /// The lines, the oldest first.
    pub fn entries(&self) -> (r: Vec<LogEntry>)
        ensures
            log_view(r@) == self@.entries,
    {
        let mut out: Vec<LogEntry> = Vec::new();
        let mut i: usize = 0;
        while i < self.entries.len()
            invariant
                i <= self.entries@.len(),
                out@.len() == i,
                forall|k: int| 0 <= k < i ==> (#[trigger] out@[k])@ == self.entries@[k]@,
            decreases self.entries@.len() - i,
        {
            out.push(self.entries[i].clone());
            i = i + 1;
        }
        assert(log_view(out@) =~= self@.entries);
        out
    }

    pub fn len(&self) -> (r: usize)
        ensures
            r == self@.entries.len(),
    {
        self.entries.len()
    }

    pub fn is_empty(&self) -> (r: bool)
        ensures
            r == (self@.entries.len() == 0),
    {
        self.entries.len() == 0
    }

    /// How many lines fell out.
    pub fn dropped(&self) -> (r: u64)
        ensures
            r == self@.dropped,
    {
        self.dropped
    }
}

/// A log of which no counter has wrapped: it is no longer than its capacity, its lines are
/// numbered without gaps up to the latest, and each line so far is there or was dropped.
pub open spec fn orderly(v: ChangeLogView) -> bool {
    &&& v.entries.len() <= v.capacity
    &&& v.dropped + v.entries.len() + 1 == v.next
    &&& forall|i: int|
        0 <= i < v.entries.len() ==> (#[trigger] v.entries[i]).sequence == v.dropped + 1 + i
}

/// Logging keeps a log orderly, and counts every line.
pub proof fn law_the_log_stays_orderly(v: ChangeLogView, entries: Seq<LogEntryView>)
    requires
        orderly(v),
        v.next + entries.len() <= u64::MAX,
    ensures
        orderly(logged_all(v, entries)),
        logged_all(v, entries).next == v.next + entries.len(),
        logged_all(v, entries).capacity == v.capacity,
    decreases entries.len(),
{
    if entries.len() > 0 {
        law_the_log_stays_orderly(v, entries.drop_last());
        let before = logged_all(v, entries.drop_last());
        let after = logged_all(v, entries);
        assert forall|i: int| 0 <= i < after.entries.len() implies (#[trigger]
        after.entries[i]).sequence == after.dropped + 1 + i by {
            let all = before.entries.push(numbered(entries.last(), before.next));
            if all.len() > before.capacity {
                assert(after.entries[i] == all[i + 1]);
                if i + 1 < before.entries.len() {
                    assert(all[i + 1] == before.entries[i + 1]);
                }
            } else if i < before.entries.len() {
                assert(after.entries[i] == before.entries[i]);
            }
        }
    }
}

/// The latest lines are kept: as many as there is room for, in order.
pub proof fn law_the_latest_lines_are_kept(v: ChangeLogView, entries: Seq<LogEntryView>, k: int)
    requires
        orderly(v),
        v.next + entries.len() <= u64::MAX,
        0 <= k < entries.len(),
        k < v.capacity,
    ensures
        ({
            let kept = logged_all(v, entries).entries;
            &&& k < kept.len()
            &&& kept[kept.len() - 1 - k] == numbered(
                entries[entries.len() - 1 - k],
                (v.next + entries.len() - 1 - k) as u64,
            )
        }),
    decreases entries.len(),
{
    let init = entries.drop_last();
    let before = logged_all(v, init);
    law_the_log_stays_orderly(v, init);
    let kept = logged_all(v, entries).entries;
    let all = before.entries.push(numbered(entries.last(), before.next));
    if k > 0 {
        law_the_latest_lines_are_kept(v, init, k - 1);
        assert(init[init.len() - 1 - (k - 1)] == entries[entries.len() - 1 - k]);
        assert(before.entries[before.entries.len() - 1 - (k - 1)] == all[all.len() - 1 - k]);
    }
    assert(kept[kept.len() - 1 - k] == all[all.len() - 1 - k]);
}

/// How many of some lines are of each kind.
#[derive(Debug, Clone, Copy, PartialEq, Eq, Structural)]
pub struct ChangeCounts {
    pub discs_added: usize,
    pub discs_removed: usize,
    pub engines_added: usize,
    pub engines_removed: usize,
    pub agents_added: usize,
}

/// How many changes satisfy `p`.
pub open spec fn count_of(entries: Seq<LogEntryView>, p: spec_fn(ItemChange) -> bool) -> nat
    decreases entries.len(),
{
    if entries.len() == 0 {
        0
    } else {
        count_of(entries.drop_last(), p) + if p(entries.last().change) {
            1nat
        } else {
            0nat
        }
    }
}

pub open spec fn adds_disc() -> spec_fn(ItemChange) -> bool {
    |c: ItemChange| c is DiscAdded
}

pub open spec fn removes_disc() -> spec_fn(ItemChange) -> bool {
    |c: ItemChange| c is DiscRemoved
}

pub open spec fn adds_engine() -> spec_fn(ItemChange) -> bool {
    |c: ItemChange| c is EngineAdded
}

pub open spec fn removes_engine() -> spec_fn(ItemChange) -> bool {
    |c: ItemChange| c is EngineRemoved
}

pub open spec fn adds_agent() -> spec_fn(ItemChange) -> bool {
    |c: ItemChange| c is AgentAdded
}

/// Counts the additions and removals in a log.
pub fn count_changes(entries: &Vec<LogEntry>) -> (r: ChangeCounts)
    ensures
        r.discs_added == count_of(log_view(entries@), adds_disc()),
        r.discs_removed == count_of(log_view(entries@), removes_disc()),
        r.engines_added == count_of(log_view(entries@), adds_engine()),
        r.engines_removed == count_of(log_view(entries@), removes_engine()),
        r.agents_added == count_of(log_view(entries@), adds_agent()),
{
    let ghost all = log_view(entries@);
    let mut counts = ChangeCounts {
        discs_added: 0,
        discs_removed: 0,
        engines_added: 0,
        engines_removed: 0,
        agents_added: 0,
    };
    let mut i: usize = 0;
    assert(all.take(0) =~= Seq::empty());
    while i < entries.len()
        invariant
            i <= entries@.len(),
            all == log_view(entries@),
            counts.discs_added == count_of(all.take(i as int), adds_disc()),
            counts.discs_removed == count_of(all.take(i as int), removes_disc()),
            counts.engines_added == count_of(all.take(i as int), adds_engine()),
            counts.engines_removed == count_of(all.take(i as int), removes_engine()),
            counts.agents_added == count_of(all.take(i as int), adds_agent()),
            counts.discs_added <= i,
            counts.discs_removed <= i,
            counts.engines_added <= i,
            counts.engines_removed <= i,
            counts.agents_added <= i,
        decreases entries@.len() - i,
    {
        assert(all[i as int] == entries@[i as int]@);
        assert(all.take(i + 1).drop_last() =~= all.take(i as int));
        assert(all.take(i + 1).last() == all[i as int]);
        match entries[i].change {
            ItemChange::DiscAdded { .. } => {
                counts.discs_added = counts.discs_added + 1;
            },
            ItemChange::DiscRemoved { .. } => {
                counts.discs_removed = counts.discs_removed + 1;
            },
            ItemChange::EngineAdded { .. } => {
                counts.engines_added = counts.engines_added + 1;
            },
            ItemChange::EngineRemoved { .. } => {
                counts.engines_removed = counts.engines_removed + 1;
            },
            ItemChange::AgentAdded { .. } => {
                counts.agents_added = counts.agents_added + 1;
            },
            _ => {},
        }
        i = i + 1;
    }
    assert(all.take(i as int) =~= all);
    counts
}

/// A w-engine goes by the name of the one that is held under its uid, and by its uid where none
/// is held or it has no name.
pub proof fn law_a_worn_engine_is_named<N: Names>(
    v: InventoryView,
    i: int,
    uid: u32,
    name: Seq<char>,
    names: N,
)
    requires
        forall|k: int| 0 <= k < v.engines.len() && k != i ==> (#[trigger] v.engines[k]).uid != uid,
    ensures
        ({
            let held = 0 <= i < v.engines.len() && v.engines[i].uid == uid;
            let unnamed = "w-engine "@ + text::decimal(uid as nat);
            &&& held && names.weapon_name_of(v.engines[i].id) == Some(name) ==> engine_label(
                Some(v),
                uid,
                names,
            ) == name
            &&& !held ==> engine_label(Some(v), uid, names) == unnamed
            &&& held && names.weapon_name_of(v.engines[i].id) is None ==> engine_label(
                Some(v),
                uid,
                names,
            ) == unnamed
            &&& engine_label(None, uid, names) == unnamed
        }),
{
    let p = snapshot::is_engine(uid);
    if 0 <= i < v.engines.len() && v.engines[i].uid == uid {
        assert forall|k: int| 0 <= k < i implies !p(#[trigger] v.engines[k]) by {}
        lookup::lemma_find_first(v.engines, p, i);
    } else {
        assert forall|k: int| 0 <= k < v.engines.len() implies !p(#[trigger] v.engines[k]) by {}
        lookup::lemma_find_first(v.engines, p, v.engines.len() as int);
    }
}

/// The line about an agent names it, and tells what it does with its w-engine: nothing where it
/// wears the same as before, and else that it puts one on, takes one off, or swaps the old one
/// for the new.
pub proof fn law_an_agents_line_tells_what_it_wears<N: Names>(
    id: u32,
    level: u32,
    before: u32,
    now: u32,
    names: N,
    v: Option<InventoryView>,
)
    ensures
        ({
            let who = match names.character_name_of(id) {
                Some(name) => name,
                None => "agent "@ + text::decimal(id as nat),
            };
            let line = described(
                ItemChange::AgentUpdated {
                    id,
                    level,
                    previous_weapon_uid: before,
                    weapon_uid: now,
                },
                names,
                v,
            );
            let added = described(ItemChange::AgentAdded { id, level, weapon_uid: now }, names, v);
            let leveled = "  Lv"@ + text::decimal(level as nat);
            &&& before == now ==> line == "~ agent  "@ + who + leveled
            &&& before != 0 && now == 0 ==> line == "~ agent  "@ + who + "  unequips "@
                + engine_label(v, before, names)
            &&& before == 0 && now != 0 ==> line == "~ agent  "@ + who + "  equips "@ + engine_label(
                v,
                now,
                names,
            )
            &&& before != 0 && now != 0 && before != now ==> line == "~ agent  "@ + who
                + "  swaps "@ + engine_label(v, before, names) + " for "@ + engine_label(v, now, names)
            &&& now == 0 ==> added == "+ agent  "@ + who + leveled
            &&& now != 0 ==> added == "+ agent  "@ + who + leveled + "  equips "@ + engine_label(
                v,
                now,
                names,
            )
            &&& described(ItemChange::AgentRemoved { id }, names, v) == "- agent  "@ + who
        }),
{
    let who = agent_label(id, names);
    let (lv, n) = ("  Lv"@, text::decimal(level as nat));
    assert("~ agent  "@ + who + (lv + n) =~= "~ agent  "@ + who + lv + n);
    assert("+ agent  "@ + who + (lv + n) =~= "+ agent  "@ + who + lv + n);
    let worn = engine_label(v, now, names);
    assert("+ agent  "@ + who + (lv + n) + "  equips "@ + worn =~= "+ agent  "@ + who + lv + n
        + "  equips "@ + worn);
}

/// The line about a disc or a w-engine says whether it came, changed or went, what it is called,
/// its level, its rarity or phase, and its uid.
pub proof fn law_an_items_line_tells_what_it_is<N: Names>(
    uid: u32,
    id: u32,
    level: u32,
    number: u32,
    names: N,
    v: Option<InventoryView>,
)
    ensures
        ({
            let disc = match names.equipment_name_of(model::disc_set(id)) {
                Some(set) => set + " slot "@ + text::decimal(model::disc_slot(id) as nat),
                None => "disc "@ + text::decimal(id as nat),
            };
            let engine = match names.weapon_name_of(id) {
                Some(name) => name,
                None => "?"@,
            };
            let leveled = "  Lv"@ + text::decimal(level as nat);
            let tagged = "  (uid "@ + text::decimal(uid as nat) + ")"@;
            let rarity = " R"@ + text::decimal(number as nat);
            let phase = " P"@ + text::decimal(number as nat);
            &&& described(ItemChange::DiscAdded { uid, id, level, rarity: number }, names, v)
                == "+ disc  "@ + disc + leveled + rarity + tagged
            &&& described(ItemChange::DiscUpdated { uid, id, level, rarity: number }, names, v)
                == "~ disc  "@ + disc + leveled + rarity + tagged
            &&& described(ItemChange::DiscRemoved { uid, id }, names, v) == "- disc  "@ + disc
                + tagged
            &&& described(ItemChange::EngineAdded { uid, id, level, phase: number }, names, v)
                == "+ w-engine  "@ + engine + leveled + phase + tagged
            &&& described(ItemChange::EngineUpdated { uid, id, level, phase: number }, names, v)
                == "~ w-engine  "@ + engine + leveled + phase + tagged
            &&& described(ItemChange::EngineRemoved { uid, id }, names, v) == "- w-engine  "@
                + engine + tagged
        }),
{
    let disc = disc_label(id, names);
    let engine = engine_name(id, names);
    lemma_tail("+ disc  "@ + disc, level, " R"@, number, uid);
    lemma_tail("~ disc  "@ + disc, level, " R"@, number, uid);
    lemma_tail("+ w-engine  "@ + engine, level, " P"@, number, uid);
    lemma_tail("~ w-engine  "@ + engine, level, " P"@, number, uid);
    let u = text::decimal(uid as nat);
    assert("- disc  "@ + disc + ("  (uid "@ + u + ")"@) =~= "- disc  "@ + disc + "  (uid "@ + u
        + ")"@);
    assert("- w-engine  "@ + engine + ("  (uid "@ + u + ")"@) =~= "- w-engine  "@ + engine
        + "  (uid "@ + u + ")"@);
}

proof fn lemma_tail(head: Seq<char>, level: u32, mark: Seq<char>, number: u32, uid: u32)
    ensures
        head + item_tail(level, mark, number, uid) == head + ("  Lv"@ + text::decimal(level as nat))
            + (mark + text::decimal(number as nat)) + ("  (uid "@ + text::decimal(uid as nat)
            + ")"@),
{
    let (l, n, u) = (
        text::decimal(level as nat),
        text::decimal(number as nat),
        text::decimal(uid as nat),
    );
    assert(head + item_tail(level, mark, number, uid) =~= head + ("  Lv"@ + l) + (mark + n) + (
    "  (uid "@ + u + ")"@));
}

/// The lines of a log are counted by what they tell: each addition and each removal once, under
/// its own kind, and no other line.
pub proof fn law_lines_are_counted_by_kind(
    first: Seq<LogEntryView>,
    then: Seq<LogEntryView>,
    entry: LogEntryView,
    p: spec_fn(ItemChange) -> bool,
)
    ensures
        count_of(first + then, p) == count_of(first, p) + count_of(then, p),
        count_of(seq![entry], adds_disc()) == if entry.change is DiscAdded {
            1nat
        } else {
            0
        },
        count_of(seq![entry], removes_disc()) == if entry.change is DiscRemoved {
            1nat
        } else {
            0
        },
        count_of(seq![entry], adds_engine()) == if entry.change is EngineAdded {
            1nat
        } else {
            0
        },
        count_of(seq![entry], removes_engine()) == if entry.change is EngineRemoved {
            1nat
        } else {
            0
        },
        count_of(seq![entry], adds_agent()) == if entry.change is AgentAdded {
            1nat
        } else {
            0
        },
    decreases then.len(),
{
    reveal_with_fuel(count_of, 2);
    assert(seq![entry].drop_last() =~= Seq::empty());
    if then.len() == 0 {
        assert(first + then =~= first);
    } else {
        law_lines_are_counted_by_kind(first, then.drop_last(), entry, p);
        assert((first + then).drop_last() =~= first + then.drop_last());
        assert((first + then).last() == then.last());
    }
}

} // verus!
