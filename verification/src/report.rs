//! What the console says about a decoded recording: its inventory in order, its commands by
//! frequency, and how an export went.
use crate::lookup;
use crate::model;
use crate::model::{AgentInfo, AgentInfoView, AvatarSkillLevel, DiscInfo, DiscInfoView, DiscStat, WeaponInfo};
use crate::names::Names;
use crate::scan::DecodeStats;
use crate::snapshot;
use crate::snapshot::Inventory;
use crate::sort;
use crate::sort::Keyed;
use crate::tally;
use crate::tally::Tally;
use crate::text;
use std::collections::BTreeMap;
use vstd::prelude::*;

verus! {

impl Keyed for AgentInfo {
    open spec fn key_spec(&self) -> int {
        self.id as int
    }

    fn sort_key(&self) -> (k: i128) {
        self.id as i128
    }
}

impl Keyed for WeaponInfo {
    open spec fn key_spec(&self) -> int {
        self.id as int
    }

    fn sort_key(&self) -> (k: i128) {
        self.id as i128
    }
}

/// Where a disc stands: by set, then by slot, then by uid.
pub open spec fn disc_place(id: u32, uid: u32) -> int {
    model::disc_set(id) * 0x1_0000_0000_0000_0000 + model::disc_slot(id) * 0x1_0000_0000 + uid
}

impl Keyed for DiscInfo {
    open spec fn key_spec(&self) -> int {
        disc_place(self.id, self.uid)
    }

    fn sort_key(&self) -> (k: i128) {
        self.set_id() as i128 * 0x1_0000_0000_0000_0000 + self.slot() as i128 * 0x1_0000_0000
            + self.uid as i128
    }
}

/// Agents by id.
pub open spec fn agent_order() -> spec_fn(AgentInfoView) -> int {
    |a: AgentInfoView| a.id as int
}

/// W-engines by id.
pub open spec fn engine_order() -> spec_fn(WeaponInfo) -> int {
    |e: WeaponInfo| e.id as int
}

/// Discs by set, slot and uid.
pub open spec fn disc_order() -> spec_fn(DiscInfoView) -> int {
    |d: DiscInfoView| disc_place(d.id, d.uid)
}

/// The agents in the order of their ids.
pub fn agents_by_id(inventory: &Inventory) -> (r: Vec<AgentInfo>)
    ensures
        snapshot::agents_view(r@) == sort::stable_sort(inventory@.agents, agent_order()),
{
    let mut agents: Vec<AgentInfo> = Vec::new();
    let mut i: usize = 0;
    while i < inventory.agents.len()
        invariant
            i <= inventory.agents@.len(),
            agents@.len() == i,
            forall|k: int| 0 <= k < i ==> (#[trigger] agents@[k])@ == inventory.agents@[k]@,
        decreases inventory.agents@.len() - i,
    {
        agents.push(inventory.agents[i].clone());
        i = i + 1;
    }
    let ghost copies = agents@;
    assert(snapshot::agents_view(copies) =~= inventory@.agents);
    sort::sort_by_key(&mut agents);
    proof {
        sort::lemma_stable_sort_map(
            copies,
            |a: AgentInfo| a@,
            |a: AgentInfo| a.key_spec(),
            agent_order(),
        );
    }
    agents
}

/// The w-engines in the order of their ids.
pub fn engines_by_id(inventory: &Inventory) -> (r: Vec<WeaponInfo>)
    ensures
        r@ == sort::stable_sort(inventory@.engines, engine_order()),
{
    let mut engines: Vec<WeaponInfo> = vstd::slice::slice_to_vec(inventory.engines.as_slice());
    sort::sort_by_key(&mut engines);
    assert((|e: WeaponInfo| e.key_spec()) =~= engine_order());
    engines
}

/// The discs in the order of their sets, slots and uids.
pub fn discs_in_order(inventory: &Inventory) -> (r: Vec<DiscInfo>)
    ensures
        snapshot::discs_view(r@) == sort::stable_sort(inventory@.discs, disc_order()),
{
    let mut discs: Vec<DiscInfo> = Vec::new();
    let mut i: usize = 0;
    while i < inventory.discs.len()
        invariant
            i <= inventory.discs@.len(),
            discs@.len() == i,
            forall|k: int| 0 <= k < i ==> (#[trigger] discs@[k])@ == inventory.discs@[k]@,
        decreases inventory.discs@.len() - i,
    {
        discs.push(inventory.discs[i].clone());
        i = i + 1;
    }
    let ghost copies = discs@;
    assert(snapshot::discs_view(copies) =~= inventory@.discs);
    sort::sort_by_key(&mut discs);
    proof {
        sort::lemma_stable_sort_map(
            copies,
            |d: DiscInfo| d@,
            |d: DiscInfo| d.key_spec(),
            disc_order(),
        );
    }
    discs
}

/// The condition to wear the w-engine with a uid; 0 stands for none.
pub open spec fn wears(uid: u32) -> spec_fn(AgentInfoView) -> bool {
    |a: AgentInfoView| a.weapon_uid == uid && uid != 0
}

/// Which agent wears a w-engine: the first that names it.
pub open spec fn wearer(agents: Seq<AgentInfoView>, uid: u32) -> Option<u32> {
    match lookup::find_first(agents, wears(uid)) {
        Some(agent) => Some(agent.id),
        None => None,
    }
}

/// Which agent wears a w-engine.
pub fn engine_wearer(inventory: &Inventory, uid: u32) -> (r: Option<u32>)
    ensures
        r == wearer(inventory@.agents, uid),
{
    let ghost all = inventory@.agents;
    let mut i: usize = 0;
    while i < inventory.agents.len()
        invariant
            i <= inventory.agents@.len(),
            all == inventory@.agents,
            forall|k: int| 0 <= k < i ==> !wears(uid)(#[trigger] all[k]),
        decreases inventory.agents@.len() - i,
    {
        assert(all[i as int] == inventory.agents@[i as int]@);
        if inventory.agents[i].weapon_uid == uid && uid != 0 {
            proof {
                lookup::lemma_find_first(all, wears(uid), i as int);
            }
            return Some(inventory.agents[i].id);
        }
        i = i + 1;
    }
    proof {
        lookup::lemma_find_first(all, wears(uid), i as int);
    }
    None
}

/// The uids of the w-engines that are worn.
pub open spec fn worn_uids(agents: Seq<AgentInfoView>) -> Seq<u64>
    decreases agents.len(),
{
    if agents.len() == 0 {
        Seq::empty()
    } else if agents.last().weapon_uid != 0 {
        worn_uids(agents.drop_last()).push(agents.last().weapon_uid as u64)
    } else {
        worn_uids(agents.drop_last())
    }
}

/// How many different w-engines are worn.
pub fn worn_count(inventory: &Inventory) -> (r: usize)
    ensures
        r == tally::tallied(worn_uids(inventory@.agents)).len(),
{
    let ghost all = inventory@.agents;
    let mut uids: Vec<u64> = Vec::new();
    let mut i: usize = 0;
    assert(all.take(0) =~= Seq::empty());
    while i < inventory.agents.len()
        invariant
            i <= inventory.agents@.len(),
            all == inventory@.agents,
            uids@ == worn_uids(all.take(i as int)),
        decreases inventory.agents@.len() - i,
    {
        assert(all[i as int] == inventory.agents@[i as int]@);
        assert(all.take(i + 1).drop_last() =~= all.take(i as int));
        assert(all.take(i + 1).last() == all[i as int]);
        if inventory.agents[i].weapon_uid != 0 {
            uids.push(inventory.agents[i].weapon_uid as u64);
        }
        i = i + 1;
    }
    assert(all.take(i as int) =~= all);
    let tallies: Vec<Tally> = tally::tally(uids.as_slice());
    tallies.len()
}

/// How many agents wear a w-engine that is not in the list.
pub open spec fn dangling(agents: Seq<AgentInfoView>, engines: Seq<WeaponInfo>) -> nat
    decreases agents.len(),
{
    if agents.len() == 0 {
        0
    } else {
        dangling(agents.drop_last(), engines) + if agents.last().weapon_uid != 0
            && lookup::index_first(engines, snapshot::is_engine(agents.last().weapon_uid))
            == engines.len() {
            1nat
        } else {
            0nat
        }
    }
}

pub fn dangling_count(inventory: &Inventory) -> (r: usize)
    ensures
        r == dangling(inventory@.agents, inventory@.engines),
{
    let ghost all = inventory@.agents;
    let mut found: usize = 0;
    let mut i: usize = 0;
    assert(all.take(0) =~= Seq::empty());
    while i < inventory.agents.len()
        invariant
            i <= inventory.agents@.len(),
            all == inventory@.agents,
            found <= i,
            found == dangling(all.take(i as int), inventory@.engines),
        decreases inventory.agents@.len() - i,
    {
        assert(all[i as int] == inventory.agents@[i as int]@);
        assert(all.take(i + 1).drop_last() =~= all.take(i as int));
        assert(all.take(i + 1).last() == all[i as int]);
        let uid: u32 = inventory.agents[i].weapon_uid;
        if uid != 0 && inventory.engine_index(uid) == inventory.engines.len() {
            found = found + 1;
        }
        i = i + 1;
    }
    assert(all.take(i as int) =~= all);
    found
}

/// The discs of one set.
#[derive(Debug, PartialEq, Eq)]
pub struct SetLine {
    pub set_id: u32,
    pub total: u64,
    /// How many there are of each rarity.
    pub rarities: Vec<Tally>,
}

/// What a [`SetLine`] says.
pub struct SetLineView {
    pub set_id: u32,
    pub total: u64,
    pub rarities: Seq<Tally>,
}

impl View for SetLine {
    type V = SetLineView;

    open spec fn view(&self) -> SetLineView {
        SetLineView { set_id: self.set_id, total: self.total, rarities: self.rarities@ }
    }
}

/// The sets of some discs.
pub open spec fn set_ids(discs: Seq<DiscInfoView>) -> Seq<u64> {
    discs.map_values(|d: DiscInfoView| model::disc_set(d.id) as u64)
}

/// The rarities of the discs of a set.
pub open spec fn rarities_in(discs: Seq<DiscInfoView>, set_id: u64) -> Seq<u64>
    decreases discs.len(),
{
    if discs.len() == 0 {
        Seq::empty()
    } else if model::disc_set(discs.last().id) as u64 == set_id {
        rarities_in(discs.drop_last(), set_id).push(model::disc_rarity(discs.last().id) as u64)
    } else {
        rarities_in(discs.drop_last(), set_id)
    }
}

/// The sets, the one with most discs first.
pub open spec fn set_lines(discs: Seq<DiscInfoView>) -> Seq<SetLineView> {
    sort::stable_sort(tally::tallied(set_ids(discs)), tally::by_count()).map_values(
        |t: Tally|
            SetLineView {
                set_id: t.value as u32,
                total: t.count,
                rarities: tally::tallied(rarities_in(discs, t.value)),
            },
    )
}

fn collect_sets(discs: &Vec<DiscInfo>) -> (r: Vec<u64>)
    ensures
        r@ == set_ids(snapshot::discs_view(discs@)),
{
    let mut out: Vec<u64> = Vec::new();
    let mut i: usize = 0;
    while i < discs.len()
        invariant
            i <= discs@.len(),
            out@.len() == i,
            forall|k: int|
                0 <= k < i ==> #[trigger] out@[k] == model::disc_set(discs@[k].id) as u64,
        decreases discs@.len() - i,
    {
        out.push(discs[i].set_id() as u64);
        i = i + 1;
    }
    assert(out@ =~= set_ids(snapshot::discs_view(discs@)));
    out
}

fn collect_rarities(discs: &Vec<DiscInfo>, set_id: u64) -> (r: Vec<u64>)
    ensures
        r@ == rarities_in(snapshot::discs_view(discs@), set_id),
{
    let ghost all = snapshot::discs_view(discs@);
    let mut out: Vec<u64> = Vec::new();
    let mut i: usize = 0;
    assert(all.take(0) =~= Seq::empty());
    while i < discs.len()
        invariant
            i <= discs@.len(),
            all == snapshot::discs_view(discs@),
            out@ == rarities_in(all.take(i as int), set_id),
        decreases discs@.len() - i,
    {
        assert(all[i as int] == discs@[i as int]@);
        assert(all.take(i + 1).drop_last() =~= all.take(i as int));
        assert(all.take(i + 1).last() == all[i as int]);
        if discs[i].set_id() as u64 == set_id {
            out.push(discs[i].rarity() as u64);
        }
        i = i + 1;
    }
    assert(all.take(i as int) =~= all);
    out
}

pub open spec fn lines_view(lines: Seq<SetLine>) -> Seq<SetLineView> {
    lines.map_values(|l: SetLine| l@)
}

/// The discs by set, the set with most discs first.
pub fn discs_by_set(inventory: &Inventory) -> (r: Vec<SetLine>)
    ensures
        lines_view(r@) == set_lines(inventory@.discs),
{
    let ghost all = inventory@.discs;
    let sets: Vec<u64> = collect_sets(&inventory.discs);
    let mut ranked: Vec<Tally> = tally::tally(sets.as_slice());
    sort::sort_by_key(&mut ranked);
    assert((|t: Tally| t.key_spec()) =~= tally::by_count());
    let mut out: Vec<SetLine> = Vec::new();
    let mut i: usize = 0;
    while i < ranked.len()
        invariant
            i <= ranked@.len(),
            all == inventory@.discs,
            out@.len() == i,
            forall|k: int|
                0 <= k < i ==> (#[trigger] out@[k])@ == (SetLineView {
                    set_id: ranked@[k].value as u32,
                    total: ranked@[k].count,
                    rarities: tally::tallied(rarities_in(all, ranked@[k].value)),
                }),
        decreases ranked@.len() - i,
    {
        let rarities: Vec<u64> = collect_rarities(&inventory.discs, ranked[i].value);
        out.push(
            SetLine {
                set_id: ranked[i].value as u32,
                total: ranked[i].count,
                rarities: tally::tally(rarities.as_slice()),
            },
        );
        i = i + 1;
    }
    assert(lines_view(out@) =~= set_lines(all));
    out
}

/// The sets without a name, of some discs.
pub open spec fn unnamed_ids<N: Names>(discs: Seq<DiscInfoView>, names: N) -> Seq<u64>
    decreases discs.len(),
{
    if discs.len() == 0 {
        Seq::empty()
    } else if names.equipment_name_of(model::disc_set(discs.last().id)) is None {
        unnamed_ids(discs.drop_last(), names).push(model::disc_set(discs.last().id) as u64)
    } else {
        unnamed_ids(discs.drop_last(), names)
    }
}

/// The sets without a name, and how many discs each has.
pub fn unnamed_sets<N: Names>(inventory: &Inventory, names: &N) -> (r: Vec<Tally>)
    ensures
        r@ == tally::tallied(unnamed_ids(inventory@.discs, *names)),
{
    let ghost all = inventory@.discs;
    let mut ids: Vec<u64> = Vec::new();
    let mut i: usize = 0;
    assert(all.take(0) =~= Seq::empty());
    while i < inventory.discs.len()
        invariant
            i <= inventory.discs@.len(),
            all == inventory@.discs,
            ids@ == unnamed_ids(all.take(i as int), *names),
        decreases inventory.discs@.len() - i,
    {
        assert(all[i as int] == inventory.discs@[i as int]@);
        assert(all.take(i + 1).drop_last() =~= all.take(i as int));
        assert(all.take(i + 1).last() == all[i as int]);
        let set_id: u32 = inventory.discs[i].set_id();
        if names.equipment_name(set_id).is_none() {
            ids.push(set_id as u64);
        }
        i = i + 1;
    }
    assert(all.take(i as int) =~= all);
    tally::tally(ids.as_slice())
}

/// A rarity's letter, or a question mark.
pub open spec fn letter_text(rarity: u64) -> Seq<char> {
    match model::rarity_letter(rarity as u32) {
        Some(letter) => letter@,
        None => "?"@,
    }
}

/// How many discs there are of each rarity.
pub open spec fn breakdown_text(rarities: Seq<Tally>) -> Seq<char> {
    text::joined(
        rarities.map_values(|t: Tally| letter_text(t.value) + " "@ + text::decimal(t.count as nat)),
        ", "@,
    )
}

impl SetLine {
    /// How many discs there are of each rarity, in words.
    pub fn breakdown(&self) -> (r: String)
        ensures
            r@ == breakdown_text(self@.rarities),
    {
        let mut parts: Vec<String> = Vec::new();
        let mut i: usize = 0;
        while i < self.rarities.len()
            invariant
                i <= self.rarities@.len(),
                parts@.len() == i,
                forall|k: int|
                    0 <= k < i ==> (#[trigger] parts@[k])@ == letter_text(self.rarities@[k].value)
                        + " "@ + text::decimal(self.rarities@[k].count as nat),
            decreases self.rarities@.len() - i,
        {
            let mut part: String = match model::rarity_key(self.rarities[i].value as u32) {
                Some(letter) => letter.to_owned(),
                None => "?".to_owned(),
            };
            part.push_str(" ");
            text::push_decimal(&mut part, self.rarities[i].count);
            parts.push(part);
            i = i + 1;
        }
        assert(text::texts(parts@) =~= self.rarities@.map_values(
            |t: Tally| letter_text(t.value) + " "@ + text::decimal(t.count as nat),
        ));
        text::join(parts.as_slice(), ", ")
    }
}

/// The level of the skill at a position, or a dash.
pub open spec fn skill_text(skills: Seq<AvatarSkillLevel>, i: int) -> Seq<char> {
    if i < skills.len() {
        text::decimal(skills[i].level as nat)
    } else {
        "-"@
    }
}

/// The levels of the six skills.
pub open spec fn skills_text(skills: Seq<AvatarSkillLevel>) -> Seq<char> {
    text::joined(Seq::new(6, |i: int| skill_text(skills, i)), "/"@)
}

/// The levels of an agent's six skills, with a dash for each that is missing.
pub fn format_skills(agent: &AgentInfo) -> (r: String)
    ensures
        r@ == skills_text(agent@.skills),
{
    let mut parts: Vec<String> = Vec::new();
    let mut i: usize = 0;
    while i < 6
        invariant
            i <= 6,
            parts@.len() == i,
            forall|k: int| 0 <= k < i ==> (#[trigger] parts@[k])@ == skill_text(agent@.skills, k),
        decreases 6 - i,
    {
        let part: String = match agent.skill_level(i) {
            Some(level) => {
                let mut out: String = String::new();
                text::push_decimal(&mut out, level as u64);
                assert(out@ =~= text::decimal(level as nat));
                out
            },
            None => "-".to_owned(),
        };
        parts.push(part);
        i = i + 1;
    }
    assert(text::texts(parts@) =~= Seq::new(6, |i: int| skill_text(agent@.skills, i)));
    text::join(parts.as_slice(), "/")
}

/// A stat's name, or its id.
pub open spec fn stat_label(key: u32) -> Seq<char> {
    match model::stat_of_id(key) {
        Some(info) => info.name@,
        None => "stat#"@ + text::decimal(key as nat),
    }
}

fn stat_text(stat: &DiscStat) -> (r: String)
    ensures
        r@ == stat_label(stat.key),
{
    match stat.stat_name() {
        Some(name) => name.to_owned(),
        None => text::with_number("stat#", stat.key as u64),
    }
}

/// A stat with its two numbers as they were sent.
pub fn format_stat(stat: &DiscStat) -> (r: String)
    ensures
        r@ == stat_label(stat.key) + " (base "@ + text::decimal(stat.base_value as nat) + " add "@
            + text::decimal(stat.add_value as nat) + ")"@,
{
    let mut out: String = stat_text(stat);
    out.push_str(" (base ");
    text::push_decimal(&mut out, stat.base_value as u64);
    out.push_str(" add ");
    text::push_decimal(&mut out, stat.add_value as u64);
    out.push_str(")");
    out
}

/// A substat and how often it was upgraded.
pub open spec fn substat_text(stat: DiscStat) -> Seq<char> {
    stat_label(stat.key) + " +"@ + text::decimal(stat.add_value as nat)
}

pub fn format_substat(stat: &DiscStat) -> (r: String)
    ensures
        r@ == substat_text(*stat),
{
    let mut out: String = stat_text(stat);
    out.push_str(" +");
    text::push_decimal(&mut out, stat.add_value as u64);
    out
}

/// The substats of a disc.
pub fn format_substats(stats: &Vec<DiscStat>) -> (r: String)
    ensures
        r@ == text::joined(stats@.map_values(|s: DiscStat| substat_text(s)), ", "@),
{
    let mut parts: Vec<String> = Vec::new();
    let mut i: usize = 0;
    while i < stats.len()
        invariant
            i <= stats@.len(),
            parts@.len() == i,
            forall|k: int| 0 <= k < i ==> (#[trigger] parts@[k])@ == substat_text(stats@[k]),
        decreases stats@.len() - i,
    {
        parts.push(format_substat(&stats[i]));
        i = i + 1;
    }
    assert(text::texts(parts@) =~= stats@.map_values(|s: DiscStat| substat_text(s)));
    text::join(parts.as_slice(), ", ")
}

/// The counts of the commands below `n`, in the order of the ids.
pub open spec fn counts_below(commands: Map<u16, u64>, n: nat) -> Seq<(u16, u64)>
    decreases n,
{
    if n == 0 {
        Seq::empty()
    } else {
        let id = (n - 1) as u16;
        let rest = counts_below(commands, (n - 1) as nat);
        if commands.contains_key(id) {
            rest.push((id, commands[id]))
        } else {
            rest
        }
    }
}

/// The counts of all commands, in the order of the ids.
pub open spec fn counts_in_order(commands: Map<u16, u64>) -> Seq<(u16, u64)> {
    counts_below(commands, 0x1_0000)
}

/// A list of all counts that ascends is the list in the order of the ids.
proof fn lemma_counts_in_order(commands: Map<u16, u64>, list: Seq<(u16, u64)>, n: nat)
    requires
        n <= 0x1_0000,
        forall|i: int, j: int| 0 <= i < j < list.len() ==> (#[trigger] list[i]).0 < (#[trigger] list[j]).0,
        forall|i: int|
            0 <= i < list.len() ==> (#[trigger] list[i]).0 < n && commands.contains_key(list[i].0)
                && commands[list[i].0] == list[i].1,
        forall|id: u16| #[trigger]
            commands.contains_key(id) && id < n ==> list.contains((id, commands[id])),
    ensures
        list == counts_below(commands, n),
    decreases n,
{
    if n == 0 {
        if list.len() > 0 {
            assert(list[0].0 < n);
        }
        assert(list =~= Seq::empty());
    } else {
        let id = (n - 1) as u16;
        if commands.contains_key(id) {
            let at = choose|at: int| 0 <= at < list.len() && list[at] == (id, commands[id]);
            if at < list.len() - 1 {
                assert(list[at].0 < list[list.len() - 1].0);
            }
            let rest = list.drop_last();
            assert forall|i: int| 0 <= i < rest.len() implies (#[trigger] rest[i]).0 < n - 1 by {
                assert(list[i].0 < list[list.len() - 1].0);
            }
            assert forall|k: u16| #[trigger] commands.contains_key(k) && k < n - 1 implies rest.contains(
                (k, commands[k]),
            ) by {
                let i = choose|i: int| 0 <= i < list.len() && list[i] == (k, commands[k]);
                assert(rest[i] == (k, commands[k]));
            }
            lemma_counts_in_order(commands, rest, (n - 1) as nat);
            assert(list =~= rest.push((id, commands[id])));
        } else {
            assert forall|i: int| 0 <= i < list.len() implies (#[trigger] list[i]).0 < n - 1 by {}
            lemma_counts_in_order(commands, list, (n - 1) as nat);
        }
    }
}

/// Lists the counts in the order of the ids.
fn list_counts(commands: &BTreeMap<u16, u64>) -> (r: Vec<(u16, u64)>)
    ensures
        r@ == counts_in_order(commands@),
{
    broadcast use vstd::laws_cmp::group_laws_cmp;
    let mut out: Vec<(u16, u64)> = Vec::new();
    for entry in entries: commands.iter()
        invariant
            entries.seq().len() == commands@.dom().len(),
            forall|k: u16| #[trigger]
                commands@.contains_key(k) ==> entries.seq().contains((&k, &commands@[k])),
            forall|i: int|
                0 <= i < entries.seq().len() ==> commands@.contains_key(
                    *(#[trigger] entries.seq()[i]).0,
                ) && commands@[*entries.seq()[i].0] == *entries.seq()[i].1,
            vstd::std_specs::btree::increasing_seq(
                entries.seq().map_values(|e: (&u16, &u64)| *e.0),
            ),
            out@ == entries.seq().take(entries.index()).map_values(
                |e: (&u16, &u64)| (*e.0, *e.1),
            ),
    {
        let ghost before = out@;
        out.push((*entry.0, *entry.1));
        proof {
            let all = entries.seq();
            let at = entries.index();
            assert(all.take(at + 1) =~= all.take(at).push(all[at]));
            assert(out@ =~= all.take(at + 1).map_values(|e: (&u16, &u64)| (*e.0, *e.1)));
        }
    }
    proof {
        let all = vstd::std_specs::iter::IteratorSpec::remaining(
            &vstd::std_specs::btree::spec_btree_map_iter(commands),
        );
        let ids = all.map_values(|e: (&u16, &u64)| *e.0);
        assert(all.take(0int + all.len()) =~= all);
        assert forall|i: int, j: int| 0 <= i < j < out@.len() implies (#[trigger] out@[i]).0 < (
        #[trigger] out@[j]).0 by {
            assert(vstd::std_specs::cmp::OrdSpec::cmp_spec(&ids[i], &ids[j]) is Less);
        }
        assert forall|id: u16| #[trigger] commands@.contains_key(id) && id < 0x1_0000 implies out@.contains(
            (id, commands@[id]),
        ) by {
            let i = choose|i: int| 0 <= i < all.len() && all[i] == (&id, &commands@[id]);
            assert(out@[i] == (id, commands@[id]));
        }
        lemma_counts_in_order(commands@, out@, 0x1_0000);
    }
    out
}

/// Commands and how often each was decoded.
pub open spec fn command_tallies(commands: Seq<(u16, u64)>) -> Seq<Tally> {
    commands.map_values(|c: (u16, u64)| Tally { value: c.0 as u64, count: c.1 })
}

/// The `n` most frequent commands; of two that are as frequent, the one with the lower id comes
/// first.
pub fn frequent_commands(commands: &BTreeMap<u16, u64>, n: usize) -> (r: Vec<Tally>)
    ensures
        r@ == tally::top(command_tallies(counts_in_order(commands@)), n as nat),
{
    let counts: Vec<(u16, u64)> = list_counts(commands);
    let mut tallies: Vec<Tally> = Vec::new();
    let mut i: usize = 0;
    while i < counts.len()
        invariant
            i <= counts@.len(),
            tallies@.len() == i,
            forall|k: int|
                0 <= k < i ==> #[trigger] tallies@[k] == (Tally {
                    value: counts@[k].0 as u64,
                    count: counts@[k].1,
                }),
        decreases counts@.len() - i,
    {
        tallies.push(Tally { value: counts[i].0 as u64, count: counts[i].1 });
        i = i + 1;
    }
    assert(tallies@ =~= command_tallies(counts@));
    tally::most_frequent(tallies, n)
}

/// How much of a category was written.
pub open spec fn category_text(name: Seq<char>, written: Option<usize>, captured: usize) -> Seq<char> {
    match written {
        Some(count) => text::decimal(count as nat) + " of "@ + text::decimal(captured as nat)
            + " "@ + name,
        None => name + " not exported"@,
    }
}

/// How much of a category was written, or that it was switched off.
pub fn category_line(name: &str, written: Option<usize>, captured: usize) -> (r: String)
    ensures
        r@ == category_text(name@, written, captured),
{
    match written {
        Some(count) => {
            let mut out: String = String::new();
            text::push_decimal(&mut out, count as u64);
            assert(out@ =~= text::decimal(count as nat));
            out.push_str(" of ");
            text::push_decimal(&mut out, captured as u64);
            out.push_str(" ");
            out.push_str(name);
            out
        },
        None => {
            let mut out: String = name.to_owned();
            out.push_str(" not exported");
            out
        },
    }
}

/// Why nothing can be exported: the login was missed where the handshake is complete, and
/// otherwise the region may be wrong.
pub open spec fn nothing_text(
    label: Seq<char>,
    seed: u64,
    handshake_complete: bool,
    stats: DecodeStats,
    input: Seq<char>,
) -> Seq<char> {
    let region = label + " ("@ + text::hex(seed as nat, 16) + ")"@;
    if handshake_complete {
        region
            + " completed the handshake but nothing was extracted: no GetEquipDataScRsp, GetWeaponDataScRsp or GetAvatarDataScRsp arrived, so the capture probably started after the login finished"@
    } else {
        region + " produced no session key and no inventory ("@ + text::decimal(
            stats.decoded as nat,
        ) + " messages decoded, "@ + text::decimal(stats.proto_failures as nat)
            + " bodies that did not parse): either this is the wrong region, or the capture has no login in it — `zzzcap replay --in "@
            + input + "` reports which"@
    }
}

/// Why nothing can be exported.
pub fn nothing_to_export(
    label: &str,
    seed: u64,
    handshake_complete: bool,
    stats: &DecodeStats,
    input: &str,
) -> (r: String)
    ensures
        r@ == nothing_text(label@, seed, handshake_complete, *stats, input@),
{
    let mut out: String = label.to_owned();
    out.push_str(" (");
    text::push_hex(&mut out, seed, 16);
    out.push_str(")");
    if handshake_complete {
        out.push_str(
            " completed the handshake but nothing was extracted: no GetEquipDataScRsp, GetWeaponDataScRsp or GetAvatarDataScRsp arrived, so the capture probably started after the login finished",
        );
    } else {
        out.push_str(" produced no session key and no inventory (");
        text::push_decimal(&mut out, stats.decoded);
        out.push_str(" messages decoded, ");
        text::push_decimal(&mut out, stats.proto_failures);
        out.push_str(
            " bodies that did not parse): either this is the wrong region, or the capture has no login in it — `zzzcap replay --in ",
        );
        out.push_str(input);
        out.push_str("` reports which");
    }
    out
}

/// A disc stands before another by its set first, then by its slot, then by its uid.
pub proof fn law_discs_are_ordered_by_set_slot_and_uid(a: DiscInfoView, b: DiscInfoView)
    ensures
        disc_order()(a) < disc_order()(b) <==> {
            ||| model::disc_set(a.id) < model::disc_set(b.id)
            ||| model::disc_set(a.id) == model::disc_set(b.id) && model::disc_slot(a.id)
                < model::disc_slot(b.id)
            ||| model::disc_set(a.id) == model::disc_set(b.id) && model::disc_slot(a.id)
                == model::disc_slot(b.id) && a.uid < b.uid
        },
{
}

/// A w-engine is worn by the first agent that names it; uid 0 names none.
pub proof fn law_the_wearer_is_the_first_that_names_it(
    agents: Seq<AgentInfoView>,
    uid: u32,
    i: int,
)
    ensures
        uid != 0 && 0 <= i < agents.len() && agents[i].weapon_uid == uid && (forall|k: int|
            0 <= k < i ==> (#[trigger] agents[k]).weapon_uid != uid) ==> wearer(agents, uid) == Some(
            agents[i].id,
        ),
        (forall|k: int| 0 <= k < agents.len() ==> (#[trigger] agents[k]).weapon_uid != uid) ==> wearer(
            agents,
            uid,
        ) is None,
        wearer(agents, 0) is None,
{
    if uid != 0 && 0 <= i < agents.len() && agents[i].weapon_uid == uid && (forall|k: int|
        0 <= k < i ==> (#[trigger] agents[k]).weapon_uid != uid) {
        lookup::lemma_find_first(agents, wears(uid), i);
    }
    if forall|k: int| 0 <= k < agents.len() ==> (#[trigger] agents[k]).weapon_uid != uid {
        lookup::lemma_find_first(agents, wears(uid), agents.len() as int);
    }
    lookup::lemma_find_first(agents, wears(0), agents.len() as int);
}

/// Agents are counted one by one: each wears what it names, and names something that is missing
/// where no w-engine has that uid.
pub proof fn law_agents_are_counted_by_what_they_wear(
    first: Seq<AgentInfoView>,
    then: Seq<AgentInfoView>,
    agent: AgentInfoView,
    engines: Seq<WeaponInfo>,
)
    ensures
        worn_uids(first + then) == worn_uids(first) + worn_uids(then),
        agent.weapon_uid != 0 ==> worn_uids(seq![agent]) == seq![agent.weapon_uid as u64],
        agent.weapon_uid == 0 ==> worn_uids(seq![agent]) == Seq::<u64>::empty(),
        dangling(first + then, engines) == dangling(first, engines) + dangling(then, engines),
        dangling(seq![agent], engines) == (if agent.weapon_uid != 0 && (forall|k: int|
            0 <= k < engines.len() ==> (#[trigger] engines[k]).uid != agent.weapon_uid) {
            1nat
        } else {
            0nat
        }),
    decreases then.len(),
{
    reveal_with_fuel(worn_uids, 2);
    reveal_with_fuel(dangling, 2);
    assert(seq![agent].drop_last() =~= Seq::empty());
    if agent.weapon_uid != 0 {
        assert(Seq::<u64>::empty().push(agent.weapon_uid as u64) =~= seq![agent.weapon_uid as u64]);
    }
    let p = snapshot::is_engine(agent.weapon_uid);
    lookup::lemma_index_first(engines, p);
    if forall|k: int| 0 <= k < engines.len() ==> (#[trigger] engines[k]).uid != agent.weapon_uid {
        lookup::lemma_find_first(engines, p, engines.len() as int);
    } else {
        let k = choose|k: int|
            0 <= k < engines.len() && (#[trigger] engines[k]).uid == agent.weapon_uid;
        assert(p(engines[k]));
    }
    if then.len() == 0 {
        assert(first + then =~= first);
        assert(worn_uids(first) + Seq::empty() =~= worn_uids(first));
    } else {
        law_agents_are_counted_by_what_they_wear(first, then.drop_last(), agent, engines);
        assert((first + then).drop_last() =~= first + then.drop_last());
        assert((first + then).last() == then.last());
        let rest = worn_uids(then.drop_last());
        let uid = then.last().weapon_uid as u64;
        assert(worn_uids(first) + rest.push(uid) =~= (worn_uids(first) + rest).push(uid));
    }
}

/// Discs are counted one by one: under their set with their rarity, and as unnamed where their
/// set has no name.
pub proof fn law_discs_are_counted_by_their_set<N: Names>(
    first: Seq<DiscInfoView>,
    then: Seq<DiscInfoView>,
    disc: DiscInfoView,
    set_id: u64,
    names: N,
)
    ensures
        rarities_in(first + then, set_id) == rarities_in(first, set_id) + rarities_in(then, set_id),
        model::disc_set(disc.id) as u64 == set_id ==> rarities_in(seq![disc], set_id) == seq![
            model::disc_rarity(disc.id) as u64,
        ],
        model::disc_set(disc.id) as u64 != set_id ==> rarities_in(seq![disc], set_id).len() == 0,
        unnamed_ids(first + then, names) == unnamed_ids(first, names) + unnamed_ids(then, names),
        names.equipment_name_of(model::disc_set(disc.id)) is None ==> unnamed_ids(
            seq![disc],
            names,
        ) == seq![model::disc_set(disc.id) as u64],
        names.equipment_name_of(model::disc_set(disc.id)) is Some ==> unnamed_ids(
            seq![disc],
            names,
        ).len() == 0,
    decreases then.len(),
{
    reveal_with_fuel(rarities_in, 2);
    reveal_with_fuel(unnamed_ids, 2);
    assert(seq![disc].drop_last() =~= Seq::empty());
    let set = model::disc_set(disc.id) as u64;
    let rarity = model::disc_rarity(disc.id) as u64;
    assert(Seq::<u64>::empty().push(set) =~= seq![set]);
    assert(Seq::<u64>::empty().push(rarity) =~= seq![rarity]);
    if then.len() == 0 {
        assert(first + then =~= first);
        assert(rarities_in(first, set_id) + Seq::empty() =~= rarities_in(first, set_id));
        assert(unnamed_ids(first, names) + Seq::empty() =~= unnamed_ids(first, names));
    } else {
        law_discs_are_counted_by_their_set(first, then.drop_last(), disc, set_id, names);
        assert((first + then).drop_last() =~= first + then.drop_last());
        assert((first + then).last() == then.last());
        let a = rarities_in(first, set_id);
        let b = rarities_in(then.drop_last(), set_id);
        let r = model::disc_rarity(then.last().id) as u64;
        assert(a + b.push(r) =~= (a + b).push(r));
        let c = unnamed_ids(first, names);
        let d = unnamed_ids(then.drop_last(), names);
        let s = model::disc_set(then.last().id) as u64;
        assert(c + d.push(s) =~= (c + d).push(s));
    }
}

/// Every set that some disc belongs to has a line, with as many discs as it has; the lines with
/// more discs come first.
pub proof fn law_sets_are_listed_by_size(discs: Seq<DiscInfoView>, i: int, j: int)
    requires
        discs.len() <= u64::MAX,
        0 <= i < j < set_lines(discs).len(),
    ensures
        set_lines(discs)[i].total >= set_lines(discs)[j].total,
        set_lines(discs)[i].total == tally::occurrences(
            set_ids(discs),
            set_lines(discs)[i].set_id as u64,
        ),
        set_lines(discs)[i].rarities == tally::tallied(
            rarities_in(discs, set_lines(discs)[i].set_id as u64),
        ),
{
    let all = tally::tallied(set_ids(discs));
    let ranked = sort::stable_sort(all, tally::by_count());
    let key = tally::by_count();
    tally::law_tallies_count_occurrences(set_ids(discs));
    sort::law_stable_sort(all, key);
    assert(key(ranked[i]) <= key(ranked[j]));
    sort::law_sorting_keeps_the_members(all, key, ranked[i]);
    assert(ranked.contains(ranked[i]));
    let a = choose|a: int| 0 <= a < all.len() && all[a] == ranked[i];
    assert(all[a].count == tally::occurrences(set_ids(discs), all[a].value));
    lemma_occurs(set_ids(discs), all[a].value);
    let k = choose|k: int| 0 <= k < set_ids(discs).len() && set_ids(discs)[k] == all[a].value;
    assert(set_ids(discs)[k] == model::disc_set(discs[k].id) as u64);
}

proof fn lemma_occurs(values: Seq<u64>, value: u64)
    requires
        tally::occurrences(values, value) > 0,
    ensures
        exists|k: int| 0 <= k < values.len() && values[k] == value,
    decreases values.len(),
{
    if values.len() > 0 && values.last() != value {
        lemma_occurs(values.drop_last(), value);
        let k = choose|k: int|
            0 <= k < values.drop_last().len() && values.drop_last()[k] == value;
        assert(values[k] == value);
    } else if values.len() > 0 {
        assert(values[values.len() - 1] == value);
    }
}

/// The agents are listed in the order of their ids, and the w-engines too, and none is lost.
pub proof fn law_items_are_listed_by_id(
    agents: Seq<AgentInfoView>,
    engines: Seq<WeaponInfo>,
    i: int,
    j: int,
)
    requires
        0 <= i <= j,
    ensures
        sort::stable_sort(agents, agent_order()).len() == agents.len(),
        sort::stable_sort(engines, engine_order()).len() == engines.len(),
        j < agents.len() ==> sort::stable_sort(agents, agent_order())[i].id <= sort::stable_sort(
            agents,
            agent_order(),
        )[j].id,
        j < engines.len() ==> sort::stable_sort(engines, engine_order())[i].id <= sort::stable_sort(
            engines,
            engine_order(),
        )[j].id,
{
    sort::law_stable_sort(agents, agent_order());
    sort::law_stable_sort(engines, engine_order());
    let a = sort::stable_sort(agents, agent_order());
    let e = sort::stable_sort(engines, engine_order());
    if j < agents.len() {
        assert(agent_order()(a[i]) <= agent_order()(a[j]));
    }
    if j < engines.len() {
        assert(engine_order()(e[i]) <= engine_order()(e[j]));
    }
}

/// The commands are listed with their counts, each once and in the order of their ids.
pub proof fn law_commands_are_listed_by_id(commands: Map<u16, u64>, n: nat)
    requires
        n <= 0x1_0000,
    ensures
        forall|i: int, j: int|
            0 <= i < j < counts_below(commands, n).len() ==> (#[trigger] counts_below(
                commands,
                n,
            )[i]).0 < (#[trigger] counts_below(commands, n)[j]).0,
        forall|i: int|
            0 <= i < counts_below(commands, n).len() ==> {
                &&& (#[trigger] counts_below(commands, n)[i]).0 < n
                &&& commands.contains_key(counts_below(commands, n)[i].0)
                &&& counts_below(commands, n)[i].1 == commands[counts_below(commands, n)[i].0]
            },
        forall|id: u16| #[trigger]
            commands.contains_key(id) && id < n ==> counts_below(commands, n).contains(
                (id, commands[id]),
            ),
        counts_in_order(commands) == counts_below(commands, 65536),
    decreases n,
{
    if n > 0 {
        law_commands_are_listed_by_id(commands, (n - 1) as nat);
        let rest = counts_below(commands, (n - 1) as nat);
        let all = counts_below(commands, n);
        let last = (n - 1) as u16;
        assert forall|id: u16| #[trigger] commands.contains_key(id) && id < n implies all.contains(
            (id, commands[id]),
        ) by {
            if id == last {
                assert(all[rest.len() as int] == (id, commands[id]));
            } else {
                assert(rest.contains((id, commands[id])));
                let k = choose|k: int| 0 <= k < rest.len() && rest[k] == (id, commands[id]);
                assert(all[k] == (id, commands[id]));
            }
        }
    }
}

/// The six skills are written in order, with slashes between them, and a dash for each that is
/// missing.
pub proof fn law_skills_are_written_in_order(skills: Seq<AvatarSkillLevel>)
    ensures
        ({
            let parts = text::split(skills_text(skills), '/');
            &&& parts.len() == 6
            &&& forall|i: int|
                0 <= i < 6 && i < skills.len() ==> #[trigger] parts[i] == text::decimal(
                    skills[i].level as nat,
                )
            &&& forall|i: int| skills.len() <= i < 6 ==> #[trigger] parts[i] == "-"@
        }),
{
    reveal_strlit("/");
    reveal_strlit("-");
    assert("/"@ =~= seq!['/']);
    let parts = Seq::new(6, |i: int| skill_text(skills, i));
    assert forall|i: int| 0 <= i < parts.len() implies !(#[trigger] parts[i]).contains('/') by {
        if i < skills.len() {
            text::lemma_decimal_lacks(skills[i].level as nat, '/');
        } else if parts[i].contains('/') {
            let k = choose|k: int| 0 <= k < parts[i].len() && parts[i][k] == '/';
            assert("-"@[k] == '-');
        }
    }
    text::law_splitting_undoes_joining(parts, '/');
}

/// A stat goes by its name, or by its id where the table does not have it, with how often it was
/// upgraded; a rarity goes by its letter, or a question mark.
pub proof fn law_stats_and_rarities_are_labelled(stat: DiscStat, rarity: u64)
    requires
        rarity <= u32::MAX,
    ensures
        model::stat_of_id(stat.key) is Some ==> substat_text(stat) == model::stat_of_id(
            stat.key,
        )->Some_0.name@ + " +"@ + text::decimal(stat.add_value as nat),
        model::stat_of_id(stat.key) is None ==> substat_text(stat) == "stat#"@ + text::decimal(
            stat.key as nat,
        ) + " +"@ + text::decimal(stat.add_value as nat),
        rarity == 3 ==> letter_text(rarity) == "B"@,
        rarity == 4 ==> letter_text(rarity) == "A"@,
        rarity == 5 ==> letter_text(rarity) == "S"@,
        rarity < 3 || rarity > 5 ==> letter_text(rarity) == "?"@,
{
}

} // verus!
