//! Discs, w-engines and agents, read out of decoded messages by field number.
//!
//! A stat or a rarity that the tables do not know is reported as unknown. A field of the
//! wrong wire type is skipped.
use crate::datamine::Datamine;
use crate::lookup;
use crate::proto;
use crate::proto::{FieldView, Message, Value, ValueView};
use vstd::prelude::*;

verus! {

#[derive(Debug, Clone, Copy, PartialEq, Eq)]
pub struct StatInfo {
    pub name: &'static str,
    /// Percentages are sent in hundredths.
    pub is_percentage: bool,
}

/// Every stat: its id, its name, and whether it is a percentage.
pub const STAT_MAP: [(u32, &'static str, bool); 20] = [
    (11102, "hp_", true),
    (11103, "hp", false),
    (12102, "atk_", true),
    (12103, "atk", false),
    (12202, "impact_", true),
    (13102, "def_", true),
    (13103, "def", false),
    (20103, "crit_", true),
    (21103, "crit_dmg_", true),
    (23103, "pen_", true),
    (23203, "pen", false),
    (30502, "enerRegen_", true),
    (31203, "anomProf", false),
    (31402, "anomMas_", true),
    (31503, "physical_dmg_", true),
    (31603, "fire_dmg_", true),
    (31703, "ice_dmg_", true),
    (31803, "electric_dmg_", true),
    (31903, "ether_dmg_", true),
    (32303, "wind_dmg_", true),
];

/// The condition to be a stat's entry.
pub open spec fn is_stat(key: u32) -> spec_fn((u32, &'static str, bool)) -> bool {
    |e: (u32, &'static str, bool)| e.0 == key
}

/// What the table says of a stat id.
pub open spec fn stat_of_id(key: u32) -> Option<StatInfo> {
    match lookup::find_first(STAT_MAP@, is_stat(key)) {
        Some(e) => Some(StatInfo { name: e.1, is_percentage: e.2 }),
        None => None,
    }
}

pub fn stat_info(key: u32) -> (r: Option<StatInfo>)
    ensures
        r == stat_of_id(key),
{
    let mut i: usize = 0;
    while i < 20
        invariant
            i <= 20,
            forall|k: int| 0 <= k < i ==> !is_stat(key)(#[trigger] STAT_MAP@[k]),
        decreases 20 - i,
    {
        let entry: (u32, &'static str, bool) = STAT_MAP[i];
        if entry.0 == key {
            proof {
                lookup::lemma_find_first(STAT_MAP@, is_stat(key), i as int);
            }
            return Some(StatInfo { name: entry.1, is_percentage: entry.2 });
        }
        i = i + 1;
    }
    proof {
        lookup::lemma_find_first(STAT_MAP@, is_stat(key), 20);
    }
    None
}


/// The letter the export writes for a rarity.
pub open spec fn rarity_letter(rarity: u32) -> Option<&'static str> {
    if rarity == 3 {
        Some("B")
    } else if rarity == 4 {
        Some("A")
    } else if rarity == 5 {
        Some("S")
    } else {
        None
    }
}

pub fn rarity_key(rarity: u32) -> (r: Option<&'static str>)
    ensures
        r == rarity_letter(rarity),
{
    match rarity {
        3 => Some("B"),
        4 => Some("A"),
        5 => Some("S"),
        _ => None,
    }
}

/// The last varint under a field number; occurrences of another wire type do not count.
pub open spec fn last_varint_of(fields: Seq<FieldView>, number: u32) -> Option<u64>
    decreases fields.len(),
{
    if fields.len() == 0 {
        None
    } else if fields.last().number == number && fields.last().value is Varint {
        proto::varint_of(fields.last().value)
    } else {
        last_varint_of(fields.drop_last(), number)
    }
}

/// A scalar field, cut to 32 bits; zero where it is missing.
pub open spec fn scalar(fields: Seq<FieldView>, number: u32) -> u32 {
    match last_varint_of(fields, number) {
        Some(v) => (v % 0x1_0000_0000) as u32,
        None => 0,
    }
}

/// As [`scalar`]; zero too where `number` already stands for one of the fields before it.
pub open spec fn scalar_unless(fields: Seq<FieldView>, number: u32, earlier: Seq<u32>) -> u32 {
    if earlier.contains(number) {
        0
    } else {
        scalar(fields, number)
    }
}

/// What a nested field holds: a payload that does not decode counts as an empty message.
pub open spec fn nested_of(value: ValueView) -> Option<Seq<FieldView>> {
    match value {
        ValueView::LengthDelimited(b) => match proto::decoded(b) {
            Ok(fields) => Some(fields),
            Err(_) => Some(Seq::empty()),
        },
        _ => None,
    }
}

/// The nested messages under a field number, in order.
pub open spec fn all_nested(fields: Seq<FieldView>, number: u32) -> Seq<Seq<FieldView>>
    decreases fields.len(),
{
    if fields.len() == 0 {
        Seq::empty()
    } else if fields.last().number == number && nested_of(fields.last().value) is Some {
        all_nested(fields.drop_last(), number).push(nested_of(fields.last().value)->Some_0)
    } else {
        all_nested(fields.drop_last(), number)
    }
}

/// As [`all_nested`]; none where `number` already stands for one of the fields before it.
pub open spec fn nested_unless(fields: Seq<FieldView>, number: u32, earlier: Seq<u32>) -> Seq<
    Seq<FieldView>,
> {
    if earlier.contains(number) {
        Seq::empty()
    } else {
        all_nested(fields, number)
    }
}

/// Reads a scalar field.
fn varint_field(message: &Message, number: u32) -> (r: u32)
    ensures
        r == scalar(message@, number),
{
    let mut i: usize = message.fields.len();
    assert(message@.take(i as int) =~= message@);
    while i > 0
        invariant
            i <= message.fields@.len(),
            message@.len() == message.fields@.len(),
            last_varint_of(message@, number) == last_varint_of(message@.take(i as int), number),
        decreases i,
    {
        assert(message@[i - 1] == message.fields@[i - 1].model());
        assert(message@.take(i as int).last() == message@[i - 1]);
        assert(message@.take(i as int).drop_last() =~= message@.take(i - 1));
        if message.fields[i - 1].number == number {
            if let Value::Varint(v) = &message.fields[i - 1].value {
                return (*v % 0x1_0000_0000) as u32;
            }
        }
        i = i - 1;
    }
    0
}

/// Reads the nested messages under a field number.
fn nested_fields(message: &Message, number: u32) -> (r: Vec<Message>)
    ensures
        r@.map_values(|m: Message| m@) == all_nested(message@, number),
{
    let ghost view = |m: Message| m@;
    let mut out: Vec<Message> = Vec::new();
    let mut i: usize = 0;
    assert(message@.take(0) =~= Seq::empty());
    assert(out@.map_values(view) =~= Seq::empty());
    while i < message.fields.len()
        invariant
            i <= message.fields@.len(),
            message@.len() == message.fields@.len(),
            view == (|m: Message| m@),
            out@.map_values(view) == all_nested(message@.take(i as int), number),
        decreases message.fields@.len() - i,
    {
        assert(message@[i as int] == message.fields@[i as int].model());
        assert(message@.take(i + 1).last() == message@[i as int]);
        assert(message@.take(i + 1).drop_last() =~= message@.take(i as int));
        if message.fields[i].number == number {
            if let Value::LengthDelimited(bytes) = &message.fields[i].value {
                let nested: Message = match Message::decode(bytes.as_slice()) {
                    Ok(nested) => nested,
                    Err(_) => Message::default(),
                };
                let ghost before = out@;
                out.push(nested);
                assert(out@.map_values(view) =~= before.map_values(view).push(nested@));
            }
        }
        i = i + 1;
    }
    assert(message@.take(i as int) =~= message@);
    out
}

#[derive(Debug, Clone, Copy, PartialEq, Eq, Structural)]
pub struct DiscStat {
    pub key: u32,
    pub base_value: u32,
    pub add_value: u32,
}

/// The stat in a message.
pub open spec fn stat_in(fields: Seq<FieldView>, datamine: Datamine) -> DiscStat {
    DiscStat {
        key: scalar(fields, datamine.disc_stat.key),
        base_value: scalar(fields, datamine.disc_stat.base_value),
        add_value: scalar(fields, datamine.disc_stat.add_value),
    }
}

impl Default for DiscStat {
    fn default() -> (r: DiscStat)
        ensures
            r == (DiscStat { key: 0, base_value: 0, add_value: 0 }),
    {
        DiscStat { key: 0, base_value: 0, add_value: 0 }
    }
}

impl DiscStat {
    pub fn from_message(message: &Message, datamine: &Datamine) -> (r: DiscStat)
        ensures
            r == stat_in(message@, *datamine),
    {
        DiscStat {
            key: varint_field(message, datamine.disc_stat.key),
            base_value: varint_field(message, datamine.disc_stat.base_value),
            add_value: varint_field(message, datamine.disc_stat.add_value),
        }
    }

    pub fn stat_name(&self) -> (r: Option<&'static str>)
        ensures
            r == match stat_of_id(self.key) {
                Some(info) => Some(info.name),
                None => None,
            },
    {
        match stat_info(self.key) {
            Some(info) => Some(info.name),
            None => None,
        }
    }

    /// Whether the value is a percentage, and therefore sent in hundredths.
    pub fn is_percentage(&self) -> (r: bool)
        ensures
            r == (stat_of_id(self.key) is Some && stat_of_id(self.key)->Some_0.is_percentage),
    {
        match stat_info(self.key) {
            Some(info) => info.is_percentage,
            None => false,
        }
    }
}

#[derive(Debug, PartialEq, Eq)]
pub struct DiscInfo {
    pub uid: u32,
    pub id: u32,
    pub level: u32,
    pub main_stat: DiscStat,
    pub sub_stats: Vec<DiscStat>,
}

/// What a [`DiscInfo`] holds.
pub struct DiscInfoView {
    pub uid: u32,
    pub id: u32,
    pub level: u32,
    pub main_stat: DiscStat,
    pub sub_stats: Seq<DiscStat>,
}

impl View for DiscInfo {
    type V = DiscInfoView;

    open spec fn view(&self) -> DiscInfoView {
        DiscInfoView {
            uid: self.uid,
            id: self.id,
            level: self.level,
            main_stat: self.main_stat,
            sub_stats: self.sub_stats@,
        }
    }
}

/// The rarity digit of a disc id, counted from 1.
pub open spec fn disc_rarity(id: u32) -> u32 {
    (id / 10 % 10 + 1) as u32
}

/// The slot digit of a disc id.
pub open spec fn disc_slot(id: u32) -> u32 {
    id % 10
}

/// A disc id without its slot and rarity digits.
pub open spec fn disc_set(id: u32) -> u32 {
    (id / 100 * 100) as u32
}

/// The disc in a message. Where the data file gives two fields one number, the one named
/// first here has it.
pub open spec fn disc_in(fields: Seq<FieldView>, datamine: Datamine) -> DiscInfoView {
    let f = datamine.disc_info;
    let mains = nested_unless(fields, f.main_stat, seq![f.uid, f.id, f.level]);
    let subs = nested_unless(fields, f.sub_stats, seq![f.uid, f.id, f.level, f.main_stat]);
    DiscInfoView {
        uid: scalar(fields, f.uid),
        id: scalar_unless(fields, f.id, seq![f.uid]),
        level: scalar_unless(fields, f.level, seq![f.uid, f.id]),
        main_stat: if mains.len() > 0 {
            stat_in(mains.last(), datamine)
        } else {
            DiscStat { key: 0, base_value: 0, add_value: 0 }
        },
        sub_stats: subs.map_values(|m: Seq<FieldView>| stat_in(m, datamine)),
    }
}

impl Clone for DiscInfo {
    fn clone(&self) -> (r: DiscInfo)
        ensures
            r@ == self@,
    {
        DiscInfo {
            uid: self.uid,
            id: self.id,
            level: self.level,
            main_stat: self.main_stat,
            sub_stats: vstd::slice::slice_to_vec(self.sub_stats.as_slice()),
        }
    }
}

impl Default for DiscInfo {
    fn default() -> (r: DiscInfo)
        ensures
            r@ == (DiscInfoView {
                uid: 0,
                id: 0,
                level: 0,
                main_stat: DiscStat { key: 0, base_value: 0, add_value: 0 },
                sub_stats: Seq::empty(),
            }),
    {
        DiscInfo { uid: 0, id: 0, level: 0, main_stat: DiscStat::default(), sub_stats: Vec::new() }
    }
}

impl DiscInfo {
    pub fn rarity(&self) -> (r: u32)
        ensures
            r == disc_rarity(self.id),
    {
        self.id / 10 % 10 + 1
    }

    pub fn slot(&self) -> (r: u32)
        ensures
            r == disc_slot(self.id),
    {
        self.id % 10
    }

    pub fn set_id(&self) -> (r: u32)
        ensures
            r == disc_set(self.id),
    {
        self.id / 100 * 100
    }

    pub fn from_message(message: &Message, datamine: &Datamine) -> (r: DiscInfo)
        ensures
            r@ == disc_in(message@, *datamine),
    {
        let f = datamine.disc_info;
        let ghost g1 = seq![f.uid];
        let ghost g2 = seq![f.uid, f.id];
        let ghost g3 = seq![f.uid, f.id, f.level];
        let ghost g4 = seq![f.uid, f.id, f.level, f.main_stat];
        proof {
            assert(g1[0] == f.uid);
            assert(g2[0] == f.uid && g2[1] == f.id);
            assert(g3[0] == f.uid && g3[1] == f.id && g3[2] == f.level);
            assert(g4[0] == f.uid && g4[1] == f.id && g4[2] == f.level && g4[3] == f.main_stat);
        }
        let uid: u32 = varint_field(message, f.uid);
        let id: u32 = if f.id == f.uid {
            0
        } else {
            varint_field(message, f.id)
        };
        let level: u32 = if f.level == f.uid || f.level == f.id {
            0
        } else {
            varint_field(message, f.level)
        };
        let mut main_stat: DiscStat = DiscStat::default();
        if !(f.main_stat == f.uid || f.main_stat == f.id || f.main_stat == f.level) {
            let mains: Vec<Message> = nested_fields(message, f.main_stat);
            let ghost model = mains@.map_values(|m: Message| m@);
            assert(model.len() == mains@.len());
            if mains.len() > 0 {
                assert(model.last() == mains@.last()@);
                main_stat = DiscStat::from_message(&mains[mains.len() - 1], datamine);
            }
        }
        let mut sub_stats: Vec<DiscStat> = Vec::new();
        let ghost wanted = nested_unless(message@, f.sub_stats, g4).map_values(
            |m: Seq<FieldView>| stat_in(m, *datamine),
        );
        if !(f.sub_stats == f.uid || f.sub_stats == f.id || f.sub_stats == f.level || f.sub_stats
            == f.main_stat) {
            let subs: Vec<Message> = nested_fields(message, f.sub_stats);
            let ghost model = subs@.map_values(|m: Message| m@);
            assert(model == all_nested(message@, f.sub_stats));
            let mut i: usize = 0;
            while i < subs.len()
                invariant
                    i <= subs@.len(),
                    sub_stats@.len() == i,
                    forall|k: int| 0 <= k < i ==> #[trigger] sub_stats@[k] == stat_in(subs@[k]@, *datamine),
                decreases subs@.len() - i,
            {
                sub_stats.push(DiscStat::from_message(&subs[i], datamine));
                i = i + 1;
            }
            assert(wanted.len() == model.len());
            assert forall|k: int| 0 <= k < wanted.len() implies sub_stats@[k] == wanted[k] by {
                assert(model[k] == subs@[k]@);
            }
        }
        assert(sub_stats@ =~= wanted);
        DiscInfo { uid, id, level, main_stat, sub_stats }
    }
}

#[derive(Debug, Clone, Copy, PartialEq, Eq, Structural)]
pub struct WeaponInfo {
    pub id: u32,
    pub uid: u32,
    pub level: u32,
    pub phase: u32,
    pub modification: u32,
}

/// The w-engine in a message.
pub open spec fn weapon_in(fields: Seq<FieldView>, datamine: Datamine) -> WeaponInfo {
    WeaponInfo {
        id: scalar(fields, datamine.weapon_info.id),
        uid: scalar(fields, datamine.weapon_info.uid),
        level: scalar(fields, datamine.weapon_info.level),
        phase: scalar(fields, datamine.weapon_info.phase),
        modification: scalar(fields, datamine.weapon_info.modification),
    }
}

impl Default for WeaponInfo {
    fn default() -> (r: WeaponInfo)
        ensures
            r == (WeaponInfo { id: 0, uid: 0, level: 0, phase: 0, modification: 0 }),
    {
        WeaponInfo { id: 0, uid: 0, level: 0, phase: 0, modification: 0 }
    }
}

impl WeaponInfo {
    pub fn from_message(message: &Message, datamine: &Datamine) -> (r: WeaponInfo)
        ensures
            r == weapon_in(message@, *datamine),
    {
        WeaponInfo {
            id: varint_field(message, datamine.weapon_info.id),
            uid: varint_field(message, datamine.weapon_info.uid),
            level: varint_field(message, datamine.weapon_info.level),
            phase: varint_field(message, datamine.weapon_info.phase),
            modification: varint_field(message, datamine.weapon_info.modification),
        }
    }
}

#[derive(Debug, Clone, Copy, PartialEq, Eq, Structural)]
pub struct AvatarSkillLevel {
    pub skill_type: u32,
    pub level: u32,
}

/// The skill in a message.
pub open spec fn skill_in(fields: Seq<FieldView>, datamine: Datamine) -> AvatarSkillLevel {
    AvatarSkillLevel {
        skill_type: scalar(fields, datamine.agent_skill.skill_type),
        level: scalar(fields, datamine.agent_skill.level),
    }
}

impl AvatarSkillLevel {
    pub fn from_message(message: &Message, datamine: &Datamine) -> (r: AvatarSkillLevel)
        ensures
            r == skill_in(message@, *datamine),
    {
        AvatarSkillLevel {
            skill_type: varint_field(message, datamine.agent_skill.skill_type),
            level: varint_field(message, datamine.agent_skill.level),
        }
    }
}

#[derive(Debug, Clone, Copy, PartialEq, Eq, Structural)]
pub struct DressedEquip {
    pub uid: u32,
    pub slot: u32,
}

/// The worn disc in a message.
pub open spec fn equip_in(fields: Seq<FieldView>, datamine: Datamine) -> DressedEquip {
    DressedEquip {
        uid: scalar(fields, datamine.agent_equip.uid),
        slot: scalar(fields, datamine.agent_equip.slot),
    }
}

impl DressedEquip {
    pub fn from_message(message: &Message, datamine: &Datamine) -> (r: DressedEquip)
        ensures
            r == equip_in(message@, *datamine),
    {
        DressedEquip {
            uid: varint_field(message, datamine.agent_equip.uid),
            slot: varint_field(message, datamine.agent_equip.slot),
        }
    }
}

#[derive(Debug, PartialEq, Eq)]
pub struct AgentInfo {
    pub id: u32,
    pub level: u32,
    pub promotion: u32,
    pub weapon_uid: u32,
    pub mindscape: u32,
    pub skills: Vec<AvatarSkillLevel>,
    pub dressed_equips: Vec<DressedEquip>,
}

/// What an [`AgentInfo`] holds.
pub struct AgentInfoView {
    pub id: u32,
    pub level: u32,
    pub promotion: u32,
    pub weapon_uid: u32,
    pub mindscape: u32,
    pub skills: Seq<AvatarSkillLevel>,
    pub dressed_equips: Seq<DressedEquip>,
}

impl View for AgentInfo {
    type V = AgentInfoView;

    open spec fn view(&self) -> AgentInfoView {
        AgentInfoView {
            id: self.id,
            level: self.level,
            promotion: self.promotion,
            weapon_uid: self.weapon_uid,
            mindscape: self.mindscape,
            skills: self.skills@,
            dressed_equips: self.dressed_equips@,
        }
    }
}

/// The agent in a message. Where the data file gives two fields one number, the one named
/// first here has it.
pub open spec fn agent_in(fields: Seq<FieldView>, datamine: Datamine) -> AgentInfoView {
    let f = datamine.agent_info;
    AgentInfoView {
        id: scalar(fields, f.id),
        level: scalar_unless(fields, f.level, seq![f.id]),
        promotion: scalar_unless(fields, f.promotion, seq![f.id, f.level]),
        weapon_uid: scalar_unless(fields, f.weapon_uid, seq![f.id, f.level, f.promotion]),
        mindscape: scalar_unless(
            fields,
            f.mindscape,
            seq![f.id, f.level, f.promotion, f.weapon_uid],
        ),
        skills: nested_unless(
            fields,
            f.skills,
            seq![f.id, f.level, f.promotion, f.weapon_uid, f.mindscape],
        ).map_values(|m: Seq<FieldView>| skill_in(m, datamine)),
        dressed_equips: nested_unless(
            fields,
            f.dressed_equips,
            seq![f.id, f.level, f.promotion, f.weapon_uid, f.mindscape, f.skills],
        ).map_values(|m: Seq<FieldView>| equip_in(m, datamine)),
    }
}

impl Clone for AgentInfo {
    fn clone(&self) -> (r: AgentInfo)
        ensures
            r@ == self@,
    {
        AgentInfo {
            id: self.id,
            level: self.level,
            promotion: self.promotion,
            weapon_uid: self.weapon_uid,
            mindscape: self.mindscape,
            skills: vstd::slice::slice_to_vec(self.skills.as_slice()),
            dressed_equips: vstd::slice::slice_to_vec(self.dressed_equips.as_slice()),
        }
    }
}

impl Default for AgentInfo {
    fn default() -> (r: AgentInfo)
        ensures
            r@ == (AgentInfoView {
                id: 0,
                level: 0,
                promotion: 0,
                weapon_uid: 0,
                mindscape: 0,
                skills: Seq::empty(),
                dressed_equips: Seq::empty(),
            }),
    {
        AgentInfo {
            id: 0,
            level: 0,
            promotion: 0,
            weapon_uid: 0,
            mindscape: 0,
            skills: Vec::new(),
            dressed_equips: Vec::new(),
        }
    }
}

/// Whether a number is among others.
fn among(number: u32, others: &[u32]) -> (r: bool)
    ensures
        r == others@.contains(number),
{
    let mut i: usize = 0;
    while i < others.len()
        invariant
            i <= others@.len(),
            forall|k: int| 0 <= k < i ==> #[trigger] others@[k] != number,
        decreases others@.len() - i,
    {
        if others[i] == number {
            return true;
        }
        i = i + 1;
    }
    false
}

impl AgentInfo {
    /// The level of the skill at a position: 0 basic, 1 special, 2 dodge, 3 chain, 4 core,
    /// 5 assist.
    pub fn skill_level(&self, position: usize) -> (r: Option<u32>)
        ensures
            r == if position < self.skills@.len() {
                Some(self.skills@[position as int].level)
            } else {
                None
            },
    {
        if position < self.skills.len() {
            Some(self.skills[position].level)
        } else {
            None
        }
    }

    pub fn from_message(message: &Message, datamine: &Datamine) -> (r: AgentInfo)
        ensures
            r@ == agent_in(message@, *datamine),
    {
        let f = datamine.agent_info;
        let numbers: [u32; 6] = [
            f.id,
            f.level,
            f.promotion,
            f.weapon_uid,
            f.mindscape,
            f.skills,
        ];
        let all: &[u32] = numbers.as_slice();
        let id: u32 = varint_field(message, f.id);
        let level: u32 = Self::own_scalar(message, f.level, vstd::slice::slice_subrange(all, 0, 1));
        let promotion: u32 = Self::own_scalar(
            message,
            f.promotion,
            vstd::slice::slice_subrange(all, 0, 2),
        );
        let weapon_uid: u32 = Self::own_scalar(
            message,
            f.weapon_uid,
            vstd::slice::slice_subrange(all, 0, 3),
        );
        let mindscape: u32 = Self::own_scalar(
            message,
            f.mindscape,
            vstd::slice::slice_subrange(all, 0, 4),
        );
        proof {
            assert(all@.subrange(0, 1) =~= seq![f.id]);
            assert(all@.subrange(0, 2) =~= seq![f.id, f.level]);
            assert(all@.subrange(0, 3) =~= seq![f.id, f.level, f.promotion]);
            assert(all@.subrange(0, 4) =~= seq![f.id, f.level, f.promotion, f.weapon_uid]);
            assert(all@.subrange(0, 5) =~= seq![
                f.id,
                f.level,
                f.promotion,
                f.weapon_uid,
                f.mindscape,
            ]);
            assert(all@ =~= seq![f.id, f.level, f.promotion, f.weapon_uid, f.mindscape, f.skills]);
        }
        let mut skills: Vec<AvatarSkillLevel> = Vec::new();
        let ghost wanted = nested_unless(message@, f.skills, all@.subrange(0, 5)).map_values(
            |m: Seq<FieldView>| skill_in(m, *datamine),
        );
        if !among(f.skills, vstd::slice::slice_subrange(all, 0, 5)) {
            let nested: Vec<Message> = nested_fields(message, f.skills);
            let ghost model = nested@.map_values(|m: Message| m@);
            assert(model == all_nested(message@, f.skills));
            let mut i: usize = 0;
            while i < nested.len()
                invariant
                    i <= nested@.len(),
                    skills@.len() == i,
                    forall|k: int| 0 <= k < i ==> #[trigger] skills@[k] == skill_in(nested@[k]@, *datamine),
                decreases nested@.len() - i,
            {
                skills.push(AvatarSkillLevel::from_message(&nested[i], datamine));
                i = i + 1;
            }
            assert(wanted.len() == model.len());
            assert forall|k: int| 0 <= k < wanted.len() implies skills@[k] == wanted[k] by {
                assert(model[k] == nested@[k]@);
            }
        }
        assert(skills@ =~= wanted);
        let mut dressed_equips: Vec<DressedEquip> = Vec::new();
        let ghost wanted = nested_unless(message@, f.dressed_equips, all@).map_values(
            |m: Seq<FieldView>| equip_in(m, *datamine),
        );
        if !among(f.dressed_equips, all) {
            let nested: Vec<Message> = nested_fields(message, f.dressed_equips);
            let ghost model = nested@.map_values(|m: Message| m@);
            assert(model == all_nested(message@, f.dressed_equips));
            let mut i: usize = 0;
            while i < nested.len()
                invariant
                    i <= nested@.len(),
                    dressed_equips@.len() == i,
                    forall|k: int|
                        0 <= k < i ==> #[trigger] dressed_equips@[k] == equip_in(nested@[k]@, *datamine),
                decreases nested@.len() - i,
            {
                dressed_equips.push(DressedEquip::from_message(&nested[i], datamine));
                i = i + 1;
            }
            assert(wanted.len() == model.len());
            assert forall|k: int| 0 <= k < wanted.len() implies dressed_equips@[k] == wanted[k] by {
                assert(model[k] == nested@[k]@);
            }
        }
        assert(dressed_equips@ =~= wanted);
        AgentInfo { id, level, promotion, weapon_uid, mindscape, skills, dressed_equips }
    }

    /// Reads a scalar field whose number is its own.
    fn own_scalar(message: &Message, number: u32, earlier: &[u32]) -> (r: u32)
        ensures
            r == scalar_unless(message@, number, earlier@),
    {
        if among(number, earlier) {
            0
        } else {
            varint_field(message, number)
        }
    }
}

/// A disc id is made of its set, its rarity digit and its slot digit.
pub proof fn law_disc_id_digits(id: u32)
    ensures
        id == disc_set(id) + (disc_rarity(id) - 1) * 10 + disc_slot(id),
        1 <= disc_rarity(id) <= 10,
        disc_slot(id) <= 9,
        disc_set(id) % 100 == 0,
{
}

/// A stat id goes by this name.
pub open spec fn is_called(key: u32, name: Seq<char>) -> bool {
    ||| key == 11102 && name == "hp_"@
    ||| key == 11103 && name == "hp"@
    ||| key == 12102 && name == "atk_"@
    ||| key == 12103 && name == "atk"@
    ||| key == 12202 && name == "impact_"@
    ||| key == 13102 && name == "def_"@
    ||| key == 13103 && name == "def"@
    ||| key == 20103 && name == "crit_"@
    ||| key == 21103 && name == "crit_dmg_"@
    ||| key == 23103 && name == "pen_"@
    ||| key == 23203 && name == "pen"@
    ||| key == 30502 && name == "enerRegen_"@
    ||| key == 31203 && name == "anomProf"@
    ||| key == 31402 && name == "anomMas_"@
    ||| key == 31503 && name == "physical_dmg_"@
    ||| key == 31603 && name == "fire_dmg_"@
    ||| key == 31703 && name == "ice_dmg_"@
    ||| key == 31803 && name == "electric_dmg_"@
    ||| key == 31903 && name == "ether_dmg_"@
    ||| key == 32303 && name == "wind_dmg_"@
}

/// The stats that are no percentages.
pub open spec fn is_flat(key: u32) -> bool {
    key == 11103 || key == 12103 || key == 13103 || key == 23203 || key == 31203
}

/// Each of the twenty stats has its name, the five flat ones are no percentages, and no other id
/// is a stat.
pub proof fn law_stats_go_by_their_names(key: u32)
    ensures
        match stat_of_id(key) {
            Some(stat) => is_called(key, stat.name@) && stat.is_percentage == !is_flat(key),
            None => forall|name: Seq<char>| !#[trigger] is_called(key, name),
        },
{
    let p = is_stat(key);
    lookup::lemma_index_first(STAT_MAP@, p);
    let i = lookup::index_first(STAT_MAP@, p);
    assert(STAT_MAP@.len() == 20);
    if i < 20 {
        assert(p(STAT_MAP@[i]));
    } else {
        assert(!p(STAT_MAP@[0]));
        assert(!p(STAT_MAP@[1]));
        assert(!p(STAT_MAP@[2]));
        assert(!p(STAT_MAP@[3]));
        assert(!p(STAT_MAP@[4]));
        assert(!p(STAT_MAP@[5]));
        assert(!p(STAT_MAP@[6]));
        assert(!p(STAT_MAP@[7]));
        assert(!p(STAT_MAP@[8]));
        assert(!p(STAT_MAP@[9]));
        assert(!p(STAT_MAP@[10]));
        assert(!p(STAT_MAP@[11]));
        assert(!p(STAT_MAP@[12]));
        assert(!p(STAT_MAP@[13]));
        assert(!p(STAT_MAP@[14]));
        assert(!p(STAT_MAP@[15]));
        assert(!p(STAT_MAP@[16]));
        assert(!p(STAT_MAP@[17]));
        assert(!p(STAT_MAP@[18]));
        assert(!p(STAT_MAP@[19]));
    }
}

/// A scalar is the last varint under its number, cut to 32 bits, and zero where there is none.
pub proof fn law_the_last_varint_counts(fields: Seq<FieldView>, number: u32, i: int)
    requires
        -1 <= i < fields.len(),
        i >= 0 ==> fields[i].number == number && fields[i].value is Varint,
        forall|j: int|
            i < j < fields.len() ==> !((#[trigger] fields[j]).number == number
                && fields[j].value is Varint),
    ensures
        i >= 0 ==> scalar(fields, number) as int == fields[i].value->Varint_0 % 0x1_0000_0000,
        i < 0 ==> scalar(fields, number) == 0,
    decreases fields.len(),
{
    if fields.len() > 0 && i < fields.len() - 1 {
        let init = fields.drop_last();
        assert(fields.last() == fields[fields.len() - 1]);
        assert forall|j: int| i < j < init.len() implies !((#[trigger] init[j]).number == number
            && init[j].value is Varint) by {
            assert(init[j] == fields[j]);
        }
        law_the_last_varint_counts(init, number, i);
    }
}

/// What stands nested under a number comes out in order, and nothing else does.
pub proof fn law_nested_messages_come_in_order(
    fields: Seq<FieldView>,
    field: FieldView,
    number: u32,
)
    ensures
        all_nested(Seq::empty(), number).len() == 0,
        field.number != number || !(field.value is LengthDelimited) ==> all_nested(
            fields.push(field),
            number,
        ) == all_nested(fields, number),
        field.number == number ==> (field.value matches ValueView::LengthDelimited(bytes) ==> {
            &&& all_nested(fields.push(field), number).len() == all_nested(fields, number).len() + 1
            &&& all_nested(fields.push(field), number).drop_last() == all_nested(fields, number)
            &&& all_nested(fields.push(field), number).last() == match proto::decoded(bytes) {
                Ok(nested) => nested,
                Err(_) => Seq::empty(),
            }
        }),
{
    let more = fields.push(field);
    assert(more.drop_last() =~= fields);
    assert(more.last() == field);
    if field.number == number && field.value is LengthDelimited {
        assert(all_nested(more, number).drop_last() =~= all_nested(fields, number));
    }
}

/// A disc is read from the fields that the data file names for it, where it names five different
/// ones: the scalars, the last main stat, and every substat in order.
pub proof fn law_a_disc_is_read_by_its_fields(fields: Seq<FieldView>, datamine: Datamine)
    requires
        ({
            let f = datamine.disc_info;
            &&& f.uid != f.id && f.uid != f.level && f.id != f.level
            &&& f.main_stat != f.uid && f.main_stat != f.id && f.main_stat != f.level
            &&& f.sub_stats != f.uid && f.sub_stats != f.id && f.sub_stats != f.level
            &&& f.sub_stats != f.main_stat
        }),
    ensures
        ({
            let f = datamine.disc_info;
            let disc = disc_in(fields, datamine);
            let mains = all_nested(fields, f.main_stat);
            let subs = all_nested(fields, f.sub_stats);
            &&& disc.uid == scalar(fields, f.uid)
            &&& disc.id == scalar(fields, f.id)
            &&& disc.level == scalar(fields, f.level)
            &&& mains.len() > 0 ==> is_stat_of(disc.main_stat, mains.last(), datamine)
            &&& mains.len() == 0 ==> disc.main_stat == (DiscStat {
                key: 0,
                base_value: 0,
                add_value: 0,
            })
            &&& disc.sub_stats.len() == subs.len()
            &&& forall|i: int|
                0 <= i < subs.len() ==> is_stat_of(#[trigger] disc.sub_stats[i], subs[i], datamine)
        }),
{
}

/// A stat is read from the fields that the data file names for it.
pub open spec fn is_stat_of(stat: DiscStat, fields: Seq<FieldView>, datamine: Datamine) -> bool {
    &&& stat.key == scalar(fields, datamine.disc_stat.key)
    &&& stat.base_value == scalar(fields, datamine.disc_stat.base_value)
    &&& stat.add_value == scalar(fields, datamine.disc_stat.add_value)
}

/// A w-engine is read from the fields that the data file names for it.
pub proof fn law_an_engine_is_read_by_its_fields(fields: Seq<FieldView>, datamine: Datamine)
    ensures
        ({
            let f = datamine.weapon_info;
            let engine = weapon_in(fields, datamine);
            &&& engine.id == scalar(fields, f.id)
            &&& engine.uid == scalar(fields, f.uid)
            &&& engine.level == scalar(fields, f.level)
            &&& engine.phase == scalar(fields, f.phase)
            &&& engine.modification == scalar(fields, f.modification)
        }),
{
}

/// An agent is read from the fields that the data file names for it, where it names seven
/// different ones: the scalars, and every skill and worn disc in order.
pub proof fn law_an_agent_is_read_by_its_fields(fields: Seq<FieldView>, datamine: Datamine)
    requires
        ({
            let f = datamine.agent_info;
            let numbers = seq![
                f.id,
                f.level,
                f.promotion,
                f.weapon_uid,
                f.mindscape,
                f.skills,
                f.dressed_equips,
            ];
            forall|i: int, j: int| 0 <= i < j < 7 ==> numbers[i] != numbers[j]
        }),
    ensures
        ({
            let f = datamine.agent_info;
            let agent = agent_in(fields, datamine);
            let skills = all_nested(fields, f.skills);
            let worn = all_nested(fields, f.dressed_equips);
            &&& agent.id == scalar(fields, f.id)
            &&& agent.level == scalar(fields, f.level)
            &&& agent.promotion == scalar(fields, f.promotion)
            &&& agent.weapon_uid == scalar(fields, f.weapon_uid)
            &&& agent.mindscape == scalar(fields, f.mindscape)
            &&& agent.skills.len() == skills.len()
            &&& forall|i: int|
                0 <= i < skills.len() ==> {
                    &&& (#[trigger] agent.skills[i]).skill_type == scalar(
                        skills[i],
                        datamine.agent_skill.skill_type,
                    )
                    &&& agent.skills[i].level == scalar(skills[i], datamine.agent_skill.level)
                }
            &&& agent.dressed_equips.len() == worn.len()
            &&& forall|i: int|
                0 <= i < worn.len() ==> {
                    &&& (#[trigger] agent.dressed_equips[i]).uid == scalar(
                        worn[i],
                        datamine.agent_equip.uid,
                    )
                    &&& agent.dressed_equips[i].slot == scalar(worn[i], datamine.agent_equip.slot)
                }
        }),
{
    let f = datamine.agent_info;
    let numbers = seq![
        f.id,
        f.level,
        f.promotion,
        f.weapon_uid,
        f.mindscape,
        f.skills,
        f.dressed_equips,
    ];
    assert(numbers[0] == f.id && numbers[1] == f.level && numbers[2] == f.promotion);
    assert(numbers[3] == f.weapon_uid && numbers[4] == f.mindscape && numbers[5] == f.skills);
    assert(numbers[6] == f.dressed_equips);
}

} // verus!
