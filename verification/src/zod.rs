//! The inventory in the form that optimizers import.
//!
//! An export is made in three steps: the settings say what is written at all, each record is
//! brought into its exported form, and the whole is written as JSON. An id without a name, a
//! stat or a rarity outside the tables, or an agent with too few skills fails the export:
//! an invented key would be imported without a word.
//!
//! An importer replaces each category by what the export says of it. An absent list leaves
//! the category alone; an empty one deletes it. A live payload therefore has no empty list,
//! and ignores the floors.
use crate::b64;
use crate::json;
use crate::json::FieldText;
use crate::lookup;
use crate::model;
use crate::model::{AgentInfo, AgentInfoView, DiscInfo, DiscInfoView, DiscStat, WeaponInfo};
use crate::names::Names;
use crate::settings;
use crate::settings::ExportSettings;
use crate::snapshot;
use crate::snapshot::{Inventory, InventoryView};
use crate::text;
use vstd::prelude::*;

verus! {

pub const ZOD_FORMAT: &'static str = "ZOD";

pub const ZOD_VERSION: u8 = 1;

pub const ZOD_SOURCE: &'static str = "ZZZ Packet Capture";

/// How many substats a disc is written with.
pub const SUBSTAT_SLOTS: usize = 4;

/// Why an inventory cannot be exported.
#[derive(Debug, Clone, Copy, PartialEq, Eq, Structural)]
pub enum ExportError {
    /// An agent id without a name.
    UnknownCharacter { id: u32 },
    /// A w-engine id without a name.
    UnknownWeapon { id: u32 },
    /// A disc set id without a name.
    UnknownEquipment { set_id: u32 },
    /// A stat id that the stat table does not have.
    UnknownStat { key: u32 },
    /// A disc rarity without a letter.
    UnmappedRarity { rarity: u32 },
    /// An agent with fewer than six skills.
    MissingSkill { agent: u32, position: usize, len: usize },
}

/// What the skill at a position is called.
pub open spec fn skill_name(position: usize) -> Seq<char> {
    if position == 0 {
        "basic"@
    } else if position == 1 {
        "special"@
    } else if position == 2 {
        "dodge"@
    } else if position == 3 {
        "chain"@
    } else if position == 4 {
        "core"@
    } else if position == 5 {
        "assist"@
    } else {
        "?"@
    }
}

fn skill_position_name(position: usize) -> (r: &'static str)
    ensures
        r@ == skill_name(position),
{
    match position {
        0 => "basic",
        1 => "special",
        2 => "dodge",
        3 => "chain",
        4 => "core",
        5 => "assist",
        _ => "?",
    }
}

impl ExportError {
    /// What went wrong, in words.
    pub open spec fn text(self) -> Seq<char> {
        match self {
            ExportError::UnknownCharacter { id } => "agent "@ + text::decimal(id as nat)
                + " has no name in the nanoka data; run `zzzcap update` (the game may also have added an agent the published tables do not have yet)"@,
            ExportError::UnknownWeapon { id } => "w-engine "@ + text::decimal(id as nat)
                + " has no name in the nanoka data; run `zzzcap update`"@,
            ExportError::UnknownEquipment { set_id } => "disc set "@ + text::decimal(set_id as nat)
                + " has no name in the nanoka data; run `zzzcap update`"@,
            ExportError::UnknownStat { key } => "stat "@ + text::decimal(key as nat)
                + " is not in the stat table (`data/statMap.hpp`); the game may have added one"@,
            ExportError::UnmappedRarity { rarity } => "disc rarity "@ + text::decimal(rarity as nat)
                + " has no letter; the reference maps 3, 4 and 5 to B, A and S, so this disc id is probably being read wrong"@,
            ExportError::MissingSkill { agent, position, len } => "agent "@ + text::decimal(
                agent as nat,
            ) + " arrived with "@ + text::decimal(len as nat) + " skill entries, so position "@
                + text::decimal(position as nat) + " ("@ + skill_name(position)
                + ") is missing; the export reads all six positionally"@,
        }
    }

    pub fn to_string(&self) -> (r: String)
        ensures
            r@ == self.text(),
    {
        match *self {
            ExportError::UnknownCharacter { id } => {
                let mut out: String = text::with_number("agent ", id as u64);
                out.push_str(
                    " has no name in the nanoka data; run `zzzcap update` (the game may also have added an agent the published tables do not have yet)",
                );
                out
            },
            ExportError::UnknownWeapon { id } => {
                let mut out: String = text::with_number("w-engine ", id as u64);
                out.push_str(" has no name in the nanoka data; run `zzzcap update`");
                out
            },
            ExportError::UnknownEquipment { set_id } => {
                let mut out: String = text::with_number("disc set ", set_id as u64);
                out.push_str(" has no name in the nanoka data; run `zzzcap update`");
                out
            },
            ExportError::UnknownStat { key } => {
                let mut out: String = text::with_number("stat ", key as u64);
                out.push_str(" is not in the stat table (`data/statMap.hpp`); the game may have added one");
                out
            },
            ExportError::UnmappedRarity { rarity } => {
                let mut out: String = text::with_number("disc rarity ", rarity as u64);
                out.push_str(
                    " has no letter; the reference maps 3, 4 and 5 to B, A and S, so this disc id is probably being read wrong",
                );
                out
            },
            ExportError::MissingSkill { agent, position, len } => {
                let mut out: String = text::with_number("agent ", agent as u64);
                out.push_str(" arrived with ");
                text::push_decimal(&mut out, len as u64);
                out.push_str(" skill entries, so position ");
                text::push_decimal(&mut out, position as u64);
                out.push_str(" (");
                out.push_str(skill_position_name(position));
                out.push_str(") is missing; the export reads all six positionally");
                out
            },
        }
    }
}

/// One exported substat.
#[derive(Debug, Clone, PartialEq, Eq)]
pub struct ISubstat {
    /// The stat's name.
    pub key: String,
    /// How often the substat was upgraded.
    pub upgrades: u32,
}

/// What an [`ISubstat`] holds.
pub struct ISubstatView {
    pub key: Seq<char>,
    pub upgrades: u32,
}

impl View for ISubstat {
    type V = ISubstatView;

    open spec fn view(&self) -> ISubstatView {
        ISubstatView { key: self.key@, upgrades: self.upgrades }
    }
}

impl Default for ISubstat {
    fn default() -> (r: ISubstat)
        ensures
            r@ == no_substat(),
    {
        ISubstat { key: String::new(), upgrades: 0 }
    }
}

/// An empty slot.
pub open spec fn no_substat() -> ISubstatView {
    ISubstatView { key: Seq::empty(), upgrades: 0 }
}

/// One exported disc.
#[derive(Debug, Clone, PartialEq, Eq)]
pub struct IDisc {
    pub set_key: String,
    pub slot_key: String,
    pub level: u8,
    pub rarity: String,
    pub main_stat_key: String,
    /// The agent that wears it; empty where none does.
    pub location: String,
    pub lock: bool,
    pub trash: bool,
    pub substats: Vec<ISubstat>,
}

/// What an [`IDisc`] holds.
pub struct IDiscView {
    pub set_key: Seq<char>,
    pub slot_key: Seq<char>,
    pub level: u8,
    pub rarity: Seq<char>,
    pub main_stat_key: Seq<char>,
    pub location: Seq<char>,
    pub lock: bool,
    pub trash: bool,
    pub substats: Seq<ISubstatView>,
}

pub open spec fn substats_view(substats: Seq<ISubstat>) -> Seq<ISubstatView> {
    substats.map_values(|s: ISubstat| s@)
}

impl View for IDisc {
    type V = IDiscView;

    open spec fn view(&self) -> IDiscView {
        IDiscView {
            set_key: self.set_key@,
            slot_key: self.slot_key@,
            level: self.level,
            rarity: self.rarity@,
            main_stat_key: self.main_stat_key@,
            location: self.location@,
            lock: self.lock,
            trash: self.trash,
            substats: substats_view(self.substats@),
        }
    }
}

/// One exported w-engine.
#[derive(Debug, Clone, PartialEq, Eq)]
pub struct IEngine {
    pub key: String,
    pub level: u8,
    pub modification: u8,
    pub phase: u8,
    /// The agent that wears it; empty where none does.
    pub location: String,
    pub lock: bool,
    /// `zzz_wengine_` and the uid.
    pub id: String,
}

/// What an [`IEngine`] holds.
pub struct IEngineView {
    pub key: Seq<char>,
    pub level: u8,
    pub modification: u8,
    pub phase: u8,
    pub location: Seq<char>,
    pub lock: bool,
    pub id: Seq<char>,
}

impl View for IEngine {
    type V = IEngineView;

    open spec fn view(&self) -> IEngineView {
        IEngineView {
            key: self.key@,
            level: self.level,
            modification: self.modification,
            phase: self.phase,
            location: self.location@,
            lock: self.lock,
            id: self.id@,
        }
    }
}

/// One exported agent.
#[derive(Debug, Clone, PartialEq, Eq)]
pub struct IAgent {
    /// Always empty; an importer needs the key to be there.
    pub equipped_engine: String,
    pub key: String,
    pub level: u8,
    pub mindscape: u8,
    /// Counted from zero.
    pub promotion: u8,
    /// Counted from zero.
    pub core: u8,
    pub dodge: u8,
    pub basic: u8,
    pub chain: u8,
    pub special: u8,
    pub assist: u8,
    /// Always zero.
    pub potential: u8,
    /// Absent where w-engines are not exported; empty where the one the agent wears was not
    /// captured.
    pub wengine_key: Option<String>,
    pub wengine_phase: Option<u8>,
    /// The key again.
    pub id: String,
}

/// What an [`IAgent`] holds.
pub struct IAgentView {
    pub equipped_engine: Seq<char>,
    pub key: Seq<char>,
    pub level: u8,
    pub mindscape: u8,
    pub promotion: u8,
    pub core: u8,
    pub dodge: u8,
    pub basic: u8,
    pub chain: u8,
    pub special: u8,
    pub assist: u8,
    pub potential: u8,
    pub wengine_key: Option<Seq<char>>,
    pub wengine_phase: Option<u8>,
    pub id: Seq<char>,
}

impl View for IAgent {
    type V = IAgentView;

    open spec fn view(&self) -> IAgentView {
        IAgentView {
            equipped_engine: self.equipped_engine@,
            key: self.key@,
            level: self.level,
            mindscape: self.mindscape,
            promotion: self.promotion,
            core: self.core,
            dodge: self.dodge,
            basic: self.basic,
            chain: self.chain,
            special: self.special,
            assist: self.assist,
            potential: self.potential,
            wengine_key: json::value_text(self.wengine_key),
            wengine_phase: self.wengine_phase,
            id: self.id@,
        }
    }
}

/// A whole export. A list is absent where its category is not exported.
#[derive(Debug, Clone, PartialEq, Eq)]
pub struct Izod {
    pub format: String,
    pub version: u8,
    pub source: String,
    pub characters: Option<Vec<IAgent>>,
    pub discs: Option<Vec<IDisc>>,
    pub wengines: Option<Vec<IEngine>>,
}

/// What an [`Izod`] holds.
pub struct IzodView {
    pub format: Seq<char>,
    pub version: u8,
    pub source: Seq<char>,
    pub characters: Option<Seq<IAgentView>>,
    pub discs: Option<Seq<IDiscView>>,
    pub wengines: Option<Seq<IEngineView>>,
}

pub open spec fn iagents_view(list: Seq<IAgent>) -> Seq<IAgentView> {
    list.map_values(|a: IAgent| a@)
}

pub open spec fn idiscs_view(list: Seq<IDisc>) -> Seq<IDiscView> {
    list.map_values(|d: IDisc| d@)
}

pub open spec fn iengines_view(list: Seq<IEngine>) -> Seq<IEngineView> {
    list.map_values(|e: IEngine| e@)
}

impl View for Izod {
    type V = IzodView;

    open spec fn view(&self) -> IzodView {
        IzodView {
            format: self.format@,
            version: self.version,
            source: self.source@,
            characters: match self.characters {
                Some(list) => Some(iagents_view(list@)),
                None => None,
            },
            discs: match self.discs {
                Some(list) => Some(idiscs_view(list@)),
                None => None,
            },
            wengines: match self.wengines {
                Some(list) => Some(iengines_view(list@)),
                None => None,
            },
        }
    }
}

/// An export with some lists.
pub open spec fn izod(
    characters: Option<Seq<IAgentView>>,
    discs: Option<Seq<IDiscView>>,
    wengines: Option<Seq<IEngineView>>,
) -> IzodView {
    IzodView {
        format: ZOD_FORMAT@,
        version: ZOD_VERSION,
        source: ZOD_SOURCE@,
        characters,
        discs,
        wengines,
    }
}

impl Default for Izod {
    fn default() -> (r: Izod)
        ensures
            r@ == izod(None, None, None),
    {
        Izod {
            format: ZOD_FORMAT.to_owned(),
            version: ZOD_VERSION,
            source: ZOD_SOURCE.to_owned(),
            characters: None,
            discs: None,
            wengines: None,
        }
    }
}

/// The lowest eight bits.
pub open spec fn low_byte(v: u32) -> u8 {
    (v % 256) as u8
}

fn byte_of(v: u32) -> (r: u8)
    ensures
        r == low_byte(v),
{
    (v % 256) as u8
}

/// The export key for a name.
pub open spec fn key_of(name: Seq<char>) -> Seq<char> {
    b64::zod_key(name, true)
}

/// The condition to wear the w-engine with a uid.
pub open spec fn wears_engine(uid: u32) -> spec_fn(AgentInfoView) -> bool {
    |a: AgentInfoView| a.weapon_uid == uid
}

/// The condition to be a worn disc with a uid.
pub open spec fn is_worn(uid: u32) -> spec_fn(model::DressedEquip) -> bool {
    |e: model::DressedEquip| e.uid == uid
}

/// The condition to wear the disc with a uid.
pub open spec fn wears_disc(uid: u32) -> spec_fn(AgentInfoView) -> bool {
    |a: AgentInfoView| lookup::holds(a.dressed_equips, is_worn(uid))
}

/// The export key of an agent; empty where there is none or it has no name.
pub open spec fn owner_key<N: Names>(owner: Option<AgentInfoView>, names: N) -> Seq<char> {
    match owner {
        Some(agent) => match names.character_name_of(agent.id) {
            Some(name) => key_of(name),
            None => Seq::empty(),
        },
        None => Seq::empty(),
    }
}

/// Who wears a w-engine: the last agent that names its uid.
pub open spec fn engine_owner<N: Names>(agents: Seq<AgentInfoView>, uid: u32, names: N) -> Seq<char> {
    owner_key(lookup::find_last(agents, wears_engine(uid)), names)
}

/// Who wears a disc: the last agent that names its uid.
pub open spec fn disc_owner<N: Names>(agents: Seq<AgentInfoView>, uid: u32, names: N) -> Seq<char> {
    owner_key(lookup::find_last(agents, wears_disc(uid)), names)
}

/// The first agent without a name.
pub open spec fn unnamed<N: Names>(names: N) -> spec_fn(AgentInfoView) -> bool {
    |a: AgentInfoView| names.character_name_of(a.id) is None
}

/// The key and phase of the w-engine that an agent wears, as they are exported.
pub open spec fn engine_of_agent<N: Names>(
    agent: AgentInfoView,
    engines: Seq<WeaponInfo>,
    names: N,
    export_engines: bool,
) -> Result<(Option<Seq<char>>, Option<u8>), ExportError> {
    if export_engines {
        match lookup::find_last(engines, snapshot::is_engine(agent.weapon_uid)) {
            Some(engine) => match names.weapon_name_of(engine.id) {
                Some(name) => Ok((Some(key_of(name)), Some(low_byte(engine.phase)))),
                None => Err(ExportError::UnknownWeapon { id: engine.id }),
            },
            None => Ok((Some(Seq::empty()), Some(1u8))),
        }
    } else {
        Ok((None, None))
    }
}

/// An agent in its exported form. The promotion and the core skill are counted from zero; a
/// zero wraps. The core skill is the first to be read.
pub open spec fn agent_exported<N: Names>(
    agent: AgentInfoView,
    engines: Seq<WeaponInfo>,
    names: N,
    export_engines: bool,
) -> Result<IAgentView, ExportError> {
    match names.character_name_of(agent.id) {
        None => Err(ExportError::UnknownCharacter { id: agent.id }),
        Some(name) => match engine_of_agent(agent, engines, names, export_engines) {
            Err(e) => Err(e),
            Ok((wengine_key, wengine_phase)) => if agent.skills.len() < 6 {
                Err(
                    ExportError::MissingSkill {
                        agent: agent.id,
                        position: if agent.skills.len() < 5 {
                            4
                        } else {
                            5
                        },
                        len: agent.skills.len() as usize,
                    },
                )
            } else {
                Ok(
                    IAgentView {
                        equipped_engine: Seq::empty(),
                        key: key_of(name),
                        level: low_byte(agent.level),
                        mindscape: low_byte(agent.mindscape),
                        promotion: low_byte(agent.promotion.wrapping_sub(1)),
                        core: low_byte(agent.skills[4].level.wrapping_sub(1)),
                        dodge: low_byte(agent.skills[2].level),
                        basic: low_byte(agent.skills[0].level),
                        chain: low_byte(agent.skills[3].level),
                        special: low_byte(agent.skills[1].level),
                        assist: low_byte(agent.skills[5].level),
                        potential: 0,
                        wengine_key,
                        wengine_phase,
                        id: key_of(name),
                    },
                )
            },
        },
    }
}

/// One slot for a substat.
pub open spec fn substat_exported(stats: Seq<DiscStat>, i: int) -> Result<ISubstatView, ExportError> {
    if i < stats.len() {
        match model::stat_of_id(stats[i].key) {
            Some(info) => Ok(ISubstatView { key: info.name@, upgrades: stats[i].add_value }),
            None => Err(ExportError::UnknownStat { key: stats[i].key }),
        }
    } else {
        Ok(no_substat())
    }
}

/// The first `n` slots for substats.
pub open spec fn substats_exported(stats: Seq<DiscStat>, n: nat) -> Result<Seq<ISubstatView>, ExportError>
    decreases n,
{
    if n == 0 {
        Ok(Seq::empty())
    } else {
        match substats_exported(stats, (n - 1) as nat) {
            Err(e) => Err(e),
            Ok(slots) => match substat_exported(stats, n - 1) {
                Err(e) => Err(e),
                Ok(slot) => Ok(slots.push(slot)),
            },
        }
    }
}

/// A disc in its exported form. Missing substats are empty slots, and further ones are
/// dropped.
pub open spec fn disc_exported<N: Names>(
    disc: DiscInfoView,
    agents: Seq<AgentInfoView>,
    names: N,
) -> Result<IDiscView, ExportError> {
    let set_id = model::disc_set(disc.id);
    let rarity = model::disc_rarity(disc.id);
    match names.equipment_name_of(set_id) {
        None => Err(ExportError::UnknownEquipment { set_id }),
        Some(set_name) => match model::rarity_letter(rarity) {
            None => Err(ExportError::UnmappedRarity { rarity }),
            Some(letter) => match model::stat_of_id(disc.main_stat.key) {
                None => Err(ExportError::UnknownStat { key: disc.main_stat.key }),
                Some(main) => match substats_exported(disc.sub_stats, SUBSTAT_SLOTS as nat) {
                    Err(e) => Err(e),
                    Ok(substats) => Ok(
                        IDiscView {
                            set_key: key_of(set_name),
                            slot_key: text::decimal(model::disc_slot(disc.id) as nat),
                            level: low_byte(disc.level),
                            rarity: letter@,
                            main_stat_key: main.name@,
                            location: disc_owner(agents, disc.uid, names),
                            lock: false,
                            trash: false,
                            substats,
                        },
                    ),
                },
            },
        },
    }
}

/// A w-engine in its exported form.
pub open spec fn engine_exported<N: Names>(
    engine: WeaponInfo,
    agents: Seq<AgentInfoView>,
    names: N,
) -> Result<IEngineView, ExportError> {
    match names.weapon_name_of(engine.id) {
        None => Err(ExportError::UnknownWeapon { id: engine.id }),
        Some(name) => Ok(
            IEngineView {
                key: key_of(name),
                level: low_byte(engine.level),
                modification: low_byte(engine.modification),
                phase: low_byte(engine.phase),
                location: engine_owner(agents, engine.uid, names),
                lock: false,
                id: "zzz_wengine_"@ + text::decimal(engine.uid as nat),
            },
        ),
    }
}

/// Whether an agent is above the floors. One of unknown rarity is let through, so that the
/// missing name is reported.
pub open spec fn keeps_agent<N: Names>(agent: AgentInfoView, names: N, s: ExportSettings) -> bool {
    agent.level >= s.min_agent_level && match names.character_rarity_of(agent.id) {
        Some(rarity) => rarity >= s.min_agent_rarity,
        None => true,
    }
}

/// Whether a disc is above the floors.
pub open spec fn keeps_disc(disc: DiscInfoView, s: ExportSettings) -> bool {
    disc.level >= s.min_disc_level && model::disc_rarity(disc.id) >= s.min_disc_rarity
}

/// Whether a w-engine is above the floors.
pub open spec fn keeps_engine<N: Names>(engine: WeaponInfo, names: N, s: ExportSettings) -> bool {
    engine.level >= s.min_engine_level && match names.weapon_rarity_of(engine.id) {
        Some(rarity) => rarity >= s.min_engine_rarity,
        None => true,
    }
}

/// The agents above the floors, in their exported form, or what is wrong with the first that
/// cannot be exported.
pub open spec fn agents_exported<N: Names>(
    agents: Seq<AgentInfoView>,
    engines: Seq<WeaponInfo>,
    names: N,
    s: ExportSettings,
) -> Result<Seq<IAgentView>, ExportError>
    decreases agents.len(),
{
    if agents.len() == 0 {
        Ok(Seq::empty())
    } else {
        match agents_exported(agents.drop_last(), engines, names, s) {
            Err(e) => Err(e),
            Ok(out) => if keeps_agent(agents.last(), names, s) {
                match agent_exported(agents.last(), engines, names, s.export_engines) {
                    Err(e) => Err(e),
                    Ok(agent) => Ok(out.push(agent)),
                }
            } else {
                Ok(out)
            },
        }
    }
}

/// The discs above the floors, in their exported form.
pub open spec fn discs_exported<N: Names>(
    discs: Seq<DiscInfoView>,
    agents: Seq<AgentInfoView>,
    names: N,
    s: ExportSettings,
) -> Result<Seq<IDiscView>, ExportError>
    decreases discs.len(),
{
    if discs.len() == 0 {
        Ok(Seq::empty())
    } else {
        match discs_exported(discs.drop_last(), agents, names, s) {
            Err(e) => Err(e),
            Ok(out) => if keeps_disc(discs.last(), s) {
                match disc_exported(discs.last(), agents, names) {
                    Err(e) => Err(e),
                    Ok(disc) => Ok(out.push(disc)),
                }
            } else {
                Ok(out)
            },
        }
    }
}

/// The w-engines above the floors, in their exported form.
pub open spec fn engines_exported<N: Names>(
    engines: Seq<WeaponInfo>,
    agents: Seq<AgentInfoView>,
    names: N,
    s: ExportSettings,
) -> Result<Seq<IEngineView>, ExportError>
    decreases engines.len(),
{
    if engines.len() == 0 {
        Ok(Seq::empty())
    } else {
        match engines_exported(engines.drop_last(), agents, names, s) {
            Err(e) => Err(e),
            Ok(out) => if keeps_engine(engines.last(), names, s) {
                match engine_exported(engines.last(), agents, names) {
                    Err(e) => Err(e),
                    Ok(engine) => Ok(out.push(engine)),
                }
            } else {
                Ok(out)
            },
        }
    }
}

/// A list, or none where its category is not exported.
pub open spec fn if_exported<T>(
    exported: bool,
    list: Result<Seq<T>, ExportError>,
) -> Result<Option<Seq<T>>, ExportError> {
    if !exported {
        Ok(None)
    } else {
        match list {
            Ok(list) => Ok(Some(list)),
            Err(e) => Err(e),
        }
    }
}

/// The export of an inventory. An agent without a name fails it whatever the settings say:
/// it may be the owner of what is written.
pub open spec fn exported<N: Names>(v: InventoryView, names: N, s: ExportSettings) -> Result<
    IzodView,
    ExportError,
> {
    match lookup::find_first(v.agents, unnamed(names)) {
        Some(agent) => Err(ExportError::UnknownCharacter { id: agent.id }),
        None => match if_exported(s.export_agents, agents_exported(v.agents, v.engines, names, s)) {
            Err(e) => Err(e),
            Ok(characters) => match if_exported(
                s.export_discs,
                discs_exported(v.discs, v.agents, names, s),
            ) {
                Err(e) => Err(e),
                Ok(discs) => match if_exported(
                    s.export_engines,
                    engines_exported(v.engines, v.agents, names, s),
                ) {
                    Err(e) => Err(e),
                    Ok(wengines) => Ok(izod(characters, discs, wengines)),
                },
            },
        },
    }
}

/// An empty list is no list.
pub open spec fn nonempty<T>(list: Option<Seq<T>>) -> Option<Seq<T>> {
    match list {
        Some(list) => if list.len() == 0 {
            None
        } else {
            Some(list)
        },
        None => None,
    }
}

/// The live payload: the export without floors and without empty lists.
pub open spec fn live_exported<N: Names>(v: InventoryView, names: N, s: ExportSettings) -> Result<
    IzodView,
    ExportError,
> {
    match exported(v, names, settings::without_floors(s)) {
        Err(e) => Err(e),
        Ok(zod) => Ok(
            izod(nonempty(zod.characters), nonempty(zod.discs), nonempty(zod.wengines)),
        ),
    }
}

/// What an export holds, or why there is none.
pub open spec fn izod_result(r: Result<Izod, ExportError>) -> Result<IzodView, ExportError> {
    match r {
        Ok(zod) => Ok(zod@),
        Err(e) => Err(e),
    }
}

/// A type that is written as a JSON value.
pub trait Encode {
    spec fn encoding(&self) -> Seq<char>;

    fn encode(&self) -> (r: String)
        ensures
            r@ == self.encoding(),
    ;
}

impl Encode for ISubstat {
    open spec fn encoding(&self) -> Seq<char> {
        substat_json(self@)
    }

    fn encode(&self) -> (r: String) {
        self.to_json()
    }
}

impl Encode for IDisc {
    open spec fn encoding(&self) -> Seq<char> {
        disc_json(self@)
    }

    fn encode(&self) -> (r: String) {
        self.to_json()
    }
}

impl Encode for IEngine {
    open spec fn encoding(&self) -> Seq<char> {
        engine_json(self@)
    }

    fn encode(&self) -> (r: String) {
        self.to_json()
    }
}

impl Encode for IAgent {
    open spec fn encoding(&self) -> Seq<char> {
        agent_json(self@)
    }

    fn encode(&self) -> (r: String) {
        self.to_json()
    }
}

/// Encodes a list.
fn map_json<T: Encode>(items: &Vec<T>) -> (r: String)
    ensures
        r@ == json::array_text(items@.map_values(|t: T| t.encoding())),
{
    let mut out: Vec<String> = Vec::new();
    let mut i: usize = 0;
    while i < items.len()
        invariant
            i <= items@.len(),
            out@.len() == i,
            forall|k: int| 0 <= k < i ==> (#[trigger] out@[k])@ == items@[k].encoding(),
        decreases items@.len() - i,
    {
        out.push(items[i].encode());
        i = i + 1;
    }
    assert(text::texts(out@) =~= items@.map_values(|t: T| t.encoding()));
    json::array(out.as_slice())
}

/// The fields of a substat, in the order they are written.
pub open spec fn substat_fields(s: ISubstatView) -> Seq<FieldText> {
    seq![
        json::field("key"@, json::string_text(s.key)),
        json::field("upgrades"@, text::decimal(s.upgrades as nat)),
    ]
}

/// A substat as JSON.
pub open spec fn substat_json(s: ISubstatView) -> Seq<char> {
    json::object_text(substat_fields(s))
}

/// The fields of a disc, in the order they are written.
pub open spec fn disc_fields(d: IDiscView) -> Seq<FieldText> {
    seq![
        json::field("setKey"@, json::string_text(d.set_key)),
        json::field("slotKey"@, json::string_text(d.slot_key)),
        json::field("level"@, text::decimal(d.level as nat)),
        json::field("rarity"@, json::string_text(d.rarity)),
        json::field("mainStatKey"@, json::string_text(d.main_stat_key)),
        json::field("location"@, json::string_text(d.location)),
        json::field("lock"@, json::boolean_text(d.lock)),
        json::field("trash"@, json::boolean_text(d.trash)),
        json::field(
            "substats"@,
            json::array_text(d.substats.map_values(|s: ISubstatView| substat_json(s))),
        ),
    ]
}

/// A disc as JSON.
pub open spec fn disc_json(d: IDiscView) -> Seq<char> {
    json::object_text(disc_fields(d))
}

/// The fields of a w-engine, in the order they are written.
pub open spec fn engine_fields(e: IEngineView) -> Seq<FieldText> {
    seq![
        json::field("key"@, json::string_text(e.key)),
        json::field("level"@, text::decimal(e.level as nat)),
        json::field("modification"@, text::decimal(e.modification as nat)),
        json::field("phase"@, text::decimal(e.phase as nat)),
        json::field("location"@, json::string_text(e.location)),
        json::field("lock"@, json::boolean_text(e.lock)),
        json::field("id"@, json::string_text(e.id)),
    ]
}

/// A w-engine as JSON.
pub open spec fn engine_json(e: IEngineView) -> Seq<char> {
    json::object_text(engine_fields(e))
}

/// The fields of an agent, in the order they are written.
pub open spec fn agent_fields(a: IAgentView) -> Seq<FieldText> {
    seq![
        json::field("equippedEngine"@, json::string_text(a.equipped_engine)),
        json::field("key"@, json::string_text(a.key)),
        json::field("level"@, text::decimal(a.level as nat)),
        json::field("mindscape"@, text::decimal(a.mindscape as nat)),
        json::field("promotion"@, text::decimal(a.promotion as nat)),
        json::field("core"@, text::decimal(a.core as nat)),
        json::field("dodge"@, text::decimal(a.dodge as nat)),
        json::field("basic"@, text::decimal(a.basic as nat)),
        json::field("chain"@, text::decimal(a.chain as nat)),
        json::field("special"@, text::decimal(a.special as nat)),
        json::field("assist"@, text::decimal(a.assist as nat)),
        json::field("potential"@, text::decimal(a.potential as nat)),
        FieldText {
            key: "wengineKey"@,
            value: match a.wengine_key {
                Some(key) => Some(json::string_text(key)),
                None => None,
            },
        },
        FieldText {
            key: "wenginePhase"@,
            value: match a.wengine_phase {
                Some(phase) => Some(text::decimal(phase as nat)),
                None => None,
            },
        },
        json::field("id"@, json::string_text(a.id)),
    ]
}

/// An agent as JSON. The w-engine's key and phase are left out where they are absent.
pub open spec fn agent_json(a: IAgentView) -> Seq<char> {
    json::object_text(agent_fields(a))
}

/// The encoding of a list of agents.
pub open spec fn agents_json(list: Option<Seq<IAgentView>>) -> Option<Seq<char>> {
    match list {
        Some(list) => Some(json::array_text(list.map_values(|a: IAgentView| agent_json(a)))),
        None => None,
    }
}

/// The encoding of a list of discs.
pub open spec fn discs_json(list: Option<Seq<IDiscView>>) -> Option<Seq<char>> {
    match list {
        Some(list) => Some(json::array_text(list.map_values(|d: IDiscView| disc_json(d)))),
        None => None,
    }
}

/// The encoding of a list of w-engines.
pub open spec fn engines_json(list: Option<Seq<IEngineView>>) -> Option<Seq<char>> {
    match list {
        Some(list) => Some(json::array_text(list.map_values(|e: IEngineView| engine_json(e)))),
        None => None,
    }
}

/// The fields of an export, in the order they are written.
pub open spec fn izod_fields(z: IzodView) -> Seq<FieldText> {
    seq![
        json::field("format"@, json::string_text(z.format)),
        json::field("version"@, text::decimal(z.version as nat)),
        json::field("source"@, json::string_text(z.source)),
        FieldText { key: "characters"@, value: agents_json(z.characters) },
        FieldText { key: "discs"@, value: discs_json(z.discs) },
        FieldText { key: "wengines"@, value: engines_json(z.wengines) },
    ]
}

/// An export as JSON. An absent list is left out.
pub open spec fn izod_json(z: IzodView) -> Seq<char> {
    json::object_text(izod_fields(z))
}

impl ISubstat {
    pub fn to_json(&self) -> (r: String)
        ensures
            r@ == substat_json(self@),
    {
        let fields: [(&str, Option<String>); 2] = [
            ("key", Some(json::string(self.key.as_str()))),
            ("upgrades", Some(json::number(self.upgrades))),
        ];
        assert(json::fields_text(fields@) =~= substat_fields(self@));
        json::object(fields.as_slice())
    }
}

impl IDisc {
    pub fn to_json(&self) -> (r: String)
        ensures
            r@ == disc_json(self@),
    {
        let fields: [(&str, Option<String>); 9] = [
            ("setKey", Some(json::string(self.set_key.as_str()))),
            ("slotKey", Some(json::string(self.slot_key.as_str()))),
            ("level", Some(json::number(self.level))),
            ("rarity", Some(json::string(self.rarity.as_str()))),
            ("mainStatKey", Some(json::string(self.main_stat_key.as_str()))),
            ("location", Some(json::string(self.location.as_str()))),
            ("lock", Some(json::boolean(self.lock))),
            ("trash", Some(json::boolean(self.trash))),
            ("substats", Some(map_json(&self.substats))),
        ];
        proof {
            assert(self.substats@.map_values(|t: ISubstat| t.encoding())
                =~= self@.substats.map_values(|s: ISubstatView| substat_json(s)));
        }
        assert(json::fields_text(fields@) =~= disc_fields(self@));
        json::object(fields.as_slice())
    }
}

impl IEngine {
    pub fn to_json(&self) -> (r: String)
        ensures
            r@ == engine_json(self@),
    {
        let fields: [(&str, Option<String>); 7] = [
            ("key", Some(json::string(self.key.as_str()))),
            ("level", Some(json::number(self.level))),
            ("modification", Some(json::number(self.modification))),
            ("phase", Some(json::number(self.phase))),
            ("location", Some(json::string(self.location.as_str()))),
            ("lock", Some(json::boolean(self.lock))),
            ("id", Some(json::string(self.id.as_str()))),
        ];
        assert(json::fields_text(fields@) =~= engine_fields(self@));
        json::object(fields.as_slice())
    }
}

impl IAgent {
    pub fn to_json(&self) -> (r: String)
        ensures
            r@ == agent_json(self@),
    {
        let wengine_key: Option<String> = match &self.wengine_key {
            Some(key) => Some(json::string(key.as_str())),
            None => None,
        };
        let wengine_phase: Option<String> = match self.wengine_phase {
            Some(phase) => Some(json::number(phase)),
            None => None,
        };
        let fields: [(&str, Option<String>); 15] = [
            ("equippedEngine", Some(json::string(self.equipped_engine.as_str()))),
            ("key", Some(json::string(self.key.as_str()))),
            ("level", Some(json::number(self.level))),
            ("mindscape", Some(json::number(self.mindscape))),
            ("promotion", Some(json::number(self.promotion))),
            ("core", Some(json::number(self.core))),
            ("dodge", Some(json::number(self.dodge))),
            ("basic", Some(json::number(self.basic))),
            ("chain", Some(json::number(self.chain))),
            ("special", Some(json::number(self.special))),
            ("assist", Some(json::number(self.assist))),
            ("potential", Some(json::number(self.potential))),
            ("wengineKey", wengine_key),
            ("wenginePhase", wengine_phase),
            ("id", Some(json::string(self.id.as_str()))),
        ];
        assert(json::fields_text(fields@) =~= agent_fields(self@));
        json::object(fields.as_slice())
    }
}

fn engine_owner_of<N: Names>(agents: &Vec<AgentInfo>, uid: u32, names: &N) -> (r: String)
    ensures
        r@ == engine_owner(snapshot::agents_view(agents@), uid, *names),
{
    let ghost all = snapshot::agents_view(agents@);
    let mut i: usize = agents.len();
    while i > 0
        invariant
            i <= agents@.len(),
            all == snapshot::agents_view(agents@),
            forall|k: int| i <= k < all.len() ==> !wears_engine(uid)(#[trigger] all[k]),
        decreases i,
    {
        assert(all[i - 1] == agents@[i - 1]@);
        if agents[i - 1].weapon_uid == uid {
            proof {
                lookup::lemma_find_last(all, wears_engine(uid), i as int);
            }
            return match names.character_name(agents[i - 1].id) {
                Some(name) => b64::to_zod_key(name),
                None => String::new(),
            };
        }
        i = i - 1;
    }
    proof {
        lookup::lemma_find_last(all, wears_engine(uid), 0);
    }
    String::new()
}

/// Whether an agent wears a disc.
fn agent_wears(agent: &AgentInfo, uid: u32) -> (r: bool)
    ensures
        r == wears_disc(uid)(agent@),
{
    let mut i: usize = 0;
    while i < agent.dressed_equips.len()
        invariant
            i <= agent.dressed_equips@.len(),
            forall|k: int| 0 <= k < i ==> !is_worn(uid)(#[trigger] agent.dressed_equips@[k]),
        decreases agent.dressed_equips@.len() - i,
    {
        if agent.dressed_equips[i].uid == uid {
            proof {
                lookup::lemma_find_first(agent.dressed_equips@, is_worn(uid), i as int);
            }
            return true;
        }
        i = i + 1;
    }
    proof {
        lookup::lemma_find_first(agent.dressed_equips@, is_worn(uid), i as int);
    }
    false
}

fn disc_owner_of<N: Names>(agents: &Vec<AgentInfo>, uid: u32, names: &N) -> (r: String)
    ensures
        r@ == disc_owner(snapshot::agents_view(agents@), uid, *names),
{
    let ghost all = snapshot::agents_view(agents@);
    let mut i: usize = agents.len();
    while i > 0
        invariant
            i <= agents@.len(),
            all == snapshot::agents_view(agents@),
            forall|k: int| i <= k < all.len() ==> !wears_disc(uid)(#[trigger] all[k]),
        decreases i,
    {
        assert(all[i - 1] == agents@[i - 1]@);
        if agent_wears(&agents[i - 1], uid) {
            proof {
                lookup::lemma_find_last(all, wears_disc(uid), i as int);
            }
            return match names.character_name(agents[i - 1].id) {
                Some(name) => b64::to_zod_key(name),
                None => String::new(),
            };
        }
        i = i - 1;
    }
    proof {
        lookup::lemma_find_last(all, wears_disc(uid), 0);
    }
    String::new()
}

/// The last w-engine with a uid.
fn engine_with(engines: &Vec<WeaponInfo>, uid: u32) -> (r: Option<WeaponInfo>)
    ensures
        r == lookup::find_last(engines@, snapshot::is_engine(uid)),
{
    let mut i: usize = engines.len();
    while i > 0
        invariant
            i <= engines@.len(),
            forall|k: int|
                i <= k < engines@.len() ==> !snapshot::is_engine(uid)(#[trigger] engines@[k]),
        decreases i,
    {
        if engines[i - 1].uid == uid {
            proof {
                lookup::lemma_find_last(engines@, snapshot::is_engine(uid), i as int);
            }
            return Some(engines[i - 1]);
        }
        i = i - 1;
    }
    proof {
        lookup::lemma_find_last(engines@, snapshot::is_engine(uid), 0);
    }
    None
}

fn agent_export<N: Names>(
    agent: &AgentInfo,
    engines: &Vec<WeaponInfo>,
    names: &N,
    export_engines: bool,
) -> (r: Result<IAgent, ExportError>)
    ensures
        match r {
            Ok(a) => agent_exported(agent@, engines@, *names, export_engines) == Ok::<
                IAgentView,
                ExportError,
            >(a@),
            Err(e) => agent_exported(agent@, engines@, *names, export_engines) == Err::<
                IAgentView,
                ExportError,
            >(e),
        },
{
    let key: String = match names.character_name(agent.id) {
        Some(name) => b64::to_zod_key(name),
        None => {
            return Err(ExportError::UnknownCharacter { id: agent.id });
        },
    };
    let mut wengine_key: Option<String> = None;
    let mut wengine_phase: Option<u8> = None;
    if export_engines {
        match engine_with(engines, agent.weapon_uid) {
            Some(engine) => match names.weapon_name(engine.id) {
                Some(name) => {
                    wengine_key = Some(b64::to_zod_key(name));
                    wengine_phase = Some(byte_of(engine.phase));
                },
                None => {
                    return Err(ExportError::UnknownWeapon { id: engine.id });
                },
            },
            None => {
                wengine_key = Some(String::new());
                wengine_phase = Some(1);
            },
        }
    }
    let len: usize = agent.skills.len();
    if len < 6 {
        let position: usize = if len < 5 {
            4
        } else {
            5
        };
        return Err(ExportError::MissingSkill { agent: agent.id, position, len });
    }
    Ok(
        IAgent {
            equipped_engine: String::new(),
            key: key.clone(),
            level: byte_of(agent.level),
            mindscape: byte_of(agent.mindscape),
            promotion: byte_of(agent.promotion.wrapping_sub(1)),
            core: byte_of(agent.skills[4].level.wrapping_sub(1)),
            dodge: byte_of(agent.skills[2].level),
            basic: byte_of(agent.skills[0].level),
            chain: byte_of(agent.skills[3].level),
            special: byte_of(agent.skills[1].level),
            assist: byte_of(agent.skills[5].level),
            potential: 0,
            wengine_key,
            wengine_phase,
            id: key,
        },
    )
}

fn substats_export(stats: &Vec<DiscStat>) -> (r: Result<Vec<ISubstat>, ExportError>)
    ensures
        match r {
            Ok(slots) => substats_exported(stats@, SUBSTAT_SLOTS as nat) == Ok::<
                Seq<ISubstatView>,
                ExportError,
            >(substats_view(slots@)),
            Err(e) => substats_exported(stats@, SUBSTAT_SLOTS as nat) == Err::<
                Seq<ISubstatView>,
                ExportError,
            >(e),
        },
{
    let mut slots: Vec<ISubstat> = Vec::new();
    let mut i: usize = 0;
    assert(substats_view(slots@) =~= Seq::empty());
    while i < SUBSTAT_SLOTS
        invariant
            i <= SUBSTAT_SLOTS,
            substats_exported(stats@, i as nat) == Ok::<Seq<ISubstatView>, ExportError>(
                substats_view(slots@),
            ),
        decreases SUBSTAT_SLOTS - i,
    {
        let ghost before = slots@;
        let mut slot: ISubstat = ISubstat::default();
        if i < stats.len() {
            match stats[i].stat_name() {
                Some(name) => {
                    slot = ISubstat { key: name.to_owned(), upgrades: stats[i].add_value };
                },
                None => {
                    let error = ExportError::UnknownStat { key: stats[i].key };
                    proof {
                        lemma_substats_fail(stats@, i as nat, SUBSTAT_SLOTS as nat, error);
                    }
                    return Err(error);
                },
            }
        }
        slots.push(slot);
        assert(substats_view(slots@) =~= substats_view(before).push(slot@));
        i = i + 1;
    }
    Ok(slots)
}

/// The first slot that cannot be filled decides.
proof fn lemma_substats_fail(stats: Seq<DiscStat>, i: nat, n: nat, error: ExportError)
    requires
        i < n,
        substats_exported(stats, i) is Ok,
        substat_exported(stats, i as int) == Err::<ISubstatView, ExportError>(error),
    ensures
        substats_exported(stats, n) == Err::<Seq<ISubstatView>, ExportError>(error),
    decreases n,
{
    if n > i + 1 {
        lemma_substats_fail(stats, i, (n - 1) as nat, error);
    }
}

fn disc_export<N: Names>(disc: &DiscInfo, agents: &Vec<AgentInfo>, names: &N) -> (r: Result<
    IDisc,
    ExportError,
>)
    ensures
        match r {
            Ok(d) => disc_exported(disc@, snapshot::agents_view(agents@), *names) == Ok::<
                IDiscView,
                ExportError,
            >(d@),
            Err(e) => disc_exported(disc@, snapshot::agents_view(agents@), *names) == Err::<
                IDiscView,
                ExportError,
            >(e),
        },
{
    let set_id: u32 = disc.set_id();
    let set_key: String = match names.equipment_name(set_id) {
        Some(name) => b64::to_zod_key(name),
        None => {
            return Err(ExportError::UnknownEquipment { set_id });
        },
    };
    let rarity: u32 = disc.rarity();
    let letter: &str = match model::rarity_key(rarity) {
        Some(letter) => letter,
        None => {
            return Err(ExportError::UnmappedRarity { rarity });
        },
    };
    let main_stat: &str = match disc.main_stat.stat_name() {
        Some(name) => name,
        None => {
            return Err(ExportError::UnknownStat { key: disc.main_stat.key });
        },
    };
    let substats: Vec<ISubstat> = match substats_export(&disc.sub_stats) {
        Ok(substats) => substats,
        Err(e) => {
            return Err(e);
        },
    };
    let slot_key: String = json::number(disc.slot());
    Ok(
        IDisc {
            set_key,
            slot_key,
            level: byte_of(disc.level),
            rarity: letter.to_owned(),
            main_stat_key: main_stat.to_owned(),
            location: disc_owner_of(agents, disc.uid, names),
            lock: false,
            trash: false,
            substats,
        },
    )
}

fn engine_export<N: Names>(engine: &WeaponInfo, agents: &Vec<AgentInfo>, names: &N) -> (r: Result<
    IEngine,
    ExportError,
>)
    ensures
        match r {
            Ok(e) => engine_exported(*engine, snapshot::agents_view(agents@), *names) == Ok::<
                IEngineView,
                ExportError,
            >(e@),
            Err(e) => engine_exported(*engine, snapshot::agents_view(agents@), *names) == Err::<
                IEngineView,
                ExportError,
            >(e),
        },
{
    match names.weapon_name(engine.id) {
        None => Err(ExportError::UnknownWeapon { id: engine.id }),
        Some(name) => Ok(
            IEngine {
                key: b64::to_zod_key(name),
                level: byte_of(engine.level),
                modification: byte_of(engine.modification),
                phase: byte_of(engine.phase),
                location: engine_owner_of(agents, engine.uid, names),
                lock: false,
                id: text::with_number("zzz_wengine_", engine.uid as u64),
            },
        ),
    }
}

fn agents_export<N: Names>(inventory: &Inventory, names: &N, s: &ExportSettings) -> (r: Result<
    Vec<IAgent>,
    ExportError,
>)
    ensures
        match r {
            Ok(list) => agents_exported(inventory@.agents, inventory@.engines, *names, *s) == Ok::<
                Seq<IAgentView>,
                ExportError,
            >(iagents_view(list@)),
            Err(e) => agents_exported(inventory@.agents, inventory@.engines, *names, *s) == Err::<
                Seq<IAgentView>,
                ExportError,
            >(e),
        },
{
    let ghost all = inventory@.agents;
    let mut out: Vec<IAgent> = Vec::new();
    let mut i: usize = 0;
    assert(all.take(0) =~= Seq::empty());
    assert(iagents_view(out@) =~= Seq::empty());
    while i < inventory.agents.len()
        invariant
            i <= inventory.agents@.len(),
            all == inventory@.agents,
            agents_exported(all.take(i as int), inventory@.engines, *names, *s) == Ok::<
                Seq<IAgentView>,
                ExportError,
            >(iagents_view(out@)),
        decreases inventory.agents@.len() - i,
    {
        let agent: &AgentInfo = &inventory.agents[i];
        assert(all[i as int] == agent@);
        assert(all.take(i + 1).drop_last() =~= all.take(i as int));
        assert(all.take(i + 1).last() == agent@);
        let above: bool = match names.character_rarity(agent.id) {
            Some(rarity) => rarity >= s.min_agent_rarity as u32,
            None => true,
        };
        if agent.level >= s.min_agent_level as u32 && above {
            match agent_export(agent, &inventory.engines, names, s.export_engines) {
                Ok(exported) => {
                    let ghost before = out@;
                    out.push(exported);
                    assert(iagents_view(out@) =~= iagents_view(before).push(exported@));
                },
                Err(e) => {
                    proof {
                        lemma_agents_fail(all, i + 1, inventory@.engines, *names, *s, e);
                    }
                    return Err(e);
                },
            }
        }
        i = i + 1;
    }
    assert(all.take(i as int) =~= all);
    Ok(out)
}

proof fn lemma_agents_fail<N: Names>(
    agents: Seq<AgentInfoView>,
    i: int,
    engines: Seq<WeaponInfo>,
    names: N,
    s: ExportSettings,
    error: ExportError,
)
    requires
        0 <= i <= agents.len(),
        agents_exported(agents.take(i), engines, names, s) == Err::<Seq<IAgentView>, ExportError>(
            error,
        ),
    ensures
        agents_exported(agents, engines, names, s) == Err::<Seq<IAgentView>, ExportError>(error),
    decreases agents.len() - i,
{
    if i < agents.len() {
        assert(agents.take(i + 1).drop_last() =~= agents.take(i));
        lemma_agents_fail(agents, i + 1, engines, names, s, error);
    } else {
        assert(agents.take(i) =~= agents);
    }
}

fn discs_export<N: Names>(inventory: &Inventory, names: &N, s: &ExportSettings) -> (r: Result<
    Vec<IDisc>,
    ExportError,
>)
    ensures
        match r {
            Ok(list) => discs_exported(inventory@.discs, inventory@.agents, *names, *s) == Ok::<
                Seq<IDiscView>,
                ExportError,
            >(idiscs_view(list@)),
            Err(e) => discs_exported(inventory@.discs, inventory@.agents, *names, *s) == Err::<
                Seq<IDiscView>,
                ExportError,
            >(e),
        },
{
    let ghost all = inventory@.discs;
    let mut out: Vec<IDisc> = Vec::new();
    let mut i: usize = 0;
    assert(all.take(0) =~= Seq::empty());
    assert(idiscs_view(out@) =~= Seq::empty());
    while i < inventory.discs.len()
        invariant
            i <= inventory.discs@.len(),
            all == inventory@.discs,
            discs_exported(all.take(i as int), inventory@.agents, *names, *s) == Ok::<
                Seq<IDiscView>,
                ExportError,
            >(idiscs_view(out@)),
        decreases inventory.discs@.len() - i,
    {
        let disc: &DiscInfo = &inventory.discs[i];
        assert(all[i as int] == disc@);
        assert(all.take(i + 1).drop_last() =~= all.take(i as int));
        assert(all.take(i + 1).last() == disc@);
        if disc.level >= s.min_disc_level as u32 && disc.rarity() >= s.min_disc_rarity as u32 {
            match disc_export(disc, &inventory.agents, names) {
                Ok(exported) => {
                    let ghost before = out@;
                    out.push(exported);
                    assert(idiscs_view(out@) =~= idiscs_view(before).push(exported@));
                },
                Err(e) => {
                    proof {
                        lemma_discs_fail(all, i + 1, inventory@.agents, *names, *s, e);
                    }
                    return Err(e);
                },
            }
        }
        i = i + 1;
    }
    assert(all.take(i as int) =~= all);
    Ok(out)
}

proof fn lemma_discs_fail<N: Names>(
    discs: Seq<DiscInfoView>,
    i: int,
    agents: Seq<AgentInfoView>,
    names: N,
    s: ExportSettings,
    error: ExportError,
)
    requires
        0 <= i <= discs.len(),
        discs_exported(discs.take(i), agents, names, s) == Err::<Seq<IDiscView>, ExportError>(
            error,
        ),
    ensures
        discs_exported(discs, agents, names, s) == Err::<Seq<IDiscView>, ExportError>(error),
    decreases discs.len() - i,
{
    if i < discs.len() {
        assert(discs.take(i + 1).drop_last() =~= discs.take(i));
        lemma_discs_fail(discs, i + 1, agents, names, s, error);
    } else {
        assert(discs.take(i) =~= discs);
    }
}

fn engines_export<N: Names>(inventory: &Inventory, names: &N, s: &ExportSettings) -> (r: Result<
    Vec<IEngine>,
    ExportError,
>)
    ensures
        match r {
            Ok(list) => engines_exported(inventory@.engines, inventory@.agents, *names, *s) == Ok::<
                Seq<IEngineView>,
                ExportError,
            >(iengines_view(list@)),
            Err(e) => engines_exported(inventory@.engines, inventory@.agents, *names, *s) == Err::<
                Seq<IEngineView>,
                ExportError,
            >(e),
        },
{
    let ghost all = inventory@.engines;
    let mut out: Vec<IEngine> = Vec::new();
    let mut i: usize = 0;
    assert(all.take(0) =~= Seq::empty());
    assert(iengines_view(out@) =~= Seq::empty());
    while i < inventory.engines.len()
        invariant
            i <= inventory.engines@.len(),
            all == inventory@.engines,
            engines_exported(all.take(i as int), inventory@.agents, *names, *s) == Ok::<
                Seq<IEngineView>,
                ExportError,
            >(iengines_view(out@)),
        decreases inventory.engines@.len() - i,
    {
        let engine: &WeaponInfo = &inventory.engines[i];
        assert(all.take(i + 1).drop_last() =~= all.take(i as int));
        assert(all.take(i + 1).last() == *engine);
        let above: bool = match names.weapon_rarity(engine.id) {
            Some(rarity) => rarity >= s.min_engine_rarity as u32,
            None => true,
        };
        if engine.level >= s.min_engine_level as u32 && above {
            match engine_export(engine, &inventory.agents, names) {
                Ok(exported) => {
                    let ghost before = out@;
                    out.push(exported);
                    assert(iengines_view(out@) =~= iengines_view(before).push(exported@));
                },
                Err(e) => {
                    proof {
                        lemma_engines_fail(all, i + 1, inventory@.agents, *names, *s, e);
                    }
                    return Err(e);
                },
            }
        }
        i = i + 1;
    }
    assert(all.take(i as int) =~= all);
    Ok(out)
}

proof fn lemma_engines_fail<N: Names>(
    engines: Seq<WeaponInfo>,
    i: int,
    agents: Seq<AgentInfoView>,
    names: N,
    s: ExportSettings,
    error: ExportError,
)
    requires
        0 <= i <= engines.len(),
        engines_exported(engines.take(i), agents, names, s) == Err::<Seq<IEngineView>, ExportError>(
            error,
        ),
    ensures
        engines_exported(engines, agents, names, s) == Err::<Seq<IEngineView>, ExportError>(error),
    decreases engines.len() - i,
{
    if i < engines.len() {
        assert(engines.take(i + 1).drop_last() =~= engines.take(i));
        lemma_engines_fail(engines, i + 1, agents, names, s, error);
    } else {
        assert(engines.take(i) =~= engines);
    }
}

/// The first agent without a name.
fn unnamed_agent<N: Names>(agents: &Vec<AgentInfo>, names: &N) -> (r: Option<u32>)
    ensures
        r == match lookup::find_first(snapshot::agents_view(agents@), unnamed(*names)) {
            Some(agent) => Some(agent.id),
            None => None,
        },
{
    let ghost all = snapshot::agents_view(agents@);
    let mut i: usize = 0;
    while i < agents.len()
        invariant
            i <= agents@.len(),
            all == snapshot::agents_view(agents@),
            forall|k: int| 0 <= k < i ==> !unnamed(*names)(#[trigger] all[k]),
        decreases agents@.len() - i,
    {
        assert(all[i as int] == agents@[i as int]@);
        if names.character_name(agents[i].id).is_none() {
            proof {
                lookup::lemma_find_first(all, unnamed(*names), i as int);
            }
            return Some(agents[i].id);
        }
        i = i + 1;
    }
    proof {
        lookup::lemma_find_first(all, unnamed(*names), i as int);
    }
    None
}

fn null_if_empty<T>(list: Option<Vec<T>>) -> (r: Option<Vec<T>>)
    ensures
        r == match list {
            Some(items) => if items@.len() == 0 {
                None
            } else {
                list
            },
            None => None,
        },
{
    match list {
        Some(items) => if items.len() == 0 {
            None
        } else {
            Some(items)
        },
        None => None,
    }
}

impl Izod {
    /// Exports an inventory. Who wears what is looked up among all agents and w-engines,
    /// before any floor: the settings decide what is written, not what is known.
    pub fn from_inventory<N: Names>(
        inventory: &Inventory,
        names: &N,
        settings: &ExportSettings,
    ) -> (r: Result<Izod, ExportError>)
        ensures
            izod_result(r) == exported(inventory@, *names, *settings),
    {
        if let Some(id) = unnamed_agent(&inventory.agents, names) {
            return Err(ExportError::UnknownCharacter { id });
        }
        let characters: Option<Vec<IAgent>> = if settings.export_agents {
            match agents_export(inventory, names, settings) {
                Ok(list) => Some(list),
                Err(e) => {
                    return Err(e);
                },
            }
        } else {
            None
        };
        let discs: Option<Vec<IDisc>> = if settings.export_discs {
            match discs_export(inventory, names, settings) {
                Ok(list) => Some(list),
                Err(e) => {
                    return Err(e);
                },
            }
        } else {
            None
        };
        let wengines: Option<Vec<IEngine>> = if settings.export_engines {
            match engines_export(inventory, names, settings) {
                Ok(list) => Some(list),
                Err(e) => {
                    return Err(e);
                },
            }
        } else {
            None
        };
        Ok(
            Izod {
                format: ZOD_FORMAT.to_owned(),
                version: ZOD_VERSION,
                source: ZOD_SOURCE.to_owned(),
                characters,
                discs,
                wengines,
            },
        )
    }

    /// The payload for a live client. The floors are ignored and an empty category is left
    /// out: either would delete what the client has.
    pub fn for_live<N: Names>(
        inventory: &Inventory,
        names: &N,
        settings: &ExportSettings,
    ) -> (r: Result<Izod, ExportError>)
        ensures
            izod_result(r) == live_exported(inventory@, *names, *settings),
    {
        let zod: Izod = match Izod::from_inventory(inventory, names, &settings.floorless()) {
            Ok(zod) => zod,
            Err(e) => {
                return Err(e);
            },
        };
        Ok(
            Izod {
                format: zod.format,
                version: zod.version,
                source: zod.source,
                characters: null_if_empty(zod.characters),
                discs: null_if_empty(zod.discs),
                wengines: null_if_empty(zod.wengines),
            },
        )
    }

    pub fn to_json(&self) -> (r: String)
        ensures
            r@ == izod_json(self@),
    {
        let fields: [(&str, Option<String>); 6] = [
            ("format", Some(json::string(self.format.as_str()))),
            ("version", Some(json::number(self.version))),
            ("source", Some(json::string(self.source.as_str()))),
            ("characters", agents_to_json(&self.characters)),
            ("discs", discs_to_json(&self.discs)),
            ("wengines", engines_to_json(&self.wengines)),
        ];
        assert(json::fields_text(fields@) =~= izod_fields(self@));
        json::object(fields.as_slice())
    }
}

fn agents_to_json(list: &Option<Vec<IAgent>>) -> (r: Option<String>)
    ensures
        json::value_text(r) == agents_json(
            match *list {
                Some(list) => Some(iagents_view(list@)),
                None => None,
            },
        ),
{
    match list {
        Some(list) => {
            assert(list@.map_values(|t: IAgent| t.encoding()) =~= iagents_view(list@).map_values(
                |a: IAgentView| agent_json(a),
            ));
            Some(map_json(list))
        },
        None => None,
    }
}

fn discs_to_json(list: &Option<Vec<IDisc>>) -> (r: Option<String>)
    ensures
        json::value_text(r) == discs_json(
            match *list {
                Some(list) => Some(idiscs_view(list@)),
                None => None,
            },
        ),
{
    match list {
        Some(list) => {
            assert(list@.map_values(|t: IDisc| t.encoding()) =~= idiscs_view(list@).map_values(
                |d: IDiscView| disc_json(d),
            ));
            Some(map_json(list))
        },
        None => None,
    }
}

fn engines_to_json(list: &Option<Vec<IEngine>>) -> (r: Option<String>)
    ensures
        json::value_text(r) == engines_json(
            match *list {
                Some(list) => Some(iengines_view(list@)),
                None => None,
            },
        ),
{
    match list {
        Some(list) => {
            assert(list@.map_values(|t: IEngine| t.encoding()) =~= iengines_view(list@).map_values(
                |e: IEngineView| engine_json(e),
            ));
            Some(map_json(list))
        },
        None => None,
    }
}

/// A live payload never holds an empty list: nothing the client has is deleted by it.
pub proof fn law_live_payload_has_no_empty_list<N: Names>(
    v: InventoryView,
    names: N,
    s: ExportSettings,
)
    ensures
        match live_exported(v, names, s) {
            Ok(zod) => {
                &&& zod.characters is Some ==> zod.characters->Some_0.len() > 0
                &&& zod.discs is Some ==> zod.discs->Some_0.len() > 0
                &&& zod.wengines is Some ==> zod.wengines->Some_0.len() > 0
            },
            Err(_) => true,
        },
{
}

/// Floors make no difference to a live payload.
pub proof fn law_live_payload_ignores_floors<N: Names>(
    v: InventoryView,
    names: N,
    s: ExportSettings,
    t: ExportSettings,
)
    requires
        s.export_discs == t.export_discs,
        s.export_agents == t.export_agents,
        s.export_engines == t.export_engines,
    ensures
        live_exported(v, names, s) == live_exported(v, names, t),
{
}

/// A category that is switched off is absent; one that is switched on is there, be it empty.
pub proof fn law_switched_off_categories_are_absent<N: Names>(
    v: InventoryView,
    names: N,
    s: ExportSettings,
)
    ensures
        match exported(v, names, s) {
            Ok(zod) => {
                &&& zod.characters is Some <==> s.export_agents
                &&& zod.discs is Some <==> s.export_discs
                &&& zod.wengines is Some <==> s.export_engines
            },
            Err(_) => true,
        },
{
}

/// An agent without a name fails the export under any settings.
pub proof fn law_unnamed_agent_fails_the_export<N: Names>(
    v: InventoryView,
    names: N,
    s: ExportSettings,
    i: int,
)
    requires
        0 <= i < v.agents.len(),
        names.character_name_of(v.agents[i].id) is None,
    ensures
        exported(v, names, s) is Err,
        live_exported(v, names, s) is Err,
{
    lookup::lemma_index_first(v.agents, unnamed(names));
    assert(unnamed(names)(v.agents[i]));
}

/// Without floors every record of an exported category is written.
pub proof fn law_floorless_export_is_complete<N: Names>(
    v: InventoryView,
    names: N,
    s: ExportSettings,
)
    ensures
        match exported(v, names, settings::without_floors(s)) {
            Ok(zod) => {
                &&& zod.characters is Some ==> zod.characters->Some_0.len() == v.agents.len()
                &&& zod.discs is Some ==> zod.discs->Some_0.len() == v.discs.len()
                &&& zod.wengines is Some ==> zod.wengines->Some_0.len() == v.engines.len()
            },
            Err(_) => true,
        },
{
    lemma_agents_complete(v.agents, v.engines, names, settings::without_floors(s));
    lemma_discs_complete(v.discs, v.agents, names, settings::without_floors(s));
    lemma_engines_complete(v.engines, v.agents, names, settings::without_floors(s));
}

proof fn lemma_agents_complete<N: Names>(
    agents: Seq<AgentInfoView>,
    engines: Seq<WeaponInfo>,
    names: N,
    s: ExportSettings,
)
    requires
        s.min_agent_level == 0,
        s.min_agent_rarity == 0,
    ensures
        agents_exported(agents, engines, names, s) is Ok ==> agents_exported(
            agents,
            engines,
            names,
            s,
        )->Ok_0.len() == agents.len(),
    decreases agents.len(),
{
    if agents.len() > 0 {
        lemma_agents_complete(agents.drop_last(), engines, names, s);
    }
}

proof fn lemma_discs_complete<N: Names>(
    discs: Seq<DiscInfoView>,
    agents: Seq<AgentInfoView>,
    names: N,
    s: ExportSettings,
)
    requires
        s.min_disc_level == 0,
        s.min_disc_rarity == 0,
    ensures
        discs_exported(discs, agents, names, s) is Ok ==> discs_exported(
            discs,
            agents,
            names,
            s,
        )->Ok_0.len() == discs.len(),
    decreases discs.len(),
{
    if discs.len() > 0 {
        lemma_discs_complete(discs.drop_last(), agents, names, s);
    }
}

proof fn lemma_engines_complete<N: Names>(
    engines: Seq<WeaponInfo>,
    agents: Seq<AgentInfoView>,
    names: N,
    s: ExportSettings,
)
    requires
        s.min_engine_level == 0,
        s.min_engine_rarity == 0,
    ensures
        engines_exported(engines, agents, names, s) is Ok ==> engines_exported(
            engines,
            agents,
            names,
            s,
        )->Ok_0.len() == engines.len(),
    decreases engines.len(),
{
    if engines.len() > 0 {
        lemma_engines_complete(engines.drop_last(), agents, names, s);
    }
}

/// The agents above the floors.
pub open spec fn agents_kept<N: Names>(agents: Seq<AgentInfoView>, names: N, s: ExportSettings) -> Seq<
    AgentInfoView,
> {
    agents.filter(|a: AgentInfoView| keeps_agent(a, names, s))
}

/// The discs above the floors.
pub open spec fn discs_kept(discs: Seq<DiscInfoView>, s: ExportSettings) -> Seq<DiscInfoView> {
    discs.filter(|d: DiscInfoView| keeps_disc(d, s))
}

/// The w-engines above the floors.
pub open spec fn engines_kept<N: Names>(engines: Seq<WeaponInfo>, names: N, s: ExportSettings) -> Seq<
    WeaponInfo,
> {
    engines.filter(|e: WeaponInfo| keeps_engine(e, names, s))
}

/// What is written is what is above the floors, one for one and in the order in which it is
/// held.
pub proof fn law_the_floors_decide<N: Names>(v: InventoryView, names: N, s: ExportSettings)
    ensures
        match exported(v, names, s) {
            Ok(zod) => {
                &&& zod.characters matches Some(list) ==> {
                    let kept = agents_kept(v.agents, names, s);
                    &&& list.len() == kept.len()
                    &&& forall|i: int|
                        0 <= i < list.len() ==> agent_exported(
                            kept[i],
                            v.engines,
                            names,
                            s.export_engines,
                        ) == Ok::<IAgentView, ExportError>(#[trigger] list[i])
                }
                &&& zod.discs matches Some(list) ==> {
                    let kept = discs_kept(v.discs, s);
                    &&& list.len() == kept.len()
                    &&& forall|i: int|
                        0 <= i < list.len() ==> disc_exported(kept[i], v.agents, names) == Ok::<
                            IDiscView,
                            ExportError,
                        >(#[trigger] list[i])
                }
                &&& zod.wengines matches Some(list) ==> {
                    let kept = engines_kept(v.engines, names, s);
                    &&& list.len() == kept.len()
                    &&& forall|i: int|
                        0 <= i < list.len() ==> engine_exported(kept[i], v.agents, names) == Ok::<
                            IEngineView,
                            ExportError,
                        >(#[trigger] list[i])
                }
            },
            Err(_) => true,
        },
{
    lemma_agents_kept(v.agents, v.engines, names, s);
    lemma_discs_kept(v.discs, v.agents, names, s);
    lemma_engines_kept(v.engines, v.agents, names, s);
}

proof fn lemma_agents_kept<N: Names>(
    agents: Seq<AgentInfoView>,
    engines: Seq<WeaponInfo>,
    names: N,
    s: ExportSettings,
)
    ensures
        agents_exported(agents, engines, names, s) matches Ok(list) ==> {
            let kept = agents_kept(agents, names, s);
            &&& list.len() == kept.len()
            &&& forall|i: int|
                0 <= i < list.len() ==> agent_exported(kept[i], engines, names, s.export_engines)
                    == Ok::<IAgentView, ExportError>(#[trigger] list[i])
        },
    decreases agents.len(),
{
    reveal(Seq::filter);
    if agents.len() > 0 {
        lemma_agents_kept(agents.drop_last(), engines, names, s);
    }
}

proof fn lemma_discs_kept<N: Names>(
    discs: Seq<DiscInfoView>,
    agents: Seq<AgentInfoView>,
    names: N,
    s: ExportSettings,
)
    ensures
        discs_exported(discs, agents, names, s) matches Ok(list) ==> {
            let kept = discs_kept(discs, s);
            &&& list.len() == kept.len()
            &&& forall|i: int|
                0 <= i < list.len() ==> disc_exported(kept[i], agents, names) == Ok::<
                    IDiscView,
                    ExportError,
                >(#[trigger] list[i])
        },
    decreases discs.len(),
{
    reveal(Seq::filter);
    if discs.len() > 0 {
        lemma_discs_kept(discs.drop_last(), agents, names, s);
    }
}

proof fn lemma_engines_kept<N: Names>(
    engines: Seq<WeaponInfo>,
    agents: Seq<AgentInfoView>,
    names: N,
    s: ExportSettings,
)
    ensures
        engines_exported(engines, agents, names, s) matches Ok(list) ==> {
            let kept = engines_kept(engines, names, s);
            &&& list.len() == kept.len()
            &&& forall|i: int|
                0 <= i < list.len() ==> engine_exported(kept[i], agents, names) == Ok::<
                    IEngineView,
                    ExportError,
                >(#[trigger] list[i])
        },
    decreases engines.len(),
{
    reveal(Seq::filter);
    if engines.len() > 0 {
        lemma_engines_kept(engines.drop_last(), agents, names, s);
    }
}

/// A disc is written with four substats, however many it has.
pub proof fn law_discs_have_four_substats<N: Names>(
    disc: DiscInfoView,
    agents: Seq<AgentInfoView>,
    names: N,
)
    ensures
        disc_exported(disc, agents, names) is Ok ==> disc_exported(
            disc,
            agents,
            names,
        )->Ok_0.substats.len() == 4,
{
    lemma_substats_len(disc.sub_stats, SUBSTAT_SLOTS as nat);
}

proof fn lemma_substats_len(stats: Seq<DiscStat>, n: nat)
    ensures
        substats_exported(stats, n) is Ok ==> substats_exported(stats, n)->Ok_0.len() == n,
    decreases n,
{
    if n > 0 {
        lemma_substats_len(stats, (n - 1) as nat);
    }
}

} // verus!
