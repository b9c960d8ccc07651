//! Which parts of the inventory are exported, and the floors below which a record is left
//! out.
use vstd::prelude::*;

verus! {

/// What to export.
///
/// The floor on a disc's rarity is compared with the rarity in the disc's id: 3, 4 or 5. The
/// floors on an agent's and a w-engine's rarity are compared with stars.
#[derive(Debug, Clone, Copy, PartialEq, Eq, Structural)]
pub struct ExportSettings {
    pub min_disc_rarity: u8,
    pub min_disc_level: u8,
    pub min_engine_rarity: u8,
    pub min_engine_level: u8,
    pub min_agent_rarity: u8,
    pub min_agent_level: u8,
    pub export_discs: bool,
    pub export_agents: bool,
    pub export_engines: bool,
}

/// All categories; discs and w-engines from rarity 3, agents from four stars.
pub open spec fn usual() -> ExportSettings {
    ExportSettings {
        min_disc_rarity: 3,
        min_disc_level: 0,
        min_engine_rarity: 3,
        min_engine_level: 0,
        min_agent_rarity: 4,
        min_agent_level: 0,
        export_discs: true,
        export_agents: true,
        export_engines: true,
    }
}

/// The same categories without floors.
pub open spec fn without_floors(s: ExportSettings) -> ExportSettings {
    ExportSettings {
        min_disc_rarity: 0,
        min_disc_level: 0,
        min_engine_rarity: 0,
        min_engine_level: 0,
        min_agent_rarity: 0,
        min_agent_level: 0,
        ..s
    }
}

impl Default for ExportSettings {
    fn default() -> (r: ExportSettings)
        ensures
            r == usual(),
    {
        ExportSettings {
            min_disc_rarity: 3,
            min_disc_level: 0,
            min_engine_rarity: 3,
            min_engine_level: 0,
            min_agent_rarity: 4,
            min_agent_level: 0,
            export_discs: true,
            export_agents: true,
            export_engines: true,
        }
    }
}

impl ExportSettings {
    /// Everything, without floors.
    pub fn unfiltered() -> (r: ExportSettings)
        ensures
            r == without_floors(usual()),
    {
        ExportSettings::default().floorless()
    }

    /// The same categories without floors.
    pub fn floorless(&self) -> (r: ExportSettings)
        ensures
            r == without_floors(*self),
    {
        ExportSettings {
            min_disc_rarity: 0,
            min_disc_level: 0,
            min_engine_rarity: 0,
            min_engine_level: 0,
            min_agent_rarity: 0,
            min_agent_level: 0,
            ..*self
        }
    }
}

/// Taking the floors off leaves no floor and keeps the categories, and doing it again changes
/// nothing. The usual settings export every category, discs and w-engines from rarity 3, agents
/// from four stars, and any level.
pub proof fn law_floors_come_off_alone(s: ExportSettings)
    ensures
        ({
            let t = without_floors(s);
            &&& t.min_disc_rarity == 0 && t.min_disc_level == 0
            &&& t.min_engine_rarity == 0 && t.min_engine_level == 0
            &&& t.min_agent_rarity == 0 && t.min_agent_level == 0
            &&& t.export_discs == s.export_discs
            &&& t.export_engines == s.export_engines
            &&& t.export_agents == s.export_agents
            &&& without_floors(t) == t
        }),
        usual().export_discs && usual().export_engines && usual().export_agents,
        usual().min_disc_rarity == 3 && usual().min_engine_rarity == 3 && usual().min_agent_rarity
            == 4,
        usual().min_disc_level == 0 && usual().min_engine_level == 0 && usual().min_agent_level == 0,
{
}

} // verus!
