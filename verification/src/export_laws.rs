//! What the export says of each agent, disc and w-engine, and when it says nothing.
use crate::json;
use crate::lookup;
use crate::model;
use crate::model::{AgentInfoView, DiscInfoView, WeaponInfo};
use crate::names::Names;
use crate::settings::ExportSettings;
use crate::snapshot::InventoryView;
use crate::text;
use crate::zod;
use crate::zod::{
    agent_exported, disc_exported, engine_exported, exported, live_exported, ExportError,
    IAgentView, IDiscView, IEngineView, ISubstatView, IzodView,
};
use vstd::prelude::*;

verus! {

/// The skill of an exported agent that goes by a name.
pub open spec fn skill_called(agent: IAgentView, name: Seq<char>) -> Option<u8> {
    if name == "basic"@ {
        Some(agent.basic)
    } else if name == "special"@ {
        Some(agent.special)
    } else if name == "dodge"@ {
        Some(agent.dodge)
    } else if name == "chain"@ {
        Some(agent.chain)
    } else if name == "core"@ {
        Some(agent.core)
    } else if name == "assist"@ {
        Some(agent.assist)
    } else {
        None
    }
}

/// An exported agent has the level of each skill under the name of its position, the core skill
/// less one. The other numbers are those of the record, the promotion less one. All are cut to
/// eight bits.
pub proof fn law_an_exported_agent_is_the_one_held<N: Names>(
    agent: AgentInfoView,
    engines: Seq<WeaponInfo>,
    names: N,
    with_engines: bool,
)
    ensures
        agent_exported(agent, engines, names, with_engines) matches Ok(out) ==> {
            &&& agent.skills.len() >= 6
            &&& skill_called(out, zod::skill_name(0)) == Some((agent.skills[0].level % 256) as u8)
            &&& skill_called(out, zod::skill_name(1)) == Some((agent.skills[1].level % 256) as u8)
            &&& skill_called(out, zod::skill_name(2)) == Some((agent.skills[2].level % 256) as u8)
            &&& skill_called(out, zod::skill_name(3)) == Some((agent.skills[3].level % 256) as u8)
            &&& skill_called(out, zod::skill_name(4)) == Some(
                ((agent.skills[4].level + 255) % 256) as u8,
            )
            &&& skill_called(out, zod::skill_name(5)) == Some((agent.skills[5].level % 256) as u8)
            &&& out.basic as int == agent.skills[0].level % 256
            &&& out.special as int == agent.skills[1].level % 256
            &&& out.dodge as int == agent.skills[2].level % 256
            &&& out.chain as int == agent.skills[3].level % 256
            &&& out.core as int == (agent.skills[4].level + 255) % 256
            &&& out.assist as int == agent.skills[5].level % 256
            &&& out.level as int == agent.level % 256
            &&& out.mindscape as int == agent.mindscape % 256
            &&& out.promotion as int == (agent.promotion + 255) % 256
            &&& out.potential == 0
            &&& out.equipped_engine.len() == 0
            &&& names.character_name_of(agent.id) matches Some(name) && out.key == zod::key_of(name)
            &&& out.id == out.key
        },
{
    reveal_strlit("basic");
    reveal_strlit("special");
    reveal_strlit("dodge");
    reveal_strlit("chain");
    reveal_strlit("core");
    reveal_strlit("assist");
    assert("basic"@[0] == 'b' && "dodge"@[0] == 'd' && "special"@[0] == 's');
    assert("chain"@[0] == 'c' && "core"@[0] == 'c' && "assist"@[0] == 'a');
    assert("chain"@.len() == 5 && "core"@.len() == 4);
}

/// An exported agent names the w-engine that is held under the uid it wears: the last such one,
/// with its phase. One that is not held leaves an empty key and the lowest phase. Where
/// w-engines are not exported, neither is written.
pub proof fn law_an_exported_agent_names_its_engine<N: Names>(
    agent: AgentInfoView,
    engines: Seq<WeaponInfo>,
    names: N,
    with_engines: bool,
    i: int,
)
    requires
        -1 <= i < engines.len(),
        i >= 0 ==> engines[i].uid == agent.weapon_uid,
        forall|j: int| i < j < engines.len() ==> (#[trigger] engines[j]).uid != agent.weapon_uid,
    ensures
        agent_exported(agent, engines, names, with_engines) matches Ok(out) ==> if !with_engines {
            out.wengine_key is None && out.wengine_phase is None
        } else if i < 0 {
            &&& out.wengine_key matches Some(key) && key.len() == 0
            &&& out.wengine_phase == Some(1u8)
        } else {
            &&& names.weapon_name_of(engines[i].id) matches Some(name) && out.wengine_key == Some(
                zod::key_of(name),
            )
            &&& out.wengine_phase == Some((engines[i].phase % 256) as u8)
        },
{
    let p = crate::snapshot::is_engine(agent.weapon_uid);
    assert forall|k: int| i + 1 <= k < engines.len() implies !p(#[trigger] engines[k]) by {}
    lookup::lemma_find_last(engines, p, i + 1);
}

/// The agent at `i` wears the disc with a uid, and none behind it does; or none does, and `i` is
/// -1.
pub open spec fn is_last_wearer(agents: Seq<AgentInfoView>, uid: u32, i: int) -> bool {
    &&& -1 <= i < agents.len()
    &&& i >= 0 ==> wears(agents[i], uid)
    &&& forall|j: int| i < j < agents.len() ==> !wears(#[trigger] agents[j], uid)
}

/// The disc with a uid is among those that an agent wears.
pub open spec fn wears(agent: AgentInfoView, uid: u32) -> bool {
    exists|k: int|
        0 <= k < agent.dressed_equips.len() && (#[trigger] agent.dressed_equips[k]).uid == uid
}

proof fn lemma_wears(agent: AgentInfoView, uid: u32)
    ensures
        zod::wears_disc(uid)(agent) == wears(agent, uid),
{
    let p = zod::is_worn(uid);
    lookup::lemma_index_first(agent.dressed_equips, p);
    let i = lookup::index_first(agent.dressed_equips, p);
    if i < agent.dressed_equips.len() {
        assert(p(agent.dressed_equips[i]));
        assert(agent.dressed_equips[i].uid == uid);
    }
    if wears(agent, uid) {
        let k = choose|k: int|
            0 <= k < agent.dressed_equips.len() && (#[trigger] agent.dressed_equips[k]).uid == uid;
        assert(p(agent.dressed_equips[k]));
    }
}

/// The letter of a rarity digit in a disc id.
pub open spec fn letter_of(digit: int) -> Seq<char> {
    if digit == 2 {
        "B"@
    } else if digit == 3 {
        "A"@
    } else {
        "S"@
    }
}

/// An exported disc says what its record says: the set under the id without its last two
/// digits, the slot and the rarity by those digits, the level cut to eight bits, the name of the
/// main stat, and up to four substats with their upgrades. It is located at the last agent that
/// wears it.
pub proof fn law_an_exported_disc_is_the_one_held<N: Names>(
    disc: DiscInfoView,
    agents: Seq<AgentInfoView>,
    names: N,
    wearer: int,
)
    requires
        is_last_wearer(agents, disc.uid, wearer),
    ensures
        disc_exported(disc, agents, names) matches Ok(out) ==> {
            let digit = disc.id / 10 % 10;
            &&& names.equipment_name_of((disc.id - disc.id % 100) as u32) matches Some(name)
                && out.set_key == zod::key_of(name)
            &&& out.slot_key == text::decimal((disc.id % 10) as nat)
            &&& 2 <= digit <= 4
            &&& out.rarity == letter_of(digit as int)
            &&& out.level as int == disc.level % 256
            &&& model::stat_of_id(disc.main_stat.key) matches Some(stat) && out.main_stat_key
                == stat.name@
            &&& out.location == if wearer < 0 {
                Seq::empty()
            } else {
                match names.character_name_of(agents[wearer].id) {
                    Some(name) => zod::key_of(name),
                    None => Seq::empty(),
                }
            }
            &&& !out.lock
            &&& !out.trash
            &&& out.substats.len() == 4
            &&& forall|j: int|
                0 <= j < 4 ==> slot_says(#[trigger] out.substats[j], disc.sub_stats, j)
        },
{
    let p = zod::wears_disc(disc.uid);
    assert forall|k: int| wearer + 1 <= k < agents.len() implies !p(#[trigger] agents[k]) by {
        lemma_wears(agents[k], disc.uid);
    }
    if wearer >= 0 {
        lemma_wears(agents[wearer], disc.uid);
    }
    lookup::lemma_find_last(agents, p, wearer + 1);
    lemma_substats(disc.sub_stats, 4);
    assert(model::disc_set(disc.id) == disc.id - disc.id % 100);
    if let Ok(out) = disc_exported(disc, agents, names) {
        let rarity = model::disc_rarity(disc.id);
        assert(rarity == disc.id / 10 % 10 + 1);
        assert(3 <= rarity <= 5);
        assert(out.location == zod::disc_owner(agents, disc.uid, names));
    }
}

/// A slot holds the name of the substat at its place and how often it was upgraded, or is empty
/// where there is no such substat.
pub open spec fn slot_says(slot: ISubstatView, stats: Seq<model::DiscStat>, j: int) -> bool {
    if j < stats.len() {
        &&& model::stat_of_id(stats[j].key) is Some
        &&& slot.key == model::stat_of_id(stats[j].key)->Some_0.name@
        &&& slot.upgrades == stats[j].add_value
    } else {
        slot.key.len() == 0 && slot.upgrades == 0
    }
}

proof fn lemma_substats(stats: Seq<model::DiscStat>, n: nat)
    ensures
        match zod::substats_exported(stats, n) {
            Ok(slots) => {
                &&& slots.len() == n
                &&& forall|j: int| 0 <= j < n ==> slot_says(#[trigger] slots[j], stats, j)
            },
            Err(_) => exists|j: int|
                0 <= j < n && j < stats.len() && model::stat_of_id(
                    (#[trigger] stats[j]).key,
                ) is None,
        },
    decreases n,
{
    if n > 0 {
        lemma_substats(stats, (n - 1) as nat);
        match (zod::substats_exported(stats, (n - 1) as nat), zod::substats_exported(stats, n)) {
            (Ok(earlier), Ok(slots)) => {
                let last = zod::substat_exported(stats, n - 1)->Ok_0;
                assert(slots == earlier.push(last));
                assert forall|j: int| 0 <= j < n implies slot_says(
                    #[trigger] slots[j],
                    stats,
                    j,
                ) by {
                    if j < n - 1 {
                        assert(slots[j] == earlier[j]);
                    }
                }
            },
            (Ok(_), Err(_)) => {
                assert(model::stat_of_id(stats[n - 1].key) is None);
            },
            _ => {},
        }
    }
}

/// An exported w-engine says what its record says, and is located at the last agent that wears
/// it.
pub proof fn law_an_exported_engine_is_the_one_held<N: Names>(
    engine: WeaponInfo,
    agents: Seq<AgentInfoView>,
    names: N,
    wearer: int,
)
    requires
        -1 <= wearer < agents.len(),
        wearer >= 0 ==> agents[wearer].weapon_uid == engine.uid,
        forall|j: int|
            wearer < j < agents.len() ==> (#[trigger] agents[j]).weapon_uid != engine.uid,
    ensures
        engine_exported(engine, agents, names) matches Ok(out) ==> {
            &&& names.weapon_name_of(engine.id) matches Some(name) && out.key == zod::key_of(name)
            &&& out.level as int == engine.level % 256
            &&& out.modification as int == engine.modification % 256
            &&& out.phase as int == engine.phase % 256
            &&& out.location == if wearer < 0 {
                Seq::empty()
            } else {
                match names.character_name_of(agents[wearer].id) {
                    Some(name) => zod::key_of(name),
                    None => Seq::empty(),
                }
            }
            &&& !out.lock
            &&& out.id == "zzz_wengine_"@ + text::decimal(engine.uid as nat)
        },
        engine_exported(engine, agents, names) is Ok <==> names.weapon_name_of(engine.id) is Some,
{
    let p = zod::wears_engine(engine.uid);
    assert forall|k: int| wearer + 1 <= k < agents.len() implies !p(#[trigger] agents[k]) by {}
    lookup::lemma_find_last(agents, p, wearer + 1);
}

/// An agent can be exported if and only if it has a name, six skills and, where w-engines are
/// exported and the one it wears is held, a name for that.
pub proof fn law_when_an_agent_is_exported<N: Names>(
    agent: AgentInfoView,
    engines: Seq<WeaponInfo>,
    names: N,
    with_engines: bool,
    i: int,
)
    requires
        -1 <= i < engines.len(),
        i >= 0 ==> engines[i].uid == agent.weapon_uid,
        forall|j: int| i < j < engines.len() ==> (#[trigger] engines[j]).uid != agent.weapon_uid,
    ensures
        agent_exported(agent, engines, names, with_engines) is Ok <==> {
            &&& names.character_name_of(agent.id) is Some
            &&& agent.skills.len() >= 6
            &&& with_engines && i >= 0 ==> names.weapon_name_of(engines[i].id) is Some
        },
{
    let p = crate::snapshot::is_engine(agent.weapon_uid);
    assert forall|k: int| i + 1 <= k < engines.len() implies !p(#[trigger] engines[k]) by {}
    lookup::lemma_find_last(engines, p, i + 1);
}

/// A disc can be exported if and only if its set has a name, its rarity a letter, and its main
/// stat and its first four substats are known.
pub proof fn law_when_a_disc_is_exported<N: Names>(
    disc: DiscInfoView,
    agents: Seq<AgentInfoView>,
    names: N,
)
    ensures
        disc_exported(disc, agents, names) is Ok <==> {
            &&& names.equipment_name_of((disc.id - disc.id % 100) as u32) is Some
            &&& 2 <= disc.id / 10 % 10 <= 4
            &&& model::stat_of_id(disc.main_stat.key) is Some
            &&& forall|j: int|
                0 <= j < 4 && j < disc.sub_stats.len() ==> model::stat_of_id(
                    (#[trigger] disc.sub_stats[j]).key,
                ) is Some
        },
{
    lemma_substats(disc.sub_stats, 4);
    if zod::substats_exported(disc.sub_stats, 4) is Ok {
        let slots = zod::substats_exported(disc.sub_stats, 4)->Ok_0;
        assert forall|j: int| 0 <= j < 4 && j < disc.sub_stats.len() implies model::stat_of_id(
            (#[trigger] disc.sub_stats[j]).key,
        ) is Some by {
            let slot = slots[j];
        }
    }
}

/// An export writes, of each category that it exports, what reaches its floors, and all of it:
/// a level or a rarity at the floor is enough, and what has no known rarity is let through. The
/// order is that in which things are held.
pub proof fn law_what_reaches_the_floors_is_written<N: Names>(
    v: InventoryView,
    names: N,
    s: ExportSettings,
)
    ensures
        exported(v, names, s) matches Ok(out) ==> {
            &&& out.characters is Some <==> s.export_agents
            &&& out.discs is Some <==> s.export_discs
            &&& out.wengines is Some <==> s.export_engines
            &&& out.characters matches Some(list) ==> {
                let kept = v.agents.filter(
                    |a: AgentInfoView|
                        a.level >= s.min_agent_level && (names.character_rarity_of(
                            a.id,
                        ) matches Some(rarity) ==> rarity >= s.min_agent_rarity),
                );
                &&& list.len() == kept.len()
                &&& forall|i: int|
                    0 <= i < list.len() ==> agent_exported(
                        kept[i],
                        v.engines,
                        names,
                        s.export_engines,
                    ) == Ok::<IAgentView, ExportError>(#[trigger] list[i])
            }
            &&& out.discs matches Some(list) ==> {
                let kept = v.discs.filter(
                    |d: DiscInfoView|
                        d.level >= s.min_disc_level && d.id / 10 % 10 + 1 >= s.min_disc_rarity,
                );
                &&& list.len() == kept.len()
                &&& forall|i: int|
                    0 <= i < list.len() ==> disc_exported(kept[i], v.agents, names) == Ok::<
                        IDiscView,
                        ExportError,
                    >(#[trigger] list[i])
            }
            &&& out.wengines matches Some(list) ==> {
                let kept = v.engines.filter(
                    |e: WeaponInfo|
                        e.level >= s.min_engine_level && (names.weapon_rarity_of(
                            e.id,
                        ) matches Some(rarity) ==> rarity >= s.min_engine_rarity),
                );
                &&& list.len() == kept.len()
                &&& forall|i: int|
                    0 <= i < list.len() ==> engine_exported(kept[i], v.agents, names) == Ok::<
                        IEngineView,
                        ExportError,
                    >(#[trigger] list[i])
            }
        },
{
    zod::law_the_floors_decide(v, names, s);
    zod::law_switched_off_categories_are_absent(v, names, s);
    let p = |a: AgentInfoView| zod::keeps_agent(a, names, s);
    let q = |a: AgentInfoView|
        a.level >= s.min_agent_level && (names.character_rarity_of(a.id) matches Some(rarity)
            ==> rarity >= s.min_agent_rarity);
    lemma_same_filter(v.agents, p, q);
    let p = |d: DiscInfoView| zod::keeps_disc(d, s);
    let q = |d: DiscInfoView|
        d.level >= s.min_disc_level && d.id / 10 % 10 + 1 >= s.min_disc_rarity;
    lemma_same_filter(v.discs, p, q);
    let p = |e: WeaponInfo| zod::keeps_engine(e, names, s);
    let q = |e: WeaponInfo|
        e.level >= s.min_engine_level && (names.weapon_rarity_of(e.id) matches Some(rarity)
            ==> rarity >= s.min_engine_rarity);
    lemma_same_filter(v.engines, p, q);
}

proof fn lemma_same_filter<T>(s: Seq<T>, p: spec_fn(T) -> bool, q: spec_fn(T) -> bool)
    requires
        forall|x: T| #[trigger] p(x) == q(x),
    ensures
        s.filter(p) == s.filter(q),
    decreases s.len(),
{
    reveal(Seq::filter);
    if s.len() > 0 {
        lemma_same_filter(s.drop_last(), p, q);
        assert(p(s.last()) == q(s.last()));
    }
}

/// The JSON of a substat holds its name and its upgrades.
pub proof fn law_a_substat_is_written(s: ISubstatView)
    ensures
        json::has_member(zod::substat_json(s), "key"@, json::string_text(s.key)),
        json::has_member(zod::substat_json(s), "upgrades"@, text::decimal(s.upgrades as nat)),
{
    let fields = zod::substat_fields(s);
    json::law_fields_are_written(fields, 0);
    json::law_fields_are_written(fields, 1);
}

/// The JSON of a disc holds each of its fields under its key, the substats in order.
pub proof fn law_a_disc_is_written(d: IDiscView)
    ensures
        json::has_member(zod::disc_json(d), "setKey"@, json::string_text(d.set_key)),
        json::has_member(zod::disc_json(d), "slotKey"@, json::string_text(d.slot_key)),
        json::has_member(zod::disc_json(d), "level"@, text::decimal(d.level as nat)),
        json::has_member(zod::disc_json(d), "rarity"@, json::string_text(d.rarity)),
        json::has_member(zod::disc_json(d), "mainStatKey"@, json::string_text(d.main_stat_key)),
        json::has_member(zod::disc_json(d), "location"@, json::string_text(d.location)),
        json::has_member(zod::disc_json(d), "lock"@, json::boolean_text(d.lock)),
        json::has_member(zod::disc_json(d), "trash"@, json::boolean_text(d.trash)),
        json::has_member(zod::disc_json(d), "substats"@, json::array_text(d.substats.map_values(|s: ISubstatView| zod::substat_json(s)))),
{
    let fields = zod::disc_fields(d);
    json::law_fields_are_written(fields, 0);
    json::law_fields_are_written(fields, 1);
    json::law_fields_are_written(fields, 2);
    json::law_fields_are_written(fields, 3);
    json::law_fields_are_written(fields, 4);
    json::law_fields_are_written(fields, 5);
    json::law_fields_are_written(fields, 6);
    json::law_fields_are_written(fields, 7);
    json::law_fields_are_written(fields, 8);
}

/// The JSON of a w-engine holds each of its fields under its key.
pub proof fn law_an_engine_is_written(e: IEngineView)
    ensures
        json::has_member(zod::engine_json(e), "key"@, json::string_text(e.key)),
        json::has_member(zod::engine_json(e), "level"@, text::decimal(e.level as nat)),
        json::has_member(zod::engine_json(e), "modification"@, text::decimal(e.modification as nat)),
        json::has_member(zod::engine_json(e), "phase"@, text::decimal(e.phase as nat)),
        json::has_member(zod::engine_json(e), "location"@, json::string_text(e.location)),
        json::has_member(zod::engine_json(e), "lock"@, json::boolean_text(e.lock)),
        json::has_member(zod::engine_json(e), "id"@, json::string_text(e.id)),
{
    let fields = zod::engine_fields(e);
    json::law_fields_are_written(fields, 0);
    json::law_fields_are_written(fields, 1);
    json::law_fields_are_written(fields, 2);
    json::law_fields_are_written(fields, 3);
    json::law_fields_are_written(fields, 4);
    json::law_fields_are_written(fields, 5);
    json::law_fields_are_written(fields, 6);
}

/// The JSON of an agent holds each of its fields under its key, and the w-engine where there is
/// one to write.
pub proof fn law_an_agent_is_written(a: IAgentView)
    ensures
        json::has_member(zod::agent_json(a), "equippedEngine"@, json::string_text(a.equipped_engine)),
        json::has_member(zod::agent_json(a), "key"@, json::string_text(a.key)),
        json::has_member(zod::agent_json(a), "level"@, text::decimal(a.level as nat)),
        json::has_member(zod::agent_json(a), "mindscape"@, text::decimal(a.mindscape as nat)),
        json::has_member(zod::agent_json(a), "promotion"@, text::decimal(a.promotion as nat)),
        json::has_member(zod::agent_json(a), "core"@, text::decimal(a.core as nat)),
        json::has_member(zod::agent_json(a), "dodge"@, text::decimal(a.dodge as nat)),
        json::has_member(zod::agent_json(a), "basic"@, text::decimal(a.basic as nat)),
        json::has_member(zod::agent_json(a), "chain"@, text::decimal(a.chain as nat)),
        json::has_member(zod::agent_json(a), "special"@, text::decimal(a.special as nat)),
        json::has_member(zod::agent_json(a), "assist"@, text::decimal(a.assist as nat)),
        json::has_member(zod::agent_json(a), "potential"@, text::decimal(a.potential as nat)),
        json::has_member(zod::agent_json(a), "id"@, json::string_text(a.id)),
        a.wengine_key matches Some(key) ==> json::has_member(
            zod::agent_json(a),
            "wengineKey"@,
            json::string_text(key),
        ),
        a.wengine_phase matches Some(phase) ==> json::has_member(
            zod::agent_json(a),
            "wenginePhase"@,
            text::decimal(phase as nat),
        ),
{
    let fields = zod::agent_fields(a);
    json::law_fields_are_written(fields, 0);
    json::law_fields_are_written(fields, 1);
    json::law_fields_are_written(fields, 2);
    json::law_fields_are_written(fields, 3);
    json::law_fields_are_written(fields, 4);
    json::law_fields_are_written(fields, 5);
    json::law_fields_are_written(fields, 6);
    json::law_fields_are_written(fields, 7);
    json::law_fields_are_written(fields, 8);
    json::law_fields_are_written(fields, 9);
    json::law_fields_are_written(fields, 10);
    json::law_fields_are_written(fields, 11);
    json::law_fields_are_written(fields, 14);
    if a.wengine_key is Some {
        json::law_fields_are_written(fields, 12);
    }
    if a.wengine_phase is Some {
        json::law_fields_are_written(fields, 13);
    }
}

/// The JSON of an export says what it is, and holds each list that is there, in order.
pub proof fn law_an_export_is_written(z: IzodView)
    ensures
        json::has_member(zod::izod_json(z), "format"@, json::string_text(z.format)),
        json::has_member(zod::izod_json(z), "version"@, text::decimal(z.version as nat)),
        json::has_member(zod::izod_json(z), "source"@, json::string_text(z.source)),
        z.characters matches Some(list) ==> json::has_member(
            zod::izod_json(z),
            "characters"@,
            json::array_text(list.map_values(|a: IAgentView| zod::agent_json(a))),
        ),
        z.discs matches Some(list) ==> json::has_member(
            zod::izod_json(z),
            "discs"@,
            json::array_text(list.map_values(|d: IDiscView| zod::disc_json(d))),
        ),
        z.wengines matches Some(list) ==> json::has_member(
            zod::izod_json(z),
            "wengines"@,
            json::array_text(list.map_values(|e: IEngineView| zod::engine_json(e))),
        ),
{
    let fields = zod::izod_fields(z);
    json::law_fields_are_written(fields, 0);
    json::law_fields_are_written(fields, 1);
    json::law_fields_are_written(fields, 2);
    if z.characters is Some {
        json::law_fields_are_written(fields, 3);
    }
    if z.discs is Some {
        json::law_fields_are_written(fields, 4);
    }
    if z.wengines is Some {
        json::law_fields_are_written(fields, 5);
    }
}

/// Every export says what it is in the same words.
pub proof fn law_an_export_says_what_it_is<N: Names>(
    v: InventoryView,
    names: N,
    s: ExportSettings,
)
    ensures
        exported(v, names, s) matches Ok(out) ==> {
            &&& out.format == "ZOD"@
            &&& out.version == 1
            &&& out.source == "ZZZ Packet Capture"@
        },
        live_exported(v, names, s) matches Ok(out) ==> {
            &&& out.format == "ZOD"@
            &&& out.version == 1
            &&& out.source == "ZZZ Packet Capture"@
        },
{
}

/// An export succeeds if and only if every agent has a name and everything that reaches the
/// floors of an exported category can be exported.
pub proof fn law_when_an_export_succeeds<N: Names>(v: InventoryView, names: N, s: ExportSettings)
    ensures
        exported(v, names, s) is Ok <==> {
            &&& forall|i: int|
                0 <= i < v.agents.len() ==> names.character_name_of(
                    (#[trigger] v.agents[i]).id,
                ) is Some
            &&& s.export_agents ==> forall|i: int|
                0 <= i < v.agents.len() && (#[trigger] v.agents[i]).level >= s.min_agent_level && (
                names.character_rarity_of(v.agents[i].id) matches Some(rarity) ==> rarity
                    >= s.min_agent_rarity) ==> agent_exported(
                    v.agents[i],
                    v.engines,
                    names,
                    s.export_engines,
                ) is Ok
            &&& s.export_discs ==> forall|i: int|
                0 <= i < v.discs.len() && (#[trigger] v.discs[i]).level >= s.min_disc_level
                    && v.discs[i].id / 10 % 10 + 1 >= s.min_disc_rarity ==> disc_exported(
                    v.discs[i],
                    v.agents,
                    names,
                ) is Ok
            &&& s.export_engines ==> forall|i: int|
                0 <= i < v.engines.len() && (#[trigger] v.engines[i]).level >= s.min_engine_level
                    && (names.weapon_rarity_of(v.engines[i].id) matches Some(rarity) ==> rarity
                    >= s.min_engine_rarity) ==> engine_exported(v.engines[i], v.agents, names) is Ok
        },
{
    let p = zod::unnamed(names);
    lookup::lemma_index_first(v.agents, p);
    let k = lookup::index_first(v.agents, p);
    if k < v.agents.len() {
        assert(p(v.agents[k]));
        assert(names.character_name_of(v.agents[k].id) is None);
    } else {
        assert forall|i: int| 0 <= i < v.agents.len() implies names.character_name_of(
            (#[trigger] v.agents[i]).id,
        ) is Some by {
            assert(!p(v.agents[i]));
        }
    }
    lemma_agents_succeed(v.agents, v.engines, names, s);
    lemma_discs_succeed(v.discs, v.agents, names, s);
    lemma_engines_succeed(v.engines, v.agents, names, s);
}

proof fn lemma_agents_succeed<N: Names>(
    agents: Seq<AgentInfoView>,
    engines: Seq<WeaponInfo>,
    names: N,
    s: ExportSettings,
)
    ensures
        zod::agents_exported(agents, engines, names, s) is Ok <==> forall|i: int|
            0 <= i < agents.len() && (#[trigger] agents[i]).level >= s.min_agent_level && (
            names.character_rarity_of(agents[i].id) matches Some(rarity) ==> rarity
                >= s.min_agent_rarity) ==> agent_exported(
                agents[i],
                engines,
                names,
                s.export_engines,
            ) is Ok,
    decreases agents.len(),
{
    if agents.len() > 0 {
        let init = agents.drop_last();
        lemma_agents_succeed(init, engines, names, s);
        assert(agents.last() == agents[agents.len() - 1]);
        assert forall|i: int| 0 <= i < init.len() implies init[i] == agents[i] by {}
    }
}

proof fn lemma_discs_succeed<N: Names>(
    discs: Seq<DiscInfoView>,
    agents: Seq<AgentInfoView>,
    names: N,
    s: ExportSettings,
)
    ensures
        zod::discs_exported(discs, agents, names, s) is Ok <==> forall|i: int|
            0 <= i < discs.len() && (#[trigger] discs[i]).level >= s.min_disc_level && discs[i].id
                / 10 % 10 + 1 >= s.min_disc_rarity ==> disc_exported(discs[i], agents, names) is Ok,
    decreases discs.len(),
{
    if discs.len() > 0 {
        let init = discs.drop_last();
        lemma_discs_succeed(init, agents, names, s);
        assert(discs.last() == discs[discs.len() - 1]);
        assert forall|i: int| 0 <= i < init.len() implies init[i] == discs[i] by {}
    }
}

proof fn lemma_engines_succeed<N: Names>(
    engines: Seq<WeaponInfo>,
    agents: Seq<AgentInfoView>,
    names: N,
    s: ExportSettings,
)
    ensures
        zod::engines_exported(engines, agents, names, s) is Ok <==> forall|i: int|
            0 <= i < engines.len() && (#[trigger] engines[i]).level >= s.min_engine_level && (
            names.weapon_rarity_of(engines[i].id) matches Some(rarity) ==> rarity
                >= s.min_engine_rarity) ==> engine_exported(engines[i], agents, names) is Ok,
    decreases engines.len(),
{
    if engines.len() > 0 {
        let init = engines.drop_last();
        lemma_engines_succeed(init, agents, names, s);
        assert(engines.last() == engines[engines.len() - 1]);
        assert forall|i: int| 0 <= i < init.len() implies init[i] == engines[i] by {}
    }
}

/// A live payload is the export with the floors taken away and without the lists that are
/// empty.
pub proof fn law_a_live_payload_is_the_whole_export<N: Names>(
    v: InventoryView,
    names: N,
    s: ExportSettings,
    open: ExportSettings,
)
    requires
        open.export_agents == s.export_agents,
        open.export_discs == s.export_discs,
        open.export_engines == s.export_engines,
        open.min_agent_level == 0 && open.min_agent_rarity == 0,
        open.min_disc_level == 0 && open.min_disc_rarity == 0,
        open.min_engine_level == 0 && open.min_engine_rarity == 0,
    ensures
        match exported(v, names, open) {
            Err(e) => live_exported(v, names, s) == Err::<IzodView, ExportError>(e),
            Ok(whole) => live_exported(v, names, s) matches Ok(live) && {
                &&& live.characters == if v.agents.len() == 0 {
                    None
                } else {
                    whole.characters
                }
                &&& live.discs == if v.discs.len() == 0 {
                    None
                } else {
                    whole.discs
                }
                &&& live.wengines == if v.engines.len() == 0 {
                    None
                } else {
                    whole.wengines
                }
            },
        },
{
    assert(crate::settings::without_floors(s) == open);
    zod::law_floorless_export_is_complete(v, names, s);
}

/// Agents are exported one after the other: the first that fails decides the error, and
/// otherwise those above the floors come out in order.
pub proof fn law_agents_are_exported_in_order<N: Names>(
    first: Seq<AgentInfoView>,
    then: Seq<AgentInfoView>,
    engines: Seq<WeaponInfo>,
    names: N,
    s: ExportSettings,
)
    ensures
        ({
            let a = zod::agents_exported(first, engines, names, s);
            let b = zod::agents_exported(then, engines, names, s);
            let both = zod::agents_exported(first + then, engines, names, s);
            &&& a is Err ==> both == a
            &&& a is Ok && b is Err ==> both == b
            &&& a is Ok && b is Ok ==> both == Ok::<Seq<IAgentView>, ExportError>(a->Ok_0 + b->Ok_0)
        }),
    decreases then.len(),
{
    let a = zod::agents_exported(first, engines, names, s);
    if then.len() == 0 {
        assert(first + then =~= first);
        if let Ok(out) = a {
            assert(out + Seq::<IAgentView>::empty() =~= out);
        }
    } else {
        law_agents_are_exported_in_order(first, then.drop_last(), engines, names, s);
        assert((first + then).drop_last() =~= first + then.drop_last());
        assert((first + then).last() == then.last());
        if a is Ok && zod::agents_exported(then, engines, names, s) is Ok {
            let rest = zod::agents_exported(then.drop_last(), engines, names, s)->Ok_0;
            let all = zod::agents_exported(then, engines, names, s)->Ok_0;
            if all.len() > rest.len() {
                assert(a->Ok_0 + all =~= (a->Ok_0 + rest).push(all.last()));
            }
        }
    }
}

/// Discs are exported one after the other: the first that fails decides the error, and
/// otherwise those above the floors come out in order.
pub proof fn law_discs_are_exported_in_order<N: Names>(
    first: Seq<DiscInfoView>,
    then: Seq<DiscInfoView>,
    agents: Seq<AgentInfoView>,
    names: N,
    s: ExportSettings,
)
    ensures
        ({
            let a = zod::discs_exported(first, agents, names, s);
            let b = zod::discs_exported(then, agents, names, s);
            let both = zod::discs_exported(first + then, agents, names, s);
            &&& a is Err ==> both == a
            &&& a is Ok && b is Err ==> both == b
            &&& a is Ok && b is Ok ==> both == Ok::<Seq<IDiscView>, ExportError>(a->Ok_0 + b->Ok_0)
        }),
    decreases then.len(),
{
    let a = zod::discs_exported(first, agents, names, s);
    if then.len() == 0 {
        assert(first + then =~= first);
        if let Ok(out) = a {
            assert(out + Seq::<IDiscView>::empty() =~= out);
        }
    } else {
        law_discs_are_exported_in_order(first, then.drop_last(), agents, names, s);
        assert((first + then).drop_last() =~= first + then.drop_last());
        assert((first + then).last() == then.last());
        if a is Ok && zod::discs_exported(then, agents, names, s) is Ok {
            let rest = zod::discs_exported(then.drop_last(), agents, names, s)->Ok_0;
            let all = zod::discs_exported(then, agents, names, s)->Ok_0;
            if all.len() > rest.len() {
                assert(a->Ok_0 + all =~= (a->Ok_0 + rest).push(all.last()));
            }
        }
    }
}

/// W-engines are exported one after the other: the first that fails decides the error, and
/// otherwise those above the floors come out in order.
pub proof fn law_engines_are_exported_in_order<N: Names>(
    first: Seq<WeaponInfo>,
    then: Seq<WeaponInfo>,
    agents: Seq<AgentInfoView>,
    names: N,
    s: ExportSettings,
)
    ensures
        ({
            let a = zod::engines_exported(first, agents, names, s);
            let b = zod::engines_exported(then, agents, names, s);
            let both = zod::engines_exported(first + then, agents, names, s);
            &&& a is Err ==> both == a
            &&& a is Ok && b is Err ==> both == b
            &&& a is Ok && b is Ok ==> both == Ok::<Seq<IEngineView>, ExportError>(a->Ok_0 + b->Ok_0)
        }),
    decreases then.len(),
{
    let a = zod::engines_exported(first, agents, names, s);
    if then.len() == 0 {
        assert(first + then =~= first);
        if let Ok(out) = a {
            assert(out + Seq::<IEngineView>::empty() =~= out);
        }
    } else {
        law_engines_are_exported_in_order(first, then.drop_last(), agents, names, s);
        assert((first + then).drop_last() =~= first + then.drop_last());
        assert((first + then).last() == then.last());
        if a is Ok && zod::engines_exported(then, agents, names, s) is Ok {
            let rest = zod::engines_exported(then.drop_last(), agents, names, s)->Ok_0;
            let all = zod::engines_exported(then, agents, names, s)->Ok_0;
            if all.len() > rest.len() {
                assert(a->Ok_0 + all =~= (a->Ok_0 + rest).push(all.last()));
            }
        }
    }
}

/// An agent that cannot be exported is told with what it lacks: its name, the name of the
/// w-engine it wears, or its skills.
pub proof fn law_why_an_agent_is_not_exported<N: Names>(
    agent: AgentInfoView,
    engines: Seq<WeaponInfo>,
    names: N,
    with_engines: bool,
    i: int,
)
    requires
        -1 <= i < engines.len(),
        i >= 0 ==> engines[i].uid == agent.weapon_uid,
        forall|j: int| i < j < engines.len() ==> (#[trigger] engines[j]).uid != agent.weapon_uid,
    ensures
        ({
            let r = agent_exported(agent, engines, names, with_engines);
            let named = names.character_name_of(agent.id) is Some;
            let armed = with_engines && i >= 0 ==> names.weapon_name_of(engines[i].id) is Some;
            let n = agent.skills.len();
            &&& !named ==> r == Err::<IAgentView, ExportError>(
                ExportError::UnknownCharacter { id: agent.id },
            )
            &&& named && !armed ==> r == Err::<IAgentView, ExportError>(
                ExportError::UnknownWeapon { id: engines[i].id },
            )
            &&& named && armed && n == 5 ==> r == Err::<IAgentView, ExportError>(
                ExportError::MissingSkill { agent: agent.id, position: 5, len: 5 },
            )
            &&& named && armed && n < 5 ==> r == Err::<IAgentView, ExportError>(
                ExportError::MissingSkill { agent: agent.id, position: 4, len: n as usize },
            )
        }),
{
    let p = crate::snapshot::is_engine(agent.weapon_uid);
    assert forall|k: int| i + 1 <= k < engines.len() implies !p(#[trigger] engines[k]) by {}
    lookup::lemma_find_last(engines, p, i + 1);
}

proof fn lemma_unknown_substat(stats: Seq<model::DiscStat>, i: int, n: nat)
    requires
        0 <= i < stats.len(),
        i < n,
        model::stat_of_id(stats[i].key) is None,
        forall|j: int| 0 <= j < i ==> model::stat_of_id((#[trigger] stats[j]).key) is Some,
    ensures
        zod::substats_exported(stats, n) == Err::<Seq<ISubstatView>, ExportError>(
            ExportError::UnknownStat { key: stats[i].key },
        ),
    decreases n,
{
    if n - 1 == i {
        lemma_known_substats(stats, i as nat);
    } else {
        lemma_unknown_substat(stats, i, (n - 1) as nat);
    }
}

proof fn lemma_known_substats(stats: Seq<model::DiscStat>, n: nat)
    requires
        n <= stats.len(),
        forall|j: int| 0 <= j < n ==> model::stat_of_id((#[trigger] stats[j]).key) is Some,
    ensures
        zod::substats_exported(stats, n) is Ok,
    decreases n,
{
    if n > 0 {
        lemma_known_substats(stats, (n - 1) as nat);
        assert(model::stat_of_id(stats[n - 1].key) is Some);
    }
}

/// A disc that cannot be exported is told with what is not known of it: its set, its rarity, its
/// main stat, or the first of its four substats that is not known.
pub proof fn law_why_a_disc_is_not_exported<N: Names>(
    disc: DiscInfoView,
    agents: Seq<AgentInfoView>,
    names: N,
    i: int,
)
    ensures
        ({
            let r = disc_exported(disc, agents, names);
            let set_id = model::disc_set(disc.id);
            let rarity = model::disc_rarity(disc.id);
            let named = names.equipment_name_of(set_id) is Some;
            let rated = model::rarity_letter(rarity) is Some;
            let main = model::stat_of_id(disc.main_stat.key) is Some;
            &&& !named ==> r == Err::<IDiscView, ExportError>(
                ExportError::UnknownEquipment { set_id },
            )
            &&& named && !rated ==> r == Err::<IDiscView, ExportError>(
                ExportError::UnmappedRarity { rarity },
            )
            &&& named && rated && !main ==> r == Err::<IDiscView, ExportError>(
                ExportError::UnknownStat { key: disc.main_stat.key },
            )
            &&& named && rated && main && 0 <= i < 4 && i < disc.sub_stats.len()
                && model::stat_of_id(disc.sub_stats[i].key) is None && (forall|j: int|
                0 <= j < i ==> model::stat_of_id((#[trigger] disc.sub_stats[j]).key) is Some) ==> r
                == Err::<IDiscView, ExportError>(
                ExportError::UnknownStat { key: disc.sub_stats[i].key },
            )
        }),
{
    if 0 <= i < 4 && i < disc.sub_stats.len() && model::stat_of_id(disc.sub_stats[i].key) is None && (
    forall|j: int| 0 <= j < i ==> model::stat_of_id((#[trigger] disc.sub_stats[j]).key) is Some) {
        lemma_unknown_substat(disc.sub_stats, i, 4);
    }
}

/// A w-engine without a name is told, and an export fails for the first agent without one before
/// anything else.
pub proof fn law_why_an_export_fails_for_a_name<N: Names>(
    engine: WeaponInfo,
    v: InventoryView,
    names: N,
    s: ExportSettings,
    i: int,
)
    ensures
        names.weapon_name_of(engine.id) is None ==> engine_exported(engine, v.agents, names)
            == Err::<IEngineView, ExportError>(ExportError::UnknownWeapon { id: engine.id }),
        0 <= i < v.agents.len() && names.character_name_of(v.agents[i].id) is None && (forall|j: int|
            0 <= j < i ==> names.character_name_of((#[trigger] v.agents[j]).id) is Some) ==> exported(
            v,
            names,
            s,
        ) == Err::<IzodView, ExportError>(ExportError::UnknownCharacter { id: v.agents[i].id }),
{
    if 0 <= i < v.agents.len() && names.character_name_of(v.agents[i].id) is None && (forall|j: int|
        0 <= j < i ==> names.character_name_of((#[trigger] v.agents[j]).id) is Some) {
        let p = zod::unnamed(names);
        assert forall|k: int| 0 <= k < i implies !p(#[trigger] v.agents[k]) by {}
        lookup::lemma_find_first(v.agents, p, i);
    }
}

} // verus!
