//! What the game's own numbers mean in one version: command ids, field numbers and the XOR
//! seed of each region. A game update changes these and nothing else.
use crate::lookup;
use crate::text;
use vstd::prelude::*;

verus! {

#[derive(Debug, Clone, Copy, PartialEq, Eq, Structural)]
pub struct AvatarSkillLevel {
    pub skill_type: u32,
    pub level: u32,
}

#[derive(Debug, Clone, Copy, PartialEq, Eq, Structural)]
pub struct DressedEquip {
    pub uid: u32,
    pub slot: u32,
}

#[derive(Debug, Clone, Copy, PartialEq, Eq, Structural)]
pub struct AgentInfoFields {
    pub id: u32,
    pub level: u32,
    pub promotion: u32,
    pub weapon_uid: u32,
    pub mindscape: u32,
    pub skills: u32,
    pub dressed_equips: u32,
}

#[derive(Debug, Clone, Copy, PartialEq, Eq, Structural)]
pub struct AgentData {
    pub agents: u32,
}

#[derive(Debug, Clone, Copy, PartialEq, Eq, Structural)]
pub struct EquipData {
    pub discs: u32,
}

#[derive(Debug, Clone, Copy, PartialEq, Eq, Structural)]
pub struct WeaponData {
    pub weapons: u32,
}

#[derive(Debug, Clone, Copy, PartialEq, Eq, Structural)]
pub struct DiscStatFields {
    pub key: u32,
    pub base_value: u32,
    pub add_value: u32,
}

#[derive(Debug, Clone, Copy, PartialEq, Eq, Structural)]
pub struct DiscInfoFields {
    pub uid: u32,
    pub id: u32,
    pub level: u32,
    pub main_stat: u32,
    pub sub_stats: u32,
}

#[derive(Debug, Clone, Copy, PartialEq, Eq, Structural)]
pub struct WeaponInfoFields {
    pub id: u32,
    pub uid: u32,
    pub level: u32,
    pub phase: u32,
    pub modification: u32,
}

#[derive(Debug, Clone, Copy, PartialEq, Eq, Structural)]
pub struct SyncAvatarData {
    pub avatar_sync: u32,
    pub avatars: u32,
    pub dels: u32,
}

#[derive(Debug, Clone, Copy, PartialEq, Eq, Structural)]
pub struct SyncItemData {
    pub item_sync: u32,
    pub equips: u32,
    pub weapons: u32,
    pub deleted_equips: u32,
}

#[derive(Debug, Clone, Copy, PartialEq, Eq, Structural)]
pub struct EquipDismantle {
    pub uid: u32,
    pub uids: u32,
}

#[derive(Debug)]
pub struct Datamine {
    /// Region names and their XOR seeds of 16 hexadecimal digits, in the order of the names.
    pub xor_seeds: Vec<(String, String)>,
    pub cmd_player_get_token_sc_rsp: u32,
    pub cmd_get_equip_data_sc_rsp: u32,
    pub cmd_get_weapon_data_sc_rsp: u32,
    pub cmd_get_avatar_data_sc_rsp: u32,
    pub cmd_player_sync_sc_notify: u32,
    pub cmd_dismantle_equip_cs_req: u32,
    pub sync_avatar_data: SyncAvatarData,
    pub sync_item_data: SyncItemData,
    pub equip_dismantle: EquipDismantle,
    pub agent_data: AgentData,
    pub agent_info: AgentInfoFields,
    pub agent_skill: AvatarSkillLevel,
    pub agent_equip: DressedEquip,
    pub equip_data: EquipData,
    pub disc_info: DiscInfoFields,
    pub disc_stat: DiscStatFields,
    pub weapon_data: WeaponData,
    pub weapon_info: WeaponInfoFields,
}

/// The region names and seeds as texts.
pub open spec fn seeds_view(seeds: Seq<(String, String)>) -> Seq<(Seq<char>, Seq<char>)> {
    seeds.map_values(|e: (String, String)| (e.0@, e.1@))
}

/// The number in a seed's text.
pub open spec fn seed_value(seed: Seq<char>) -> Option<u64> {
    text::parsed_hex(text::trimmed(seed))
}

/// The condition to be a region's entry.
pub open spec fn is_region(region: Seq<char>) -> spec_fn((Seq<char>, Seq<char>)) -> bool {
    |e: (Seq<char>, Seq<char>)| e.0 == region
}

/// The condition to have a seed.
pub open spec fn has_seed(seed: u64) -> spec_fn((Seq<char>, Seq<char>)) -> bool {
    |e: (Seq<char>, Seq<char>)| seed_value(e.1) == Some(seed)
}

/// The seed of a region, if the region is known and its seed is a number.
pub open spec fn region_seed(seeds: Seq<(Seq<char>, Seq<char>)>, region: Seq<char>) -> Option<u64> {
    match lookup::find_first(seeds, is_region(region)) {
        Some(entry) => seed_value(entry.1),
        None => None,
    }
}

/// The first region with a seed.
pub open spec fn seed_region(seeds: Seq<(Seq<char>, Seq<char>)>, seed: u64) -> Option<Seq<char>> {
    match lookup::find_first(seeds, has_seed(seed)) {
        Some(entry) => Some(entry.0),
        None => None,
    }
}

/// Reads the number in a seed's text.
pub fn parse_seed(seed: &str) -> (r: Option<u64>)
    ensures
        r == seed_value(seed@),
{
    let chars: Vec<char> = text::chars_of(seed);
    let (start, end) = text::trim(chars.as_slice());
    text::parse_hex(vstd::slice::slice_subrange(chars.as_slice(), start, end))
}

impl Datamine {
    /// The seed of a region.
    pub fn seed_for_region(&self, region: &str) -> (r: Option<u64>)
        ensures
            r == region_seed(seeds_view(self.xor_seeds@), region@),
    {
        let ghost seeds = seeds_view(self.xor_seeds@);
        let mut i: usize = 0;
        while i < self.xor_seeds.len()
            invariant
                i <= self.xor_seeds@.len(),
                seeds == seeds_view(self.xor_seeds@),
                forall|k: int| 0 <= k < i ==> !is_region(region@)(#[trigger] seeds[k]),
            decreases self.xor_seeds@.len() - i,
        {
            assert(seeds[i as int] == (self.xor_seeds@[i as int].0@, self.xor_seeds@[i as int].1@));
            if text::same(self.xor_seeds[i].0.as_str(), region) {
                proof {
                    lookup::lemma_find_first(seeds, is_region(region@), i as int);
                }
                return parse_seed(self.xor_seeds[i].1.as_str());
            }
            i = i + 1;
        }
        proof {
            lookup::lemma_find_first(seeds, is_region(region@), i as int);
        }
        None
    }

    /// The first region with a seed.
    pub fn region_for_seed(&self, seed: u64) -> (r: Option<&str>)
        ensures
            match seed_region(seeds_view(self.xor_seeds@), seed) {
                Some(region) => r is Some && r->Some_0@ == region,
                None => r is None,
            },
    {
        let ghost seeds = seeds_view(self.xor_seeds@);
        let mut i: usize = 0;
        while i < self.xor_seeds.len()
            invariant
                i <= self.xor_seeds@.len(),
                seeds == seeds_view(self.xor_seeds@),
                forall|k: int| 0 <= k < i ==> !has_seed(seed)(#[trigger] seeds[k]),
            decreases self.xor_seeds@.len() - i,
        {
            assert(seeds[i as int] == (self.xor_seeds@[i as int].0@, self.xor_seeds@[i as int].1@));
            if let Some(value) = parse_seed(self.xor_seeds[i].1.as_str()) {
                if value == seed {
                    proof {
                        lookup::lemma_find_first(seeds, has_seed(seed), i as int);
                    }
                    return Some(self.xor_seeds[i].0.as_str());
                }
            }
            i = i + 1;
        }
        proof {
            lookup::lemma_find_first(seeds, has_seed(seed), i as int);
        }
        None
    }
}

/// The region names stand in ascending order, and so none of them twice.
pub open spec fn names_ascend(seeds: Seq<(Seq<char>, Seq<char>)>) -> bool {
    forall|i: int, j: int|
        0 <= i < j < seeds.len() ==> text::before((#[trigger] seeds[i]).0, (#[trigger] seeds[j]).0)
}

pub proof fn lemma_entry_found(seeds: Seq<(Seq<char>, Seq<char>)>, i: int)
    requires
        names_ascend(seeds),
        0 <= i < seeds.len(),
    ensures
        region_seed(seeds, seeds[i].0) == seed_value(seeds[i].1),
{
    let region = seeds[i].0;
    assert forall|k: int| 0 <= k < i implies !is_region(region)(#[trigger] seeds[k]) by {
        text::lemma_before_total(seeds[k].0, seeds[i].0);
    }
    lookup::lemma_find_first(seeds, is_region(region), i);
}

/// The region found for a seed has that seed, and of the regions that have it, it is the one
/// whose name stands first. None is found where no region has the seed.
pub proof fn law_region_for_a_seed(seeds: Seq<(Seq<char>, Seq<char>)>, seed: u64)
    requires
        names_ascend(seeds),
    ensures
        match seed_region(seeds, seed) {
            Some(region) => {
                &&& region_seed(seeds, region) == Some(seed)
                &&& forall|other: Seq<char>|
                    #![trigger region_seed(seeds, other)]
                    region_seed(seeds, other) == Some(seed) && other != region ==> text::before(
                        region,
                        other,
                    )
            },
            None => forall|other: Seq<char>|
                #![trigger region_seed(seeds, other)]
                region_seed(seeds, other) != Some(seed),
        },
{
    lookup::lemma_index_first(seeds, has_seed(seed));
    let i = lookup::index_first(seeds, has_seed(seed));
    if i < seeds.len() {
        lemma_entry_found(seeds, i);
    }
    assert forall|other: Seq<char>|
        #![trigger region_seed(seeds, other)]
        region_seed(seeds, other) == Some(seed) implies i < seeds.len() && (other == seeds[i].0
        || text::before(seeds[i].0, other)) by {
        lookup::lemma_index_first(seeds, is_region(other));
        let j = lookup::index_first(seeds, is_region(other));
        assert(has_seed(seed)(seeds[j]));
        assert(i <= j);
    }
}

/// Where no two regions share a seed, the region of a region's seed is that region.
pub proof fn law_region_and_seed_round_trip(
    seeds: Seq<(Seq<char>, Seq<char>)>,
    region: Seq<char>,
)
    requires
        names_ascend(seeds),
        region_seed(seeds, region) is Some,
        forall|other: Seq<char>|
            #![trigger region_seed(seeds, other)]
            region_seed(seeds, other) == region_seed(seeds, region) ==> other == region,
    ensures
        seed_region(seeds, region_seed(seeds, region)->Some_0) == Some(region),
{
    law_region_for_a_seed(seeds, region_seed(seeds, region)->Some_0);
}

} // verus!
