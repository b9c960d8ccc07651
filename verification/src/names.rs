//! Where an export takes names and rarities from.
use crate::nanoka;
use crate::nanoka::NanokaData;
use vstd::prelude::*;

verus! {

/// Display names and rarities, by the ids that stand in packets. An id without an entry has
/// none.
pub trait Names {
    spec fn character_name_of(&self, id: u32) -> Option<Seq<char>>;

    spec fn character_rarity_of(&self, id: u32) -> Option<u32>;

    spec fn weapon_name_of(&self, id: u32) -> Option<Seq<char>>;

    spec fn weapon_rarity_of(&self, id: u32) -> Option<u32>;

    spec fn equipment_name_of(&self, set_id: u32) -> Option<Seq<char>>;

    /// The agent's English name.
    fn character_name(&self, id: u32) -> (r: Option<&str>)
        ensures
            nanoka::name_text(r) == self.character_name_of(id),
    ;

    /// The agent's number of stars.
    fn character_rarity(&self, id: u32) -> (r: Option<u32>)
        ensures
            r == self.character_rarity_of(id),
    ;

    /// The w-engine's English name.
    fn weapon_name(&self, id: u32) -> (r: Option<&str>)
        ensures
            nanoka::name_text(r) == self.weapon_name_of(id),
    ;

    /// The w-engine's number of stars.
    fn weapon_rarity(&self, id: u32) -> (r: Option<u32>)
        ensures
            r == self.weapon_rarity_of(id),
    ;

    /// The disc set's English name.
    fn equipment_name(&self, set_id: u32) -> (r: Option<&str>)
        ensures
            nanoka::name_text(r) == self.equipment_name_of(set_id),
    ;
}

/// Names out of the published tables.
pub struct NanokaNames<'a>(pub &'a NanokaData);

impl<'a> Names for NanokaNames<'a> {
    open spec fn character_name_of(&self, id: u32) -> Option<Seq<char>> {
        self.0.character_name_of(id)
    }

    open spec fn character_rarity_of(&self, id: u32) -> Option<u32> {
        self.0.character_rarity_of(id)
    }

    open spec fn weapon_name_of(&self, id: u32) -> Option<Seq<char>> {
        self.0.weapon_name_of(id)
    }

    open spec fn weapon_rarity_of(&self, id: u32) -> Option<u32> {
        self.0.weapon_rarity_of(id)
    }

    open spec fn equipment_name_of(&self, set_id: u32) -> Option<Seq<char>> {
        self.0.equipment_name_of(set_id)
    }

    fn character_name(&self, id: u32) -> (r: Option<&str>) {
        self.0.character_name(id)
    }

    fn character_rarity(&self, id: u32) -> (r: Option<u32>) {
        self.0.character_rarity(id)
    }

    fn weapon_name(&self, id: u32) -> (r: Option<&str>) {
        self.0.weapon_name(id)
    }

    fn weapon_rarity(&self, id: u32) -> (r: Option<u32>) {
        self.0.weapon_rarity(id)
    }

    fn equipment_name(&self, set_id: u32) -> (r: Option<&str>) {
        self.0.equipment_name(set_id)
    }
}

} // verus!
