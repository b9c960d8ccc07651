//! Display names and ranks of agents, w-engines and disc sets, by the ids that stand in
//! packets, as `static.nanoka.cc` publishes them for each game version.
//!
//! A new game version can bring an id that is not published yet. A lookup answers that there
//! is no such entry.
use crate::text;
use std::collections::BTreeMap;
use vstd::prelude::*;

verus! {

/// Where it is published which game version is live.
pub open spec fn manifest_url_text() -> Seq<char> {
    "https://static.nanoka.cc/"@ + crate::gamedata::MANIFEST_FILE.file_name()
}

pub fn manifest_url() -> (r: String)
    ensures
        r@ == manifest_url_text(),
{
    let mut out: String = "https://static.nanoka.cc/".to_owned();
    out.push_str(crate::gamedata::MANIFEST_FILE.name().as_str());
    out
}

/// Where a table of a game version is published.
pub open spec fn table_url(version: Seq<char>, file: Seq<char>) -> Seq<char> {
    "https://static.nanoka.cc/zzz/"@ + version + "/"@ + file
}

fn url_of(version: &str, file: &str) -> (r: String)
    ensures
        r@ == table_url(version@, file@),
{
    let mut out: String = "https://static.nanoka.cc/zzz/".to_owned();
    out.push_str(version);
    out.push_str("/");
    out.push_str(file);
    out
}

pub fn character_url(version: &str) -> (r: String)
    ensures
        r@ == table_url(version@, "character.json"@),
{
    url_of(version, "character.json")
}

pub fn equipment_url(version: &str) -> (r: String)
    ensures
        r@ == table_url(version@, "equipment.json"@),
{
    url_of(version, "equipment.json")
}

pub fn weapon_url(version: &str) -> (r: String)
    ensures
        r@ == table_url(version@, "weapon.json"@),
{
    url_of(version, "weapon.json")
}

#[derive(Debug, Clone, PartialEq, Eq)]
pub struct Character {
    /// The number of stars less one.
    pub rank: u32,
    /// The English name.
    pub en: String,
}

#[derive(Debug, Clone, PartialEq, Eq)]
pub struct Weapon {
    /// The number of stars less one.
    pub rank: u32,
    /// The English name.
    pub en: String,
}

#[derive(Debug, Clone, PartialEq, Eq)]
pub struct EquipmentName {
    pub name: String,
}

#[derive(Debug, Clone, PartialEq, Eq)]
pub struct Equipment {
    /// The English name.
    pub en: EquipmentName,
}

pub type Characters = BTreeMap<u32, Character>;

pub type Weapons = BTreeMap<u32, Weapon>;

pub type Equipments = BTreeMap<u32, Equipment>;

/// The three tables of one game version.
#[derive(Debug, Clone)]
pub struct NanokaData {
    /// The game version the tables are for.
    pub version: String,
    pub characters: Characters,
    pub weapons: Weapons,
    pub equipment: Equipments,
}

/// The part of the manifest about this game.
#[derive(Debug, Clone, PartialEq, Eq)]
pub struct NanokaZzz {
    /// The live version; empty where the manifest does not say.
    pub live: String,
}

#[derive(Debug, Clone, PartialEq, Eq)]
pub struct NanokaManifest {
    pub zzz: NanokaZzz,
}

/// The text of a name, if there is one.
pub open spec fn name_text(name: Option<&str>) -> Option<Seq<char>> {
    match name {
        Some(s) => Some(s@),
        None => None,
    }
}

impl Default for NanokaData {
    /// Empty tables.
    fn default() -> (r: NanokaData)
        ensures
            r.version@ == Seq::<char>::empty(),
            r.characters@ == Map::<u32, Character>::empty(),
            r.weapons@ == Map::<u32, Weapon>::empty(),
            r.equipment@ == Map::<u32, Equipment>::empty(),
    {
        NanokaData {
            version: String::new(),
            characters: BTreeMap::new(),
            weapons: BTreeMap::new(),
            equipment: BTreeMap::new(),
        }
    }
}

impl NanokaData {
    pub open spec fn character_name_of(&self, id: u32) -> Option<Seq<char>> {
        if self.characters@.contains_key(id) {
            Some(self.characters@[id].en@)
        } else {
            None
        }
    }

    pub open spec fn character_rarity_of(&self, id: u32) -> Option<u32> {
        if self.characters@.contains_key(id) {
            Some(self.characters@[id].rank.wrapping_add(1))
        } else {
            None
        }
    }

    pub open spec fn weapon_name_of(&self, id: u32) -> Option<Seq<char>> {
        if self.weapons@.contains_key(id) {
            Some(self.weapons@[id].en@)
        } else {
            None
        }
    }

    pub open spec fn weapon_rarity_of(&self, id: u32) -> Option<u32> {
        if self.weapons@.contains_key(id) {
            Some(self.weapons@[id].rank.wrapping_add(1))
        } else {
            None
        }
    }

    pub open spec fn equipment_name_of(&self, id: u32) -> Option<Seq<char>> {
        if self.equipment@.contains_key(id) {
            Some(self.equipment@[id].en.name@)
        } else {
            None
        }
    }

    pub fn character_name(&self, id: u32) -> (r: Option<&str>)
        ensures
            name_text(r) == self.character_name_of(id),
    {
        broadcast use vstd::laws_cmp::group_laws_cmp;

        match self.characters.get(&id) {
            Some(entry) => Some(entry.en.as_str()),
            None => None,
        }
    }

    /// The number of stars. The addition wraps.
    pub fn character_rarity(&self, id: u32) -> (r: Option<u32>)
        ensures
            r == self.character_rarity_of(id),
    {
        broadcast use vstd::laws_cmp::group_laws_cmp;

        match self.characters.get(&id) {
            Some(entry) => Some(entry.rank.wrapping_add(1)),
            None => None,
        }
    }

    pub fn weapon_name(&self, id: u32) -> (r: Option<&str>)
        ensures
            name_text(r) == self.weapon_name_of(id),
    {
        broadcast use vstd::laws_cmp::group_laws_cmp;

        match self.weapons.get(&id) {
            Some(entry) => Some(entry.en.as_str()),
            None => None,
        }
    }

    /// The number of stars. The addition wraps.
    pub fn weapon_rarity(&self, id: u32) -> (r: Option<u32>)
        ensures
            r == self.weapon_rarity_of(id),
    {
        broadcast use vstd::laws_cmp::group_laws_cmp;

        match self.weapons.get(&id) {
            Some(entry) => Some(entry.rank.wrapping_add(1)),
            None => None,
        }
    }

    pub fn equipment_name(&self, id: u32) -> (r: Option<&str>)
        ensures
            name_text(r) == self.equipment_name_of(id),
    {
        broadcast use vstd::laws_cmp::group_laws_cmp;

        match self.equipment.get(&id) {
            Some(entry) => Some(entry.en.name.as_str()),
            None => None,
        }
    }

    /// Whether there are neither agents nor w-engines.
    pub fn names_missing(&self) -> (r: bool)
        ensures
            r == (self.characters@.len() == 0 && self.weapons@.len() == 0),
    {
        self.characters.len() == 0 && self.weapons.len() == 0
    }

    /// The version and how many entries there are.
    pub open spec fn text(&self) -> Seq<char> {
        "nanoka "@ + self.version@ + " ("@ + text::decimal(self.characters@.len()) + " agents, "@
            + text::decimal(self.weapons@.len()) + " w-engines, "@ + text::decimal(
            self.equipment@.len(),
        ) + " sets)"@
    }

    pub fn to_string(&self) -> (r: String)
        ensures
            r@ == self.text(),
    {
        let mut out: String = "nanoka ".to_owned();
        out.push_str(self.version.as_str());
        out.push_str(" (");
        text::push_decimal(&mut out, self.characters.len() as u64);
        out.push_str(" agents, ");
        text::push_decimal(&mut out, self.weapons.len() as u64);
        out.push_str(" w-engines, ");
        text::push_decimal(&mut out, self.equipment.len() as u64);
        out.push_str(" sets)");
        out
    }
}

/// Each kind of item is looked up in its own table: its name is the one that stands there, and
/// it has one star more than its rank. What does not stand there has neither.
pub proof fn law_items_are_looked_up_in_their_table(data: NanokaData, id: u32)
    ensures
        data.characters@.contains_key(id) ==> data.character_name_of(id) == Some(
            data.characters@[id].en@,
        ) && (data.characters@[id].rank < u32::MAX ==> data.character_rarity_of(id) == Some(
            (data.characters@[id].rank + 1) as u32,
        )),
        !data.characters@.contains_key(id) ==> data.character_name_of(id) is None
            && data.character_rarity_of(id) is None,
        data.weapons@.contains_key(id) ==> data.weapon_name_of(id) == Some(data.weapons@[id].en@) && (
        data.weapons@[id].rank < u32::MAX ==> data.weapon_rarity_of(id) == Some(
            (data.weapons@[id].rank + 1) as u32,
        )),
        !data.weapons@.contains_key(id) ==> data.weapon_name_of(id) is None
            && data.weapon_rarity_of(id) is None,
        data.equipment@.contains_key(id) ==> data.equipment_name_of(id) == Some(
            data.equipment@[id].en.name@,
        ),
        !data.equipment@.contains_key(id) ==> data.equipment_name_of(id) is None,
{
}

} // verus!
