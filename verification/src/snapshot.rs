//! The player's discs, w-engines and agents, and how decoded messages change them.
//!
//! The command ids and field numbers come from the data file. Where the field that lists
//! deleted discs has moved in a new game version, every other field of an item sync is
//! tried for the uid of a disc that is held, and a hit is reported: that is how the new
//! field number is found.
use crate::datamine::Datamine;
use crate::lookup;
use crate::model;
use crate::model::{AgentInfo, AgentInfoView, DiscInfo, DiscInfoView, WeaponInfo};
use crate::proto;
use crate::proto::{Field, FieldView, Message, Value, ValueView};
use vstd::prelude::*;

verus! {

/// What a sync did. The counters wrap.
#[derive(Debug, Clone, Copy, PartialEq, Eq, Structural)]
pub struct SyncResult {
    /// Whether anything was inserted, replaced or removed.
    pub changed: bool,
    /// Entries inserted or replaced.
    pub upserts: u32,
    /// Entries removed.
    pub removals: u32,
}

/// Nothing was done.
pub open spec fn no_result() -> SyncResult {
    SyncResult { changed: false, upserts: 0, removals: 0 }
}

impl Default for SyncResult {
    fn default() -> (r: SyncResult)
        ensures
            r == no_result(),
    {
        SyncResult { changed: false, upserts: 0, removals: 0 }
    }
}

/// One change of one item.
#[derive(Debug, Clone, Copy, PartialEq, Eq, Structural)]
pub enum ItemChange {
    /// A disc arrived for the first time.
    DiscAdded { uid: u32, id: u32, level: u32, rarity: u32 },
    /// A disc's record was replaced.
    DiscUpdated { uid: u32, id: u32, level: u32, rarity: u32 },
    /// A disc left.
    DiscRemoved { uid: u32, id: u32 },
    /// A w-engine arrived for the first time.
    EngineAdded { uid: u32, id: u32, level: u32, phase: u32 },
    /// A w-engine's record was replaced.
    EngineUpdated { uid: u32, id: u32, level: u32, phase: u32 },
    /// A w-engine left.
    EngineRemoved { uid: u32, id: u32 },
    /// An agent arrived for the first time.
    AgentAdded { id: u32, level: u32, weapon_uid: u32 },
    /// An agent's record was replaced.
    AgentUpdated {
        id: u32,
        level: u32,
        /// The w-engine worn before, or 0.
        previous_weapon_uid: u32,
        weapon_uid: u32,
    },
    /// An agent left.
    AgentRemoved { id: u32 },
}

impl ItemChange {
    /// The disc a change is about.
    pub fn disc_uid(&self) -> (r: Option<u32>)
        ensures
            r == match *self {
                ItemChange::DiscAdded { uid, .. } => Some(uid),
                ItemChange::DiscUpdated { uid, .. } => Some(uid),
                ItemChange::DiscRemoved { uid, .. } => Some(uid),
                _ => None,
            },
    {
        match *self {
            ItemChange::DiscAdded { uid, .. } => Some(uid),
            ItemChange::DiscUpdated { uid, .. } => Some(uid),
            ItemChange::DiscRemoved { uid, .. } => Some(uid),
            _ => None,
        }
    }

    /// The w-engine a change is about.
    pub fn engine_uid(&self) -> (r: Option<u32>)
        ensures
            r == match *self {
                ItemChange::EngineAdded { uid, .. } => Some(uid),
                ItemChange::EngineUpdated { uid, .. } => Some(uid),
                ItemChange::EngineRemoved { uid, .. } => Some(uid),
                _ => None,
            },
    {
        match *self {
            ItemChange::EngineAdded { uid, .. } => Some(uid),
            ItemChange::EngineUpdated { uid, .. } => Some(uid),
            ItemChange::EngineRemoved { uid, .. } => Some(uid),
            _ => None,
        }
    }

    /// The agent a change is about.
    pub fn agent_id(&self) -> (r: Option<u32>)
        ensures
            r == match *self {
                ItemChange::AgentAdded { id, .. } => Some(id),
                ItemChange::AgentUpdated { id, .. } => Some(id),
                ItemChange::AgentRemoved { id } => Some(id),
                _ => None,
            },
    {
        match *self {
            ItemChange::AgentAdded { id, .. } => Some(id),
            ItemChange::AgentUpdated { id, .. } => Some(id),
            ItemChange::AgentRemoved { id } => Some(id),
            _ => None,
        }
    }
}

/// Something an extraction did that is worth reporting.
#[derive(Debug, Clone, PartialEq, Eq)]
pub enum ExtractEvent {
    /// A player sync was applied.
    PlayerSync(SyncResult),
    /// A dismantle request was applied.
    Dismantle(SyncResult),
    /// The response with all discs.
    Discs { upserted: usize },
    /// The response with all w-engines.
    Weapons { upserted: usize },
    /// The response with all agents.
    Avatars { upserted: usize },
    /// A held disc's uid stood in a field that is not known to list deleted discs.
    FallbackRemoval { uid: u32, field: u32 },
    /// Every change of an item that a message made, in the order of its fields.
    Changes(Vec<ItemChange>),
}

/// What an [`ExtractEvent`] holds.
pub enum ExtractEventView {
    PlayerSync(SyncResult),
    Dismantle(SyncResult),
    Discs { upserted: usize },
    Weapons { upserted: usize },
    Avatars { upserted: usize },
    FallbackRemoval { uid: u32, field: u32 },
    Changes(Seq<ItemChange>),
}

impl View for ExtractEvent {
    type V = ExtractEventView;

    open spec fn view(&self) -> ExtractEventView {
        match *self {
            ExtractEvent::PlayerSync(r) => ExtractEventView::PlayerSync(r),
            ExtractEvent::Dismantle(r) => ExtractEventView::Dismantle(r),
            ExtractEvent::Discs { upserted } => ExtractEventView::Discs { upserted },
            ExtractEvent::Weapons { upserted } => ExtractEventView::Weapons { upserted },
            ExtractEvent::Avatars { upserted } => ExtractEventView::Avatars { upserted },
            ExtractEvent::FallbackRemoval { uid, field } => ExtractEventView::FallbackRemoval {
                uid,
                field,
            },
            ExtractEvent::Changes(changes) => ExtractEventView::Changes(changes@),
        }
    }
}

pub open spec fn events_view(events: Seq<ExtractEvent>) -> Seq<ExtractEventView> {
    events.map_values(|e: ExtractEvent| e@)
}

/// Whether an upsert added a record or replaced one.
#[derive(Debug, Clone, Copy, PartialEq, Eq, Structural)]
pub enum Upsert {
    Added,
    Updated,
}

/// The player's discs, w-engines and agents.
#[derive(Debug, PartialEq, Eq)]
pub struct Inventory {
    pub discs: Vec<DiscInfo>,
    pub engines: Vec<WeaponInfo>,
    pub agents: Vec<AgentInfo>,
}

/// What an [`Inventory`] holds.
pub struct InventoryView {
    pub discs: Seq<DiscInfoView>,
    pub engines: Seq<WeaponInfo>,
    pub agents: Seq<AgentInfoView>,
}

pub open spec fn discs_view(discs: Seq<DiscInfo>) -> Seq<DiscInfoView> {
    discs.map_values(|d: DiscInfo| d@)
}

pub open spec fn agents_view(agents: Seq<AgentInfo>) -> Seq<AgentInfoView> {
    agents.map_values(|a: AgentInfo| a@)
}

impl View for Inventory {
    type V = InventoryView;

    open spec fn view(&self) -> InventoryView {
        InventoryView {
            discs: discs_view(self.discs@),
            engines: self.engines@,
            agents: agents_view(self.agents@),
        }
    }
}

/// Nothing is held.
pub open spec fn nothing_held() -> InventoryView {
    InventoryView { discs: Seq::empty(), engines: Seq::empty(), agents: Seq::empty() }
}

/// The condition to be the disc with a uid.
pub open spec fn is_disc(uid: u32) -> spec_fn(DiscInfoView) -> bool {
    |d: DiscInfoView| d.uid == uid
}

/// The condition to be the w-engine with a uid.
pub open spec fn is_engine(uid: u32) -> spec_fn(WeaponInfo) -> bool {
    |e: WeaponInfo| e.uid == uid
}

/// The condition to be the agent with an id.
pub open spec fn is_agent(id: u32) -> spec_fn(AgentInfoView) -> bool {
    |a: AgentInfoView| a.id == id
}

/// A disc is put in: it replaces the one with its uid, or is added.
pub open spec fn with_disc(v: InventoryView, disc: DiscInfoView) -> InventoryView {
    InventoryView { discs: lookup::put(v.discs, is_disc(disc.uid), disc), ..v }
}

/// A w-engine is put in.
pub open spec fn with_engine(v: InventoryView, engine: WeaponInfo) -> InventoryView {
    InventoryView { engines: lookup::put(v.engines, is_engine(engine.uid), engine), ..v }
}

/// An agent is put in.
pub open spec fn with_agent(v: InventoryView, agent: AgentInfoView) -> InventoryView {
    InventoryView { agents: lookup::put(v.agents, is_agent(agent.id), agent), ..v }
}

/// A disc is taken out.
pub open spec fn without_disc(v: InventoryView, uid: u32) -> InventoryView {
    InventoryView { discs: lookup::cut(v.discs, is_disc(uid)), ..v }
}

/// A w-engine is taken out.
pub open spec fn without_engine(v: InventoryView, uid: u32) -> InventoryView {
    InventoryView { engines: lookup::cut(v.engines, is_engine(uid)), ..v }
}

/// An agent is taken out.
pub open spec fn without_agent(v: InventoryView, id: u32) -> InventoryView {
    InventoryView { agents: lookup::cut(v.agents, is_agent(id)), ..v }
}

pub open spec fn has_disc(v: InventoryView, uid: u32) -> bool {
    lookup::holds(v.discs, is_disc(uid))
}

pub open spec fn has_engine(v: InventoryView, uid: u32) -> bool {
    lookup::holds(v.engines, is_engine(uid))
}

pub open spec fn has_agent(v: InventoryView, id: u32) -> bool {
    lookup::holds(v.agents, is_agent(id))
}

pub open spec fn kind_of(held: bool) -> Upsert {
    if held {
        Upsert::Updated
    } else {
        Upsert::Added
    }
}

/// The w-engine that the agent with an id wears, or 0.
pub open spec fn worn_by(v: InventoryView, id: u32) -> u32 {
    match lookup::find_first(v.agents, is_agent(id)) {
        Some(agent) => agent.weapon_uid,
        None => 0,
    }
}

/// The id of the disc with a uid, or 0.
pub open spec fn disc_id(v: InventoryView, uid: u32) -> u32 {
    match lookup::find_first(v.discs, is_disc(uid)) {
        Some(disc) => disc.id,
        None => 0,
    }
}

/// The id of the w-engine with a uid, or 0.
pub open spec fn engine_id(v: InventoryView, uid: u32) -> u32 {
    match lookup::find_first(v.engines, is_engine(uid)) {
        Some(engine) => engine.id,
        None => 0,
    }
}

impl Clone for Inventory {
    fn clone(&self) -> (r: Inventory)
        ensures
            r@ == self@,
    {
        let mut discs: Vec<DiscInfo> = Vec::new();
        let mut i: usize = 0;
        while i < self.discs.len()
            invariant
                i <= self.discs@.len(),
                discs@.len() == i,
                forall|k: int| 0 <= k < i ==> (#[trigger] discs@[k])@ == self.discs@[k]@,
            decreases self.discs@.len() - i,
        {
            discs.push(self.discs[i].clone());
            i = i + 1;
        }
        let mut agents: Vec<AgentInfo> = Vec::new();
        let mut i: usize = 0;
        while i < self.agents.len()
            invariant
                i <= self.agents@.len(),
                agents@.len() == i,
                forall|k: int| 0 <= k < i ==> (#[trigger] agents@[k])@ == self.agents@[k]@,
            decreases self.agents@.len() - i,
        {
            agents.push(self.agents[i].clone());
            i = i + 1;
        }
        assert(discs_view(discs@) =~= discs_view(self.discs@));
        assert(agents_view(agents@) =~= agents_view(self.agents@));
        Inventory { discs, engines: vstd::slice::slice_to_vec(self.engines.as_slice()), agents }
    }
}

impl Default for Inventory {
    fn default() -> (r: Inventory)
        ensures
            r@ == nothing_held(),
    {
        let r = Inventory { discs: Vec::new(), engines: Vec::new(), agents: Vec::new() };
        assert(discs_view(r.discs@) =~= Seq::empty());
        assert(agents_view(r.agents@) =~= Seq::empty());
        r
    }
}

impl Inventory {
    pub fn new() -> (r: Inventory)
        ensures
            r@ == nothing_held(),
    {
        Inventory::default()
    }

    pub fn is_empty(&self) -> (r: bool)
        ensures
            r == (self@.discs.len() == 0 && self@.engines.len() == 0 && self@.agents.len() == 0),
    {
        self.discs.len() == 0 && self.engines.len() == 0 && self.agents.len() == 0
    }

    /// Where the disc with a uid stands, or how many there are.
    pub fn disc_index(&self, uid: u32) -> (r: usize)
        ensures
            r == lookup::index_first(self@.discs, is_disc(uid)),
            r <= self.discs@.len(),
    {
        let mut i: usize = 0;
        while i < self.discs.len() && self.discs[i].uid != uid
            invariant
                i <= self.discs@.len(),
                forall|k: int| 0 <= k < i ==> !is_disc(uid)(#[trigger] self@.discs[k]),
            decreases self.discs@.len() - i,
        {
            assert(self@.discs[i as int] == self.discs@[i as int]@);
            i = i + 1;
        }
        proof {
            if i < self.discs@.len() {
                assert(self@.discs[i as int] == self.discs@[i as int]@);
            }
            lookup::lemma_find_first(self@.discs, is_disc(uid), i as int);
        }
        i
    }

    /// Where the w-engine with a uid stands, or how many there are.
    pub fn engine_index(&self, uid: u32) -> (r: usize)
        ensures
            r == lookup::index_first(self@.engines, is_engine(uid)),
            r <= self.engines@.len(),
    {
        let mut i: usize = 0;
        while i < self.engines.len() && self.engines[i].uid != uid
            invariant
                i <= self.engines@.len(),
                forall|k: int| 0 <= k < i ==> !is_engine(uid)(#[trigger] self@.engines[k]),
            decreases self.engines@.len() - i,
        {
            i = i + 1;
        }
        proof {
            lookup::lemma_find_first(self@.engines, is_engine(uid), i as int);
        }
        i
    }

    /// Where the agent with an id stands, or how many there are.
    pub fn agent_index(&self, id: u32) -> (r: usize)
        ensures
            r == lookup::index_first(self@.agents, is_agent(id)),
            r <= self.agents@.len(),
    {
        let mut i: usize = 0;
        while i < self.agents.len() && self.agents[i].id != id
            invariant
                i <= self.agents@.len(),
                forall|k: int| 0 <= k < i ==> !is_agent(id)(#[trigger] self@.agents[k]),
            decreases self.agents@.len() - i,
        {
            assert(self@.agents[i as int] == self.agents@[i as int]@);
            i = i + 1;
        }
        proof {
            if i < self.agents@.len() {
                assert(self@.agents[i as int] == self.agents@[i as int]@);
            }
            lookup::lemma_find_first(self@.agents, is_agent(id), i as int);
        }
        i
    }

    /// Puts a disc in. It always counts as a change, even where nothing differs: a display
    /// that follows would otherwise miss one.
    pub fn upsert_disc(&mut self, disc: DiscInfo) -> (r: (bool, Upsert))
        ensures
            final(self)@ == with_disc(old(self)@, disc@),
            r == (true, kind_of(has_disc(old(self)@, disc.uid))),
    {
        let ghost before = self@;
        let i: usize = self.disc_index(disc.uid);
        let ghost held = self.discs@;
        if i < self.discs.len() {
            self.discs.set(i, disc);
            assert(self@.discs =~= before.discs.update(i as int, disc@));
            (true, Upsert::Updated)
        } else {
            self.discs.push(disc);
            assert(self@.discs =~= before.discs.push(disc@));
            (true, Upsert::Added)
        }
    }

    /// Puts a w-engine in.
    pub fn upsert_engine(&mut self, engine: WeaponInfo) -> (r: (bool, Upsert))
        ensures
            final(self)@ == with_engine(old(self)@, engine),
            r == (true, kind_of(has_engine(old(self)@, engine.uid))),
    {
        let i: usize = self.engine_index(engine.uid);
        if i < self.engines.len() {
            self.engines.set(i, engine);
            (true, Upsert::Updated)
        } else {
            self.engines.push(engine);
            (true, Upsert::Added)
        }
    }

    /// Puts an agent in and says which w-engine the agent wore before.
    pub fn upsert_agent(&mut self, agent: AgentInfo) -> (r: (bool, Upsert, u32))
        ensures
            final(self)@ == with_agent(old(self)@, agent@),
            r == (
                true,
                kind_of(has_agent(old(self)@, agent.id)),
                worn_by(old(self)@, agent.id),
            ),
    {
        let ghost before = self@;
        let i: usize = self.agent_index(agent.id);
        proof {
            lookup::lemma_index_first(before.agents, is_agent(agent.id));
        }
        if i < self.agents.len() {
            let previous: u32 = self.agents[i].weapon_uid;
            assert(before.agents[i as int] == self.agents@[i as int]@);
            self.agents.set(i, agent);
            assert(self@.agents =~= before.agents.update(i as int, agent@));
            (true, Upsert::Updated, previous)
        } else {
            self.agents.push(agent);
            assert(self@.agents =~= before.agents.push(agent@));
            (true, Upsert::Added, 0)
        }
    }

    /// Takes a disc out and says whether it was held.
    pub fn remove_disc(&mut self, uid: u32) -> (r: bool)
        ensures
            final(self)@ == without_disc(old(self)@, uid),
            r == has_disc(old(self)@, uid),
    {
        let ghost before = self@;
        let i: usize = self.disc_index(uid);
        if i < self.discs.len() {
            let _ = self.discs.remove(i);
            assert(self@.discs =~= before.discs.remove(i as int));
            true
        } else {
            false
        }
    }

    /// Takes a w-engine out and says whether it was held.
    pub fn remove_engine(&mut self, uid: u32) -> (r: bool)
        ensures
            final(self)@ == without_engine(old(self)@, uid),
            r == has_engine(old(self)@, uid),
    {
        let i: usize = self.engine_index(uid);
        if i < self.engines.len() {
            let _ = self.engines.remove(i);
            true
        } else {
            false
        }
    }

    /// Takes an agent out and says whether it was held.
    pub fn remove_agent(&mut self, id: u32) -> (r: bool)
        ensures
            final(self)@ == without_agent(old(self)@, id),
            r == has_agent(old(self)@, id),
    {
        let ghost before = self@;
        let i: usize = self.agent_index(id);
        if i < self.agents.len() {
            let _ = self.agents.remove(i);
            assert(self@.agents =~= before.agents.remove(i as int));
            true
        } else {
            false
        }
    }
}


/// A varint as the game's own reader takes it: up to ten bytes, whatever the last one
/// holds. Its value and the position behind it.
pub open spec fn loose_varint_from(data: Seq<u8>, pos: int, index: int) -> Option<(nat, int)>
    decreases 10 - index,
{
    if index >= 10 || pos >= data.len() {
        None
    } else if data[pos] < 0x80 {
        Some((data[pos] as nat, pos + 1))
    } else {
        match loose_varint_from(data, pos + 1, index + 1) {
            Some((high, next)) => Some(((data[pos] - 0x80 + 0x80 * high) as nat, next)),
            None => None,
        }
    }
}

pub proof fn lemma_loose_varint_bounds(data: Seq<u8>, pos: int, index: int)
    requires
        0 <= index,
    ensures
        loose_varint_from(data, pos, index) matches Some((v, next)) ==> pos < next <= data.len(),
    decreases 10 - index,
{
    if index < 10 {
        lemma_loose_varint_bounds(data, pos + 1, index + 1);
    }
}

/// The packed integers from `pos` on, cut to 32 bits each, up to the first that does not
/// end.
pub open spec fn loose_packed(data: Seq<u8>, pos: int) -> Seq<u32>
    decreases data.len() - pos,
{
    if pos >= data.len() {
        Seq::empty()
    } else {
        proof {
            lemma_loose_varint_bounds(data, pos, 0);
        }
        match loose_varint_from(data, pos, 0) {
            Some((v, next)) => seq![(v % 0x1_0000_0000) as u32] + loose_packed(data, next),
            None => Seq::empty(),
        }
    }
}

/// The integers a field carries, packed or not.
pub open spec fn loose_uints(value: ValueView) -> Seq<u32> {
    match value {
        ValueView::Varint(v) => seq![(v % 0x1_0000_0000) as u32],
        ValueView::LengthDelimited(data) => loose_packed(data, 0),
        _ => Seq::empty(),
    }
}

/// 128 to the power `index`.
spec fn weight(index: int) -> int {
    if index == 0 {
        1
    } else if index == 1 {
        0x80
    } else if index == 2 {
        0x4000
    } else if index == 3 {
        0x20_0000
    } else if index == 4 {
        0x1000_0000
    } else if index == 5 {
        0x8_0000_0000
    } else if index == 6 {
        0x400_0000_0000
    } else if index == 7 {
        0x2_0000_0000_0000
    } else if index == 8 {
        0x100_0000_0000_0000
    } else if index == 9 {
        0x8000_0000_0000_0000
    } else {
        0x40_0000_0000_0000_0000
    }
}

/// Reads one packed integer, cut to 32 bits, and moves `*pos` behind it.
fn read_loose(data: &[u8], pos: &mut usize) -> (r: Option<u32>)
    requires
        *old(pos) <= data.len(),
    ensures
        *final(pos) <= data.len(),
        match loose_varint_from(data@, *old(pos) as int, 0) {
            Some((v, next)) => r == Some((v % 0x1_0000_0000) as u32) && *final(pos) == next,
            None => r is None,
        },
{
    let mut word: u64 = 0;
    let mut scale: u64 = 1;
    let mut i: u32 = 0;
    let ghost start = *pos as int;
    let ghost mut total: int = 0;
    while i < 10
        invariant
            i <= 10,
            *pos <= data.len(),
            start == *old(pos),
            0 <= total,
            word == total % 0x1_0000_0000,
            i < 5 ==> scale == weight(i as int),
            loose_varint_from(data@, start, 0) == match loose_varint_from(
                data@,
                *pos as int,
                i as int,
            ) {
                Some((high, next)) => Some(((total + weight(i as int) * high) as nat, next)),
                None => None,
            },
        decreases 10 - i,
    {
        if *pos >= data.len() {
            return None;
        }
        let byte: u8 = data[*pos];
        *pos = *pos + 1;
        let low: u64 = if byte < 0x80 {
            byte as u64
        } else {
            (byte - 0x80) as u64
        };
        let ghost w = weight(i as int);
        let ghost next_total = total + w * low;
        if i < 5 {
            // The sixth byte starts above the lowest 32 bits.
            assert(low * scale <= 127 * scale) by (nonlinear_arith)
                requires
                    low <= 127,
            ;
            assert(w * low == low * scale) by (nonlinear_arith)
                requires
                    w == scale,
            ;
            word = (word + low * scale) % 0x1_0000_0000;
            scale = scale * 0x80;
        } else {
            assert(w % 0x1_0000_0000 == 0);
            assert(w * low % 0x1_0000_0000 == 0) by {
                let k = w / 0x1_0000_0000;
                assert(w * low == 0x1_0000_0000 * (k * low)) by (nonlinear_arith)
                    requires
                        w == 0x1_0000_0000 * k,
                ;
            }
        }
        assert(0 <= w * low) by (nonlinear_arith)
            requires
                0 <= w,
                0 <= low,
        ;
        if byte < 0x80 {
            return Some(word as u32);
        }
        proof {
            if let Some((high, next)) = loose_varint_from(data@, *pos as int, i + 1) {
                assert(w * (low + 0x80 * high) == w * low + (w * 0x80) * high) by (nonlinear_arith);
            }
            total = next_total;
        }
        i = i + 1;
    }
    None
}

/// Reads the integers a field carries, packed or not.
pub fn collect_uints(value: &Value) -> (r: Vec<u32>)
    ensures
        r@ == loose_uints(value.model()),
{
    let mut out: Vec<u32> = Vec::new();
    match value {
        Value::Varint(v) => {
            out.push((*v % 0x1_0000_0000) as u32);
        },
        Value::LengthDelimited(data) => {
            let mut pos: usize = 0;
            assert(loose_packed(data@, 0) =~= out@ + loose_packed(data@, 0));
            while pos < data.len()
                invariant_except_break
                    pos <= data.len(),
                    loose_packed(data@, 0) == out@ + loose_packed(data@, pos as int),
                ensures
                    loose_packed(data@, 0) == out@,
                decreases data.len() - pos,
            {
                let ghost at = pos as int;
                let ghost before = out@;
                proof {
                    lemma_loose_varint_bounds(data@, at, 0);
                }
                match read_loose(data.as_slice(), &mut pos) {
                    Some(word) => {
                        out.push(word);
                        assert(before + loose_packed(data@, at) =~= out@ + loose_packed(
                            data@,
                            pos as int,
                        ));
                    },
                    None => {
                        assert(before + Seq::<u32>::empty() =~= before);
                        break;
                    },
                }
                assert(pos == data@.len() ==> out@ + loose_packed(data@, pos as int) =~= out@);
            }
        },
        _ => {},
    }
    assert(out@ =~= loose_uints(value.model()));
    out
}

/// An inventory and the changes that led to it.
pub struct Tally {
    pub inventory: InventoryView,
    pub changes: Seq<ItemChange>,
}

/// A disc is put in and reported.
pub open spec fn disc_put(t: Tally, disc: DiscInfoView) -> Tally {
    let rarity = model::disc_rarity(disc.id);
    Tally {
        inventory: with_disc(t.inventory, disc),
        changes: t.changes.push(
            if has_disc(t.inventory, disc.uid) {
                ItemChange::DiscUpdated { uid: disc.uid, id: disc.id, level: disc.level, rarity }
            } else {
                ItemChange::DiscAdded { uid: disc.uid, id: disc.id, level: disc.level, rarity }
            },
        ),
    }
}

/// A w-engine is put in and reported.
pub open spec fn engine_put(t: Tally, engine: WeaponInfo) -> Tally {
    Tally {
        inventory: with_engine(t.inventory, engine),
        changes: t.changes.push(
            if has_engine(t.inventory, engine.uid) {
                ItemChange::EngineUpdated {
                    uid: engine.uid,
                    id: engine.id,
                    level: engine.level,
                    phase: engine.phase,
                }
            } else {
                ItemChange::EngineAdded {
                    uid: engine.uid,
                    id: engine.id,
                    level: engine.level,
                    phase: engine.phase,
                }
            },
        ),
    }
}

/// An agent is put in and reported.
pub open spec fn agent_put(t: Tally, agent: AgentInfoView) -> Tally {
    Tally {
        inventory: with_agent(t.inventory, agent),
        changes: t.changes.push(
            if has_agent(t.inventory, agent.id) {
                ItemChange::AgentUpdated {
                    id: agent.id,
                    level: agent.level,
                    previous_weapon_uid: worn_by(t.inventory, agent.id),
                    weapon_uid: agent.weapon_uid,
                }
            } else {
                ItemChange::AgentAdded {
                    id: agent.id,
                    level: agent.level,
                    weapon_uid: agent.weapon_uid,
                }
            },
        ),
    }
}

/// A disc is taken out and, if it was held, reported.
pub open spec fn disc_cut(t: Tally, uid: u32) -> Tally {
    Tally {
        inventory: without_disc(t.inventory, uid),
        changes: if has_disc(t.inventory, uid) {
            t.changes.push(ItemChange::DiscRemoved { uid, id: disc_id(t.inventory, uid) })
        } else {
            t.changes
        },
    }
}

/// A w-engine is taken out and, if it was held, reported.
pub open spec fn engine_cut(t: Tally, uid: u32) -> Tally {
    Tally {
        inventory: without_engine(t.inventory, uid),
        changes: if has_engine(t.inventory, uid) {
            t.changes.push(ItemChange::EngineRemoved { uid, id: engine_id(t.inventory, uid) })
        } else {
            t.changes
        },
    }
}

/// An agent is taken out and, if it was held, reported.
pub open spec fn agent_cut(t: Tally, id: u32) -> Tally {
    Tally {
        inventory: without_agent(t.inventory, id),
        changes: if has_agent(t.inventory, id) {
            t.changes.push(ItemChange::AgentRemoved { id })
        } else {
            t.changes
        },
    }
}

/// A sync under way: what it has made of the inventory, its counters and its reports.
pub struct SyncState {
    pub tally: Tally,
    pub result: SyncResult,
    pub events: Seq<ExtractEventView>,
}

pub open spec fn counted_upsert(r: SyncResult) -> SyncResult {
    SyncResult { changed: true, upserts: r.upserts.wrapping_add(1), ..r }
}

pub open spec fn counted_removal(r: SyncResult, held: bool) -> SyncResult {
    if held {
        SyncResult { changed: true, removals: r.removals.wrapping_add(1), ..r }
    } else {
        r
    }
}

/// Discs are taken out one after the other. Outside the field that is known to list them,
/// each hit is reported with the field's number.
pub open spec fn discs_cut(s: SyncState, uids: Seq<u32>, fallback: Option<u32>) -> SyncState
    decreases uids.len(),
{
    if uids.len() == 0 {
        s
    } else {
        let s = discs_cut(s, uids.drop_last(), fallback);
        let uid = uids.last();
        let held = has_disc(s.tally.inventory, uid);
        SyncState {
            tally: disc_cut(s.tally, uid),
            result: counted_removal(s.result, held),
            events: match fallback {
                Some(field) => if held {
                    s.events.push(ExtractEventView::FallbackRemoval { uid, field })
                } else {
                    s.events
                },
                None => s.events,
            },
        }
    }
}

/// Agents are taken out one after the other.
pub open spec fn agents_cut(s: SyncState, ids: Seq<u32>) -> SyncState
    decreases ids.len(),
{
    if ids.len() == 0 {
        s
    } else {
        let s = agents_cut(s, ids.drop_last());
        SyncState {
            tally: agent_cut(s.tally, ids.last()),
            result: counted_removal(s.result, has_agent(s.tally.inventory, ids.last())),
            events: s.events,
        }
    }
}

/// What one field of an avatar sync does.
pub open spec fn avatar_field(s: SyncState, field: FieldView, datamine: Datamine) -> SyncState {
    if field.number == datamine.sync_avatar_data.avatars {
        match proto::message_of(field.value) {
            Some(fields) => SyncState {
                tally: agent_put(s.tally, model::agent_in(fields, datamine)),
                result: counted_upsert(s.result),
                events: s.events,
            },
            None => s,
        }
    } else if field.number == datamine.sync_avatar_data.dels {
        agents_cut(s, loose_uints(field.value))
    } else {
        s
    }
}

/// What an avatar sync does: its fields, in order.
pub open spec fn avatar_sync(s: SyncState, fields: Seq<FieldView>, datamine: Datamine) -> SyncState
    decreases fields.len(),
{
    if fields.len() == 0 {
        s
    } else {
        avatar_field(avatar_sync(s, fields.drop_last(), datamine), fields.last(), datamine)
    }
}

/// What one field of an item sync does.
pub open spec fn item_field(s: SyncState, field: FieldView, datamine: Datamine) -> SyncState {
    if field.number == datamine.sync_item_data.equips {
        match proto::message_of(field.value) {
            Some(fields) => SyncState {
                tally: disc_put(s.tally, model::disc_in(fields, datamine)),
                result: counted_upsert(s.result),
                events: s.events,
            },
            None => s,
        }
    } else if field.number == datamine.sync_item_data.weapons {
        match proto::message_of(field.value) {
            Some(fields) => SyncState {
                tally: engine_put(s.tally, model::weapon_in(fields, datamine)),
                result: counted_upsert(s.result),
                events: s.events,
            },
            None => s,
        }
    } else if field.number == datamine.sync_item_data.deleted_equips {
        discs_cut(s, loose_uints(field.value), None)
    } else {
        discs_cut(s, loose_uints(field.value), Some(field.number))
    }
}

/// What an item sync does: its fields, in order.
pub open spec fn item_sync(s: SyncState, fields: Seq<FieldView>, datamine: Datamine) -> SyncState
    decreases fields.len(),
{
    if fields.len() == 0 {
        s
    } else {
        item_field(item_sync(s, fields.drop_last(), datamine), fields.last(), datamine)
    }
}

/// What one field of a player sync does: only submessages count.
pub open spec fn player_field(s: SyncState, field: FieldView, datamine: Datamine) -> SyncState {
    match proto::message_of(field.value) {
        None => s,
        Some(fields) => if field.number == datamine.sync_avatar_data.avatar_sync {
            avatar_sync(s, fields, datamine)
        } else if field.number == datamine.sync_item_data.item_sync {
            item_sync(s, fields, datamine)
        } else {
            s
        },
    }
}

/// What a player sync does: its fields, in order.
pub open spec fn player_sync(s: SyncState, fields: Seq<FieldView>, datamine: Datamine) -> SyncState
    decreases fields.len(),
{
    if fields.len() == 0 {
        s
    } else {
        player_field(player_sync(s, fields.drop_last(), datamine), fields.last(), datamine)
    }
}

/// The uids in a dismantle request.
pub open spec fn dismantled_uids(fields: Seq<FieldView>, datamine: Datamine) -> Seq<u32>
    decreases fields.len(),
{
    if fields.len() == 0 {
        Seq::empty()
    } else {
        let rest = dismantled_uids(fields.drop_last(), datamine);
        let number = fields.last().number;
        if number == datamine.equip_dismantle.uid || number == datamine.equip_dismantle.uids {
            rest + loose_uints(fields.last().value)
        } else {
            rest
        }
    }
}

/// What a dismantle request does: each uid leaves both lists, and counts once.
pub open spec fn dismantled(s: SyncState, uids: Seq<u32>) -> SyncState
    decreases uids.len(),
{
    if uids.len() == 0 {
        s
    } else {
        let s = dismantled(s, uids.drop_last());
        let uid = uids.last();
        let held = has_disc(s.tally.inventory, uid) || has_engine(s.tally.inventory, uid);
        SyncState {
            tally: engine_cut(disc_cut(s.tally, uid), uid),
            result: counted_removal(s.result, held),
            events: s.events,
        }
    }
}

/// The submessages under a field number, in order.
pub open spec fn messages_in(fields: Seq<FieldView>, number: u32) -> Seq<Seq<FieldView>>
    decreases fields.len(),
{
    if fields.len() == 0 {
        Seq::empty()
    } else {
        let rest = messages_in(fields.drop_last(), number);
        if fields.last().number == number && proto::message_of(fields.last().value) is Some {
            rest.push(proto::message_of(fields.last().value)->Some_0)
        } else {
            rest
        }
    }
}

/// Discs are put in one after the other.
pub open spec fn discs_loaded(t: Tally, messages: Seq<Seq<FieldView>>, datamine: Datamine) -> Tally
    decreases messages.len(),
{
    if messages.len() == 0 {
        t
    } else {
        disc_put(
            discs_loaded(t, messages.drop_last(), datamine),
            model::disc_in(messages.last(), datamine),
        )
    }
}

/// W-engines are put in one after the other.
pub open spec fn engines_loaded(t: Tally, messages: Seq<Seq<FieldView>>, datamine: Datamine) -> Tally
    decreases messages.len(),
{
    if messages.len() == 0 {
        t
    } else {
        engine_put(
            engines_loaded(t, messages.drop_last(), datamine),
            model::weapon_in(messages.last(), datamine),
        )
    }
}

/// Agents are put in one after the other.
pub open spec fn agents_loaded(t: Tally, messages: Seq<Seq<FieldView>>, datamine: Datamine) -> Tally
    decreases messages.len(),
{
    if messages.len() == 0 {
        t
    } else {
        agent_put(
            agents_loaded(t, messages.drop_last(), datamine),
            model::agent_in(messages.last(), datamine),
        )
    }
}

/// What a decoded message does to the inventory, and what is reported of it. Most commands
/// extract nothing; every one reports its changes, even none.
pub open spec fn applied(
    v: InventoryView,
    command_id: u16,
    fields: Seq<FieldView>,
    datamine: Datamine,
) -> (InventoryView, Seq<ExtractEventView>) {
    let t = Tally { inventory: v, changes: Seq::empty() };
    let s = SyncState { tally: t, result: no_result(), events: Seq::empty() };
    let command = command_id as u32;
    if command == datamine.cmd_player_sync_sc_notify {
        let s = player_sync(s, fields, datamine);
        (
            s.tally.inventory,
            s.events.push(ExtractEventView::PlayerSync(s.result)).push(
                ExtractEventView::Changes(s.tally.changes),
            ),
        )
    } else if command == datamine.cmd_dismantle_equip_cs_req {
        let s = dismantled(s, dismantled_uids(fields, datamine));
        (
            s.tally.inventory,
            seq![
                ExtractEventView::Dismantle(s.result),
                ExtractEventView::Changes(s.tally.changes),
            ],
        )
    } else if command == datamine.cmd_get_equip_data_sc_rsp {
        let messages = messages_in(fields, datamine.equip_data.discs);
        let t = discs_loaded(t, messages, datamine);
        (
            t.inventory,
            seq![
                ExtractEventView::Discs { upserted: messages.len() as usize },
                ExtractEventView::Changes(t.changes),
            ],
        )
    } else if command == datamine.cmd_get_weapon_data_sc_rsp {
        let messages = messages_in(fields, datamine.weapon_data.weapons);
        let t = engines_loaded(t, messages, datamine);
        (
            t.inventory,
            seq![
                ExtractEventView::Weapons { upserted: messages.len() as usize },
                ExtractEventView::Changes(t.changes),
            ],
        )
    } else if command == datamine.cmd_get_avatar_data_sc_rsp {
        let messages = messages_in(fields, datamine.agent_data.agents);
        let t = agents_loaded(t, messages, datamine);
        (
            t.inventory,
            seq![
                ExtractEventView::Avatars { upserted: messages.len() as usize },
                ExtractEventView::Changes(t.changes),
            ],
        )
    } else {
        (v, seq![ExtractEventView::Changes(Seq::empty())])
    }
}

/// The tally of an inventory and a list of changes.
pub open spec fn tally_of(inventory: InventoryView, changes: Seq<ItemChange>) -> Tally {
    Tally { inventory, changes }
}

/// The state of a sync.
pub open spec fn state_of(
    inventory: InventoryView,
    changes: Seq<ItemChange>,
    result: SyncResult,
    events: Seq<ExtractEventView>,
) -> SyncState {
    SyncState { tally: Tally { inventory, changes }, result, events }
}

impl Inventory {
    /// Puts a disc in and reports it.
    fn put_disc(&mut self, disc: DiscInfo, changes: &mut Vec<ItemChange>)
        ensures
            tally_of(final(self)@, final(changes)@) == disc_put(
                tally_of(old(self)@, old(changes)@),
                disc@,
            ),
    {
        let uid: u32 = disc.uid;
        let id: u32 = disc.id;
        let level: u32 = disc.level;
        let rarity: u32 = disc.rarity();
        let (_, kind) = self.upsert_disc(disc);
        changes.push(
            match kind {
                Upsert::Added => ItemChange::DiscAdded { uid, id, level, rarity },
                Upsert::Updated => ItemChange::DiscUpdated { uid, id, level, rarity },
            },
        );
    }

    /// Puts a w-engine in and reports it.
    fn put_engine(&mut self, engine: WeaponInfo, changes: &mut Vec<ItemChange>)
        ensures
            tally_of(final(self)@, final(changes)@) == engine_put(
                tally_of(old(self)@, old(changes)@),
                engine,
            ),
    {
        let (_, kind) = self.upsert_engine(engine);
        changes.push(
            match kind {
                Upsert::Added => ItemChange::EngineAdded {
                    uid: engine.uid,
                    id: engine.id,
                    level: engine.level,
                    phase: engine.phase,
                },
                Upsert::Updated => ItemChange::EngineUpdated {
                    uid: engine.uid,
                    id: engine.id,
                    level: engine.level,
                    phase: engine.phase,
                },
            },
        );
    }

    /// Puts an agent in and reports it.
    fn put_agent(&mut self, agent: AgentInfo, changes: &mut Vec<ItemChange>)
        ensures
            tally_of(final(self)@, final(changes)@) == agent_put(
                tally_of(old(self)@, old(changes)@),
                agent@,
            ),
    {
        let id: u32 = agent.id;
        let level: u32 = agent.level;
        let weapon_uid: u32 = agent.weapon_uid;
        let (_, kind, previous) = self.upsert_agent(agent);
        changes.push(
            match kind {
                Upsert::Added => ItemChange::AgentAdded { id, level, weapon_uid },
                Upsert::Updated => ItemChange::AgentUpdated {
                    id,
                    level,
                    previous_weapon_uid: previous,
                    weapon_uid,
                },
            },
        );
    }

    /// Takes a disc out and, if it was held, reports it.
    fn cut_disc(&mut self, uid: u32, changes: &mut Vec<ItemChange>) -> (r: bool)
        ensures
            tally_of(final(self)@, final(changes)@) == disc_cut(
                tally_of(old(self)@, old(changes)@),
                uid,
            ),
            r == has_disc(old(self)@, uid),
    {
        proof {
            lookup::lemma_index_first(self@.discs, is_disc(uid));
        }
        let i: usize = self.disc_index(uid);
        let mut id: u32 = 0;
        if i < self.discs.len() {
            assert(self@.discs[i as int] == self.discs@[i as int]@);
            id = self.discs[i].id;
        }
        let held: bool = self.remove_disc(uid);
        if held {
            changes.push(ItemChange::DiscRemoved { uid, id });
        }
        held
    }

    /// Takes a w-engine out and, if it was held, reports it.
    fn cut_engine(&mut self, uid: u32, changes: &mut Vec<ItemChange>) -> (r: bool)
        ensures
            tally_of(final(self)@, final(changes)@) == engine_cut(
                tally_of(old(self)@, old(changes)@),
                uid,
            ),
            r == has_engine(old(self)@, uid),
    {
        proof {
            lookup::lemma_index_first(self@.engines, is_engine(uid));
        }
        let i: usize = self.engine_index(uid);
        let mut id: u32 = 0;
        if i < self.engines.len() {
            id = self.engines[i].id;
        }
        let held: bool = self.remove_engine(uid);
        if held {
            changes.push(ItemChange::EngineRemoved { uid, id });
        }
        held
    }

    /// Takes an agent out and, if it was held, reports it.
    fn cut_agent(&mut self, id: u32, changes: &mut Vec<ItemChange>) -> (r: bool)
        ensures
            tally_of(final(self)@, final(changes)@) == agent_cut(
                tally_of(old(self)@, old(changes)@),
                id,
            ),
            r == has_agent(old(self)@, id),
    {
        let held: bool = self.remove_agent(id);
        if held {
            changes.push(ItemChange::AgentRemoved { id });
        }
        held
    }

    /// Takes discs out.
    fn cut_discs(
        &mut self,
        uids: &Vec<u32>,
        fallback: Option<u32>,
        result: &mut SyncResult,
        events: &mut Vec<ExtractEvent>,
        changes: &mut Vec<ItemChange>,
    )
        ensures
            state_of(final(self)@, final(changes)@, *final(result), events_view(final(events)@))
                == discs_cut(
                state_of(old(self)@, old(changes)@, *old(result), events_view(old(events)@)),
                uids@,
                fallback,
            ),
    {
        let ghost s = state_of(self@, changes@, *result, events_view(events@));
        let mut i: usize = 0;
        assert(uids@.take(0) =~= Seq::empty());
        while i < uids.len()
            invariant
                i <= uids@.len(),
                state_of(self@, changes@, *result, events_view(events@)) == discs_cut(
                    s,
                    uids@.take(i as int),
                    fallback,
                ),
            decreases uids@.len() - i,
        {
            let uid: u32 = uids[i];
            assert(uids@.take(i + 1).drop_last() =~= uids@.take(i as int));
            assert(uids@.take(i + 1).last() == uid);
            let ghost before = events@;
            if self.cut_disc(uid, changes) {
                result.changed = true;
                result.removals = result.removals.wrapping_add(1);
                if let Some(field) = fallback {
                    events.push(ExtractEvent::FallbackRemoval { uid, field });
                    assert(events_view(events@) =~= events_view(before).push(
                        ExtractEventView::FallbackRemoval { uid, field },
                    ));
                }
            }
            i = i + 1;
        }
        assert(uids@.take(i as int) =~= uids@);
    }

    /// Applies an avatar sync.
    fn apply_avatar_sync(
        &mut self,
        message: &Message,
        datamine: &Datamine,
        result: &mut SyncResult,
        Ghost(events): Ghost<Seq<ExtractEventView>>,
        changes: &mut Vec<ItemChange>,
    )
        ensures
            state_of(final(self)@, final(changes)@, *final(result), events) == avatar_sync(
                state_of(old(self)@, old(changes)@, *old(result), events),
                message@,
                *datamine,
            ),
    {
        let ghost s = state_of(self@, changes@, *result, events);
        let mut i: usize = 0;
        assert(message@.take(0) =~= Seq::empty());
        while i < message.fields.len()
            invariant
                i <= message.fields@.len(),
                message@.len() == message.fields@.len(),
                state_of(self@, changes@, *result, events) == avatar_sync(
                    s,
                    message@.take(i as int),
                    *datamine,
                ),
            decreases message.fields@.len() - i,
        {
            let field: &Field = &message.fields[i];
            assert(message@[i as int] == field.model());
            assert(message@.take(i + 1).drop_last() =~= message@.take(i as int));
            assert(message@.take(i + 1).last() == field.model());
            if field.number == datamine.sync_avatar_data.avatars {
                if let Some(nested) = field.value.as_message() {
                    self.put_agent(AgentInfo::from_message(&nested, datamine), changes);
                    result.changed = true;
                    result.upserts = result.upserts.wrapping_add(1);
                }
            } else if field.number == datamine.sync_avatar_data.dels {
                let ids: Vec<u32> = collect_uints(&field.value);
                let ghost t = state_of(self@, changes@, *result, events);
                let mut k: usize = 0;
                assert(ids@.take(0) =~= Seq::empty());
                while k < ids.len()
                    invariant
                        k <= ids@.len(),
                        state_of(self@, changes@, *result, events) == agents_cut(
                            t,
                            ids@.take(k as int),
                        ),
                    decreases ids@.len() - k,
                {
                    assert(ids@.take(k + 1).drop_last() =~= ids@.take(k as int));
                    assert(ids@.take(k + 1).last() == ids@[k as int]);
                    if self.cut_agent(ids[k], changes) {
                        result.changed = true;
                        result.removals = result.removals.wrapping_add(1);
                    }
                    k = k + 1;
                }
                assert(ids@.take(k as int) =~= ids@);
            }
            i = i + 1;
        }
        assert(message@.take(i as int) =~= message@);
    }

    /// Applies an item sync.
    fn apply_item_sync(
        &mut self,
        message: &Message,
        datamine: &Datamine,
        result: &mut SyncResult,
        events: &mut Vec<ExtractEvent>,
        changes: &mut Vec<ItemChange>,
    )
        ensures
            state_of(final(self)@, final(changes)@, *final(result), events_view(final(events)@))
                == item_sync(
                state_of(old(self)@, old(changes)@, *old(result), events_view(old(events)@)),
                message@,
                *datamine,
            ),
    {
        let ghost s = state_of(self@, changes@, *result, events_view(events@));
        let mut i: usize = 0;
        assert(message@.take(0) =~= Seq::empty());
        while i < message.fields.len()
            invariant
                i <= message.fields@.len(),
                message@.len() == message.fields@.len(),
                state_of(self@, changes@, *result, events_view(events@)) == item_sync(
                    s,
                    message@.take(i as int),
                    *datamine,
                ),
            decreases message.fields@.len() - i,
        {
            let field: &Field = &message.fields[i];
            assert(message@[i as int] == field.model());
            assert(message@.take(i + 1).drop_last() =~= message@.take(i as int));
            assert(message@.take(i + 1).last() == field.model());
            if field.number == datamine.sync_item_data.equips {
                if let Some(nested) = field.value.as_message() {
                    self.put_disc(DiscInfo::from_message(&nested, datamine), changes);
                    result.changed = true;
                    result.upserts = result.upserts.wrapping_add(1);
                }
            } else if field.number == datamine.sync_item_data.weapons {
                if let Some(nested) = field.value.as_message() {
                    self.put_engine(WeaponInfo::from_message(&nested, datamine), changes);
                    result.changed = true;
                    result.upserts = result.upserts.wrapping_add(1);
                }
            } else if field.number == datamine.sync_item_data.deleted_equips {
                let uids: Vec<u32> = collect_uints(&field.value);
                self.cut_discs(&uids, None, result, events, changes);
            } else {
                // A field of another number may list deleted discs in a new version. Only
                // the uid of a disc that is held counts, so a hit is evidence.
                let uids: Vec<u32> = collect_uints(&field.value);
                self.cut_discs(&uids, Some(field.number), result, events, changes);
            }
            i = i + 1;
        }
        assert(message@.take(i as int) =~= message@);
    }

    /// Applies a player sync.
    pub fn apply_player_sync(
        &mut self,
        message: &Message,
        datamine: &Datamine,
        events: &mut Vec<ExtractEvent>,
        changes: &mut Vec<ItemChange>,
    ) -> (r: SyncResult)
        ensures
            state_of(final(self)@, final(changes)@, r, events_view(final(events)@)) == player_sync(
                state_of(old(self)@, old(changes)@, no_result(), events_view(old(events)@)),
                message@,
                *datamine,
            ),
    {
        let mut result: SyncResult = SyncResult::default();
        let ghost s = state_of(self@, changes@, result, events_view(events@));
        let mut i: usize = 0;
        assert(message@.take(0) =~= Seq::empty());
        while i < message.fields.len()
            invariant
                i <= message.fields@.len(),
                message@.len() == message.fields@.len(),
                state_of(self@, changes@, result, events_view(events@)) == player_sync(
                    s,
                    message@.take(i as int),
                    *datamine,
                ),
            decreases message.fields@.len() - i,
        {
            let field: &Field = &message.fields[i];
            assert(message@[i as int] == field.model());
            assert(message@.take(i + 1).drop_last() =~= message@.take(i as int));
            assert(message@.take(i + 1).last() == field.model());
            if let Some(nested) = field.value.as_message() {
                if field.number == datamine.sync_avatar_data.avatar_sync {
                    let ghost so_far = events_view(events@);
                    self.apply_avatar_sync(&nested, datamine, &mut result, Ghost(so_far), changes);
                } else if field.number == datamine.sync_item_data.item_sync {
                    self.apply_item_sync(&nested, datamine, &mut result, events, changes);
                }
            }
            i = i + 1;
        }
        assert(message@.take(i as int) =~= message@);
        result
    }

    /// Applies a dismantle request. A uid that is both a disc's and a w-engine's leaves both
    /// lists.
    pub fn apply_equip_dismantle(
        &mut self,
        message: &Message,
        datamine: &Datamine,
        changes: &mut Vec<ItemChange>,
    ) -> (r: SyncResult)
        ensures
            state_of(final(self)@, final(changes)@, r, Seq::empty()) == dismantled(
                state_of(old(self)@, old(changes)@, no_result(), Seq::empty()),
                dismantled_uids(message@, *datamine),
            ),
    {
        let mut result: SyncResult = SyncResult::default();
        let mut uids: Vec<u32> = Vec::new();
        let mut i: usize = 0;
        assert(message@.take(0) =~= Seq::empty());
        while i < message.fields.len()
            invariant
                i <= message.fields@.len(),
                message@.len() == message.fields@.len(),
                uids@ == dismantled_uids(message@.take(i as int), *datamine),
            decreases message.fields@.len() - i,
        {
            let field: &Field = &message.fields[i];
            assert(message@[i as int] == field.model());
            assert(message@.take(i + 1).drop_last() =~= message@.take(i as int));
            assert(message@.take(i + 1).last() == field.model());
            if field.number == datamine.equip_dismantle.uid || field.number
                == datamine.equip_dismantle.uids {
                let mut more: Vec<u32> = collect_uints(&field.value);
                uids.append(&mut more);
            }
            i = i + 1;
        }
        assert(message@.take(i as int) =~= message@);
        let ghost s = state_of(self@, changes@, result, Seq::empty());
        let mut k: usize = 0;
        assert(uids@.take(0) =~= Seq::empty());
        while k < uids.len()
            invariant
                k <= uids@.len(),
                state_of(self@, changes@, result, Seq::empty()) == dismantled(s, uids@.take(k as int)),
            decreases uids@.len() - k,
        {
            let uid: u32 = uids[k];
            assert(uids@.take(k + 1).drop_last() =~= uids@.take(k as int));
            assert(uids@.take(k + 1).last() == uid);
            let disc: bool = self.cut_disc(uid, changes);
            let engine: bool = self.cut_engine(uid, changes);
            if disc || engine {
                result.changed = true;
                result.removals = result.removals.wrapping_add(1);
            }
            k = k + 1;
        }
        assert(uids@.take(k as int) =~= uids@);
        result
    }

    /// Applies the response with all discs and says how many it held.
    pub fn apply_equip_data(
        &mut self,
        message: &Message,
        datamine: &Datamine,
        changes: &mut Vec<ItemChange>,
    ) -> (r: usize)
        ensures
            tally_of(final(self)@, final(changes)@) == discs_loaded(
                tally_of(old(self)@, old(changes)@),
                messages_in(message@, datamine.equip_data.discs),
                *datamine,
            ),
            r == messages_in(message@, datamine.equip_data.discs).len(),
    {
        let mut upserted: usize = 0;
        let ghost t = tally_of(self@, changes@);
        let ghost number = datamine.equip_data.discs;
        let mut i: usize = 0;
        assert(message@.take(0) =~= Seq::empty());
        while i < message.fields.len()
            invariant
                i <= message.fields@.len(),
                message@.len() == message.fields@.len(),
                number == datamine.equip_data.discs,
                upserted <= i,
                upserted == messages_in(message@.take(i as int), number).len(),
                tally_of(self@, changes@) == discs_loaded(
                    t,
                    messages_in(message@.take(i as int), number),
                    *datamine,
                ),
            decreases message.fields@.len() - i,
        {
            let field: &Field = &message.fields[i];
            assert(message@[i as int] == field.model());
            assert(message@.take(i + 1).drop_last() =~= message@.take(i as int));
            assert(message@.take(i + 1).last() == field.model());
            if field.number == datamine.equip_data.discs {
                if let Some(nested) = field.value.as_message() {
                    let ghost rest = messages_in(message@.take(i as int), number);
                    assert(rest.push(nested@).drop_last() =~= rest);
                    self.put_disc(DiscInfo::from_message(&nested, datamine), changes);
                    upserted = upserted + 1;
                }
            }
            i = i + 1;
        }
        assert(message@.take(i as int) =~= message@);
        upserted
    }

    /// Applies the response with all w-engines and says how many it held.
    pub fn apply_weapon_data(
        &mut self,
        message: &Message,
        datamine: &Datamine,
        changes: &mut Vec<ItemChange>,
    ) -> (r: usize)
        ensures
            tally_of(final(self)@, final(changes)@) == engines_loaded(
                tally_of(old(self)@, old(changes)@),
                messages_in(message@, datamine.weapon_data.weapons),
                *datamine,
            ),
            r == messages_in(message@, datamine.weapon_data.weapons).len(),
    {
        let mut upserted: usize = 0;
        let ghost t = tally_of(self@, changes@);
        let ghost number = datamine.weapon_data.weapons;
        let mut i: usize = 0;
        assert(message@.take(0) =~= Seq::empty());
        while i < message.fields.len()
            invariant
                i <= message.fields@.len(),
                message@.len() == message.fields@.len(),
                number == datamine.weapon_data.weapons,
                upserted <= i,
                upserted == messages_in(message@.take(i as int), number).len(),
                tally_of(self@, changes@) == engines_loaded(
                    t,
                    messages_in(message@.take(i as int), number),
                    *datamine,
                ),
            decreases message.fields@.len() - i,
        {
            let field: &Field = &message.fields[i];
            assert(message@[i as int] == field.model());
            assert(message@.take(i + 1).drop_last() =~= message@.take(i as int));
            assert(message@.take(i + 1).last() == field.model());
            if field.number == datamine.weapon_data.weapons {
                if let Some(nested) = field.value.as_message() {
                    let ghost rest = messages_in(message@.take(i as int), number);
                    assert(rest.push(nested@).drop_last() =~= rest);
                    self.put_engine(WeaponInfo::from_message(&nested, datamine), changes);
                    upserted = upserted + 1;
                }
            }
            i = i + 1;
        }
        assert(message@.take(i as int) =~= message@);
        upserted
    }

    /// Applies the response with all agents and says how many it held.
    pub fn apply_avatar_data(
        &mut self,
        message: &Message,
        datamine: &Datamine,
        changes: &mut Vec<ItemChange>,
    ) -> (r: usize)
        ensures
            tally_of(final(self)@, final(changes)@) == agents_loaded(
                tally_of(old(self)@, old(changes)@),
                messages_in(message@, datamine.agent_data.agents),
                *datamine,
            ),
            r == messages_in(message@, datamine.agent_data.agents).len(),
    {
        let mut upserted: usize = 0;
        let ghost t = tally_of(self@, changes@);
        let ghost number = datamine.agent_data.agents;
        let mut i: usize = 0;
        assert(message@.take(0) =~= Seq::empty());
        while i < message.fields.len()
            invariant
                i <= message.fields@.len(),
                message@.len() == message.fields@.len(),
                number == datamine.agent_data.agents,
                upserted <= i,
                upserted == messages_in(message@.take(i as int), number).len(),
                tally_of(self@, changes@) == agents_loaded(
                    t,
                    messages_in(message@.take(i as int), number),
                    *datamine,
                ),
            decreases message.fields@.len() - i,
        {
            let field: &Field = &message.fields[i];
            assert(message@[i as int] == field.model());
            assert(message@.take(i + 1).drop_last() =~= message@.take(i as int));
            assert(message@.take(i + 1).last() == field.model());
            if field.number == datamine.agent_data.agents {
                if let Some(nested) = field.value.as_message() {
                    let ghost rest = messages_in(message@.take(i as int), number);
                    assert(rest.push(nested@).drop_last() =~= rest);
                    self.put_agent(AgentInfo::from_message(&nested, datamine), changes);
                    upserted = upserted + 1;
                }
            }
            i = i + 1;
        }
        assert(message@.take(i as int) =~= message@);
        upserted
    }

    /// Applies a decoded message and reports what it did.
    pub fn apply(&mut self, command_id: u16, message: &Message, datamine: &Datamine) -> (r: Vec<
        ExtractEvent,
    >)
        ensures
            (final(self)@, events_view(r@)) == applied(
                old(self)@,
                command_id,
                message@,
                *datamine,
            ),
    {
        let command: u32 = command_id as u32;
        let ghost v = self@;
        let mut events: Vec<ExtractEvent> = Vec::new();
        let mut changes: Vec<ItemChange> = Vec::new();
        assert(events_view(events@) =~= Seq::empty());
        if command == datamine.cmd_player_sync_sc_notify {
            let result: SyncResult = self.apply_player_sync(
                message,
                datamine,
                &mut events,
                &mut changes,
            );
            events.push(ExtractEvent::PlayerSync(result));
        } else if command == datamine.cmd_dismantle_equip_cs_req {
            let result: SyncResult = self.apply_equip_dismantle(message, datamine, &mut changes);
            events.push(ExtractEvent::Dismantle(result));
        } else if command == datamine.cmd_get_equip_data_sc_rsp {
            let upserted: usize = self.apply_equip_data(message, datamine, &mut changes);
            events.push(ExtractEvent::Discs { upserted });
        } else if command == datamine.cmd_get_weapon_data_sc_rsp {
            let upserted: usize = self.apply_weapon_data(message, datamine, &mut changes);
            events.push(ExtractEvent::Weapons { upserted });
        } else if command == datamine.cmd_get_avatar_data_sc_rsp {
            let upserted: usize = self.apply_avatar_data(message, datamine, &mut changes);
            events.push(ExtractEvent::Avatars { upserted });
        }
        events.push(ExtractEvent::Changes(changes));
        assert(events_view(events@) =~= applied(v, command_id, message@, *datamine).1);
        events
    }
}


/// What all extractions together did. The counters wrap.
#[derive(Debug, Clone, PartialEq, Eq)]
pub struct ExtractSummary {
    pub player_syncs: u64,
    pub sync_upserts: u64,
    pub sync_removals: u64,
    pub dismantles: u64,
    pub dismantle_removals: u64,
    pub disc_loads: u64,
    pub weapon_loads: u64,
    pub avatar_loads: u64,
    /// Every removal through a field that is not known to list deleted discs, in order: the
    /// uid and the field's number.
    pub fallback_removals: Vec<(u32, u32)>,
    pub discs_added: u64,
    pub discs_updated: u64,
    pub discs_removed: u64,
    pub engines_added: u64,
    pub engines_updated: u64,
    pub engines_removed: u64,
    pub agents_added: u64,
    pub agents_updated: u64,
    pub agents_removed: u64,
}

/// The counters of an [`ExtractSummary`].
pub struct SummaryView {
    pub player_syncs: u64,
    pub sync_upserts: u64,
    pub sync_removals: u64,
    pub dismantles: u64,
    pub dismantle_removals: u64,
    pub disc_loads: u64,
    pub weapon_loads: u64,
    pub avatar_loads: u64,
    pub fallback_removals: Seq<(u32, u32)>,
    pub discs_added: u64,
    pub discs_updated: u64,
    pub discs_removed: u64,
    pub engines_added: u64,
    pub engines_updated: u64,
    pub engines_removed: u64,
    pub agents_added: u64,
    pub agents_updated: u64,
    pub agents_removed: u64,
}

impl View for ExtractSummary {
    type V = SummaryView;

    open spec fn view(&self) -> SummaryView {
        SummaryView {
            player_syncs: self.player_syncs,
            sync_upserts: self.sync_upserts,
            sync_removals: self.sync_removals,
            dismantles: self.dismantles,
            dismantle_removals: self.dismantle_removals,
            disc_loads: self.disc_loads,
            weapon_loads: self.weapon_loads,
            avatar_loads: self.avatar_loads,
            fallback_removals: self.fallback_removals@,
            discs_added: self.discs_added,
            discs_updated: self.discs_updated,
            discs_removed: self.discs_removed,
            engines_added: self.engines_added,
            engines_updated: self.engines_updated,
            engines_removed: self.engines_removed,
            agents_added: self.agents_added,
            agents_updated: self.agents_updated,
            agents_removed: self.agents_removed,
        }
    }
}

/// Nothing was extracted.
pub open spec fn empty_summary() -> SummaryView {
    SummaryView {
        player_syncs: 0,
        sync_upserts: 0,
        sync_removals: 0,
        dismantles: 0,
        dismantle_removals: 0,
        disc_loads: 0,
        weapon_loads: 0,
        avatar_loads: 0,
        fallback_removals: Seq::empty(),
        discs_added: 0,
        discs_updated: 0,
        discs_removed: 0,
        engines_added: 0,
        engines_updated: 0,
        engines_removed: 0,
        agents_added: 0,
        agents_updated: 0,
        agents_removed: 0,
    }
}

/// One change is counted.
pub open spec fn change_counted(s: SummaryView, change: ItemChange) -> SummaryView {
    match change {
        ItemChange::DiscAdded { .. } => SummaryView {
            discs_added: s.discs_added.wrapping_add(1),
            ..s
        },
        ItemChange::DiscUpdated { .. } => SummaryView {
            discs_updated: s.discs_updated.wrapping_add(1),
            ..s
        },
        ItemChange::DiscRemoved { .. } => SummaryView {
            discs_removed: s.discs_removed.wrapping_add(1),
            ..s
        },
        ItemChange::EngineAdded { .. } => SummaryView {
            engines_added: s.engines_added.wrapping_add(1),
            ..s
        },
        ItemChange::EngineUpdated { .. } => SummaryView {
            engines_updated: s.engines_updated.wrapping_add(1),
            ..s
        },
        ItemChange::EngineRemoved { .. } => SummaryView {
            engines_removed: s.engines_removed.wrapping_add(1),
            ..s
        },
        ItemChange::AgentAdded { .. } => SummaryView {
            agents_added: s.agents_added.wrapping_add(1),
            ..s
        },
        ItemChange::AgentUpdated { .. } => SummaryView {
            agents_updated: s.agents_updated.wrapping_add(1),
            ..s
        },
        ItemChange::AgentRemoved { .. } => SummaryView {
            agents_removed: s.agents_removed.wrapping_add(1),
            ..s
        },
    }
}

/// Changes are counted.
pub open spec fn changes_counted(s: SummaryView, changes: Seq<ItemChange>) -> SummaryView
    decreases changes.len(),
{
    if changes.len() == 0 {
        s
    } else {
        change_counted(changes_counted(s, changes.drop_last()), changes.last())
    }
}

/// One event is counted.
pub open spec fn event_counted(s: SummaryView, event: ExtractEventView) -> SummaryView {
    match event {
        ExtractEventView::PlayerSync(result) => SummaryView {
            player_syncs: s.player_syncs.wrapping_add(1),
            sync_upserts: s.sync_upserts.wrapping_add(result.upserts as u64),
            sync_removals: s.sync_removals.wrapping_add(result.removals as u64),
            ..s
        },
        ExtractEventView::Dismantle(result) => SummaryView {
            dismantles: s.dismantles.wrapping_add(1),
            dismantle_removals: s.dismantle_removals.wrapping_add(result.removals as u64),
            ..s
        },
        ExtractEventView::Discs { .. } => SummaryView {
            disc_loads: s.disc_loads.wrapping_add(1),
            ..s
        },
        ExtractEventView::Weapons { .. } => SummaryView {
            weapon_loads: s.weapon_loads.wrapping_add(1),
            ..s
        },
        ExtractEventView::Avatars { .. } => SummaryView {
            avatar_loads: s.avatar_loads.wrapping_add(1),
            ..s
        },
        ExtractEventView::FallbackRemoval { uid, field } => SummaryView {
            fallback_removals: s.fallback_removals.push((uid, field)),
            ..s
        },
        ExtractEventView::Changes(changes) => changes_counted(s, changes),
    }
}

/// Events are counted.
pub open spec fn events_counted(s: SummaryView, events: Seq<ExtractEventView>) -> SummaryView
    decreases events.len(),
{
    if events.len() == 0 {
        s
    } else {
        event_counted(events_counted(s, events.drop_last()), events.last())
    }
}

/// Events can be counted in parts: counting some and then others is counting them all, and
/// counting none changes nothing.
pub proof fn law_events_count_in_parts(
    s: SummaryView,
    some: Seq<ExtractEventView>,
    others: Seq<ExtractEventView>,
)
    ensures
        events_counted(events_counted(s, some), others) == events_counted(s, some + others),
        events_counted(s, Seq::empty()) == s,
    decreases others.len(),
{
    if others.len() == 0 {
        assert(some + others =~= some);
    } else {
        law_events_count_in_parts(s, some, others.drop_last());
        assert((some + others).drop_last() =~= some + others.drop_last());
    }
}

impl Default for ExtractSummary {
    fn default() -> (r: ExtractSummary)
        ensures
            r@ == empty_summary(),
    {
        ExtractSummary {
            player_syncs: 0,
            sync_upserts: 0,
            sync_removals: 0,
            dismantles: 0,
            dismantle_removals: 0,
            disc_loads: 0,
            weapon_loads: 0,
            avatar_loads: 0,
            fallback_removals: Vec::new(),
            discs_added: 0,
            discs_updated: 0,
            discs_removed: 0,
            engines_added: 0,
            engines_updated: 0,
            engines_removed: 0,
            agents_added: 0,
            agents_updated: 0,
            agents_removed: 0,
        }
    }
}

impl ExtractSummary {
    fn count_change(&mut self, change: ItemChange)
        ensures
            final(self)@ == change_counted(old(self)@, change),
    {
        match change {
            ItemChange::DiscAdded { .. } => {
                self.discs_added = self.discs_added.wrapping_add(1);
            },
            ItemChange::DiscUpdated { .. } => {
                self.discs_updated = self.discs_updated.wrapping_add(1);
            },
            ItemChange::DiscRemoved { .. } => {
                self.discs_removed = self.discs_removed.wrapping_add(1);
            },
            ItemChange::EngineAdded { .. } => {
                self.engines_added = self.engines_added.wrapping_add(1);
            },
            ItemChange::EngineUpdated { .. } => {
                self.engines_updated = self.engines_updated.wrapping_add(1);
            },
            ItemChange::EngineRemoved { .. } => {
                self.engines_removed = self.engines_removed.wrapping_add(1);
            },
            ItemChange::AgentAdded { .. } => {
                self.agents_added = self.agents_added.wrapping_add(1);
            },
            ItemChange::AgentUpdated { .. } => {
                self.agents_updated = self.agents_updated.wrapping_add(1);
            },
            ItemChange::AgentRemoved { .. } => {
                self.agents_removed = self.agents_removed.wrapping_add(1);
            },
        }
    }

    /// Counts the events of one extraction.
    pub fn absorb(&mut self, events: &[ExtractEvent])
        ensures
            final(self)@ == events_counted(old(self)@, events_view(events@)),
    {
        let ghost start = self@;
        let ghost all = events_view(events@);
        let mut i: usize = 0;
        assert(all.take(0) =~= Seq::empty());
        while i < events.len()
            invariant
                i <= events@.len(),
                all == events_view(events@),
                self@ == events_counted(start, all.take(i as int)),
            decreases events@.len() - i,
        {
            assert(all.take(i + 1).drop_last() =~= all.take(i as int));
            assert(all.take(i + 1).last() == events@[i as int]@);
            match &events[i] {
                ExtractEvent::PlayerSync(result) => {
                    self.player_syncs = self.player_syncs.wrapping_add(1);
                    self.sync_upserts = self.sync_upserts.wrapping_add(result.upserts as u64);
                    self.sync_removals = self.sync_removals.wrapping_add(result.removals as u64);
                },
                ExtractEvent::Dismantle(result) => {
                    self.dismantles = self.dismantles.wrapping_add(1);
                    self.dismantle_removals = self.dismantle_removals.wrapping_add(
                        result.removals as u64,
                    );
                },
                ExtractEvent::Discs { .. } => {
                    self.disc_loads = self.disc_loads.wrapping_add(1);
                },
                ExtractEvent::Weapons { .. } => {
                    self.weapon_loads = self.weapon_loads.wrapping_add(1);
                },
                ExtractEvent::Avatars { .. } => {
                    self.avatar_loads = self.avatar_loads.wrapping_add(1);
                },
                ExtractEvent::FallbackRemoval { uid, field } => {
                    self.fallback_removals.push((*uid, *field));
                },
                ExtractEvent::Changes(changes) => {
                    let ghost before = self@;
                    let mut k: usize = 0;
                    assert(changes@.take(0) =~= Seq::empty());
                    while k < changes.len()
                        invariant
                            k <= changes@.len(),
                            self@ == changes_counted(before, changes@.take(k as int)),
                        decreases changes@.len() - k,
                    {
                        assert(changes@.take(k + 1).drop_last() =~= changes@.take(k as int));
                        assert(changes@.take(k + 1).last() == changes@[k as int]);
                        self.count_change(changes[k]);
                        k = k + 1;
                    }
                    assert(changes@.take(k as int) =~= changes@);
                },
            }
            i = i + 1;
        }
        assert(all.take(i as int) =~= all);
    }
}

/// No two discs, w-engines or agents are held under one id.
pub open spec fn ids_distinct(v: InventoryView) -> bool {
    &&& lookup::distinct(v.discs, |d: DiscInfoView| d.uid)
    &&& lookup::distinct(v.engines, |e: WeaponInfo| e.uid)
    &&& lookup::distinct(v.agents, |a: AgentInfoView| a.id)
}

/// A disc that was put in is held as it was given, and every other disc as before.
pub proof fn law_disc_put_is_held(v: InventoryView, disc: DiscInfoView, other: u32)
    requires
        other != disc.uid,
    ensures
        lookup::find_first(with_disc(v, disc).discs, is_disc(disc.uid)) == Some(disc),
        lookup::find_first(with_disc(v, disc).discs, is_disc(other)) == lookup::find_first(
            v.discs,
            is_disc(other),
        ),
{
    lookup::lemma_put_found(v.discs, is_disc(disc.uid), disc);
    lookup::lemma_put_keeps(v.discs, is_disc(disc.uid), disc, is_disc(other));
}

/// A w-engine that was put in is held as it was given, and every other one as before.
pub proof fn law_engine_put_is_held(v: InventoryView, engine: WeaponInfo, other: u32)
    requires
        other != engine.uid,
    ensures
        lookup::find_first(with_engine(v, engine).engines, is_engine(engine.uid)) == Some(engine),
        lookup::find_first(with_engine(v, engine).engines, is_engine(other)) == lookup::find_first(
            v.engines,
            is_engine(other),
        ),
{
    lookup::lemma_put_found(v.engines, is_engine(engine.uid), engine);
    lookup::lemma_put_keeps(v.engines, is_engine(engine.uid), engine, is_engine(other));
}

/// An agent that was put in is held as given, and every other one as before.
pub proof fn law_agent_put_is_held(v: InventoryView, agent: AgentInfoView, other: u32)
    requires
        other != agent.id,
    ensures
        lookup::find_first(with_agent(v, agent).agents, is_agent(agent.id)) == Some(agent),
        lookup::find_first(with_agent(v, agent).agents, is_agent(other)) == lookup::find_first(
            v.agents,
            is_agent(other),
        ),
{
    lookup::lemma_put_found(v.agents, is_agent(agent.id), agent);
    lookup::lemma_put_keeps(v.agents, is_agent(agent.id), agent, is_agent(other));
}

/// What was taken out is not held any more, and everything else is held as before.
pub proof fn law_cut_is_gone(v: InventoryView, id: u32, other: u32)
    requires
        ids_distinct(v),
        other != id,
    ensures
        !has_disc(without_disc(v, id), id),
        !has_engine(without_engine(v, id), id),
        !has_agent(without_agent(v, id), id),
        lookup::find_first(without_disc(v, id).discs, is_disc(other)) == lookup::find_first(
            v.discs,
            is_disc(other),
        ),
        lookup::find_first(without_engine(v, id).engines, is_engine(other)) == lookup::find_first(
            v.engines,
            is_engine(other),
        ),
        lookup::find_first(without_agent(v, id).agents, is_agent(other)) == lookup::find_first(
            v.agents,
            is_agent(other),
        ),
{
    lookup::lemma_cut_absent(v.discs, is_disc(id), |d: DiscInfoView| d.uid, id);
    lookup::lemma_cut_absent(v.engines, is_engine(id), |e: WeaponInfo| e.uid, id);
    lookup::lemma_cut_absent(v.agents, is_agent(id), |a: AgentInfoView| a.id, id);
    lookup::lemma_cut_keeps(v.discs, is_disc(id), is_disc(other));
    lookup::lemma_cut_keeps(v.engines, is_engine(id), is_engine(other));
    lookup::lemma_cut_keeps(v.agents, is_agent(id), is_agent(other));
}

/// Putting something in, or taking it out, keeps the ids distinct.
pub proof fn law_single_steps_keep_ids_distinct(
    v: InventoryView,
    disc: DiscInfoView,
    engine: WeaponInfo,
    agent: AgentInfoView,
    id: u32,
)
    requires
        ids_distinct(v),
    ensures
        ids_distinct(with_disc(v, disc)),
        ids_distinct(with_engine(v, engine)),
        ids_distinct(with_agent(v, agent)),
        ids_distinct(without_disc(v, id)),
        ids_distinct(without_engine(v, id)),
        ids_distinct(without_agent(v, id)),
{
    lookup::lemma_put_distinct(v.discs, is_disc(disc.uid), disc, |d: DiscInfoView| d.uid);
    lookup::lemma_put_distinct(v.engines, is_engine(engine.uid), engine, |e: WeaponInfo| e.uid);
    lookup::lemma_put_distinct(v.agents, is_agent(agent.id), agent, |a: AgentInfoView| a.id);
    lookup::lemma_cut_distinct(v.discs, is_disc(id), |d: DiscInfoView| d.uid);
    lookup::lemma_cut_distinct(v.engines, is_engine(id), |e: WeaponInfo| e.uid);
    lookup::lemma_cut_distinct(v.agents, is_agent(id), |a: AgentInfoView| a.id);
}

pub proof fn lemma_discs_cut_distinct(s: SyncState, uids: Seq<u32>, fallback: Option<u32>)
    requires
        ids_distinct(s.tally.inventory),
    ensures
        ids_distinct(discs_cut(s, uids, fallback).tally.inventory),
    decreases uids.len(),
{
    if uids.len() > 0 {
        lemma_discs_cut_distinct(s, uids.drop_last(), fallback);
        let v = discs_cut(s, uids.drop_last(), fallback).tally.inventory;
        lookup::lemma_cut_distinct(v.discs, is_disc(uids.last()), |d: DiscInfoView| d.uid);
    }
}

pub proof fn lemma_agents_cut_distinct(s: SyncState, ids: Seq<u32>)
    requires
        ids_distinct(s.tally.inventory),
    ensures
        ids_distinct(agents_cut(s, ids).tally.inventory),
    decreases ids.len(),
{
    if ids.len() > 0 {
        lemma_agents_cut_distinct(s, ids.drop_last());
        let v = agents_cut(s, ids.drop_last()).tally.inventory;
        lookup::lemma_cut_distinct(v.agents, is_agent(ids.last()), |a: AgentInfoView| a.id);
    }
}

pub proof fn lemma_avatar_sync_distinct(s: SyncState, fields: Seq<FieldView>, datamine: Datamine)
    requires
        ids_distinct(s.tally.inventory),
    ensures
        ids_distinct(avatar_sync(s, fields, datamine).tally.inventory),
    decreases fields.len(),
{
    if fields.len() > 0 {
        lemma_avatar_sync_distinct(s, fields.drop_last(), datamine);
        let t = avatar_sync(s, fields.drop_last(), datamine);
        let field = fields.last();
        if let Some(nested) = proto::message_of(field.value) {
            let v = t.tally.inventory;
            let agent = model::agent_in(nested, datamine);
            lookup::lemma_put_distinct(
                v.agents,
                is_agent(agent.id),
                agent,
                |a: AgentInfoView| a.id,
            );
        }
        lemma_agents_cut_distinct(t, loose_uints(field.value));
    }
}

pub proof fn lemma_item_sync_distinct(s: SyncState, fields: Seq<FieldView>, datamine: Datamine)
    requires
        ids_distinct(s.tally.inventory),
    ensures
        ids_distinct(item_sync(s, fields, datamine).tally.inventory),
    decreases fields.len(),
{
    if fields.len() > 0 {
        lemma_item_sync_distinct(s, fields.drop_last(), datamine);
        let t = item_sync(s, fields.drop_last(), datamine);
        let field = fields.last();
        if let Some(nested) = proto::message_of(field.value) {
            let v = t.tally.inventory;
            let disc = model::disc_in(nested, datamine);
            let engine = model::weapon_in(nested, datamine);
            lookup::lemma_put_distinct(v.discs, is_disc(disc.uid), disc, |d: DiscInfoView| d.uid);
            lookup::lemma_put_distinct(
                v.engines,
                is_engine(engine.uid),
                engine,
                |e: WeaponInfo| e.uid,
            );
        }
        lemma_discs_cut_distinct(t, loose_uints(field.value), None);
        lemma_discs_cut_distinct(t, loose_uints(field.value), Some(field.number));
    }
}

pub proof fn lemma_player_sync_distinct(s: SyncState, fields: Seq<FieldView>, datamine: Datamine)
    requires
        ids_distinct(s.tally.inventory),
    ensures
        ids_distinct(player_sync(s, fields, datamine).tally.inventory),
    decreases fields.len(),
{
    if fields.len() > 0 {
        lemma_player_sync_distinct(s, fields.drop_last(), datamine);
        let t = player_sync(s, fields.drop_last(), datamine);
        if let Some(nested) = proto::message_of(fields.last().value) {
            lemma_avatar_sync_distinct(t, nested, datamine);
            lemma_item_sync_distinct(t, nested, datamine);
        }
    }
}

pub proof fn lemma_dismantled_distinct(s: SyncState, uids: Seq<u32>)
    requires
        ids_distinct(s.tally.inventory),
    ensures
        ids_distinct(dismantled(s, uids).tally.inventory),
    decreases uids.len(),
{
    if uids.len() > 0 {
        lemma_dismantled_distinct(s, uids.drop_last());
        let v = dismantled(s, uids.drop_last()).tally.inventory;
        lookup::lemma_cut_distinct(v.discs, is_disc(uids.last()), |d: DiscInfoView| d.uid);
        lookup::lemma_cut_distinct(v.engines, is_engine(uids.last()), |e: WeaponInfo| e.uid);
    }
}

pub proof fn lemma_loaded_distinct(t: Tally, messages: Seq<Seq<FieldView>>, datamine: Datamine)
    requires
        ids_distinct(t.inventory),
    ensures
        ids_distinct(discs_loaded(t, messages, datamine).inventory),
        ids_distinct(engines_loaded(t, messages, datamine).inventory),
        ids_distinct(agents_loaded(t, messages, datamine).inventory),
    decreases messages.len(),
{
    if messages.len() > 0 {
        let rest = messages.drop_last();
        lemma_loaded_distinct(t, rest, datamine);
        let disc = model::disc_in(messages.last(), datamine);
        let engine = model::weapon_in(messages.last(), datamine);
        let agent = model::agent_in(messages.last(), datamine);
        lookup::lemma_put_distinct(
            discs_loaded(t, rest, datamine).inventory.discs,
            is_disc(disc.uid),
            disc,
            |d: DiscInfoView| d.uid,
        );
        lookup::lemma_put_distinct(
            engines_loaded(t, rest, datamine).inventory.engines,
            is_engine(engine.uid),
            engine,
            |e: WeaponInfo| e.uid,
        );
        lookup::lemma_put_distinct(
            agents_loaded(t, rest, datamine).inventory.agents,
            is_agent(agent.id),
            agent,
            |a: AgentInfoView| a.id,
        );
    }
}

/// Whatever message is applied, no two discs, w-engines or agents come to be held under one
/// id.
pub proof fn law_ids_stay_distinct(
    v: InventoryView,
    command_id: u16,
    fields: Seq<FieldView>,
    datamine: Datamine,
)
    requires
        ids_distinct(v),
    ensures
        ids_distinct(applied(v, command_id, fields, datamine).0),
{
    let t = Tally { inventory: v, changes: Seq::empty() };
    let s = SyncState { tally: t, result: no_result(), events: Seq::empty() };
    lemma_player_sync_distinct(s, fields, datamine);
    lemma_dismantled_distinct(s, dismantled_uids(fields, datamine));
    lemma_loaded_distinct(t, messages_in(fields, datamine.equip_data.discs), datamine);
    lemma_loaded_distinct(t, messages_in(fields, datamine.weapon_data.weapons), datamine);
    lemma_loaded_distinct(t, messages_in(fields, datamine.agent_data.agents), datamine);
}

proof fn lemma_loose_round_trip(buf: Seq<u8>, pos: int, index: int, v: nat)
    requires
        0 <= index,
        0 <= pos,
        v * weight(index) <= u32::MAX,
        index < 5,
        pos + proto::varint_bytes(v).len() <= buf.len(),
        buf.subrange(pos, pos + proto::varint_bytes(v).len()) == proto::varint_bytes(v),
    ensures
        loose_varint_from(buf, pos, index) == Some((v, pos + proto::varint_bytes(v).len() as int)),
    decreases v,
{
    let bytes = proto::varint_bytes(v);
    assert(buf[pos] == buf.subrange(pos, pos + bytes.len())[0]);
    if v >= 0x80 {
        let tail = proto::varint_bytes(v / 0x80);
        assert(bytes.subrange(1, bytes.len() as int) =~= tail);
        assert(buf.subrange(pos + 1, pos + 1 + tail.len()) =~= bytes.subrange(
            1,
            bytes.len() as int,
        ));
        lemma_loose_round_trip(buf, pos + 1, index + 1, v / 0x80);
    }
}

proof fn lemma_loose_from(buf: Seq<u8>, pos: int, list: Seq<u32>)
    requires
        0 <= pos <= buf.len(),
        buf.skip(pos) == proto::packed_bytes(list),
    ensures
        loose_packed(buf, pos) == list,
    decreases list.len(),
{
    if list.len() == 0 {
        assert(buf.skip(pos).len() == 0);
        assert(list =~= Seq::empty());
    } else {
        let head = proto::varint_bytes(list[0] as nat);
        let tail = proto::packed_bytes(list.skip(1));
        assert(head.len() > 0);
        assert(buf.subrange(pos, pos + head.len()) =~= buf.skip(pos).take(head.len() as int));
        assert(buf.skip(pos).take(head.len() as int) =~= head);
        lemma_loose_round_trip(buf, pos, 0, list[0] as nat);
        let next = pos + head.len();
        assert(buf.skip(next) =~= buf.skip(pos).skip(head.len() as int));
        assert(buf.skip(pos).skip(head.len() as int) =~= tail);
        lemma_loose_from(buf, next, list.skip(1));
        assert(seq![list[0]] + list.skip(1) =~= list);
    }
}

/// The uids in a message are read whole, whether they were packed into one field or stand alone.
pub proof fn law_listed_uids_are_read_back(list: Seq<u32>, v: u32)
    ensures
        loose_uints(ValueView::LengthDelimited(proto::packed_bytes(list))) == list,
        loose_uints(ValueView::Varint(v as u64)) == seq![v],
{
    let buf = proto::packed_bytes(list);
    assert(buf.skip(0) =~= buf);
    lemma_loose_from(buf, 0, list);
}

} // verus!
