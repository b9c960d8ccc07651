//! What the game's messages do to the inventory, item by item.
use crate::datamine::Datamine;
use crate::lookup;
use crate::model;
use crate::model::{AgentInfoView, DiscInfoView, WeaponInfo};
use crate::proto;
use crate::proto::FieldView;
use crate::snapshot;
use crate::snapshot::{
    applied, avatar_sync, item_sync, player_sync, ExtractEventView, InventoryView, ItemChange,
    SyncState, Tally,
};
use vstd::prelude::*;

verus! {

/// The disc that is held under a uid.
pub open spec fn disc_held(v: InventoryView, uid: u32) -> Option<DiscInfoView> {
    lookup::find_first(v.discs, snapshot::is_disc(uid))
}

/// The w-engine that is held under a uid.
pub open spec fn engine_held(v: InventoryView, uid: u32) -> Option<WeaponInfo> {
    lookup::find_first(v.engines, snapshot::is_engine(uid))
}

/// The agent that is held under an id.
pub open spec fn agent_held(v: InventoryView, id: u32) -> Option<AgentInfoView> {
    lookup::find_first(v.agents, snapshot::is_agent(id))
}

/// A field of an item sync that describes the disc with a uid.
pub open spec fn describes_disc(field: FieldView, uid: u32, datamine: Datamine) -> bool {
    &&& field.number == datamine.sync_item_data.equips
    &&& proto::message_of(field.value) is Some
    &&& model::disc_in(proto::message_of(field.value)->Some_0, datamine).uid == uid
}

/// A field of an item sync that lists a uid, and describes neither a disc nor a w-engine: the
/// disc with that uid is gone, whichever field it is.
pub open spec fn drops_disc(field: FieldView, uid: u32, datamine: Datamine) -> bool {
    &&& field.number != datamine.sync_item_data.equips
    &&& field.number != datamine.sync_item_data.weapons
    &&& snapshot::loose_uints(field.value).contains(uid)
}

/// A field of an item sync that describes the w-engine with a uid.
pub open spec fn describes_engine(field: FieldView, uid: u32, datamine: Datamine) -> bool {
    &&& field.number != datamine.sync_item_data.equips
    &&& field.number == datamine.sync_item_data.weapons
    &&& proto::message_of(field.value) is Some
    &&& model::weapon_in(proto::message_of(field.value)->Some_0, datamine).uid == uid
}

/// A field of an avatar sync that describes the agent with an id.
pub open spec fn describes_agent(field: FieldView, id: u32, datamine: Datamine) -> bool {
    &&& field.number == datamine.sync_avatar_data.avatars
    &&& proto::message_of(field.value) is Some
    &&& model::agent_in(proto::message_of(field.value)->Some_0, datamine).id == id
}

/// A field of an avatar sync that lists the agent with an id as gone.
pub open spec fn drops_agent(field: FieldView, id: u32, datamine: Datamine) -> bool {
    &&& field.number != datamine.sync_avatar_data.avatars
    &&& field.number == datamine.sync_avatar_data.dels
    &&& snapshot::loose_uints(field.value).contains(id)
}

/// The fields of all the item syncs in a player sync, one behind the other.
pub open spec fn item_records(fields: Seq<FieldView>, datamine: Datamine) -> Seq<FieldView>
    decreases fields.len(),
{
    if fields.len() == 0 {
        Seq::empty()
    } else {
        let earlier = item_records(fields.drop_last(), datamine);
        let field = fields.last();
        match proto::message_of(field.value) {
            Some(nested) => if field.number == datamine.sync_item_data.item_sync && field.number
                != datamine.sync_avatar_data.avatar_sync {
                earlier + nested
            } else {
                earlier
            },
            None => earlier,
        }
    }
}

/// The fields of all the avatar syncs in a player sync, one behind the other.
pub open spec fn avatar_records(fields: Seq<FieldView>, datamine: Datamine) -> Seq<FieldView>
    decreases fields.len(),
{
    if fields.len() == 0 {
        Seq::empty()
    } else {
        let earlier = avatar_records(fields.drop_last(), datamine);
        let field = fields.last();
        match proto::message_of(field.value) {
            Some(nested) => if field.number == datamine.sync_avatar_data.avatar_sync {
                earlier + nested
            } else {
                earlier
            },
            None => earlier,
        }
    }
}

/// What becomes of a disc over some fields.
spec fn disc_fate(
    held: Option<DiscInfoView>,
    fields: Seq<FieldView>,
    uid: u32,
    datamine: Datamine,
) -> Option<DiscInfoView>
    decreases fields.len(),
{
    if fields.len() == 0 {
        held
    } else {
        let field = fields.last();
        if describes_disc(field, uid, datamine) {
            Some(model::disc_in(proto::message_of(field.value)->Some_0, datamine))
        } else if drops_disc(field, uid, datamine) {
            None
        } else {
            disc_fate(held, fields.drop_last(), uid, datamine)
        }
    }
}

/// What becomes of a w-engine over some fields.
spec fn engine_fate(
    held: Option<WeaponInfo>,
    fields: Seq<FieldView>,
    uid: u32,
    datamine: Datamine,
) -> Option<WeaponInfo>
    decreases fields.len(),
{
    if fields.len() == 0 {
        held
    } else {
        let field = fields.last();
        if describes_engine(field, uid, datamine) {
            Some(model::weapon_in(proto::message_of(field.value)->Some_0, datamine))
        } else {
            engine_fate(held, fields.drop_last(), uid, datamine)
        }
    }
}

/// What becomes of an agent over some fields.
spec fn agent_fate(
    held: Option<AgentInfoView>,
    fields: Seq<FieldView>,
    id: u32,
    datamine: Datamine,
) -> Option<AgentInfoView>
    decreases fields.len(),
{
    if fields.len() == 0 {
        held
    } else {
        let field = fields.last();
        if describes_agent(field, id, datamine) {
            Some(model::agent_in(proto::message_of(field.value)->Some_0, datamine))
        } else if drops_agent(field, id, datamine) {
            None
        } else {
            agent_fate(held, fields.drop_last(), id, datamine)
        }
    }
}

proof fn lemma_fates_join(
    d: Option<DiscInfoView>,
    e: Option<WeaponInfo>,
    a: Option<AgentInfoView>,
    some: Seq<FieldView>,
    more: Seq<FieldView>,
    id: u32,
    datamine: Datamine,
)
    ensures
        disc_fate(d, some + more, id, datamine) == disc_fate(
            disc_fate(d, some, id, datamine),
            more,
            id,
            datamine,
        ),
        engine_fate(e, some + more, id, datamine) == engine_fate(
            engine_fate(e, some, id, datamine),
            more,
            id,
            datamine,
        ),
        agent_fate(a, some + more, id, datamine) == agent_fate(
            agent_fate(a, some, id, datamine),
            more,
            id,
            datamine,
        ),
    decreases more.len(),
{
    if more.len() == 0 {
        assert(some + more =~= some);
    } else {
        lemma_fates_join(d, e, a, some, more.drop_last(), id, datamine);
        assert((some + more).drop_last() =~= some + more.drop_last());
        assert((some + more).last() == more.last());
    }
}

/// Taking discs out: those listed are gone, the others stay, and nothing else changes.
proof fn lemma_discs_cut(s: SyncState, uids: Seq<u32>, fallback: Option<u32>, uid: u32)
    requires
        snapshot::ids_distinct(s.tally.inventory),
    ensures
        ({
            let after = snapshot::discs_cut(s, uids, fallback).tally.inventory;
            &&& snapshot::ids_distinct(after)
            &&& after.engines == s.tally.inventory.engines
            &&& after.agents == s.tally.inventory.agents
            &&& disc_held(after, uid) == if uids.contains(uid) {
                None
            } else {
                disc_held(s.tally.inventory, uid)
            }
        }),
    decreases uids.len(),
{
    if uids.len() > 0 {
        let init = uids.drop_last();
        let last = uids.last();
        lemma_discs_cut(s, init, fallback, uid);
        snapshot::lemma_discs_cut_distinct(s, uids, fallback);
        let v = snapshot::discs_cut(s, init, fallback).tally.inventory;
        if last == uid {
            lookup::lemma_cut_absent(v.discs, snapshot::is_disc(uid), |d: DiscInfoView| d.uid, uid);
            lookup::lemma_index_first(
                lookup::cut(v.discs, snapshot::is_disc(uid)),
                snapshot::is_disc(uid),
            );
            assert(uids[uids.len() - 1] == uid);
        } else {
            lookup::lemma_cut_keeps(v.discs, snapshot::is_disc(last), snapshot::is_disc(uid));
            assert(uids.contains(uid) == init.contains(uid)) by {
                if uids.contains(uid) {
                    let i = choose|i: int| 0 <= i < uids.len() && uids[i] == uid;
                    assert(init[i] == uid);
                }
                if init.contains(uid) {
                    let i = choose|i: int| 0 <= i < init.len() && init[i] == uid;
                    assert(uids[i] == uid);
                }
            }
        }
    }
}

/// Taking agents out: those listed are gone, the others stay, and nothing else changes.
proof fn lemma_agents_cut(s: SyncState, ids: Seq<u32>, id: u32)
    requires
        snapshot::ids_distinct(s.tally.inventory),
    ensures
        ({
            let after = snapshot::agents_cut(s, ids).tally.inventory;
            &&& snapshot::ids_distinct(after)
            &&& after.engines == s.tally.inventory.engines
            &&& after.discs == s.tally.inventory.discs
            &&& agent_held(after, id) == if ids.contains(id) {
                None
            } else {
                agent_held(s.tally.inventory, id)
            }
        }),
    decreases ids.len(),
{
    if ids.len() > 0 {
        let init = ids.drop_last();
        let last = ids.last();
        lemma_agents_cut(s, init, id);
        snapshot::lemma_agents_cut_distinct(s, ids);
        let v = snapshot::agents_cut(s, init).tally.inventory;
        if last == id {
            lookup::lemma_cut_absent(v.agents, snapshot::is_agent(id), |a: AgentInfoView| a.id, id);
            lookup::lemma_index_first(
                lookup::cut(v.agents, snapshot::is_agent(id)),
                snapshot::is_agent(id),
            );
            assert(ids[ids.len() - 1] == id);
        } else {
            lookup::lemma_cut_keeps(v.agents, snapshot::is_agent(last), snapshot::is_agent(id));
            assert(ids.contains(id) == init.contains(id)) by {
                if ids.contains(id) {
                    let i = choose|i: int| 0 <= i < ids.len() && ids[i] == id;
                    assert(init[i] == id);
                }
                if init.contains(id) {
                    let i = choose|i: int| 0 <= i < init.len() && init[i] == id;
                    assert(ids[i] == id);
                }
            }
        }
    }
}

proof fn lemma_item_sync(s: SyncState, fields: Seq<FieldView>, datamine: Datamine, id: u32)
    requires
        snapshot::ids_distinct(s.tally.inventory),
    ensures
        ({
            let v = s.tally.inventory;
            let after = item_sync(s, fields, datamine).tally.inventory;
            &&& snapshot::ids_distinct(after)
            &&& disc_held(after, id) == disc_fate(disc_held(v, id), fields, id, datamine)
            &&& engine_held(after, id) == engine_fate(engine_held(v, id), fields, id, datamine)
            &&& after.agents == v.agents
        }),
    decreases fields.len(),
{
    snapshot::lemma_item_sync_distinct(s, fields, datamine);
    if fields.len() > 0 {
        lemma_item_sync(s, fields.drop_last(), datamine, id);
        let t = item_sync(s, fields.drop_last(), datamine);
        let field = fields.last();
        let v = t.tally.inventory;
        if field.number == datamine.sync_item_data.equips {
            if let Some(nested) = proto::message_of(field.value) {
                let disc = model::disc_in(nested, datamine);
                lookup::lemma_put_found(v.discs, snapshot::is_disc(disc.uid), disc);
                if disc.uid != id {
                    lookup::lemma_put_keeps(
                        v.discs,
                        snapshot::is_disc(disc.uid),
                        disc,
                        snapshot::is_disc(id),
                    );
                }
            }
        } else if field.number == datamine.sync_item_data.weapons {
            if let Some(nested) = proto::message_of(field.value) {
                let engine = model::weapon_in(nested, datamine);
                lookup::lemma_put_found(v.engines, snapshot::is_engine(engine.uid), engine);
                if engine.uid != id {
                    lookup::lemma_put_keeps(
                        v.engines,
                        snapshot::is_engine(engine.uid),
                        engine,
                        snapshot::is_engine(id),
                    );
                }
            }
        } else {
            let uids = snapshot::loose_uints(field.value);
            lemma_discs_cut(t, uids, None, id);
            lemma_discs_cut(t, uids, Some(field.number), id);
        }
    }
}

proof fn lemma_avatar_sync(s: SyncState, fields: Seq<FieldView>, datamine: Datamine, id: u32)
    requires
        snapshot::ids_distinct(s.tally.inventory),
    ensures
        ({
            let v = s.tally.inventory;
            let after = avatar_sync(s, fields, datamine).tally.inventory;
            &&& snapshot::ids_distinct(after)
            &&& agent_held(after, id) == agent_fate(agent_held(v, id), fields, id, datamine)
            &&& after.discs == v.discs
            &&& after.engines == v.engines
        }),
    decreases fields.len(),
{
    snapshot::lemma_avatar_sync_distinct(s, fields, datamine);
    if fields.len() > 0 {
        lemma_avatar_sync(s, fields.drop_last(), datamine, id);
        let t = avatar_sync(s, fields.drop_last(), datamine);
        let field = fields.last();
        let v = t.tally.inventory;
        if field.number == datamine.sync_avatar_data.avatars {
            if let Some(nested) = proto::message_of(field.value) {
                let agent = model::agent_in(nested, datamine);
                lookup::lemma_put_found(v.agents, snapshot::is_agent(agent.id), agent);
                if agent.id != id {
                    lookup::lemma_put_keeps(
                        v.agents,
                        snapshot::is_agent(agent.id),
                        agent,
                        snapshot::is_agent(id),
                    );
                }
            }
        } else {
            lemma_agents_cut(t, snapshot::loose_uints(field.value), id);
        }
    }
}

proof fn lemma_player_sync(s: SyncState, fields: Seq<FieldView>, datamine: Datamine, id: u32)
    requires
        snapshot::ids_distinct(s.tally.inventory),
    ensures
        ({
            let v = s.tally.inventory;
            let after = player_sync(s, fields, datamine).tally.inventory;
            let items = item_records(fields, datamine);
            let avatars = avatar_records(fields, datamine);
            &&& snapshot::ids_distinct(after)
            &&& disc_held(after, id) == disc_fate(disc_held(v, id), items, id, datamine)
            &&& engine_held(after, id) == engine_fate(engine_held(v, id), items, id, datamine)
            &&& agent_held(after, id) == agent_fate(agent_held(v, id), avatars, id, datamine)
        }),
    decreases fields.len(),
{
    snapshot::lemma_player_sync_distinct(s, fields, datamine);
    if fields.len() > 0 {
        let init = fields.drop_last();
        lemma_player_sync(s, init, datamine, id);
        let t = player_sync(s, init, datamine);
        let v = s.tally.inventory;
        let field = fields.last();
        if let Some(nested) = proto::message_of(field.value) {
            lemma_item_sync(t, nested, datamine, id);
            lemma_avatar_sync(t, nested, datamine, id);
            lemma_fates_join(
                disc_held(v, id),
                engine_held(v, id),
                agent_held(v, id),
                item_records(init, datamine),
                nested,
                id,
                datamine,
            );
            lemma_fates_join(
                disc_held(v, id),
                engine_held(v, id),
                agent_held(v, id),
                avatar_records(init, datamine),
                nested,
                id,
                datamine,
            );
        }
    }
}

proof fn lemma_disc_fate_settled(
    held: Option<DiscInfoView>,
    fields: Seq<FieldView>,
    i: int,
    uid: u32,
    datamine: Datamine,
)
    requires
        -1 <= i < fields.len(),
        forall|j: int|
            i < j < fields.len() ==> !describes_disc(#[trigger] fields[j], uid, datamine)
                && !drops_disc(fields[j], uid, datamine),
    ensures
        disc_fate(held, fields, uid, datamine) == disc_fate(held, fields.take(i + 1), uid, datamine),
    decreases fields.len() - i,
{
    if i == fields.len() - 1 {
        assert(fields.take(i + 1) =~= fields);
    } else {
        let init = fields.drop_last();
        assert(fields.last() == fields[fields.len() - 1]);
        assert forall|j: int| i < j < init.len() implies !describes_disc(
            #[trigger] init[j],
            uid,
            datamine,
        ) && !drops_disc(init[j], uid, datamine) by {
            assert(init[j] == fields[j]);
        }
        lemma_disc_fate_settled(held, init, i, uid, datamine);
        assert(init.take(i + 1) =~= fields.take(i + 1));
    }
}

proof fn lemma_engine_fate_settled(
    held: Option<WeaponInfo>,
    fields: Seq<FieldView>,
    i: int,
    uid: u32,
    datamine: Datamine,
)
    requires
        -1 <= i < fields.len(),
        forall|j: int|
            i < j < fields.len() ==> !describes_engine(#[trigger] fields[j], uid, datamine),
    ensures
        engine_fate(held, fields, uid, datamine) == engine_fate(
            held,
            fields.take(i + 1),
            uid,
            datamine,
        ),
    decreases fields.len() - i,
{
    if i == fields.len() - 1 {
        assert(fields.take(i + 1) =~= fields);
    } else {
        let init = fields.drop_last();
        assert(fields.last() == fields[fields.len() - 1]);
        assert forall|j: int| i < j < init.len() implies !describes_engine(
            #[trigger] init[j],
            uid,
            datamine,
        ) by {
            assert(init[j] == fields[j]);
        }
        lemma_engine_fate_settled(held, init, i, uid, datamine);
        assert(init.take(i + 1) =~= fields.take(i + 1));
    }
}

proof fn lemma_agent_fate_settled(
    held: Option<AgentInfoView>,
    fields: Seq<FieldView>,
    i: int,
    id: u32,
    datamine: Datamine,
)
    requires
        -1 <= i < fields.len(),
        forall|j: int|
            i < j < fields.len() ==> !describes_agent(#[trigger] fields[j], id, datamine)
                && !drops_agent(fields[j], id, datamine),
    ensures
        agent_fate(held, fields, id, datamine) == agent_fate(held, fields.take(i + 1), id, datamine),
    decreases fields.len() - i,
{
    if i == fields.len() - 1 {
        assert(fields.take(i + 1) =~= fields);
    } else {
        let init = fields.drop_last();
        assert(fields.last() == fields[fields.len() - 1]);
        assert forall|j: int| i < j < init.len() implies !describes_agent(
            #[trigger] init[j],
            id,
            datamine,
        ) && !drops_agent(init[j], id, datamine) by {
            assert(init[j] == fields[j]);
        }
        lemma_agent_fate_settled(held, init, i, id, datamine);
        assert(init.take(i + 1) =~= fields.take(i + 1));
    }
}

/// A player sync has the last word on a disc: where a record of the message describes it, and
/// nothing behind that record describes it again or drops it, it is held as the record says,
/// whether it was held before or not.
pub proof fn law_a_synced_disc_is_held_as_described(
    v: InventoryView,
    command_id: u16,
    fields: Seq<FieldView>,
    datamine: Datamine,
    i: int,
    uid: u32,
)
    requires
        snapshot::ids_distinct(v),
        command_id as u32 == datamine.cmd_player_sync_sc_notify,
        0 <= i < item_records(fields, datamine).len(),
        describes_disc(item_records(fields, datamine)[i], uid, datamine),
        forall|j: int|
            i < j < item_records(fields, datamine).len() ==> !describes_disc(
                #[trigger] item_records(fields, datamine)[j],
                uid,
                datamine,
            ) && !drops_disc(item_records(fields, datamine)[j], uid, datamine),
    ensures
        disc_held(applied(v, command_id, fields, datamine).0, uid) == Some(
            model::disc_in(
                proto::message_of(item_records(fields, datamine)[i].value)->Some_0,
                datamine,
            ),
        ),
{
    let records = item_records(fields, datamine);
    let s = begun(v);
    lemma_player_sync(s, fields, datamine, uid);
    lemma_disc_fate_settled(disc_held(v, uid), records, i, uid, datamine);
    assert(records.take(i + 1).last() == records[i]);
}

/// A disc that a player sync lists as gone, in whichever field, and does not describe behind
/// that, is not held any more.
pub proof fn law_a_dropped_disc_is_gone(
    v: InventoryView,
    command_id: u16,
    fields: Seq<FieldView>,
    datamine: Datamine,
    i: int,
    uid: u32,
)
    requires
        snapshot::ids_distinct(v),
        command_id as u32 == datamine.cmd_player_sync_sc_notify,
        0 <= i < item_records(fields, datamine).len(),
        drops_disc(item_records(fields, datamine)[i], uid, datamine),
        forall|j: int|
            i < j < item_records(fields, datamine).len() ==> !describes_disc(
                #[trigger] item_records(fields, datamine)[j],
                uid,
                datamine,
            ) && !drops_disc(item_records(fields, datamine)[j], uid, datamine),
    ensures
        disc_held(applied(v, command_id, fields, datamine).0, uid) is None,
{
    let records = item_records(fields, datamine);
    lemma_player_sync(begun(v), fields, datamine, uid);
    lemma_disc_fate_settled(disc_held(v, uid), records, i, uid, datamine);
    assert(records.take(i + 1).last() == records[i]);
}

/// A player sync has the last word on a w-engine that it describes.
pub proof fn law_a_synced_engine_is_held_as_described(
    v: InventoryView,
    command_id: u16,
    fields: Seq<FieldView>,
    datamine: Datamine,
    i: int,
    uid: u32,
)
    requires
        snapshot::ids_distinct(v),
        command_id as u32 == datamine.cmd_player_sync_sc_notify,
        0 <= i < item_records(fields, datamine).len(),
        describes_engine(item_records(fields, datamine)[i], uid, datamine),
        forall|j: int|
            i < j < item_records(fields, datamine).len() ==> !describes_engine(
                #[trigger] item_records(fields, datamine)[j],
                uid,
                datamine,
            ),
    ensures
        engine_held(applied(v, command_id, fields, datamine).0, uid) == Some(
            model::weapon_in(
                proto::message_of(item_records(fields, datamine)[i].value)->Some_0,
                datamine,
            ),
        ),
{
    let records = item_records(fields, datamine);
    lemma_player_sync(begun(v), fields, datamine, uid);
    lemma_engine_fate_settled(engine_held(v, uid), records, i, uid, datamine);
    assert(records.take(i + 1).last() == records[i]);
}

/// A player sync has the last word on an agent that it describes, or lists as gone.
pub proof fn law_a_synced_agent_is_held_as_described(
    v: InventoryView,
    command_id: u16,
    fields: Seq<FieldView>,
    datamine: Datamine,
    i: int,
    id: u32,
)
    requires
        snapshot::ids_distinct(v),
        command_id as u32 == datamine.cmd_player_sync_sc_notify,
        0 <= i < avatar_records(fields, datamine).len(),
        describes_agent(avatar_records(fields, datamine)[i], id, datamine) || drops_agent(
            avatar_records(fields, datamine)[i],
            id,
            datamine,
        ),
        forall|j: int|
            i < j < avatar_records(fields, datamine).len() ==> !describes_agent(
                #[trigger] avatar_records(fields, datamine)[j],
                id,
                datamine,
            ) && !drops_agent(avatar_records(fields, datamine)[j], id, datamine),
    ensures
        agent_held(applied(v, command_id, fields, datamine).0, id) == if describes_agent(
            avatar_records(fields, datamine)[i],
            id,
            datamine,
        ) {
            Some(
                model::agent_in(
                    proto::message_of(avatar_records(fields, datamine)[i].value)->Some_0,
                    datamine,
                ),
            )
        } else {
            None
        },
{
    let records = avatar_records(fields, datamine);
    lemma_player_sync(begun(v), fields, datamine, id);
    lemma_agent_fate_settled(agent_held(v, id), records, i, id, datamine);
    assert(records.take(i + 1).last() == records[i]);
}

/// What a player sync does not mention stays as it is.
pub proof fn law_a_sync_leaves_the_rest_alone(
    v: InventoryView,
    command_id: u16,
    fields: Seq<FieldView>,
    datamine: Datamine,
    id: u32,
)
    requires
        snapshot::ids_distinct(v),
        command_id as u32 == datamine.cmd_player_sync_sc_notify,
    ensures
        ({
            let after = applied(v, command_id, fields, datamine).0;
            let items = item_records(fields, datamine);
            let avatars = avatar_records(fields, datamine);
            &&& (forall|j: int|
                0 <= j < items.len() ==> !describes_disc(#[trigger] items[j], id, datamine)
                    && !drops_disc(items[j], id, datamine)) ==> disc_held(after, id) == disc_held(
                v,
                id,
            )
            &&& (forall|j: int|
                0 <= j < items.len() ==> !describes_engine(#[trigger] items[j], id, datamine))
                ==> engine_held(after, id) == engine_held(v, id)
            &&& (forall|j: int|
                0 <= j < avatars.len() ==> !describes_agent(#[trigger] avatars[j], id, datamine)
                    && !drops_agent(avatars[j], id, datamine)) ==> agent_held(after, id)
                == agent_held(v, id)
        }),
{
    let items = item_records(fields, datamine);
    let avatars = avatar_records(fields, datamine);
    lemma_player_sync(begun(v), fields, datamine, id);
    if forall|j: int|
        0 <= j < items.len() ==> !describes_disc(#[trigger] items[j], id, datamine) && !drops_disc(
            items[j],
            id,
            datamine,
        ) {
        lemma_disc_fate_settled(disc_held(v, id), items, -1, id, datamine);
    }
    if forall|j: int| 0 <= j < items.len() ==> !describes_engine(#[trigger] items[j], id, datamine) {
        lemma_engine_fate_settled(engine_held(v, id), items, -1, id, datamine);
    }
    if forall|j: int|
        0 <= j < avatars.len() ==> !describes_agent(#[trigger] avatars[j], id, datamine)
            && !drops_agent(avatars[j], id, datamine) {
        lemma_agent_fate_settled(agent_held(v, id), avatars, -1, id, datamine);
    }
}

/// A sync before its first field.
spec fn begun(v: InventoryView) -> SyncState {
    SyncState {
        tally: Tally { inventory: v, changes: Seq::empty() },
        result: snapshot::no_result(),
        events: Seq::empty(),
    }
}

/// A response with all discs puts in each disc that it describes, as the last record of it says.
/// It leaves every other disc, the w-engines and the agents alone.
pub proof fn law_loaded_discs_are_held_as_described(
    v: InventoryView,
    command_id: u16,
    fields: Seq<FieldView>,
    datamine: Datamine,
    i: int,
    uid: u32,
)
    requires
        command_id as u32 == datamine.cmd_get_equip_data_sc_rsp,
        command_id as u32 != datamine.cmd_player_sync_sc_notify,
        command_id as u32 != datamine.cmd_dismantle_equip_cs_req,
        -1 <= i < fields.len(),
        i >= 0 ==> loads_disc(fields[i], uid, datamine),
        forall|j: int|
            i < j < fields.len() ==> !loads_disc(#[trigger] fields[j], uid, datamine),
    ensures
        ({
            let after = applied(v, command_id, fields, datamine).0;
            &&& disc_held(after, uid) == if i >= 0 {
                Some(model::disc_in(proto::message_of(fields[i].value)->Some_0, datamine))
            } else {
                disc_held(v, uid)
            }
            &&& after.engines == v.engines
            &&& after.agents == v.agents
        }),
{
    lemma_discs_loaded(begun(v).tally, fields, datamine, i, uid);
}

/// A field of the response with all discs that describes the disc with a uid.
pub open spec fn loads_disc(field: FieldView, uid: u32, datamine: Datamine) -> bool {
    &&& field.number == datamine.equip_data.discs
    &&& proto::message_of(field.value) is Some
    &&& model::disc_in(proto::message_of(field.value)->Some_0, datamine).uid == uid
}

proof fn lemma_discs_loaded(
    t: Tally,
    fields: Seq<FieldView>,
    datamine: Datamine,
    i: int,
    uid: u32,
)
    requires
        -1 <= i < fields.len(),
        i >= 0 ==> loads_disc(fields[i], uid, datamine),
        forall|j: int|
            i < j < fields.len() ==> !loads_disc(#[trigger] fields[j], uid, datamine),
    ensures
        ({
            let messages = snapshot::messages_in(fields, datamine.equip_data.discs);
            let after = snapshot::discs_loaded(t, messages, datamine).inventory;
            &&& disc_held(after, uid) == if i >= 0 {
                Some(model::disc_in(proto::message_of(fields[i].value)->Some_0, datamine))
            } else {
                disc_held(t.inventory, uid)
            }
            &&& after.engines == t.inventory.engines
            &&& after.agents == t.inventory.agents
        }),
    decreases fields.len(),
{
    if fields.len() > 0 {
        let number = datamine.equip_data.discs;
        let init = fields.drop_last();
        let field = fields.last();
        assert(field == fields[fields.len() - 1]);
        let k = if i == fields.len() - 1 {
            lemma_last_loading_disc(init, datamine, uid)
        } else {
            i
        };
        assert forall|j: int| k < j < init.len() implies !loads_disc(
            #[trigger] init[j],
            uid,
            datamine,
        ) by {
            if i != fields.len() - 1 {
                assert(init[j] == fields[j]);
            }
        }
        lemma_discs_loaded(t, init, datamine, k, uid);
        let rest = snapshot::messages_in(init, number);
        let messages = snapshot::messages_in(fields, number);
        if field.number == number && proto::message_of(field.value) is Some {
            let nested = proto::message_of(field.value)->Some_0;
            assert(messages == rest.push(nested));
            assert(messages.drop_last() =~= rest);
            let before = snapshot::discs_loaded(t, rest, datamine).inventory;
            let disc = model::disc_in(nested, datamine);
            lookup::lemma_put_found(before.discs, snapshot::is_disc(disc.uid), disc);
            if disc.uid != uid {
                lookup::lemma_put_keeps(
                    before.discs,
                    snapshot::is_disc(disc.uid),
                    disc,
                    snapshot::is_disc(uid),
                );
            }
        }
    }
}

/// The last field that describes a disc, or -1.
proof fn lemma_last_loading_disc(fields: Seq<FieldView>, datamine: Datamine, uid: u32) -> (k: int)
    ensures
        -1 <= k < fields.len(),
        k >= 0 ==> loads_disc(fields[k], uid, datamine),
        forall|j: int| k < j < fields.len() ==> !loads_disc(#[trigger] fields[j], uid, datamine),
    decreases fields.len(),
{
    if fields.len() == 0 {
        -1
    } else if loads_disc(fields.last(), uid, datamine) {
        fields.len() - 1
    } else {
        let init = fields.drop_last();
        let k = lemma_last_loading_disc(init, datamine, uid);
        assert forall|j: int| k < j < fields.len() implies !loads_disc(
            #[trigger] fields[j],
            uid,
            datamine,
        ) by {
            if j < init.len() {
                assert(init[j] == fields[j]);
            }
        }
        k
    }
}

/// A response with all w-engines puts in each one that it describes, as the last record of it
/// says. It leaves every other w-engine, the discs and the agents alone.
pub proof fn law_loaded_engines_are_held_as_described(
    v: InventoryView,
    command_id: u16,
    fields: Seq<FieldView>,
    datamine: Datamine,
    i: int,
    uid: u32,
)
    requires
        command_id as u32 == datamine.cmd_get_weapon_data_sc_rsp,
        command_id as u32 != datamine.cmd_get_equip_data_sc_rsp,
        command_id as u32 != datamine.cmd_player_sync_sc_notify,
        command_id as u32 != datamine.cmd_dismantle_equip_cs_req,
        -1 <= i < fields.len(),
        i >= 0 ==> loads_engine(fields[i], uid, datamine),
        forall|j: int|
            i < j < fields.len() ==> !loads_engine(#[trigger] fields[j], uid, datamine),
    ensures
        ({
            let after = applied(v, command_id, fields, datamine).0;
            &&& engine_held(after, uid) == if i >= 0 {
                Some(model::weapon_in(proto::message_of(fields[i].value)->Some_0, datamine))
            } else {
                engine_held(v, uid)
            }
            &&& after.discs == v.discs
            &&& after.agents == v.agents
        }),
{
    lemma_engines_loaded(begun(v).tally, fields, datamine, i, uid);
}

/// A field of the response with all w-engines that describes the one with a uid.
pub open spec fn loads_engine(field: FieldView, uid: u32, datamine: Datamine) -> bool {
    &&& field.number == datamine.weapon_data.weapons
    &&& proto::message_of(field.value) is Some
    &&& model::weapon_in(proto::message_of(field.value)->Some_0, datamine).uid == uid
}

proof fn lemma_engines_loaded(
    t: Tally,
    fields: Seq<FieldView>,
    datamine: Datamine,
    i: int,
    uid: u32,
)
    requires
        -1 <= i < fields.len(),
        i >= 0 ==> loads_engine(fields[i], uid, datamine),
        forall|j: int|
            i < j < fields.len() ==> !loads_engine(#[trigger] fields[j], uid, datamine),
    ensures
        ({
            let messages = snapshot::messages_in(fields, datamine.weapon_data.weapons);
            let after = snapshot::engines_loaded(t, messages, datamine).inventory;
            &&& engine_held(after, uid) == if i >= 0 {
                Some(model::weapon_in(proto::message_of(fields[i].value)->Some_0, datamine))
            } else {
                engine_held(t.inventory, uid)
            }
            &&& after.discs == t.inventory.discs
            &&& after.agents == t.inventory.agents
        }),
    decreases fields.len(),
{
    if fields.len() > 0 {
        let number = datamine.weapon_data.weapons;
        let init = fields.drop_last();
        let field = fields.last();
        assert(field == fields[fields.len() - 1]);
        let k = if i == fields.len() - 1 {
            lemma_last_loading_engine(init, datamine, uid)
        } else {
            i
        };
        assert forall|j: int| k < j < init.len() implies !loads_engine(
            #[trigger] init[j],
            uid,
            datamine,
        ) by {
            if i != fields.len() - 1 {
                assert(init[j] == fields[j]);
            }
        }
        lemma_engines_loaded(t, init, datamine, k, uid);
        let rest = snapshot::messages_in(init, number);
        let messages = snapshot::messages_in(fields, number);
        if field.number == number && proto::message_of(field.value) is Some {
            let nested = proto::message_of(field.value)->Some_0;
            assert(messages == rest.push(nested));
            assert(messages.drop_last() =~= rest);
            let before = snapshot::engines_loaded(t, rest, datamine).inventory;
            let engine = model::weapon_in(nested, datamine);
            lookup::lemma_put_found(before.engines, snapshot::is_engine(engine.uid), engine);
            if engine.uid != uid {
                lookup::lemma_put_keeps(
                    before.engines,
                    snapshot::is_engine(engine.uid),
                    engine,
                    snapshot::is_engine(uid),
                );
            }
        }
    }
}

/// The last field that describes a w-engine, or -1.
proof fn lemma_last_loading_engine(fields: Seq<FieldView>, datamine: Datamine, uid: u32) -> (k: int)
    ensures
        -1 <= k < fields.len(),
        k >= 0 ==> loads_engine(fields[k], uid, datamine),
        forall|j: int| k < j < fields.len() ==> !loads_engine(#[trigger] fields[j], uid, datamine),
    decreases fields.len(),
{
    if fields.len() == 0 {
        -1
    } else if loads_engine(fields.last(), uid, datamine) {
        fields.len() - 1
    } else {
        let init = fields.drop_last();
        let k = lemma_last_loading_engine(init, datamine, uid);
        assert forall|j: int| k < j < fields.len() implies !loads_engine(
            #[trigger] fields[j],
            uid,
            datamine,
        ) by {
            if j < init.len() {
                assert(init[j] == fields[j]);
            }
        }
        k
    }
}

/// A response with all agents puts in each one that it describes, as the last record of it
/// says. It leaves every other agent, the discs and the w-engines alone.
pub proof fn law_loaded_agents_are_held_as_described(
    v: InventoryView,
    command_id: u16,
    fields: Seq<FieldView>,
    datamine: Datamine,
    i: int,
    uid: u32,
)
    requires
        command_id as u32 == datamine.cmd_get_avatar_data_sc_rsp,
        command_id as u32 != datamine.cmd_get_equip_data_sc_rsp,
        command_id as u32 != datamine.cmd_get_weapon_data_sc_rsp,
        command_id as u32 != datamine.cmd_player_sync_sc_notify,
        command_id as u32 != datamine.cmd_dismantle_equip_cs_req,
        -1 <= i < fields.len(),
        i >= 0 ==> loads_agent(fields[i], uid, datamine),
        forall|j: int|
            i < j < fields.len() ==> !loads_agent(#[trigger] fields[j], uid, datamine),
    ensures
        ({
            let after = applied(v, command_id, fields, datamine).0;
            &&& agent_held(after, uid) == if i >= 0 {
                Some(model::agent_in(proto::message_of(fields[i].value)->Some_0, datamine))
            } else {
                agent_held(v, uid)
            }
            &&& after.engines == v.engines
            &&& after.discs == v.discs
        }),
{
    lemma_agents_loaded(begun(v).tally, fields, datamine, i, uid);
}

/// A field of the response with all agents that describes the one with an id.
pub open spec fn loads_agent(field: FieldView, uid: u32, datamine: Datamine) -> bool {
    &&& field.number == datamine.agent_data.agents
    &&& proto::message_of(field.value) is Some
    &&& model::agent_in(proto::message_of(field.value)->Some_0, datamine).id == uid
}

proof fn lemma_agents_loaded(
    t: Tally,
    fields: Seq<FieldView>,
    datamine: Datamine,
    i: int,
    uid: u32,
)
    requires
        -1 <= i < fields.len(),
        i >= 0 ==> loads_agent(fields[i], uid, datamine),
        forall|j: int|
            i < j < fields.len() ==> !loads_agent(#[trigger] fields[j], uid, datamine),
    ensures
        ({
            let messages = snapshot::messages_in(fields, datamine.agent_data.agents);
            let after = snapshot::agents_loaded(t, messages, datamine).inventory;
            &&& agent_held(after, uid) == if i >= 0 {
                Some(model::agent_in(proto::message_of(fields[i].value)->Some_0, datamine))
            } else {
                agent_held(t.inventory, uid)
            }
            &&& after.engines == t.inventory.engines
            &&& after.discs == t.inventory.discs
        }),
    decreases fields.len(),
{
    if fields.len() > 0 {
        let number = datamine.agent_data.agents;
        let init = fields.drop_last();
        let field = fields.last();
        assert(field == fields[fields.len() - 1]);
        let k = if i == fields.len() - 1 {
            lemma_last_loading_agent(init, datamine, uid)
        } else {
            i
        };
        assert forall|j: int| k < j < init.len() implies !loads_agent(
            #[trigger] init[j],
            uid,
            datamine,
        ) by {
            if i != fields.len() - 1 {
                assert(init[j] == fields[j]);
            }
        }
        lemma_agents_loaded(t, init, datamine, k, uid);
        let rest = snapshot::messages_in(init, number);
        let messages = snapshot::messages_in(fields, number);
        if field.number == number && proto::message_of(field.value) is Some {
            let nested = proto::message_of(field.value)->Some_0;
            assert(messages == rest.push(nested));
            assert(messages.drop_last() =~= rest);
            let before = snapshot::agents_loaded(t, rest, datamine).inventory;
            let agent = model::agent_in(nested, datamine);
            lookup::lemma_put_found(before.agents, snapshot::is_agent(agent.id), agent);
            if agent.id != uid {
                lookup::lemma_put_keeps(
                    before.agents,
                    snapshot::is_agent(agent.id),
                    agent,
                    snapshot::is_agent(uid),
                );
            }
        }
    }
}

/// The last field that describes an agent, or -1.
proof fn lemma_last_loading_agent(fields: Seq<FieldView>, datamine: Datamine, uid: u32) -> (k: int)
    ensures
        -1 <= k < fields.len(),
        k >= 0 ==> loads_agent(fields[k], uid, datamine),
        forall|j: int| k < j < fields.len() ==> !loads_agent(#[trigger] fields[j], uid, datamine),
    decreases fields.len(),
{
    if fields.len() == 0 {
        -1
    } else if loads_agent(fields.last(), uid, datamine) {
        fields.len() - 1
    } else {
        let init = fields.drop_last();
        let k = lemma_last_loading_agent(init, datamine, uid);
        assert forall|j: int| k < j < fields.len() implies !loads_agent(
            #[trigger] fields[j],
            uid,
            datamine,
        ) by {
            if j < init.len() {
                assert(init[j] == fields[j]);
            }
        }
        k
    }
}

/// A dismantle request takes out the discs and w-engines whose uids it lists, and nothing else.
pub proof fn law_dismantled_items_are_gone(
    v: InventoryView,
    command_id: u16,
    fields: Seq<FieldView>,
    datamine: Datamine,
    uid: u32,
)
    requires
        snapshot::ids_distinct(v),
        command_id as u32 == datamine.cmd_dismantle_equip_cs_req,
        command_id as u32 != datamine.cmd_player_sync_sc_notify,
    ensures
        ({
            let after = applied(v, command_id, fields, datamine).0;
            let listed = exists|i: int|
                0 <= i < fields.len() && lists_dismantled(#[trigger] fields[i], uid, datamine);
            &&& disc_held(after, uid) == if listed {
                None
            } else {
                disc_held(v, uid)
            }
            &&& engine_held(after, uid) == if listed {
                None
            } else {
                engine_held(v, uid)
            }
            &&& after.agents == v.agents
        }),
{
    lemma_dismantled(begun(v), snapshot::dismantled_uids(fields, datamine), uid);
    lemma_dismantled_uids(fields, datamine, uid);
}

/// A field of a dismantle request that lists a uid.
pub open spec fn lists_dismantled(field: FieldView, uid: u32, datamine: Datamine) -> bool {
    &&& field.number == datamine.equip_dismantle.uid || field.number
        == datamine.equip_dismantle.uids
    &&& snapshot::loose_uints(field.value).contains(uid)
}

proof fn lemma_dismantled_uids(fields: Seq<FieldView>, datamine: Datamine, uid: u32)
    ensures
        snapshot::dismantled_uids(fields, datamine).contains(uid) == exists|i: int|
            0 <= i < fields.len() && lists_dismantled(#[trigger] fields[i], uid, datamine),
    decreases fields.len(),
{
    let all = snapshot::dismantled_uids(fields, datamine);
    if fields.len() > 0 {
        let init = fields.drop_last();
        lemma_dismantled_uids(init, datamine, uid);
        let rest = snapshot::dismantled_uids(init, datamine);
        let own = snapshot::loose_uints(fields.last().value);
        assert(fields.last() == fields[fields.len() - 1]);
        assert((rest + own).contains(uid) == (rest.contains(uid) || own.contains(uid))) by {
            if rest.contains(uid) {
                let i = choose|i: int| 0 <= i < rest.len() && rest[i] == uid;
                assert((rest + own)[i] == uid);
            }
            if own.contains(uid) {
                let i = choose|i: int| 0 <= i < own.len() && own[i] == uid;
                assert((rest + own)[rest.len() + i] == uid);
            }
        }
        if rest.contains(uid) {
            let i = choose|i: int|
                0 <= i < init.len() && lists_dismantled(#[trigger] init[i], uid, datamine);
            assert(lists_dismantled(fields[i], uid, datamine));
        }
        if exists|i: int| 0 <= i < fields.len() && lists_dismantled(
            #[trigger] fields[i],
            uid,
            datamine,
        ) {
            let i = choose|i: int|
                0 <= i < fields.len() && lists_dismantled(#[trigger] fields[i], uid, datamine);
            if i < init.len() {
                assert(lists_dismantled(init[i], uid, datamine));
            }
        }
    }
}

proof fn lemma_dismantled(s: SyncState, uids: Seq<u32>, uid: u32)
    requires
        snapshot::ids_distinct(s.tally.inventory),
    ensures
        ({
            let v = s.tally.inventory;
            let after = snapshot::dismantled(s, uids).tally.inventory;
            &&& snapshot::ids_distinct(after)
            &&& after.agents == v.agents
            &&& disc_held(after, uid) == if uids.contains(uid) {
                None
            } else {
                disc_held(v, uid)
            }
            &&& engine_held(after, uid) == if uids.contains(uid) {
                None
            } else {
                engine_held(v, uid)
            }
        }),
    decreases uids.len(),
{
    if uids.len() > 0 {
        let init = uids.drop_last();
        let last = uids.last();
        lemma_dismantled(s, init, uid);
        snapshot::lemma_dismantled_distinct(s, uids);
        let v = snapshot::dismantled(s, init).tally.inventory;
        if last == uid {
            lookup::lemma_cut_absent(v.discs, snapshot::is_disc(uid), |d: DiscInfoView| d.uid, uid);
            lookup::lemma_cut_absent(
                v.engines,
                snapshot::is_engine(uid),
                |e: WeaponInfo| e.uid,
                uid,
            );
            lookup::lemma_index_first(
                lookup::cut(v.discs, snapshot::is_disc(uid)),
                snapshot::is_disc(uid),
            );
            lookup::lemma_index_first(
                lookup::cut(v.engines, snapshot::is_engine(uid)),
                snapshot::is_engine(uid),
            );
            assert(uids[uids.len() - 1] == uid);
        } else {
            lookup::lemma_cut_keeps(v.discs, snapshot::is_disc(last), snapshot::is_disc(uid));
            lookup::lemma_cut_keeps(v.engines, snapshot::is_engine(last), snapshot::is_engine(uid));
            assert(uids.contains(uid) == init.contains(uid)) by {
                if uids.contains(uid) {
                    let i = choose|i: int| 0 <= i < uids.len() && uids[i] == uid;
                    assert(init[i] == uid);
                }
                if init.contains(uid) {
                    let i = choose|i: int| 0 <= i < init.len() && init[i] == uid;
                    assert(uids[i] == uid);
                }
            }
        }
    }
}

/// Any other message changes nothing, and reports no change.
pub proof fn law_other_messages_change_nothing(
    v: InventoryView,
    command_id: u16,
    fields: Seq<FieldView>,
    datamine: Datamine,
)
    requires
        command_id as u32 != datamine.cmd_player_sync_sc_notify,
        command_id as u32 != datamine.cmd_dismantle_equip_cs_req,
        command_id as u32 != datamine.cmd_get_equip_data_sc_rsp,
        command_id as u32 != datamine.cmd_get_weapon_data_sc_rsp,
        command_id as u32 != datamine.cmd_get_avatar_data_sc_rsp,
    ensures
        applied(v, command_id, fields, datamine).0 == v,
        reported(applied(v, command_id, fields, datamine).1) == Seq::<ItemChange>::empty(),
{
}

/// The changes that the reports of a message end with.
pub open spec fn reported(events: Seq<ExtractEventView>) -> Seq<ItemChange> {
    match events.last() {
        ExtractEventView::Changes(changes) => changes,
        _ => Seq::empty(),
    }
}

/// A change of the disc with a uid.
pub open spec fn names_disc(change: ItemChange, id: u32) -> bool {
    match change {
        ItemChange::DiscAdded { uid, .. } => uid == id,
        ItemChange::DiscUpdated { uid, .. } => uid == id,
        ItemChange::DiscRemoved { uid, .. } => uid == id,
        _ => false,
    }
}

/// A change of the w-engine with a uid.
pub open spec fn names_engine(change: ItemChange, id: u32) -> bool {
    match change {
        ItemChange::EngineAdded { uid, .. } => uid == id,
        ItemChange::EngineUpdated { uid, .. } => uid == id,
        ItemChange::EngineRemoved { uid, .. } => uid == id,
        _ => false,
    }
}

/// A change of the agent with an id.
pub open spec fn names_agent(change: ItemChange, agent: u32) -> bool {
    match change {
        ItemChange::AgentAdded { id, .. } => id == agent,
        ItemChange::AgentUpdated { id, .. } => id == agent,
        ItemChange::AgentRemoved { id } => id == agent,
        _ => false,
    }
}

/// What a change says of a disc is true of what was held before it and of what is held after
/// it.
pub open spec fn disc_change_is_true(
    change: ItemChange,
    before: Option<DiscInfoView>,
    after: Option<DiscInfoView>,
) -> bool {
    match change {
        ItemChange::DiscAdded { uid, id, level, rarity } => {
            &&& before is None
            &&& after matches Some(d) && d.uid == uid && d.id == id && d.level == level && rarity
                == model::disc_rarity(d.id)
        },
        ItemChange::DiscUpdated { uid, id, level, rarity } => {
            &&& before is Some
            &&& after matches Some(d) && d.uid == uid && d.id == id && d.level == level && rarity
                == model::disc_rarity(d.id)
        },
        ItemChange::DiscRemoved { id, .. } => {
            &&& before matches Some(d) && d.id == id
            &&& after is None
        },
        _ => true,
    }
}

/// What a change says of a w-engine is true.
pub open spec fn engine_change_is_true(
    change: ItemChange,
    before: Option<WeaponInfo>,
    after: Option<WeaponInfo>,
) -> bool {
    match change {
        ItemChange::EngineAdded { uid, id, level, phase } => {
            &&& before is None
            &&& after matches Some(e) && e.uid == uid && e.id == id && e.level == level && e.phase
                == phase
        },
        ItemChange::EngineUpdated { uid, id, level, phase } => {
            &&& before is Some
            &&& after matches Some(e) && e.uid == uid && e.id == id && e.level == level && e.phase
                == phase
        },
        ItemChange::EngineRemoved { id, .. } => {
            &&& before matches Some(e) && e.id == id
            &&& after is None
        },
        _ => true,
    }
}

/// What a change says of an agent is true.
pub open spec fn agent_change_is_true(
    change: ItemChange,
    before: Option<AgentInfoView>,
    after: Option<AgentInfoView>,
) -> bool {
    match change {
        ItemChange::AgentAdded { id, level, weapon_uid } => {
            &&& before is None
            &&& after matches Some(a) && a.id == id && a.level == level && a.weapon_uid
                == weapon_uid
        },
        ItemChange::AgentUpdated { id, level, previous_weapon_uid, weapon_uid } => {
            &&& before matches Some(b) && b.weapon_uid == previous_weapon_uid
            &&& after matches Some(a) && a.id == id && a.level == level && a.weapon_uid
                == weapon_uid
        },
        ItemChange::AgentRemoved { .. } => before is Some && after is None,
        _ => true,
    }
}

/// A history of the inventory: what was held before the first change, after each, and in the
/// end. From one to the next only what the change names differs, and what it says is true.
pub open spec fn tells(history: Seq<InventoryView>, changes: Seq<ItemChange>) -> bool {
    &&& history.len() == changes.len() + 1
    &&& forall|i: int| 0 <= i < changes.len() ==> #[trigger] told(history, changes, i)
}

/// Changes that lead from what was held before to what is held after, over a history.
pub open spec fn leads(
    history: Seq<InventoryView>,
    changes: Seq<ItemChange>,
    before: InventoryView,
    after: InventoryView,
) -> bool {
    &&& tells(history, changes)
    &&& history[0] == before
    &&& history.last() == after
}

/// Change `i` of a history is told as it happened.
pub open spec fn told(history: Seq<InventoryView>, changes: Seq<ItemChange>, i: int) -> bool {
    let before = history[i];
    let after = history[i + 1];
    forall|id: u32|
        #![trigger disc_held(after, id)]
        #![trigger engine_held(after, id)]
        #![trigger agent_held(after, id)]
        {
            &&& if names_disc(changes[i], id) {
                disc_change_is_true(changes[i], disc_held(before, id), disc_held(after, id))
            } else {
                disc_held(after, id) == disc_held(before, id)
            }
            &&& if names_engine(changes[i], id) {
                engine_change_is_true(changes[i], engine_held(before, id), engine_held(after, id))
            } else {
                engine_held(after, id) == engine_held(before, id)
            }
            &&& if names_agent(changes[i], id) {
                agent_change_is_true(changes[i], agent_held(before, id), agent_held(after, id))
            } else {
                agent_held(after, id) == agent_held(before, id)
            }
        }
}

/// The changes of a tally lead from `v` to what it holds.
spec fn accounts_for(v: InventoryView, t: Tally) -> bool {
    exists|history: Seq<InventoryView>|
        #[trigger] leads(history, t.changes, v, t.inventory)
}

/// One more change that is told as it happened.
proof fn lemma_accounts_on(v: InventoryView, t: Tally, after: InventoryView, change: ItemChange)
    requires
        accounts_for(v, t),
        told(seq![t.inventory, after], seq![change], 0),
    ensures
        accounts_for(v, Tally { inventory: after, changes: t.changes.push(change) }),
{
    let history = choose|history: Seq<InventoryView>|
        #[trigger] leads(history, t.changes, v, t.inventory);
    let longer = history.push(after);
    let changes = t.changes.push(change);
    assert forall|i: int| 0 <= i < changes.len() implies #[trigger] told(longer, changes, i) by {
        if i < t.changes.len() {
            assert(told(history, t.changes, i));
            assert(longer[i] == history[i] && longer[i + 1] == history[i + 1]);
            assert(changes[i] == t.changes[i]);
        } else {
            let two = seq![t.inventory, after];
            assert(two[0] == longer[i] && two[1] == longer[i + 1]);
            assert(seq![change][0] == changes[i]);
        }
    }
    assert(longer[0] == history[0]);
    let u = Tally { inventory: after, changes };
    assert(leads(longer, u.changes, v, u.inventory));
}

proof fn lemma_disc_put_told(v: InventoryView, t: Tally, disc: DiscInfoView)
    requires
        accounts_for(v, t),
    ensures
        accounts_for(v, snapshot::disc_put(t, disc)),
{
    let u = snapshot::disc_put(t, disc);
    let change = u.changes.last();
    let p = snapshot::is_disc(disc.uid);
    lookup::lemma_put_found(t.inventory.discs, p, disc);
    lookup::lemma_index_first(t.inventory.discs, p);
    let two = seq![t.inventory, u.inventory];
    assert forall|id: u32|
        #![trigger disc_held(two[1], id)]
        #![trigger engine_held(two[1], id)]
        #![trigger agent_held(two[1], id)]
        {
            &&& if names_disc(change, id) {
                disc_change_is_true(change, disc_held(two[0], id), disc_held(two[1], id))
            } else {
                disc_held(two[1], id) == disc_held(two[0], id)
            }
            &&& engine_held(two[1], id) == engine_held(two[0], id)
            &&& agent_held(two[1], id) == agent_held(two[0], id)
        } by {
        if id != disc.uid {
            lookup::lemma_put_keeps(t.inventory.discs, p, disc, snapshot::is_disc(id));
        }
    }
    assert(told(two, seq![change], 0));
    lemma_accounts_on(v, t, u.inventory, change);
    assert(u.changes =~= t.changes.push(change));
}

proof fn lemma_engine_put_told(v: InventoryView, t: Tally, engine: WeaponInfo)
    requires
        accounts_for(v, t),
    ensures
        accounts_for(v, snapshot::engine_put(t, engine)),
{
    let u = snapshot::engine_put(t, engine);
    let change = u.changes.last();
    let p = snapshot::is_engine(engine.uid);
    lookup::lemma_put_found(t.inventory.engines, p, engine);
    lookup::lemma_index_first(t.inventory.engines, p);
    let two = seq![t.inventory, u.inventory];
    assert forall|id: u32|
        #![trigger disc_held(two[1], id)]
        #![trigger engine_held(two[1], id)]
        #![trigger agent_held(two[1], id)]
        {
            &&& if names_engine(change, id) {
                engine_change_is_true(change, engine_held(two[0], id), engine_held(two[1], id))
            } else {
                engine_held(two[1], id) == engine_held(two[0], id)
            }
            &&& disc_held(two[1], id) == disc_held(two[0], id)
            &&& agent_held(two[1], id) == agent_held(two[0], id)
        } by {
        if id != engine.uid {
            lookup::lemma_put_keeps(t.inventory.engines, p, engine, snapshot::is_engine(id));
        }
    }
    assert(told(two, seq![change], 0));
    lemma_accounts_on(v, t, u.inventory, change);
    assert(u.changes =~= t.changes.push(change));
}

proof fn lemma_agent_put_told(v: InventoryView, t: Tally, agent: AgentInfoView)
    requires
        accounts_for(v, t),
    ensures
        accounts_for(v, snapshot::agent_put(t, agent)),
{
    let u = snapshot::agent_put(t, agent);
    let change = u.changes.last();
    let p = snapshot::is_agent(agent.id);
    lookup::lemma_put_found(t.inventory.agents, p, agent);
    lookup::lemma_index_first(t.inventory.agents, p);
    let two = seq![t.inventory, u.inventory];
    assert forall|id: u32|
        #![trigger disc_held(two[1], id)]
        #![trigger engine_held(two[1], id)]
        #![trigger agent_held(two[1], id)]
        {
            &&& if names_agent(change, id) {
                agent_change_is_true(change, agent_held(two[0], id), agent_held(two[1], id))
            } else {
                agent_held(two[1], id) == agent_held(two[0], id)
            }
            &&& disc_held(two[1], id) == disc_held(two[0], id)
            &&& engine_held(two[1], id) == engine_held(two[0], id)
        } by {
        if id != agent.id {
            lookup::lemma_put_keeps(t.inventory.agents, p, agent, snapshot::is_agent(id));
        }
    }
    assert(told(two, seq![change], 0));
    lemma_accounts_on(v, t, u.inventory, change);
    assert(u.changes =~= t.changes.push(change));
}

proof fn lemma_disc_cut_told(v: InventoryView, t: Tally, uid: u32)
    requires
        accounts_for(v, t),
        snapshot::ids_distinct(t.inventory),
    ensures
        accounts_for(v, snapshot::disc_cut(t, uid)),
{
    let u = snapshot::disc_cut(t, uid);
    let p = snapshot::is_disc(uid);
    lookup::lemma_index_first(t.inventory.discs, p);
    if snapshot::has_disc(t.inventory, uid) {
        let change = u.changes.last();
        lookup::lemma_cut_absent(t.inventory.discs, p, |d: DiscInfoView| d.uid, uid);
        lookup::lemma_index_first(u.inventory.discs, p);
        let two = seq![t.inventory, u.inventory];
        assert forall|id: u32|
            #![trigger disc_held(two[1], id)]
            #![trigger engine_held(two[1], id)]
            #![trigger agent_held(two[1], id)]
            {
                &&& if names_disc(change, id) {
                    disc_change_is_true(change, disc_held(two[0], id), disc_held(two[1], id))
                } else {
                    disc_held(two[1], id) == disc_held(two[0], id)
                }
                &&& engine_held(two[1], id) == engine_held(two[0], id)
                &&& agent_held(two[1], id) == agent_held(two[0], id)
            } by {
            if id != uid {
                lookup::lemma_cut_keeps(t.inventory.discs, p, snapshot::is_disc(id));
            }
        }
        assert(told(two, seq![change], 0));
        lemma_accounts_on(v, t, u.inventory, change);
        assert(u.changes =~= t.changes.push(change));
    } else {
        assert(u == t);
    }
}

proof fn lemma_engine_cut_told(v: InventoryView, t: Tally, uid: u32)
    requires
        accounts_for(v, t),
        snapshot::ids_distinct(t.inventory),
    ensures
        accounts_for(v, snapshot::engine_cut(t, uid)),
{
    let u = snapshot::engine_cut(t, uid);
    let p = snapshot::is_engine(uid);
    lookup::lemma_index_first(t.inventory.engines, p);
    if snapshot::has_engine(t.inventory, uid) {
        let change = u.changes.last();
        lookup::lemma_cut_absent(t.inventory.engines, p, |e: WeaponInfo| e.uid, uid);
        lookup::lemma_index_first(u.inventory.engines, p);
        let two = seq![t.inventory, u.inventory];
        assert forall|id: u32|
            #![trigger disc_held(two[1], id)]
            #![trigger engine_held(two[1], id)]
            #![trigger agent_held(two[1], id)]
            {
                &&& if names_engine(change, id) {
                    engine_change_is_true(change, engine_held(two[0], id), engine_held(two[1], id))
                } else {
                    engine_held(two[1], id) == engine_held(two[0], id)
                }
                &&& disc_held(two[1], id) == disc_held(two[0], id)
                &&& agent_held(two[1], id) == agent_held(two[0], id)
            } by {
            if id != uid {
                lookup::lemma_cut_keeps(t.inventory.engines, p, snapshot::is_engine(id));
            }
        }
        assert(told(two, seq![change], 0));
        lemma_accounts_on(v, t, u.inventory, change);
        assert(u.changes =~= t.changes.push(change));
    } else {
        assert(u == t);
    }
}

proof fn lemma_agent_cut_told(v: InventoryView, t: Tally, agent: u32)
    requires
        accounts_for(v, t),
        snapshot::ids_distinct(t.inventory),
    ensures
        accounts_for(v, snapshot::agent_cut(t, agent)),
{
    let u = snapshot::agent_cut(t, agent);
    let p = snapshot::is_agent(agent);
    lookup::lemma_index_first(t.inventory.agents, p);
    if snapshot::has_agent(t.inventory, agent) {
        let change = u.changes.last();
        lookup::lemma_cut_absent(t.inventory.agents, p, |a: AgentInfoView| a.id, agent);
        lookup::lemma_index_first(u.inventory.agents, p);
        let two = seq![t.inventory, u.inventory];
        assert forall|id: u32|
            #![trigger disc_held(two[1], id)]
            #![trigger engine_held(two[1], id)]
            #![trigger agent_held(two[1], id)]
            {
                &&& if names_agent(change, id) {
                    agent_change_is_true(change, agent_held(two[0], id), agent_held(two[1], id))
                } else {
                    agent_held(two[1], id) == agent_held(two[0], id)
                }
                &&& disc_held(two[1], id) == disc_held(two[0], id)
                &&& engine_held(two[1], id) == engine_held(two[0], id)
            } by {
            if id != agent {
                lookup::lemma_cut_keeps(t.inventory.agents, p, snapshot::is_agent(id));
            }
        }
        assert(told(two, seq![change], 0));
        lemma_accounts_on(v, t, u.inventory, change);
        assert(u.changes =~= t.changes.push(change));
    } else {
        assert(u == t);
    }
}

proof fn lemma_cuts_told(
    v: InventoryView,
    s: SyncState,
    ids: Seq<u32>,
    fallback: Option<u32>,
)
    requires
        accounts_for(v, s.tally),
        snapshot::ids_distinct(s.tally.inventory),
    ensures
        accounts_for(v, snapshot::discs_cut(s, ids, fallback).tally),
        accounts_for(v, snapshot::agents_cut(s, ids).tally),
        accounts_for(v, snapshot::dismantled(s, ids).tally),
    decreases ids.len(),
{
    if ids.len() > 0 {
        let init = ids.drop_last();
        let last = ids.last();
        lemma_cuts_told(v, s, init, fallback);
        snapshot::lemma_discs_cut_distinct(s, init, fallback);
        snapshot::lemma_agents_cut_distinct(s, init);
        snapshot::lemma_dismantled_distinct(s, init);
        lemma_disc_cut_told(v, snapshot::discs_cut(s, init, fallback).tally, last);
        lemma_agent_cut_told(v, snapshot::agents_cut(s, init).tally, last);
        let t = snapshot::dismantled(s, init).tally;
        lemma_disc_cut_told(v, t, last);
        lookup::lemma_cut_distinct(
            t.inventory.discs,
            snapshot::is_disc(last),
            |d: DiscInfoView| d.uid,
        );
        lemma_engine_cut_told(v, snapshot::disc_cut(t, last), last);
    }
}

proof fn lemma_item_sync_told(
    v: InventoryView,
    s: SyncState,
    fields: Seq<FieldView>,
    datamine: Datamine,
)
    requires
        accounts_for(v, s.tally),
        snapshot::ids_distinct(s.tally.inventory),
    ensures
        accounts_for(v, item_sync(s, fields, datamine).tally),
    decreases fields.len(),
{
    if fields.len() > 0 {
        let init = fields.drop_last();
        lemma_item_sync_told(v, s, init, datamine);
        snapshot::lemma_item_sync_distinct(s, init, datamine);
        let t = item_sync(s, init, datamine);
        let field = fields.last();
        if let Some(nested) = proto::message_of(field.value) {
            lemma_disc_put_told(v, t.tally, model::disc_in(nested, datamine));
            lemma_engine_put_told(v, t.tally, model::weapon_in(nested, datamine));
        }
        lemma_cuts_told(v, t, snapshot::loose_uints(field.value), None);
        lemma_cuts_told(v, t, snapshot::loose_uints(field.value), Some(field.number));
    }
}

proof fn lemma_avatar_sync_told(
    v: InventoryView,
    s: SyncState,
    fields: Seq<FieldView>,
    datamine: Datamine,
)
    requires
        accounts_for(v, s.tally),
        snapshot::ids_distinct(s.tally.inventory),
    ensures
        accounts_for(v, avatar_sync(s, fields, datamine).tally),
    decreases fields.len(),
{
    if fields.len() > 0 {
        let init = fields.drop_last();
        lemma_avatar_sync_told(v, s, init, datamine);
        snapshot::lemma_avatar_sync_distinct(s, init, datamine);
        let t = avatar_sync(s, init, datamine);
        let field = fields.last();
        if let Some(nested) = proto::message_of(field.value) {
            lemma_agent_put_told(v, t.tally, model::agent_in(nested, datamine));
        }
        lemma_cuts_told(v, t, snapshot::loose_uints(field.value), None);
    }
}

proof fn lemma_player_sync_told(
    v: InventoryView,
    s: SyncState,
    fields: Seq<FieldView>,
    datamine: Datamine,
)
    requires
        accounts_for(v, s.tally),
        snapshot::ids_distinct(s.tally.inventory),
    ensures
        accounts_for(v, player_sync(s, fields, datamine).tally),
    decreases fields.len(),
{
    if fields.len() > 0 {
        let init = fields.drop_last();
        lemma_player_sync_told(v, s, init, datamine);
        snapshot::lemma_player_sync_distinct(s, init, datamine);
        let t = player_sync(s, init, datamine);
        if let Some(nested) = proto::message_of(fields.last().value) {
            lemma_item_sync_told(v, t, nested, datamine);
            lemma_avatar_sync_told(v, t, nested, datamine);
        }
    }
}

proof fn lemma_loads_told(
    v: InventoryView,
    t: Tally,
    messages: Seq<Seq<FieldView>>,
    datamine: Datamine,
)
    requires
        accounts_for(v, t),
    ensures
        accounts_for(v, snapshot::discs_loaded(t, messages, datamine)),
        accounts_for(v, snapshot::engines_loaded(t, messages, datamine)),
        accounts_for(v, snapshot::agents_loaded(t, messages, datamine)),
    decreases messages.len(),
{
    if messages.len() > 0 {
        let init = messages.drop_last();
        let last = messages.last();
        lemma_loads_told(v, t, init, datamine);
        lemma_disc_put_told(
            v,
            snapshot::discs_loaded(t, init, datamine),
            model::disc_in(last, datamine),
        );
        lemma_engine_put_told(
            v,
            snapshot::engines_loaded(t, init, datamine),
            model::weapon_in(last, datamine),
        );
        lemma_agent_put_told(
            v,
            snapshot::agents_loaded(t, init, datamine),
            model::agent_in(last, datamine),
        );
    }
}

/// The reports of a message are the truth and the whole truth: the changes they end with lead,
/// one at a time, from what was held before the message to what is held after it. Nothing
/// changes that no change names, and each change says what was held before it and is held after
/// it.
pub proof fn law_changes_tell_what_happened(
    v: InventoryView,
    command_id: u16,
    fields: Seq<FieldView>,
    datamine: Datamine,
)
    requires
        snapshot::ids_distinct(v),
    ensures
        ({
            let (after, events) = applied(v, command_id, fields, datamine);
            &&& events.len() > 0
            &&& events.last() is Changes
            &&& exists|history: Seq<InventoryView>|
                #[trigger] leads(history, reported(events), v, after)
        }),
{
    let s = begun(v);
    let t = s.tally;
    let nothing = Seq::<ItemChange>::empty();
    let start = seq![v];
    assert(tells(start, nothing));
    assert(leads(start, t.changes, v, t.inventory));
    assert(accounts_for(v, t));
    lemma_player_sync_told(v, s, fields, datamine);
    lemma_cuts_told(v, s, snapshot::dismantled_uids(fields, datamine), None);
    lemma_loads_told(v, t, snapshot::messages_in(fields, datamine.equip_data.discs), datamine);
    lemma_loads_told(v, t, snapshot::messages_in(fields, datamine.weapon_data.weapons), datamine);
    lemma_loads_told(v, t, snapshot::messages_in(fields, datamine.agent_data.agents), datamine);
    let (after, events) = applied(v, command_id, fields, datamine);
    assert(accounts_for(v, Tally { inventory: after, changes: reported(events) }));
}

/// How many of some changes put something in.
pub open spec fn puts_in(changes: Seq<ItemChange>) -> nat
    decreases changes.len(),
{
    if changes.len() == 0 {
        0
    } else {
        puts_in(changes.drop_last()) + match changes.last() {
            ItemChange::DiscRemoved { .. } => 0nat,
            ItemChange::EngineRemoved { .. } => 0nat,
            ItemChange::AgentRemoved { .. } => 0nat,
            _ => 1nat,
        }
    }
}

/// The counters of a sync are those of its changes.
pub open spec fn counts(result: snapshot::SyncResult, changes: Seq<ItemChange>) -> bool {
    &&& result.upserts == puts_in(changes) % 0x1_0000_0000
    &&& result.removals == (changes.len() - puts_in(changes)) % 0x1_0000_0000
    &&& result.changed == (changes.len() > 0)
}

proof fn lemma_counted_on(result: snapshot::SyncResult, changes: Seq<ItemChange>, c: ItemChange)
    requires
        counts(result, changes),
        puts_in(changes) <= changes.len(),
    ensures
        puts_in(changes.push(c)) <= changes.push(c).len(),
        counts(
            match c {
                ItemChange::DiscRemoved { .. } => snapshot::counted_removal(result, true),
                ItemChange::EngineRemoved { .. } => snapshot::counted_removal(result, true),
                ItemChange::AgentRemoved { .. } => snapshot::counted_removal(result, true),
                _ => snapshot::counted_upsert(result),
            },
            changes.push(c),
        ),
{
    assert(changes.push(c).drop_last() =~= changes);
}

/// A sync whose counters are those of its changes.
spec fn keeps_count(s: SyncState) -> bool {
    &&& puts_in(s.tally.changes) <= s.tally.changes.len()
    &&& counts(s.result, s.tally.changes)
}

proof fn lemma_cuts_counted(s: SyncState, ids: Seq<u32>, fallback: Option<u32>)
    requires
        keeps_count(s),
    ensures
        keeps_count(snapshot::discs_cut(s, ids, fallback)),
        keeps_count(snapshot::agents_cut(s, ids)),
    decreases ids.len(),
{
    if ids.len() > 0 {
        let init = ids.drop_last();
        let last = ids.last();
        lemma_cuts_counted(s, init, fallback);
        let t = snapshot::discs_cut(s, init, fallback);
        let v = t.tally.inventory;
        lemma_counted_on(
            t.result,
            t.tally.changes,
            ItemChange::DiscRemoved { uid: last, id: snapshot::disc_id(v, last) },
        );
        let t = snapshot::agents_cut(s, init);
        lemma_counted_on(t.result, t.tally.changes, ItemChange::AgentRemoved { id: last });
    }
}

proof fn lemma_puts_counted(
    t: SyncState,
    disc: DiscInfoView,
    engine: WeaponInfo,
    agent: AgentInfoView,
)
    requires
        keeps_count(t),
    ensures
        ({
            let a = snapshot::disc_put(t.tally, disc).changes;
            let b = snapshot::engine_put(t.tally, engine).changes;
            let c = snapshot::agent_put(t.tally, agent).changes;
            let result = snapshot::counted_upsert(t.result);
            &&& puts_in(a) <= a.len() && counts(result, a)
            &&& puts_in(b) <= b.len() && counts(result, b)
            &&& puts_in(c) <= c.len() && counts(result, c)
        }),
{
    let changes = t.tally.changes;
    let a = snapshot::disc_put(t.tally, disc).changes;
    let b = snapshot::engine_put(t.tally, engine).changes;
    let c = snapshot::agent_put(t.tally, agent).changes;
    lemma_counted_on(t.result, changes, a.last());
    lemma_counted_on(t.result, changes, b.last());
    lemma_counted_on(t.result, changes, c.last());
    assert(a =~= changes.push(a.last()));
    assert(b =~= changes.push(b.last()));
    assert(c =~= changes.push(c.last()));
}

proof fn lemma_syncs_counted(s: SyncState, fields: Seq<FieldView>, datamine: Datamine)
    requires
        keeps_count(s),
    ensures
        keeps_count(item_sync(s, fields, datamine)),
        keeps_count(avatar_sync(s, fields, datamine)),
    decreases fields.len(),
{
    if fields.len() > 0 {
        let init = fields.drop_last();
        let field = fields.last();
        lemma_syncs_counted(s, init, datamine);
        let t = item_sync(s, init, datamine);
        let u = avatar_sync(s, init, datamine);
        let ids = snapshot::loose_uints(field.value);
        lemma_cuts_counted(t, ids, None);
        lemma_cuts_counted(t, ids, Some(field.number));
        lemma_cuts_counted(u, ids, None);
        if let Some(nested) = proto::message_of(field.value) {
            let disc = model::disc_in(nested, datamine);
            let engine = model::weapon_in(nested, datamine);
            let agent = model::agent_in(nested, datamine);
            lemma_puts_counted(t, disc, engine, agent);
            lemma_puts_counted(u, disc, engine, agent);
        }
    }
}

proof fn lemma_player_sync_counted(s: SyncState, fields: Seq<FieldView>, datamine: Datamine)
    requires
        keeps_count(s),
    ensures
        keeps_count(player_sync(s, fields, datamine)),
    decreases fields.len(),
{
    if fields.len() > 0 {
        lemma_player_sync_counted(s, fields.drop_last(), datamine);
        if let Some(nested) = proto::message_of(fields.last().value) {
            lemma_syncs_counted(player_sync(s, fields.drop_last(), datamine), nested, datamine);
        }
    }
}

proof fn lemma_loads_counted(t: Tally, messages: Seq<Seq<FieldView>>, datamine: Datamine)
    ensures
        snapshot::discs_loaded(t, messages, datamine).changes.len() == t.changes.len()
            + messages.len(),
        snapshot::engines_loaded(t, messages, datamine).changes.len() == t.changes.len()
            + messages.len(),
        snapshot::agents_loaded(t, messages, datamine).changes.len() == t.changes.len()
            + messages.len(),
    decreases messages.len(),
{
    if messages.len() > 0 {
        lemma_loads_counted(t, messages.drop_last(), datamine);
    }
}

/// The counters that are reported of a player sync are those of its changes, and a response with
/// all discs, w-engines or agents counts one change for each record.
pub proof fn law_counters_count_the_changes(
    v: InventoryView,
    command_id: u16,
    fields: Seq<FieldView>,
    datamine: Datamine,
)
    requires
        fields.len() <= usize::MAX,
    ensures
        ({
            let events = applied(v, command_id, fields, datamine).1;
            let changes = reported(events);
            forall|i: int|
                0 <= i < events.len() ==> match #[trigger] events[i] {
                    ExtractEventView::PlayerSync(result) => counts(result, changes),
                    ExtractEventView::Discs { upserted } => upserted as nat == changes.len(),
                    ExtractEventView::Weapons { upserted } => upserted as nat == changes.len(),
                    ExtractEventView::Avatars { upserted } => upserted as nat == changes.len(),
                    _ => true,
                }
        }),
{
    let s = begun(v);
    lemma_player_sync_counted(s, fields, datamine);
    lemma_sync_events(s, fields, datamine);
    let discs = snapshot::messages_in(fields, datamine.equip_data.discs);
    let engines = snapshot::messages_in(fields, datamine.weapon_data.weapons);
    let agents = snapshot::messages_in(fields, datamine.agent_data.agents);
    lemma_loads_counted(s.tally, discs, datamine);
    lemma_loads_counted(s.tally, engines, datamine);
    lemma_loads_counted(s.tally, agents, datamine);
    lemma_messages_few(fields, datamine.equip_data.discs);
    lemma_messages_few(fields, datamine.weapon_data.weapons);
    lemma_messages_few(fields, datamine.agent_data.agents);
}

proof fn lemma_messages_few(fields: Seq<FieldView>, number: u32)
    ensures
        snapshot::messages_in(fields, number).len() <= fields.len(),
    decreases fields.len(),
{
    if fields.len() > 0 {
        lemma_messages_few(fields.drop_last(), number);
    }
}

/// Reports of a removal from an unknown field, and nothing else.
spec fn only_fallbacks(events: Seq<ExtractEventView>) -> bool {
    forall|i: int| 0 <= i < events.len() ==> (#[trigger] events[i]) is FallbackRemoval
}

proof fn lemma_cut_events(s: SyncState, ids: Seq<u32>, fallback: Option<u32>)
    requires
        only_fallbacks(s.events),
    ensures
        only_fallbacks(snapshot::discs_cut(s, ids, fallback).events),
        only_fallbacks(snapshot::agents_cut(s, ids).events),
    decreases ids.len(),
{
    if ids.len() > 0 {
        lemma_cut_events(s, ids.drop_last(), fallback);
    }
}

proof fn lemma_nested_events(s: SyncState, fields: Seq<FieldView>, datamine: Datamine)
    requires
        only_fallbacks(s.events),
    ensures
        only_fallbacks(item_sync(s, fields, datamine).events),
        only_fallbacks(avatar_sync(s, fields, datamine).events),
    decreases fields.len(),
{
    if fields.len() > 0 {
        let init = fields.drop_last();
        lemma_nested_events(s, init, datamine);
        let ids = snapshot::loose_uints(fields.last().value);
        lemma_cut_events(item_sync(s, init, datamine), ids, None);
        lemma_cut_events(item_sync(s, init, datamine), ids, Some(fields.last().number));
        lemma_cut_events(avatar_sync(s, init, datamine), ids, None);
    }
}

proof fn lemma_sync_events(s: SyncState, fields: Seq<FieldView>, datamine: Datamine)
    requires
        only_fallbacks(s.events),
    ensures
        only_fallbacks(player_sync(s, fields, datamine).events),
    decreases fields.len(),
{
    if fields.len() > 0 {
        lemma_sync_events(s, fields.drop_last(), datamine);
        if let Some(nested) = proto::message_of(fields.last().value) {
            lemma_nested_events(player_sync(s, fields.drop_last(), datamine), nested, datamine);
        }
    }
}

/// The counters of the changes: added, updated and removed of discs, w-engines and agents.
pub open spec fn change_counters(s: snapshot::SummaryView) -> Seq<u64> {
    seq![
        s.discs_added,
        s.discs_updated,
        s.discs_removed,
        s.engines_added,
        s.engines_updated,
        s.engines_removed,
        s.agents_added,
        s.agents_updated,
        s.agents_removed,
    ]
}

/// Which of the counters a change belongs to.
pub open spec fn counter_of(change: ItemChange) -> int {
    match change {
        ItemChange::DiscAdded { .. } => 0,
        ItemChange::DiscUpdated { .. } => 1,
        ItemChange::DiscRemoved { .. } => 2,
        ItemChange::EngineAdded { .. } => 3,
        ItemChange::EngineUpdated { .. } => 4,
        ItemChange::EngineRemoved { .. } => 5,
        ItemChange::AgentAdded { .. } => 6,
        ItemChange::AgentUpdated { .. } => 7,
        ItemChange::AgentRemoved { .. } => 8,
    }
}

/// The counters of the messages.
pub open spec fn message_counters(s: snapshot::SummaryView) -> Seq<u64> {
    seq![
        s.player_syncs,
        s.sync_upserts,
        s.sync_removals,
        s.dismantles,
        s.dismantle_removals,
        s.disc_loads,
        s.weapon_loads,
        s.avatar_loads,
    ]
}

/// How often a counter's kind of change occurs.
pub open spec fn changes_of(changes: Seq<ItemChange>, counter: int) -> nat
    decreases changes.len(),
{
    if changes.len() == 0 {
        0
    } else {
        changes_of(changes.drop_last(), counter) + if counter_of(changes.last()) == counter {
            1nat
        } else {
            0nat
        }
    }
}

/// Changes are counted by their kind, each under its own counter, and nothing else is.
pub proof fn law_changes_are_counted_by_kind(
    s: snapshot::SummaryView,
    changes: Seq<ItemChange>,
    i: int,
)
    requires
        0 <= i < 9,
        change_counters(s)[i] + changes.len() <= u64::MAX,
    ensures
        ({
            let after = snapshot::event_counted(s, ExtractEventView::Changes(changes));
            &&& change_counters(after)[i] == change_counters(s)[i] + changes_of(changes, i)
            &&& message_counters(after) == message_counters(s)
            &&& after.fallback_removals == s.fallback_removals
        }),
    decreases changes.len(),
{
    if changes.len() > 0 {
        law_changes_are_counted_by_kind(s, changes.drop_last(), i);
        lemma_changes_bound(changes.drop_last(), i);
        let before = snapshot::changes_counted(s, changes.drop_last());
        let after = snapshot::changes_counted(s, changes);
        assert(after == snapshot::change_counted(before, changes.last()));
        assert(message_counters(after) =~= message_counters(before));
    }
}

proof fn lemma_changes_bound(changes: Seq<ItemChange>, counter: int)
    ensures
        changes_of(changes, counter) <= changes.len(),
    decreases changes.len(),
{
    if changes.len() > 0 {
        lemma_changes_bound(changes.drop_last(), counter);
    }
}

/// Each message is counted by its kind: a sync with what it brought and took, a dismantling with
/// what it took, and a load as one. A removal by a field that has no name is listed.
pub proof fn law_messages_are_counted_by_kind(
    s: snapshot::SummaryView,
    result: snapshot::SyncResult,
    upserted: usize,
    uid: u32,
    field: u32,
)
    ensures
        ({
            let c = message_counters(s);
            let sync = message_counters(
                snapshot::event_counted(s, ExtractEventView::PlayerSync(result)),
            );
            let dismantle = message_counters(
                snapshot::event_counted(s, ExtractEventView::Dismantle(result)),
            );
            let discs = message_counters(
                snapshot::event_counted(s, ExtractEventView::Discs { upserted }),
            );
            let engines = message_counters(
                snapshot::event_counted(s, ExtractEventView::Weapons { upserted }),
            );
            let agents = message_counters(
                snapshot::event_counted(s, ExtractEventView::Avatars { upserted }),
            );
            let fallback = snapshot::event_counted(
                s,
                ExtractEventView::FallbackRemoval { uid, field },
            );
            &&& sync == c.update(0, c[0].wrapping_add(1)).update(
                1,
                c[1].wrapping_add(result.upserts as u64),
            ).update(2, c[2].wrapping_add(result.removals as u64))
            &&& dismantle == c.update(3, c[3].wrapping_add(1)).update(
                4,
                c[4].wrapping_add(result.removals as u64),
            )
            &&& discs == c.update(5, c[5].wrapping_add(1))
            &&& engines == c.update(6, c[6].wrapping_add(1))
            &&& agents == c.update(7, c[7].wrapping_add(1))
            &&& message_counters(fallback) == c
            &&& fallback.fallback_removals == s.fallback_removals.push((uid, field))
            &&& change_counters(fallback) == change_counters(s)
        }),
{
}

/// A disc that goes by a field without a name is reported with that field, one that goes by the
/// named field is not, and a uid that is not held is neither reported nor counted.
pub proof fn law_unnamed_removals_are_reported(s: SyncState, uid: u32, field: u32)
    ensures
        ({
            let named = snapshot::discs_cut(s, seq![uid], None);
            let unnamed = snapshot::discs_cut(s, seq![uid], Some(field));
            let held = disc_held(s.tally.inventory, uid) is Some;
            &&& named.events == s.events
            &&& held ==> unnamed.events == s.events.push(
                ExtractEventView::FallbackRemoval { uid, field },
            )
            &&& !held ==> unnamed.events == s.events
            &&& unnamed.tally == named.tally
            &&& unnamed.result == named.result
            &&& !held ==> named.result == s.result && named.tally == s.tally
        }),
{
    reveal_with_fuel(snapshot::discs_cut, 2);
    assert(seq![uid].drop_last() =~= Seq::empty());
    lookup::lemma_index_first(s.tally.inventory.discs, snapshot::is_disc(uid));
}

} // verus!
