//! Sessions, decoding, the model and the inventory.
use std::collections::BTreeMap;
use zzzcap::b64::b64_encode;
use zzzcap::datamine;
use zzzcap::datamine::{
    AgentData, AgentInfoFields, Datamine, DiscInfoFields, DiscStatFields, EquipData,
    EquipDismantle, SyncAvatarData, SyncItemData, WeaponData, WeaponInfoFields,
};
use zzzcap::kcp::{Direction, MessageHeader, SegmentHeader};
use zzzcap::model::{
    rarity_key, stat_info, AgentInfo, DiscInfo, DiscStat, DressedEquip, StatInfo, WeaponInfo,
    STAT_MAP,
};
use zzzcap::netrand::{client_rand_key, seed_from_unix_seconds};
use zzzcap::proto::{Field, Message, ProtoError, Value};
use zzzcap::protonap::{ProtoEntry, ProtoEntryField, Protonap};
use zzzcap::rsa;
use zzzcap::rsa::Key;
use zzzcap::scan::{DecodeEvent, Decoder, Scanner};
use zzzcap::session::{Session, SessionError, BRUTE_FORCE_WINDOW_SECONDS};
use zzzcap::snapshot::{
    collect_uints, ExtractEvent, ExtractSummary, Inventory, ItemChange, SyncResult, Upsert,
};
use zzzcap::xor_fields::xor_proto_fields;
use zzzcap::xorpad;
use zzzcap::xorpad::XorPad;

/// Command and field numbers.
fn datamine() -> Datamine {
    let seed = |region: &str, seed: &str| (region.to_string(), seed.to_string());
    Datamine {
        xor_seeds: vec![
            seed("America", "57A90ABCAEA7F3C5"),
            seed("Asia", "1A7E69FE2F49590A"),
            seed("Europe", "9543521FC9C8CAED"),
            seed("TW,HK,MO", "883B27204BF725D3"),
        ],
        cmd_player_get_token_sc_rsp: 4937,
        cmd_get_equip_data_sc_rsp: 1664,
        cmd_get_weapon_data_sc_rsp: 3318,
        cmd_get_avatar_data_sc_rsp: 2470,
        cmd_player_sync_sc_notify: 1175,
        cmd_dismantle_equip_cs_req: 6021,
        sync_avatar_data: SyncAvatarData { avatar_sync: 15, avatars: 9, dels: 4 },
        sync_item_data: SyncItemData { item_sync: 13, equips: 5, weapons: 3, deleted_equips: 8 },
        equip_dismantle: EquipDismantle { uid: 2, uids: 11 },
        agent_data: AgentData { agents: 6 },
        agent_info: AgentInfoFields {
            id: 1,
            level: 2,
            promotion: 3,
            weapon_uid: 12,
            mindscape: 5,
            skills: 7,
            dressed_equips: 8,
        },
        agent_skill: datamine::AvatarSkillLevel { skill_type: 1, level: 2 },
        agent_equip: datamine::DressedEquip { uid: 3, slot: 4 },
        equip_data: EquipData { discs: 14 },
        disc_info: DiscInfoFields { uid: 10, id: 11, level: 12, main_stat: 13, sub_stats: 14 },
        disc_stat: DiscStatFields { key: 5, base_value: 6, add_value: 7 },
        weapon_data: WeaponData { weapons: 1 },
        weapon_info: WeaponInfoFields { id: 2, uid: 3, level: 4, phase: 5, modification: 6 },
    }
}

/// A key made for these tests.
const KEY_XML: &str = "<RSAKeyValue><Modulus>2ZCxWPzbGcRYVI7NqLrW84Z756gCCBaIzBUdlyz4IeP4xyQGlrFpk0tUbG7ygNt+JbIeje9cmdR5fs0QJQn7/4mENWWgLkoSIBYNBm0ge4CID0/QwZ83Oa2EdyKqzwKyVH//gDCMUO0ISNaHxbbWbLVnAQTR+EmX31rZijej4L8=</Modulus><Exponent>AQAB</Exponent><D>Ja6o+Oe6ryjRv7uIJVxPFJjLZyEzUOFOSkKyAFgalgwdL6iut3T8+zUF504EFItvuumx3xWBLWeer3anADNNgPA0K1MPGOV2XN6W14As6UBxGW5b3fOURsD9KunUck2Ou7beBncRZN0HZiYkdYIqa33TjO2X0kQS536DjkbSotE=</D></RSAKeyValue>";

fn test_key() -> Key {
    rsa::key(KEY_XML).expect("the key parses")
}

fn scalar(number: i32, xor_value: u32) -> ProtoEntryField {
    ProtoEntryField {
        number,
        name: format!("s{number}"),
        type_ref: "uint32".to_string(),
        xor_value: Some(xor_value),
        is_native_type: true,
        is_enum: false,
        repeated: false,
    }
}

fn submessage(number: i32, type_ref: &str) -> ProtoEntryField {
    ProtoEntryField {
        number,
        name: format!("m{number}"),
        type_ref: type_ref.to_string(),
        xor_value: None,
        is_native_type: false,
        is_enum: false,
        repeated: true,
    }
}

/// Descriptors that mask the uids of discs.
fn descriptors() -> Vec<ProtoEntry> {
    let entry = |cmd_id: Option<u16>, name: &str, fields: Vec<ProtoEntryField>| ProtoEntry {
        cmd_id,
        name: name.to_string(),
        fields,
    };
    vec![
        entry(Some(1175), "PlayerSync", vec![submessage(13, "ItemSync")]),
        entry(None, "ItemSync", vec![submessage(5, "Disc")]),
        entry(None, "Disc", vec![scalar(10, 0x1234)]),
        entry(Some(1664), "EquipData", vec![submessage(14, "Disc")]),
    ]
}

#[test]
fn the_stat_table_matches_the_cpp_header() {
    assert_eq!(STAT_MAP.len(), 20);
    assert_eq!(
        stat_info(11102),
        Some(StatInfo {
            name: "hp_",
            is_percentage: true
        })
    );
    assert_eq!(
        stat_info(31203),
        Some(StatInfo {
            name: "anomProf",
            is_percentage: false
        })
    );
    assert_eq!(stat_info(0), None);
    // Names are unique, which is what makes them usable as export keys.
    let mut names: Vec<&str> = STAT_MAP.iter().map(|(_, name, _)| *name).collect();
    names.sort_unstable();
    names.dedup();
    assert_eq!(names.len(), STAT_MAP.len());
}

#[test]
fn disc_ids_decode_into_rarity_slot_and_set() {
    let disc = DiscInfo {
        id: 31244,
        ..DiscInfo::default()
    };
    assert_eq!(disc.set_id(), 31200);
    assert_eq!(disc.rarity(), 5);
    assert_eq!(disc.slot(), 4);

    let disc = DiscInfo {
        id: 31003,
        ..DiscInfo::default()
    };
    assert_eq!(disc.set_id(), 31000);
    assert_eq!(disc.rarity(), 1);
    assert_eq!(disc.slot(), 3);

    assert_eq!(rarity_key(3), Some("B"));
    assert_eq!(rarity_key(5), Some("S"));
    assert_eq!(rarity_key(1), None);
}

#[test]
fn parses_a_disc_with_a_main_stat_and_substats() {
    let datamine = datamine();
    let stat = |key: u32, base: u64, add: u64| Message {
        fields: vec![
            Field::new(datamine.disc_stat.key, Value::Varint(u64::from(key))),
            Field::new(datamine.disc_stat.base_value, Value::Varint(base)),
            Field::new(datamine.disc_stat.add_value, Value::Varint(add)),
        ],
    };
    let message = Message {
        fields: vec![
            Field::new(datamine.disc_info.uid, Value::Varint(15916)),
            Field::new(datamine.disc_info.id, Value::Varint(31204)),
            Field::new(datamine.disc_info.level, Value::Varint(15)),
            Field::new(
                datamine.disc_info.main_stat,
                Value::LengthDelimited(stat(11103, 550, 0).encode()),
            ),
            Field::new(
                datamine.disc_info.sub_stats,
                Value::LengthDelimited(stat(20103, 240, 2).encode()),
            ),
            Field::new(
                datamine.disc_info.sub_stats,
                Value::LengthDelimited(stat(12103, 19, 0).encode()),
            ),
        ],
    };

    let disc = DiscInfo::from_message(&message, &datamine);
    assert_eq!(disc.uid, 15916);
    assert_eq!(disc.id, 31204);
    assert_eq!(disc.level, 15);
    assert_eq!(disc.main_stat.stat_name(), Some("hp"));
    assert_eq!(disc.main_stat.base_value, 550);
    assert_eq!(disc.sub_stats.len(), 2);
    assert_eq!(disc.sub_stats[0].stat_name(), Some("crit_"));
    assert!(disc.sub_stats[0].is_percentage());
    assert_eq!(disc.sub_stats[0].add_value, 2);
    assert_eq!(disc.sub_stats[1].stat_name(), Some("atk"));
    // An id the table does not know is reported, not fatal.
    let unknown = DiscStat {
        key: 999_999,
        ..DiscStat::default()
    };
    assert_eq!(unknown.stat_name(), None);
    assert!(!unknown.is_percentage());
}

#[test]
fn a_scalar_field_takes_the_last_occurrence() {
    let datamine = datamine();
    let message = Message {
        fields: vec![
            Field::new(datamine.disc_info.uid, Value::Varint(1)),
            Field::new(datamine.disc_info.uid, Value::Varint(2)),
        ],
    };
    assert_eq!(DiscInfo::from_message(&message, &datamine).uid, 2);

    // A field of the wrong wire type is ignored rather than read as a varint.
    let message = Message {
        fields: vec![Field::new(
            datamine.disc_info.uid,
            Value::LengthDelimited(vec![1, 2, 3]),
        )],
    };
    assert_eq!(DiscInfo::from_message(&message, &datamine).uid, 0);
}

#[test]
fn an_unparseable_nested_stat_becomes_an_empty_one() {
    let datamine = datamine();
    let message = Message {
        fields: vec![
            Field::new(
                datamine.disc_info.main_stat,
                Value::LengthDelimited(vec![0xFF, 0xFF]),
            ),
            Field::new(
                datamine.disc_info.sub_stats,
                Value::LengthDelimited(vec![0xFF, 0xFF]),
            ),
        ],
    };
    let disc = DiscInfo::from_message(&message, &datamine);
    assert_eq!(disc.main_stat, DiscStat::default());
    assert_eq!(disc.sub_stats.len(), 1);
    assert_eq!(disc.sub_stats[0], DiscStat::default());
}

#[test]
fn parses_agents_engines_and_their_nested_entries() {
    let datamine = datamine();
    let skill = |kind: u64, level: u64| {
        Message {
            fields: vec![
                Field::new(datamine.agent_skill.skill_type, Value::Varint(kind)),
                Field::new(datamine.agent_skill.level, Value::Varint(level)),
            ],
        }
        .encode()
    };
    let equip = Message {
        fields: vec![
            Field::new(datamine.agent_equip.uid, Value::Varint(77)),
            Field::new(datamine.agent_equip.slot, Value::Varint(3)),
        ],
    }
    .encode();

    let agent_message = Message {
        fields: vec![
            Field::new(datamine.agent_info.id, Value::Varint(1581)),
            Field::new(datamine.agent_info.level, Value::Varint(60)),
            Field::new(datamine.agent_info.promotion, Value::Varint(6)),
            Field::new(datamine.agent_info.weapon_uid, Value::Varint(15031)),
            Field::new(datamine.agent_info.mindscape, Value::Varint(2)),
            Field::new(
                datamine.agent_info.skills,
                Value::LengthDelimited(skill(0, 12)),
            ),
            Field::new(
                datamine.agent_info.skills,
                Value::LengthDelimited(skill(1, 11)),
            ),
            Field::new(
                datamine.agent_info.dressed_equips,
                Value::LengthDelimited(equip),
            ),
        ],
    };
    let agent = AgentInfo::from_message(&agent_message, &datamine);
    assert_eq!(agent.id, 1581);
    assert_eq!(agent.level, 60);
    assert_eq!(agent.promotion, 6);
    assert_eq!(agent.weapon_uid, 15031);
    assert_eq!(agent.mindscape, 2);
    assert_eq!(agent.skills.len(), 2);
    assert_eq!(agent.skill_level(0), Some(12));
    assert_eq!(agent.skill_level(1), Some(11));
    // The export indexes six skills positionally; a short list is `None`.
    assert_eq!(agent.skill_level(5), None);
    assert_eq!(
        agent.dressed_equips,
        vec![DressedEquip { uid: 77, slot: 3 }]
    );

    let weapon_message = Message {
        fields: vec![
            Field::new(datamine.weapon_info.id, Value::Varint(15031)),
            Field::new(datamine.weapon_info.uid, Value::Varint(15031)),
            Field::new(datamine.weapon_info.level, Value::Varint(60)),
            Field::new(datamine.weapon_info.phase, Value::Varint(1)),
            Field::new(datamine.weapon_info.modification, Value::Varint(5)),
        ],
    };
    let weapon = WeaponInfo::from_message(&weapon_message, &datamine);
    assert_eq!(
        weapon,
        WeaponInfo {
            id: 15031,
            uid: 15031,
            level: 60,
            phase: 1,
            modification: 5,
        }
    );
}

const SERVER_RAND_KEY: u64 = 0x1122_3344_5566_7788;
const LOGIN_TIME: i64 = 1_760_000_000;

/// The answer to the token request: a base64 RSA block among unrelated fields.
fn token_body(server_rand_key: u64) -> Vec<u8> {
    let ciphertext =
        rsa::encrypt_block(&test_key(), &server_rand_key.to_le_bytes()).expect("encrypts");
    let mut message = Message::default();
    // A field that is not base64 at all must be skipped, not fatal.
    message.fields.push(Field::new(1, Value::LengthDelimited(vec![0xFF, 0x00, 0xFE])));
    message.fields.push(Field::new(
        9,
        Value::LengthDelimited(b64_encode(&ciphertext).into_bytes()),
    ));
    message.encode()
}

#[test]
fn extracts_the_server_key_from_the_token_response() {
    let body = token_body(SERVER_RAND_KEY);
    assert_eq!(
        Session::extract_server_rand_key(&body, &test_key()).unwrap(),
        SERVER_RAND_KEY
    );
}

#[test]
fn reports_a_token_response_without_a_usable_key() {
    // Parses as protobuf, but no field decrypts to 8 bytes.
    let mut message = Message::default();
    message.fields.push(Field::new(
        1,
        Value::LengthDelimited(b"not base64".to_vec()),
    ));
    assert_eq!(
        Session::extract_server_rand_key(&message.encode(), &test_key()),
        Err(SessionError::ServerRandKeyNotFound)
    );
    // Base64 of the wrong length is skipped for the same reason.
    let mut message = Message::default();
    message.fields.push(Field::new(
        1,
        Value::LengthDelimited(b64_encode(&[0u8; 16]).into_bytes()),
    ));
    assert_eq!(
        Session::extract_server_rand_key(&message.encode(), &test_key()),
        Err(SessionError::ServerRandKeyNotFound)
    );

    assert!(matches!(
        Session::extract_server_rand_key(&[0xFF, 0xFF, 0xFF], &test_key()),
        Err(SessionError::Protobuf(_))
    ));
}

#[test]
fn brute_forces_the_seed_from_a_body_it_encrypted_itself() {
    // A realistic body: hundreds of bytes, not the 32-byte minimum.
    let plain = Message {
        fields: vec![Field::new(3, Value::LengthDelimited(vec![0x5A; 200]))],
    }
    .encode();
    let seed = seed_from_unix_seconds(LOGIN_TIME - 7);
    let session_key = SERVER_RAND_KEY ^ client_rand_key(seed);
    let wire = xorpad::xor_bytes(&plain, &xorpad::session(session_key));

    let found = Session::brute_force_client_rand_key(
        SERVER_RAND_KEY,
        &wire,
        LOGIN_TIME,
        BRUTE_FORCE_WINDOW_SECONDS,
    )
    .expect("the seed is inside the window");

    assert_eq!(found.seed, seed);
    assert_eq!(found.delta, -7);
    assert_eq!(found.session_key, session_key);
    let restored = Message::decode(&xorpad::xor_bytes(
        &wire,
        &xorpad::session(found.session_key),
    ))
    .unwrap();
    assert_eq!(restored, Message::decode(&plain).unwrap());
}

#[test]
fn brute_force_gives_up_outside_the_window() {
    let plain = Message {
        fields: vec![Field::new(3, Value::LengthDelimited(vec![0x5A; 200]))],
    }
    .encode();
    let seed = seed_from_unix_seconds(LOGIN_TIME - 5_000);
    let session_key = SERVER_RAND_KEY ^ client_rand_key(seed);
    let wire = xorpad::xor_bytes(&plain, &xorpad::session(session_key));

    assert_eq!(
        Session::brute_force_client_rand_key(SERVER_RAND_KEY, &wire, LOGIN_TIME, 1800),
        None
    );
    // Narrowing the window to nothing but the true second does find it.
    assert!(Session::brute_force_client_rand_key(
        SERVER_RAND_KEY,
        &wire,
        LOGIN_TIME - 5_000,
        0
    )
    .is_some());
}

#[test]
fn the_session_pad_replaces_the_region_pad_once_derived() {
    let region_pad = XorPad::for_region(0x9543_521F_C9C8_CAED);
    let mut session = Session::new(region_pad.clone());
    assert!(!session.pad_ready());
    assert_eq!(session.pad(), &region_pad);

    // Deriving needs the server half first, exactly like the capture order.
    session.server_rand_key = Some(SERVER_RAND_KEY);

    let plain = Message {
        fields: vec![Field::new(3, Value::LengthDelimited(vec![0x5A; 200]))],
    }
    .encode();
    let seed = seed_from_unix_seconds(LOGIN_TIME);
    let session_key = SERVER_RAND_KEY ^ client_rand_key(seed);
    let wire = xorpad::xor_bytes(&plain, &xorpad::session(session_key));

    let found = session.derive_session_key(&wire, LOGIN_TIME).unwrap();
    assert_eq!(found.delta, 0);
    assert!(session.pad_ready());
    assert_eq!(session.session_key, Some(session_key));
    assert_eq!(session.pad(), &XorPad::for_session(session_key));

    // The region pad leaves this body as noise; the session pad restores it.
    assert_ne!(xorpad::xor_bytes(&wire, region_pad.bytes()), plain);
    assert_eq!(session.decrypt_body(&wire), plain);
}

#[test]
fn deriving_without_the_server_key_does_nothing() {
    let mut session = Session::new(XorPad::for_region(1));
    assert_eq!(session.derive_session_key(&[0u8; 64], LOGIN_TIME), None);
    assert!(!session.pad_ready());
}

#[test]
fn session_errors_are_told_in_words() {
    assert_ne!(
        SessionError::ServerRandKeyNotFound.to_string(),
        SessionError::Protobuf(ProtoError::Truncated).to_string()
    );
}

#[test]
fn the_earliest_second_of_the_window_wins() {
    // An empty body is a message whatever the pad is, so the first second tried is taken.
    let found = Session::brute_force_client_rand_key(1, &[], LOGIN_TIME, 3).unwrap();
    assert_eq!(found.delta, -3);
    assert_eq!(found.seed, seed_from_unix_seconds(LOGIN_TIME - 3));
    assert_eq!(found.session_key, 1 ^ found.client_rand_key);
}

fn varint(mut value: u64) -> Vec<u8> {
    let mut out = Vec::new();
    loop {
        let byte = (value & 0x7F) as u8;
        value >>= 7;
        if value == 0 {
            out.push(byte);
            return out;
        }
        out.push(byte | 0x80);
    }
}

fn packed(values: &[u32]) -> Vec<u8> {
    values
        .iter()
        .flat_map(|value| varint(u64::from(*value)))
        .collect()
}

fn disc(uid: u64, id: u64, level: u64) -> Vec<u8> {
    let datamine = datamine();
    Message {
        fields: vec![
            Field::new(datamine.disc_info.uid, Value::Varint(uid)),
            Field::new(datamine.disc_info.id, Value::Varint(id)),
            Field::new(datamine.disc_info.level, Value::Varint(level)),
        ],
    }
    .encode()
}

fn engine(uid: u64, id: u64) -> Vec<u8> {
    let datamine = datamine();
    Message {
        fields: vec![
            Field::new(datamine.weapon_info.uid, Value::Varint(uid)),
            Field::new(datamine.weapon_info.id, Value::Varint(id)),
        ],
    }
    .encode()
}

fn agent(id: u64, level: u64) -> Vec<u8> {
    let datamine = datamine();
    Message {
        fields: vec![
            Field::new(datamine.agent_info.id, Value::Varint(id)),
            Field::new(datamine.agent_info.level, Value::Varint(level)),
        ],
    }
    .encode()
}

fn player_sync(
    discs: &[Vec<u8>],
    engines: &[Vec<u8>],
    deleted_discs: &[u32],
    agents: &[Vec<u8>],
    deleted_agents: &[u32],
) -> Message {
    let datamine = datamine();
    let mut item_fields = Vec::new();
    for bytes in discs {
        item_fields.push(Field::new(
            datamine.sync_item_data.equips,
            Value::LengthDelimited(bytes.clone()),
        ));
    }
    for bytes in engines {
        item_fields.push(Field::new(
            datamine.sync_item_data.weapons,
            Value::LengthDelimited(bytes.clone()),
        ));
    }
    if !deleted_discs.is_empty() {
        item_fields.push(Field::new(
            datamine.sync_item_data.deleted_equips,
            Value::LengthDelimited(packed(deleted_discs)),
        ));
    }

    let mut avatar_fields = Vec::new();
    for bytes in agents {
        avatar_fields.push(Field::new(
            datamine.sync_avatar_data.avatars,
            Value::LengthDelimited(bytes.clone()),
        ));
    }
    if !deleted_agents.is_empty() {
        avatar_fields.push(Field::new(
            datamine.sync_avatar_data.dels,
            Value::LengthDelimited(packed(deleted_agents)),
        ));
    }

    Message {
        fields: vec![
            Field::new(
                datamine.sync_avatar_data.avatar_sync,
                Value::LengthDelimited(
                    Message {
                        fields: avatar_fields,
                    }
                    .encode(),
                ),
            ),
            Field::new(
                datamine.sync_item_data.item_sync,
                Value::LengthDelimited(
                    Message {
                        fields: item_fields,
                    }
                    .encode(),
                ),
            ),
        ],
    }
}

#[test]
fn an_upsert_replaces_in_place_and_always_reports_changed() {
    let mut inventory = Inventory::new();
    assert_eq!(
        inventory.upsert_disc(DiscInfo {
            uid: 1,
            level: 5,
            ..DiscInfo::default()
        }),
        (true, Upsert::Added)
    );
    assert_eq!(
        inventory.upsert_disc(DiscInfo {
            uid: 1,
            level: 9,
            ..DiscInfo::default()
        }),
        (true, Upsert::Updated)
    );
    assert_eq!(inventory.discs.len(), 1);
    assert_eq!(inventory.discs[0].level, 9);

    assert_eq!(
        inventory.upsert_engine(WeaponInfo {
            uid: 2,
            ..WeaponInfo::default()
        }),
        (true, Upsert::Added)
    );
    let (changed, kind, _) = inventory.upsert_agent(AgentInfo {
        id: 3,
        ..AgentInfo::default()
    });
    assert!(changed);
    assert_eq!(kind, Upsert::Added);
    assert!(!inventory.is_empty());
    // Removal reports whether anything matched, which is what the callers
    // count as a removal.
    assert!(inventory.remove_disc(1));
    assert!(!inventory.remove_disc(1));
    assert!(inventory.remove_engine(2));
    assert!(inventory.remove_agent(3));
    assert!(inventory.is_empty());
}

#[test]
fn a_player_sync_upserts_discs_engines_and_agents() {
    let datamine = datamine();
    let mut inventory = Inventory::new();
    let message = player_sync(
        &[disc(15916, 31204, 15), disc(15917, 31204, 12)],
        &[engine(15031, 15031)],
        &[],
        &[agent(1581, 60)],
        &[],
    );

    let mut events = Vec::new();
    let mut changes = Vec::new();
    let result = inventory.apply_player_sync(&message, &datamine, &mut events, &mut changes);
    assert!(result.changed);
    // Two discs, one engine and one agent: the avatar sync upserts too.
    assert_eq!(result.upserts, 4);
    assert_eq!(result.removals, 0);
    assert!(events.is_empty(), "no fallback was needed: {events:?}");
    assert_eq!(inventory.discs.len(), 2);
    assert_eq!(inventory.discs[0].uid, 15916);
    assert_eq!(inventory.discs[0].id, 31204);
    assert_eq!(inventory.discs[0].level, 15);
    assert_eq!(inventory.engines.len(), 1);
    assert_eq!(inventory.engines[0].id, 15031);
    assert_eq!(inventory.agents.len(), 1);
    assert_eq!(inventory.agents[0].id, 1581);
    assert_eq!(inventory.agents[0].level, 60);
}

#[test]
fn a_player_sync_deletes_discs_and_agents() {
    let datamine = datamine();
    let mut inventory = Inventory::new();
    inventory.upsert_disc(DiscInfo {
        uid: 15916,
        ..DiscInfo::default()
    });
    inventory.upsert_disc(DiscInfo {
        uid: 4242,
        ..DiscInfo::default()
    });
    inventory.upsert_agent(AgentInfo {
        id: 1700,
        ..AgentInfo::default()
    });

    let message = player_sync(&[], &[], &[15916], &[], &[1700]);
    let mut events = Vec::new();
    let mut changes = Vec::new();
    let result = inventory.apply_player_sync(&message, &datamine, &mut events, &mut changes);

    assert!(result.changed);
    assert_eq!(result.upserts, 0);
    assert_eq!(result.removals, 2, "one disc and one agent");
    assert_eq!(inventory.discs.len(), 1);
    assert_eq!(inventory.discs[0].uid, 4242);
    assert!(inventory.agents.is_empty());
}

#[test]
fn the_fallback_finds_a_deleted_equips_field_that_moved() {
    let datamine = datamine();
    let mut inventory = Inventory::new();
    inventory.upsert_disc(DiscInfo {
        uid: 15916,
        ..DiscInfo::default()
    });

    let mut message = player_sync(&[], &[], &[], &[], &[]);
    // A second item sync carrying the uid in an unknown field, plus a uid
    // that matches nothing and must be ignored.
    let moved = Message {
        fields: vec![Field::new(
            99,
            Value::LengthDelimited(packed(&[15916, 777])),
        )],
    };
    message.fields.push(Field::new(
        datamine.sync_item_data.item_sync,
        Value::LengthDelimited(moved.encode()),
    ));

    let mut events = Vec::new();
    let mut changes = Vec::new();
    let result = inventory.apply_player_sync(&message, &datamine, &mut events, &mut changes);
    assert!(result.changed);
    assert_eq!(result.removals, 1, "only the uid that exists is removed");
    assert!(inventory.discs.is_empty());
    assert_eq!(
        events,
        vec![ExtractEvent::FallbackRemoval {
            uid: 15916,
            field: 99
        }]
    );
}

#[test]
fn the_fallback_ignores_wire_types_it_cannot_read() {
    let datamine = datamine();
    let mut inventory = Inventory::new();
    inventory.upsert_disc(DiscInfo {
        uid: 15916,
        ..DiscInfo::default()
    });

    let mut message = player_sync(&[], &[], &[], &[], &[]);
    let moved = Message {
        fields: vec![Field::new(99, Value::Fixed32(15916))],
    };
    message.fields.push(Field::new(
        datamine.sync_item_data.item_sync,
        Value::LengthDelimited(moved.encode()),
    ));

    let mut events = Vec::new();
    let mut changes = Vec::new();
    let result = inventory.apply_player_sync(&message, &datamine, &mut events, &mut changes);
    assert!(!result.changed);
    assert_eq!(inventory.discs.len(), 1);
    assert!(events.is_empty());
}

#[test]
fn a_dismantle_removes_a_uid_from_both_lists() {
    let datamine = datamine();
    let mut inventory = Inventory::new();
    inventory.upsert_disc(DiscInfo {
        uid: 5,
        ..DiscInfo::default()
    });
    inventory.upsert_engine(WeaponInfo {
        uid: 5,
        ..WeaponInfo::default()
    });

    let message = Message {
        fields: vec![Field::new(
            datamine.equip_dismantle.uids,
            Value::LengthDelimited(packed(&[5])),
        )],
    };
    let mut changes = Vec::new();
    let result = inventory.apply_equip_dismantle(&message, &datamine, &mut changes);
    assert!(result.changed);
    assert_eq!(result.removals, 1, "one uid, counted once");
    assert!(inventory.discs.is_empty());
    assert!(inventory.engines.is_empty());
}

#[test]
fn a_dismantle_reads_packed_and_unpacked_uids() {
    let datamine = datamine();
    let mut inventory = Inventory::new();
    for uid in 1..=4 {
        inventory.upsert_disc(DiscInfo {
            uid,
            ..DiscInfo::default()
        });
    }

    // A packed list under the repeated field, plus unpacked varint entries.
    let message = Message {
        fields: vec![
            Field::new(
                datamine.equip_dismantle.uids,
                Value::LengthDelimited(packed(&[1, 2, 3])),
            ),
            Field::new(datamine.equip_dismantle.uid, Value::Varint(4)),
            // A uid nobody has: not counted.
            Field::new(datamine.equip_dismantle.uid, Value::Varint(99)),
        ],
    };
    let mut changes = Vec::new();
    let result = inventory.apply_equip_dismantle(&message, &datamine, &mut changes);
    assert_eq!(result.removals, 4);
    assert!(inventory.discs.is_empty());
}

#[test]
fn the_load_responses_fill_the_whole_inventory() {
    let datamine = datamine();
    let mut inventory = Inventory::new();

    let equip_data = Message {
        fields: (0..3)
            .map(|index| {
                Field::new(
                    datamine.equip_data.discs,
                    Value::LengthDelimited(disc(100 + index, 31204, 1)),
                )
            })
            .collect(),
    };
    let events = inventory.apply(
        datamine.cmd_get_equip_data_sc_rsp as u16,
        &equip_data,
        &datamine,
    );
    assert_eq!(
        events,
        vec![
            ExtractEvent::Discs { upserted: 3 },
            // The load reports its changes too, which is how the GUI can show
            // "the login itself added these".
            ExtractEvent::Changes(vec![
                ItemChange::DiscAdded {
                    uid: 100,
                    id: 31204,
                    level: 1,
                    rarity: 1
                },
                ItemChange::DiscAdded {
                    uid: 101,
                    id: 31204,
                    level: 1,
                    rarity: 1
                },
                ItemChange::DiscAdded {
                    uid: 102,
                    id: 31204,
                    level: 1,
                    rarity: 1
                },
            ])
        ]
    );

    let weapon_data = Message {
        fields: vec![Field::new(
            datamine.weapon_data.weapons,
            Value::LengthDelimited(engine(15031, 15031)),
        )],
    };
    let events = inventory.apply(
        datamine.cmd_get_weapon_data_sc_rsp as u16,
        &weapon_data,
        &datamine,
    );
    assert_eq!(
        events,
        vec![
            ExtractEvent::Weapons { upserted: 1 },
            ExtractEvent::Changes(vec![ItemChange::EngineAdded {
                uid: 15031,
                id: 15031,
                level: 0,
                phase: 0
            }])
        ]
    );

    let avatar_data = Message {
        fields: vec![Field::new(
            datamine.agent_data.agents,
            Value::LengthDelimited(agent(1581, 60)),
        )],
    };
    let events = inventory.apply(
        datamine.cmd_get_avatar_data_sc_rsp as u16,
        &avatar_data,
        &datamine,
    );
    assert_eq!(
        events,
        vec![
            ExtractEvent::Avatars { upserted: 1 },
            ExtractEvent::Changes(vec![ItemChange::AgentAdded {
                id: 1581,
                level: 60,
                weapon_uid: 0
            }])
        ]
    );

    assert_eq!(inventory.discs.len(), 3);
    assert_eq!(inventory.engines.len(), 1);
    assert_eq!(inventory.agents.len(), 1);

    // A message that extracts nothing still reports an empty change list —
    // every decoded message does — but nothing else.
    let unrelated = inventory.apply(4242, &Message::default(), &datamine);
    assert_eq!(unrelated, vec![ExtractEvent::Changes(Vec::new())]);
    assert_eq!(inventory.discs.len(), 3);
}

#[test]
fn the_summary_folds_the_events_it_is_given() {
    let mut summary = ExtractSummary::default();
    summary.absorb(&[
        ExtractEvent::PlayerSync(SyncResult {
            changed: true,
            upserts: 4,
            removals: 1,
        }),
        ExtractEvent::Dismantle(SyncResult {
            changed: true,
            upserts: 0,
            removals: 2,
        }),
        ExtractEvent::Discs { upserted: 3 },
        ExtractEvent::FallbackRemoval { uid: 77, field: 99 },
    ]);
    assert_eq!(summary.player_syncs, 1);
    assert_eq!(summary.sync_upserts, 4);
    assert_eq!(summary.sync_removals, 1);
    assert_eq!(summary.dismantles, 1);
    assert_eq!(summary.dismantle_removals, 2);
    assert_eq!(summary.disc_loads, 1);
    assert_eq!(summary.weapon_loads, 0);
    assert_eq!(summary.avatar_loads, 0);
    assert_eq!(summary.fallback_removals, vec![(77, 99)]);
}

#[test]
fn collect_uints_matches_the_cpp_packed_reader() {
    // A single varint field contributes one value.
    assert_eq!(collect_uints(&Value::Varint(300)), vec![300]);
    // Multi-byte varints, packed back to back.
    assert_eq!(
        collect_uints(&Value::LengthDelimited(packed(&[1, 128, 300]))),
        vec![1, 128, 300]
    );
    assert_eq!(
        collect_uints(&Value::LengthDelimited(varint(0x1_0000_0005))),
        vec![5]
    );
    // An unterminated varint stops the walk, keeping what came before it.
    let mut truncated = packed(&[7]);
    truncated.push(0x80);
    assert_eq!(collect_uints(&Value::LengthDelimited(truncated)), vec![7]);
    assert_eq!(collect_uints(&Value::Fixed32(5)), Vec::<u32>::new());
    assert_eq!(
        collect_uints(&Value::LengthDelimited(vec![])),
        Vec::<u32>::new()
    );
}

#[test]
fn changes_name_the_item_they_are_about() {
    let disc = ItemChange::DiscRemoved { uid: 5, id: 31244 };
    assert_eq!((disc.disc_uid(), disc.engine_uid(), disc.agent_id()), (Some(5), None, None));
    let engine = ItemChange::EngineRemoved { uid: 6, id: 15031 };
    assert_eq!((engine.disc_uid(), engine.engine_uid(), engine.agent_id()), (None, Some(6), None));
    let agent = ItemChange::AgentRemoved { id: 7 };
    assert_eq!((agent.disc_uid(), agent.engine_uid(), agent.agent_id()), (None, None, Some(7)));
}

#[test]
fn a_swapped_engine_shows_in_the_change() {
    let datamine = datamine();
    let mut inventory = Inventory::new();
    inventory.upsert_agent(AgentInfo { id: 1581, weapon_uid: 1, ..AgentInfo::default() });
    let message = Message {
        fields: vec![
            Field::new(datamine.agent_info.id, Value::Varint(1581)),
            Field::new(datamine.agent_info.level, Value::Varint(60)),
            Field::new(datamine.agent_info.weapon_uid, Value::Varint(2)),
        ],
    };
    let sync = player_sync(&[], &[], &[], &[message.encode()], &[]);
    let events = inventory.apply(1175, &sync, &datamine);
    assert_eq!(
        events.last(),
        Some(&ExtractEvent::Changes(vec![ItemChange::AgentUpdated {
            id: 1581,
            level: 60,
            previous_weapon_uid: 1,
            weapon_uid: 2
        }]))
    );
}

const CONV: u32 = 0x0142_C90B;
const LOGIN_SERVER_KEY: u64 = 0x0BAD_F00D_DEAD_BEEF;

fn segment(sn: u32, message: &[u8]) -> Vec<u8> {
    let header = SegmentHeader {
        conv: CONV,
        token: 0,
        cmd: 81,
        frg: 0,
        wnd: 128,
        ts: 0,
        sn,
        una: 0,
        len: message.len() as u32,
    };
    let mut out = header.encode().to_vec();
    out.extend_from_slice(message);
    out
}

fn message(command_id: u16, body: &[u8]) -> Vec<u8> {
    let header = MessageHeader {
        magic: *b"ZZZ0",
        command_id,
        head_length: 0,
        body_length: body.len() as u32,
    };
    let mut out = header.encode().to_vec();
    out.extend_from_slice(body);
    out
}

/// A body long enough that a wrong pad will not parse.
fn sync_body() -> Vec<u8> {
    Message {
        fields: vec![
            Field::new(1, Value::LengthDelimited(vec![0x11; 64])),
            Field::new(2, Value::LengthDelimited(vec![0x22; 128])),
        ],
    }
    .encode()
}

/// The body of the message that the session key is derived from.
fn carrier_body() -> Vec<u8> {
    Message {
        fields: vec![Field::new(4, Value::LengthDelimited(vec![0x33; 160]))],
    }
    .encode()
}

/// What the scanner works with.
struct Data {
    datamine: Datamine,
    nap: Protonap,
    key: Key,
}

fn game_data() -> Data {
    Data { datamine: datamine(), nap: Protonap::new(descriptors()), key: test_key() }
}

/// A login that was encrypted with one pad and is read with another.
fn run_handshake<'a>(
    data: &'a Data,
    build_pad: &XorPad,
    scan_pad: XorPad,
) -> (Vec<DecodeEvent>, Scanner<'a>) {
    let token_plain = {
        let ciphertext = rsa::encrypt_block(&data.key, &LOGIN_SERVER_KEY.to_le_bytes()).unwrap();
        let mut message = Message::default();
        message.fields.push(Field::new(
            9,
            Value::LengthDelimited(b64_encode(&ciphertext).into_bytes()),
        ));
        message.encode()
    };
    let token_wire = xorpad::xor_bytes(&token_plain, build_pad.bytes());

    let session_key = LOGIN_SERVER_KEY ^ client_rand_key(seed_from_unix_seconds(LOGIN_TIME));
    let session_pad = xorpad::session(session_key);
    let carrier_wire = xorpad::xor_bytes(&carrier_body(), &session_pad);
    let sync_wire = xorpad::xor_bytes(&sync_body(), &session_pad);

    let mut scanner = Scanner::new(scan_pad, &data.key, &data.datamine, &data.nap);
    let mut events = Vec::new();
    let packets = [
        (data.datamine.cmd_player_get_token_sc_rsp as u16, token_wire),
        (data.datamine.cmd_player_sync_sc_notify as u16, carrier_wire),
        (data.datamine.cmd_player_sync_sc_notify as u16, sync_wire),
    ];
    for (sn, (command_id, body)) in packets.into_iter().enumerate() {
        events.extend(scanner.feed(
            &segment(sn as u32, &message(command_id, &body)),
            Direction::Incoming,
            LOGIN_TIME,
        ));
    }
    (events, scanner)
}

#[test]
fn decodes_a_synthetic_login_handshake() {
    let data = game_data();
    let (_, seed_text) = data.datamine.xor_seeds.iter().next().expect("a region");
    let seed = u64::from_str_radix(seed_text, 16).expect("hex seed");
    let pad = XorPad::for_region(seed);
    let (events, scanner) = run_handshake(&data, &pad, pad.clone());

    assert!(
        matches!(events.first(), Some(DecodeEvent::ServerRandKey { key }) if *key == LOGIN_SERVER_KEY),
        "events were {events:?}"
    );
    assert!(
        matches!(events.get(1), Some(DecodeEvent::SessionKey { found }) if found.delta == 0),
        "events were {events:?}"
    );
    assert!(
        matches!(events.get(2), Some(DecodeEvent::ProtoFailed { bytes, .. }) if *bytes == carrier_body().len()),
        "events were {events:?}"
    );
    assert!(
        matches!(events.get(3), Some(DecodeEvent::Message { bytes, .. }) if *bytes == sync_body().len()),
        "events were {events:?}"
    );
    assert!(scanner.decoded_anything());

    assert!(scanner.handshake_complete());
    assert_eq!(scanner.session().session_key.unwrap(), {
        LOGIN_SERVER_KEY ^ client_rand_key(seed_from_unix_seconds(LOGIN_TIME))
    });
    assert_eq!(
        scanner.stats().decoded,
        1,
        "only the sync message decodes; the token response returns early"
    );
    assert_eq!(scanner.kcp_stats().conv_resets, 0);
}

#[test]
fn a_wrong_region_seed_decodes_nothing() {
    // This is what makes region detection work: with the wrong pad the token
    // response decrypts to noise, so no scanner using it ever gets far.
    let data = game_data();
    let (_, seed_text) = data.datamine.xor_seeds.iter().next().expect("a region");
    let seed = u64::from_str_radix(seed_text, 16).expect("hex seed");
    let right_pad = XorPad::for_region(seed);

    let (right_events, right) = run_handshake(&data, &right_pad, right_pad.clone());
    let (wrong_events, wrong) =
        run_handshake(&data, &right_pad, XorPad::for_region(seed ^ 0xDEAD_BEEF));

    assert!(right.handshake_complete());
    assert_eq!(right.stats().decoded, 1, "events were {right_events:?}");
    assert_eq!(wrong.stats().decoded, 0, "events were {wrong_events:?}");
    assert!(
        !wrong_events.iter().any(
            |e| matches!(e, DecodeEvent::ServerRandKey { key } if *key == LOGIN_SERVER_KEY)
        ),
        "a wrong pad must not recover the real key: {wrong_events:?}"
    );
    assert!(right_events.len() > wrong_events.len());
}

#[test]
fn a_decoded_sync_reaches_the_inventory() {
    let data = game_data();
    // No handshake is needed here: extraction runs on whatever decodes, and
    // the sync message decrypts with whichever pad is currently in use.
    let pad = XorPad::for_region(1);
    let mut scanner = Scanner::new(pad.clone(), &data.key, &data.datamine, &data.nap);
    let command_id = data.datamine.cmd_player_sync_sc_notify as u16;

    let item_sync = Message {
        fields: vec![
            Field::new(
                data.datamine.sync_item_data.equips,
                Value::LengthDelimited(
                    Message {
                        fields: vec![
                            Field::new(data.datamine.disc_info.uid, Value::Varint(15916)),
                            Field::new(data.datamine.disc_info.id, Value::Varint(31244)),
                            Field::new(data.datamine.disc_info.level, Value::Varint(15)),
                        ],
                    }
                    .encode(),
                ),
            ),
            Field::new(
                data.datamine.sync_item_data.deleted_equips,
                Value::LengthDelimited(vec![0x92, 0xA1, 0x01]), // 4242, packed
            ),
        ],
    };
    let mut body_message = Message {
        fields: vec![Field::new(
            data.datamine.sync_item_data.item_sync,
            Value::LengthDelimited(item_sync.encode()),
        )],
    };
    xor_proto_fields(
        &mut body_message,
        data.nap.entry_by_cmd(command_id),
        &data.nap,
    );

    let wire = xorpad::xor_bytes(&body_message.encode(), pad.bytes());
    let events = scanner.feed(
        &segment(0, &message(command_id, &wire)),
        Direction::Incoming,
        LOGIN_TIME,
    );

    assert!(
        events
            .iter()
            .any(|event| matches!(event, DecodeEvent::Message { .. })),
        "events were {events:?}"
    );
    assert_eq!(scanner.inventory().discs.len(), 1);
    assert_eq!(scanner.inventory().discs[0].uid, 15916);
    assert_eq!(scanner.inventory().discs[0].level, 15);
    assert_eq!(scanner.inventory().discs[0].set_id(), 31200);
    assert_eq!(scanner.inventory().discs[0].rarity(), 5);
    assert_eq!(scanner.extract().player_syncs, 1);
    assert_eq!(scanner.extract().sync_upserts, 1);
    // The removal names a uid that was never seen, so nothing is counted.
    assert_eq!(scanner.extract().sync_removals, 0);
}

#[test]
fn a_message_shorter_than_its_header_declares_is_clamped() {
    let data = game_data();
    let mut scanner = Scanner::new(XorPad::for_region(1), &data.key, &data.datamine, &data.nap);
    // Header claims 1000 bytes of body; only 3 are present.
    let mut bytes = message(7, &[1, 2, 3]);
    bytes[8..12].copy_from_slice(&1000u32.to_le_bytes());
    let events = scanner.feed(&segment(0, &bytes), Direction::Incoming, LOGIN_TIME);

    let carried = events
        .iter()
        .find_map(|event| match event {
            DecodeEvent::Message { bytes, .. } | DecodeEvent::ProtoFailed { bytes, .. } => {
                Some(*bytes)
            }
            _ => None,
        })
        .expect("the message is reported, not dropped");
    assert_eq!(
        carried, 3,
        "the body is the bytes present, not the declared 1000"
    );
    assert_eq!(scanner.stats().messages, 1);
}

#[test]
fn a_decoder_counts_what_it_reads() {
    let data = game_data();
    let pad = XorPad::for_region(1);
    let mut decoder = Decoder::new(Session::new(pad), &data.key, &data.datamine, &data.nap);
    // A message without a body, one that is noise, and one that is too short for its header.
    assert!(decoder.feed(&message(7, &[]), LOGIN_TIME).is_empty());
    assert_eq!(decoder.stats().empty_bodies, 1);
    let noise = xorpad::xor_bytes(&[0xFF, 0xFF], pad.bytes());
    let events = decoder.feed(&message(8, &noise), LOGIN_TIME);
    assert!(matches!(events[0], DecodeEvent::ProtoFailed { command_id: 8, bytes: 2 }));
    assert!(decoder.feed(&[1, 2, 3], LOGIN_TIME).is_empty());
    assert_eq!(decoder.stats().proto_failures, 1);
    assert!(!decoder.session().pad_ready());
    assert_eq!(decoder.datamine().cmd_player_sync_sc_notify, 1175);
}

#[test]
fn the_scanner_hands_its_changes_out_once() {
    let data = game_data();
    let pad = XorPad::for_region(1);
    let mut scanner = Scanner::new(pad, &data.key, &data.datamine, &data.nap);
    let mut load = Message {
        fields: vec![Field::new(14, Value::LengthDelimited(disc(100, 31244, 15)))],
    };
    xor_proto_fields(&mut load, data.nap.entry_by_cmd(1664), &data.nap);
    let wire = xorpad::xor_bytes(&load.encode(), pad.bytes());
    scanner.feed(&segment(0, &message(1664, &wire)), Direction::Incoming, LOGIN_TIME);
    assert!(scanner.last_feed_had_load());
    assert_eq!(
        scanner.take_changes(),
        vec![ItemChange::DiscAdded { uid: 100, id: 31244, level: 15, rarity: 5 }]
    );
    assert_eq!(scanner.take_changes(), vec![]);
    assert_eq!(scanner.commands, BTreeMap::from([(1664u16, 1u64)]));
    assert_eq!(scanner.first.len(), 1);
    assert_eq!(scanner.first[0].fields, 1);
}

#[test]
fn keys_and_counts_are_kept() {
    let data = game_data();
    let pad = XorPad::for_region(7);
    let (_, mut scanner) = run_handshake(&data, &pad, pad.clone());
    let before = *scanner.session();
    let session_pad = xorpad::session(before.session_key.unwrap());
    // Another token response, another carrier and two more commands.
    let commands: [u16; 4] = [data.datamine.cmd_player_get_token_sc_rsp as u16, 9, 2, 9];
    for (i, command_id) in commands.into_iter().enumerate() {
        let body = xorpad::xor_bytes(&carrier_body(), &session_pad);
        let packet = segment(3 + i as u32, &message(command_id, &body));
        scanner.feed(&packet, Direction::Incoming, LOGIN_TIME + 1);
    }
    let after = scanner.session();
    assert_eq!(after.server_rand_key, before.server_rand_key);
    assert_eq!(after.client_rand_key, before.client_rand_key);
    assert_eq!(after.session_key, before.session_key);
    assert!(scanner.handshake_complete());
    let sync = data.datamine.cmd_player_sync_sc_notify as u16;
    let token = data.datamine.cmd_player_get_token_sc_rsp as u16;
    assert_eq!(scanner.commands, BTreeMap::from([(2, 1), (9, 2), (sync, 1), (token, 1)]));
    assert_eq!(scanner.first.len(), 5);
    assert_eq!(scanner.stats().messages, 7);
    assert_eq!(scanner.stats().decoded, 5);
    assert_eq!(scanner.stats().proto_failures, 1);
}

#[test]
fn events_absorbed_in_parts_are_those_absorbed_at_once() {
    let sync = |upserts: u32, removals: u32| SyncResult { changed: true, upserts, removals };
    let events = || {
        vec![
            ExtractEvent::PlayerSync(sync(4, 1)),
            ExtractEvent::FallbackRemoval { uid: 7, field: 9 },
            ExtractEvent::Changes(vec![
                ItemChange::DiscRemoved { uid: 1, id: 2 },
                ItemChange::EngineRemoved { uid: 3, id: 4 },
            ]),
            ExtractEvent::Dismantle(sync(0, 2)),
            ExtractEvent::Weapons { upserted: 5 },
            ExtractEvent::FallbackRemoval { uid: 8, field: 9 },
        ]
    };
    let all = events();
    let mut whole = ExtractSummary::default();
    whole.absorb(&all);
    for cut in 0..=all.len() {
        let mut parts = ExtractSummary::default();
        parts.absorb(&all[..cut]);
        let before = parts.clone();
        parts.absorb(&[]);
        assert_eq!(parts, before);
        parts.absorb(&all[cut..]);
        assert_eq!(parts, whole);
        assert!(parts.fallback_removals.starts_with(&before.fallback_removals));
        assert!(parts.sync_upserts >= before.sync_upserts);
    }
    assert_eq!(whole.discs_removed, 1);
    assert_eq!(whole.fallback_removals, vec![(7, 9), (8, 9)]);
}
