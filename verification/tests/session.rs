//! The region, live sessions, the log of changes and the console.
use zzzcap::b64::b64_encode;
use zzzcap::changelog::{
    count_changes, describe_change, extraction_total, ChangeCounts, ChangeLog, LogEntry,
};
use zzzcap::console::{parse_status, status_line, Console, CONSOLE_LINES};
use zzzcap::datamine;
use zzzcap::datamine::{
    AgentData, AgentInfoFields, Datamine, DiscInfoFields, DiscStatFields, EquipData,
    EquipDismantle, SyncAvatarData, SyncItemData, WeaponData, WeaponInfoFields,
};
use zzzcap::dump::{Dump, Packet};
use zzzcap::gamedata::GameData;
use zzzcap::kcp::{Direction, MessageHeader, SegmentHeader};
use zzzcap::live::{snapshot_line, Detection, FeedError, Notice, Session, Status};
use zzzcap::model::WeaponInfo;
use zzzcap::names::NanokaNames;
use zzzcap::nanoka::{Character, Equipment, EquipmentName, NanokaData, Weapon};
use zzzcap::netrand::{client_rand_key, seed_from_unix_seconds};
use zzzcap::proto::{Field, Message, Value};
use zzzcap::protonap::{ProtoEntry, ProtoEntryField};
use zzzcap::region::{
    best_score, candidate_seeds, choose_by_score, choose_seed, scan, score_candidates, Score,
    SeedError,
};
use zzzcap::rsa;
use zzzcap::rsa::Key;
use zzzcap::settings::ExportSettings;
use zzzcap::snapshot::{ExtractSummary, Inventory, ItemChange};
use zzzcap::xor_fields::xor_proto_fields;
use zzzcap::xorpad;
use zzzcap::xorpad::XorPad;
use zzzcap::zod::Izod;

/// Command and field numbers.
fn datamine() -> Datamine {
    let seed = |region: &str, seed: &str| (region.to_string(), seed.to_string());
    Datamine {
        xor_seeds: vec![
            seed("America", "57A90ABCAEA7F3C5"),
            seed("Asia", "1A7E69FE2F49590A"),
            seed("Europe", "9543521FC9C8CAED"),
            seed("TW,HK,MO", "883B27204BF725D3"),
        ],
        cmd_player_get_token_sc_rsp: 4937,
        cmd_get_equip_data_sc_rsp: 1664,
        cmd_get_weapon_data_sc_rsp: 3318,
        cmd_get_avatar_data_sc_rsp: 2470,
        cmd_player_sync_sc_notify: 1175,
        cmd_dismantle_equip_cs_req: 6021,
        sync_avatar_data: SyncAvatarData { avatar_sync: 15, avatars: 9, dels: 4 },
        sync_item_data: SyncItemData { item_sync: 13, equips: 5, weapons: 3, deleted_equips: 8 },
        equip_dismantle: EquipDismantle { uid: 2, uids: 11 },
        agent_data: AgentData { agents: 6 },
        agent_info: AgentInfoFields {
            id: 1,
            level: 2,
            promotion: 3,
            weapon_uid: 12,
            mindscape: 5,
            skills: 7,
            dressed_equips: 8,
        },
        agent_skill: datamine::AvatarSkillLevel { skill_type: 1, level: 2 },
        agent_equip: datamine::DressedEquip { uid: 3, slot: 4 },
        equip_data: EquipData { discs: 14 },
        disc_info: DiscInfoFields { uid: 10, id: 11, level: 12, main_stat: 13, sub_stats: 14 },
        disc_stat: DiscStatFields { key: 5, base_value: 6, add_value: 7 },
        weapon_data: WeaponData { weapons: 1 },
        weapon_info: WeaponInfoFields { id: 2, uid: 3, level: 4, phase: 5, modification: 6 },
    }
}

/// A key made for these tests.
const KEY_XML: &str = "<RSAKeyValue><Modulus>2ZCxWPzbGcRYVI7NqLrW84Z756gCCBaIzBUdlyz4IeP4xyQGlrFpk0tUbG7ygNt+JbIeje9cmdR5fs0QJQn7/4mENWWgLkoSIBYNBm0ge4CID0/QwZ83Oa2EdyKqzwKyVH//gDCMUO0ISNaHxbbWbLVnAQTR+EmX31rZijej4L8=</Modulus><Exponent>AQAB</Exponent><D>Ja6o+Oe6ryjRv7uIJVxPFJjLZyEzUOFOSkKyAFgalgwdL6iut3T8+zUF504EFItvuumx3xWBLWeer3anADNNgPA0K1MPGOV2XN6W14As6UBxGW5b3fOURsD9KunUck2Ou7beBncRZN0HZiYkdYIqa33TjO2X0kQS536DjkbSotE=</D></RSAKeyValue>";

fn test_key() -> Key {
    rsa::key(KEY_XML).expect("the key parses")
}

fn scalar(number: i32, xor_value: u32) -> ProtoEntryField {
    ProtoEntryField {
        number,
        name: format!("s{number}"),
        type_ref: "uint32".to_string(),
        xor_value: Some(xor_value),
        is_native_type: true,
        is_enum: false,
        repeated: false,
    }
}

fn submessage(number: i32, type_ref: &str) -> ProtoEntryField {
    ProtoEntryField {
        number,
        name: format!("m{number}"),
        type_ref: type_ref.to_string(),
        xor_value: None,
        is_native_type: false,
        is_enum: false,
        repeated: true,
    }
}

/// Descriptors that mask the uids of discs.
fn descriptors() -> Vec<ProtoEntry> {
    let entry = |cmd_id: Option<u16>, name: &str, fields: Vec<ProtoEntryField>| ProtoEntry {
        cmd_id,
        name: name.to_string(),
        fields,
    };
    vec![
        entry(Some(1175), "PlayerSync", vec![submessage(13, "ItemSync")]),
        entry(None, "ItemSync", vec![submessage(5, "Disc")]),
        entry(None, "Disc", vec![scalar(10, 0x1234)]),
        entry(Some(1664), "EquipData", vec![submessage(14, "Disc")]),
    ]
}

fn names() -> NanokaData {
    let mut data = NanokaData { version: "3.2".to_string(), ..NanokaData::default() };
    data.characters.insert(1581, Character { rank: 4, en: "Yixuan".to_string() });
    data.weapons.insert(15031, Weapon { rank: 4, en: "Deep Sea Visitor".to_string() });
    data.equipment.insert(
        31200,
        Equipment { en: EquipmentName { name: "Feathered Fate".to_string() } },
    );
    data
}

fn game_data() -> GameData {
    GameData::new(datamine(), descriptors(), names())
}

#[test]
fn the_change_log_is_a_ring_buffer_with_sequence_numbers() {
    let mut log = ChangeLog::new(3);
    let change = |text: &str| LogEntry {
        sequence: 0,
        text: text.to_string(),
        change: ItemChange::AgentRemoved { id: 1 },
    };
    for index in 0..5 {
        log.push(vec![change(&format!("line {index}"))]);
    }

    let held = log.entries();
    assert_eq!(held.len(), 3, "capacity");
    assert_eq!(held[0].text, "line 2", "oldest fell off");
    assert_eq!(
        held.iter().map(|entry| entry.sequence).collect::<Vec<_>>(),
        vec![3, 4, 5],
        "sequence numbers survive trimming"
    );
    assert_eq!(log.dropped(), 2);
}

#[test]
fn a_batch_is_numbered_together() {
    let mut log = ChangeLog::new(10);
    log.push(vec![
        LogEntry {
            sequence: 0,
            text: "a".into(),
            change: ItemChange::AgentRemoved { id: 1 },
        },
        LogEntry {
            sequence: 0,
            text: "b".into(),
            change: ItemChange::AgentRemoved { id: 1 },
        },
    ]);
    assert_eq!(
        log.entries()
            .iter()
            .map(|entry| entry.sequence)
            .collect::<Vec<_>>(),
        vec![1, 2]
    );
}

#[test]
fn extraction_total_counts_every_field() {
    let summary = ExtractSummary {
        player_syncs: 1,
        discs_added: 2,
        engines_removed: 3,
        ..ExtractSummary::default()
    };
    assert_eq!(extraction_total(&summary), 6);
}

#[test]
fn changes_are_told_in_one_line_each() {
    let data = names();
    let names = NanokaNames(&data);
    let inventory = Inventory {
        engines: vec![
            WeaponInfo { uid: 1, id: 15031, ..WeaponInfo::default() },
            WeaponInfo { uid: 2, id: 1, ..WeaponInfo::default() },
        ],
        ..Inventory::default()
    };
    let told = |change: ItemChange| describe_change(&change, &names, Some(&inventory));
    assert_eq!(
        told(ItemChange::DiscAdded { uid: 9, id: 31244, level: 15, rarity: 5 }),
        "+ disc  Feathered Fate slot 4  Lv15 R5  (uid 9)"
    );
    assert_eq!(
        told(ItemChange::DiscUpdated { uid: 9, id: 99901, level: 3, rarity: 1 }),
        "~ disc  disc 99901  Lv3 R1  (uid 9)"
    );
    assert_eq!(
        told(ItemChange::DiscRemoved { uid: 9, id: 31244 }),
        "- disc  Feathered Fate slot 4  (uid 9)"
    );
    assert_eq!(
        told(ItemChange::EngineAdded { uid: 1, id: 15031, level: 60, phase: 5 }),
        "+ w-engine  Deep Sea Visitor  Lv60 P5  (uid 1)"
    );
    assert_eq!(
        told(ItemChange::EngineUpdated { uid: 2, id: 1, level: 1, phase: 1 }),
        "~ w-engine  ?  Lv1 P1  (uid 2)"
    );
    assert_eq!(
        told(ItemChange::EngineRemoved { uid: 1, id: 15031 }),
        "- w-engine  Deep Sea Visitor  (uid 1)"
    );
    assert_eq!(
        told(ItemChange::AgentAdded { id: 1581, level: 60, weapon_uid: 0 }),
        "+ agent  Yixuan  Lv60"
    );
    assert_eq!(
        told(ItemChange::AgentAdded { id: 7, level: 60, weapon_uid: 1 }),
        "+ agent  agent 7  Lv60  equips Deep Sea Visitor"
    );
    let updated = |before: u32, after: u32| {
        told(ItemChange::AgentUpdated {
            id: 1581,
            level: 50,
            previous_weapon_uid: before,
            weapon_uid: after,
        })
    };
    assert_eq!(updated(1, 1), "~ agent  Yixuan  Lv50");
    assert_eq!(updated(1, 0), "~ agent  Yixuan  unequips Deep Sea Visitor");
    assert_eq!(updated(0, 1), "~ agent  Yixuan  equips Deep Sea Visitor");
    assert_eq!(updated(2, 1), "~ agent  Yixuan  swaps w-engine 2 for Deep Sea Visitor");
    assert_eq!(told(ItemChange::AgentRemoved { id: 1581 }), "- agent  Yixuan");
    assert_eq!(
        describe_change(
            &ItemChange::AgentAdded { id: 1581, level: 1, weapon_uid: 1 },
            &names,
            None
        ),
        "+ agent  Yixuan  Lv1  equips w-engine 1"
    );
}

#[test]
fn changes_are_counted_by_kind() {
    let entry = |change: ItemChange| LogEntry { sequence: 0, text: String::new(), change };
    let entries = vec![
        entry(ItemChange::DiscAdded { uid: 1, id: 1, level: 1, rarity: 1 }),
        entry(ItemChange::DiscAdded { uid: 2, id: 1, level: 1, rarity: 1 }),
        entry(ItemChange::DiscRemoved { uid: 1, id: 1 }),
        entry(ItemChange::EngineAdded { uid: 1, id: 1, level: 1, phase: 1 }),
        entry(ItemChange::AgentAdded { id: 1, level: 1, weapon_uid: 0 }),
        entry(ItemChange::AgentRemoved { id: 1 }),
    ];
    assert_eq!(
        count_changes(&entries),
        ChangeCounts {
            discs_added: 2,
            discs_removed: 1,
            engines_added: 1,
            engines_removed: 0,
            agents_added: 1,
        }
    );
    let mut log = ChangeLog::new(0);
    assert!(log.is_empty());
    log.push(entries);
    assert_eq!(log.len() as u64 + log.dropped(), 6);
}

#[test]
fn seeds_are_given_by_number_by_region_or_not_at_all() {
    let data = game_data();
    let all = candidate_seeds(&data, None, None).unwrap();
    assert_eq!(all.len(), 4);
    assert_eq!(all[2], ("Europe".to_string(), 0x9543_521F_C9C8_CAED));
    let one = candidate_seeds(&data, Some("Asia"), None).unwrap();
    assert_eq!(one, vec![("Asia".to_string(), 0x1A7E_69FE_2F49_590A)]);
    let given = candidate_seeds(&data, Some("Asia"), Some("0xFF")).unwrap();
    assert_eq!(given, vec![("--seed".to_string(), 255)]);

    let error = candidate_seeds(&data, None, Some("xyz")).unwrap_err();
    assert!(matches!(&error, SeedError::NotHex(text) if text == "xyz"));
    assert_eq!(error.to_text("--region"), "--seed \"xyz\" is not a hex number");
    let error = candidate_seeds(&data, Some("Mars"), None).unwrap_err();
    assert_eq!(
        error.to_text("--region"),
        "--region \"Mars\" is not in datamine.json (known: America, Asia, Europe, TW,HK,MO)"
    );
}

#[test]
fn the_best_seed_is_the_first_that_decodes_most() {
    let score = |decoded: u64, complete: bool| Score { decoded, complete };
    assert_eq!(best_score(&[]), None);
    assert_eq!(best_score(&[score(7, false), score(3, false)]), None);
    assert_eq!(best_score(&[score(8, false), score(8, false)]), Some(0));
    assert_eq!(best_score(&[score(0, true), score(9, false), score(9, true)]), Some(1));

    let candidates = vec![("A".to_string(), 1u64), ("B".to_string(), 2)];
    let (chosen, lines) = choose_by_score(&candidates, &vec![score(9, true), score(0, false)]);
    assert_eq!(chosen, Some(("A".to_string(), 1)));
    assert_eq!(
        lines,
        vec![
            "  A            0000000000000001  9 messages decoded, session key derived".to_string(),
            "  B            0000000000000002  0 messages decoded".to_string(),
            "  detected region: A (0000000000000001), 9 messages in the first 600".to_string(),
        ]
    );
    let (none, lines) = choose_by_score(&candidates, &vec![score(1, false), score(0, false)]);
    assert_eq!(none, None);
    assert_eq!(
        lines[2],
        "  no region produced a session key or 8+ decoded messages"
    );
}

const SERVER_RAND_KEY: u64 = 0x0BAD_F00D_DEAD_BEEF;
const LOGIN_TIME: i64 = 1_760_000_000;
const EUROPE: u64 = 0x9543_521F_C9C8_CAED;

fn wire(body: Message) -> Value {
    Value::LengthDelimited(body.encode())
}

fn varint(number: u32, value: u64) -> Field {
    Field::new(number, Value::Varint(value))
}

fn disc(uid: u64, level: u64) -> Message {
    let stat = Message { fields: vec![varint(5, 11103), varint(6, 550)] };
    Message {
        fields: vec![
            varint(10, uid),
            varint(11, 31244),
            varint(12, level),
            Field::new(13, wire(stat)),
        ],
    }
}

fn engine(uid: u64) -> Message {
    Message { fields: vec![varint(2, 15031), varint(3, uid), varint(4, 60)] }
}

fn agent(id: u64, weapon_uid: u64) -> Message {
    let mut fields = vec![varint(1, id), varint(2, 60), varint(3, 6), varint(12, weapon_uid)];
    for kind in 0..6 {
        let skill = Message { fields: vec![varint(1, kind), varint(2, 11)] };
        fields.push(Field::new(7, wire(skill)));
    }
    Message { fields }
}

/// The packets of a login, and of what follows it.
struct Wire {
    data: GameData,
    session_pad: [u8; xorpad::PAD_SIZE],
    sn: u32,
}

impl Wire {
    fn new() -> Self {
        let session_key = SERVER_RAND_KEY ^ client_rand_key(seed_from_unix_seconds(LOGIN_TIME));
        Self { data: game_data(), session_pad: xorpad::session(session_key), sn: 0 }
    }

    fn packet(&mut self, cmd: u8, message: &[u8]) -> Packet {
        let header = SegmentHeader {
            conv: 1,
            token: 0,
            cmd,
            frg: 0,
            wnd: 128,
            ts: 0,
            sn: self.sn,
            una: 0,
            len: message.len() as u32,
        };
        if cmd == 81 {
            self.sn += 1;
        }
        let mut data = header.encode().to_vec();
        data.extend_from_slice(message);
        Packet { direction: Direction::Incoming, timestamp: LOGIN_TIME, data }
    }

    /// A packet that carries no message.
    fn filler(&mut self) -> Packet {
        self.packet(82, &[])
    }

    fn message(&mut self, command_id: u16, body: &[u8]) -> Packet {
        let header = MessageHeader {
            magic: *b"ZZZ0",
            command_id,
            head_length: 0,
            body_length: body.len() as u32,
        };
        let mut bytes = header.encode().to_vec();
        bytes.extend_from_slice(body);
        self.packet(81, &bytes)
    }

    fn token(&mut self) -> Packet {
        let ciphertext =
            rsa::encrypt_block(&test_key(), &SERVER_RAND_KEY.to_le_bytes()).expect("encrypts");
        let body = Message {
            fields: vec![Field::new(
                9,
                Value::LengthDelimited(b64_encode(&ciphertext).into_bytes()),
            )],
        };
        let pad = XorPad::for_region(EUROPE);
        self.message(4937, &xorpad::xor_bytes(&body.encode(), pad.bytes()))
    }

    /// A message in the form it travels in once the session key is known.
    fn encrypted(&mut self, command_id: u16, mut body: Message) -> Packet {
        xor_proto_fields(&mut body, self.data.nap.entry_by_cmd(command_id), &self.data.nap);
        let bytes = xorpad::xor_bytes(&body.encode(), &self.session_pad);
        self.message(command_id, &bytes)
    }

    fn carrier(&mut self) -> Packet {
        let body =
            Message { fields: vec![Field::new(4, Value::LengthDelimited(vec![0x33; 160]))] };
        self.encrypted(7, body)
    }

    fn load(&mut self, discs: &[u64]) -> Packet {
        let fields = discs.iter().map(|uid| Field::new(14, wire(disc(*uid, 15)))).collect();
        self.encrypted(1664, Message { fields })
    }

    fn sync(&mut self, discs: &[(u64, u64)]) -> Packet {
        let fields =
            discs.iter().map(|(uid, level)| Field::new(5, wire(disc(*uid, *level)))).collect();
        let body = Message { fields: vec![Field::new(13, wire(Message { fields }))] };
        self.encrypted(1175, body)
    }

    /// A whole login, filled up to as many packets as detection waits for.
    fn login(&mut self) -> Vec<Packet> {
        let mut packets = vec![self.token(), self.carrier()];
        packets.push(self.load(&[100, 101]));
        let weapons = Message { fields: vec![Field::new(1, wire(engine(25)))] };
        packets.push(self.encrypted(3318, weapons));
        let agents = Message { fields: vec![Field::new(6, wire(agent(1581, 25)))] };
        packets.push(self.encrypted(2470, agents));
        while packets.len() < 600 {
            packets.push(self.filler());
        }
        packets
    }
}

fn snapshots(notices: &[Notice]) -> Vec<&str> {
    notices
        .iter()
        .filter_map(|notice| match notice {
            Notice::Snapshot { json, .. } => Some(json.as_str()),
            _ => None,
        })
        .collect()
}

fn changes(notices: &[Notice]) -> usize {
    notices
        .iter()
        .map(|notice| match notice {
            Notice::Changes(entries) => entries.len(),
            _ => 0,
        })
        .sum()
}

#[test]
fn a_live_session_finds_its_region_and_follows_the_inventory() {
    let mut wire = Wire::new();
    let data = game_data();
    let key = test_key();
    let candidates = candidate_seeds(&data, None, None).unwrap();
    let mut session =
        Session::new(&data, &key, candidates, ExportSettings::default(), Detection::Scored);
    assert_eq!(session.status(), Status::default());
    let login = wire.login();
    for packet in &login[..599] {
        let (notices, result) = session.feed(packet, false);
        assert!(result.is_ok());
        assert!(matches!(notices.as_slice(), [Notice::Status(status)] if status.region.is_none()));
    }
    assert_eq!(session.region(), None);
    assert_eq!(session.progress_line(), "599 packets, no region yet");
    let (notices, result) = session.feed(&login[599], false);
    assert!(result.is_ok());
    assert!(matches!(&notices[0], Notice::Log(line)
        if line == "region detected: Europe, 3 messages in the first 600 packets"));
    // The login is the state to start from, and no change.
    assert_eq!(changes(&notices), 0);
    let first = snapshots(&notices);
    assert_eq!(first.len(), 1);
    assert!(first[0].contains("\"discs\"") && first[0].contains("\"characters\""));
    assert!(first[0].contains("\"location\":\"Yixuan\""));
    assert_eq!(session.region(), Some("Europe"));
    assert_eq!(session.latest(), first[0]);
    assert_eq!(session.snapshots(), 1);
    assert_eq!(session.packets(), 600);
    assert_eq!(session.inventory().unwrap().discs.len(), 2);
    assert_eq!(session.extract().unwrap().disc_loads, 1);
    assert_eq!(session.stats().unwrap().decoded, 3);

    // A new disc is a change, and makes a snapshot.
    let (notices, _) = session.feed(&wire.sync(&[(102, 9)]), true);
    assert!(matches!(&notices[0], Notice::Log(line)
        if line == "601 packets, 1 snapshots, 2 discs, 1 w-engines, 1 agents"));
    assert!(matches!(&notices[1], Notice::Changes(entries)
        if entries[0].text == "+ disc  Feathered Fate slot 4  Lv9 R5  (uid 102)"));
    assert_eq!(snapshots(&notices).len(), 1);
    assert!(matches!(notices.last(), Some(Notice::Status(status)) if status.discs == 3));

    // The same again is an update, but no new snapshot.
    let (notices, _) = session.feed(&wire.sync(&[(102, 9)]), false);
    assert_eq!(changes(&notices), 1);
    assert!(snapshots(&notices).is_empty());

    // A load is no change.
    let (notices, _) = session.feed(&wire.load(&[103]), false);
    assert_eq!(changes(&notices), 0);
    assert_eq!(snapshots(&notices).len(), 1);
    assert_eq!(session.snapshots(), 3);

    // Switching discs off takes effect with the next snapshot.
    session.set_settings(ExportSettings { export_discs: false, ..ExportSettings::default() });
    let (notices, _) = session.feed(&wire.sync(&[(104, 1)]), false);
    let latest = snapshots(&notices);
    assert_eq!(latest.len(), 1);
    assert!(!latest[0].contains("\"discs\""));
    assert!(latest[0].contains("\"characters\"") && latest[0].contains("\"wengines\""));
}

#[test]
fn the_payload_is_the_export_of_what_is_held() {
    let mut wire = Wire::new();
    let data = game_data();
    let key = test_key();
    let settings = ExportSettings::default();
    let candidates = candidate_seeds(&data, None, None).unwrap();
    let mut session = Session::new(&data, &key, candidates, settings, Detection::Scored);
    let mut packets = wire.login();
    packets.push(wire.sync(&[(102, 9)]));
    packets.push(wire.filler());
    packets.push(wire.load(&[103]));
    packets.push(wire.sync(&[(100, 3), (104, 1)]));
    for packet in &packets {
        let (_, result) = session.feed(packet, false);
        assert!(result.is_ok());
        if let Some(inventory) = session.inventory() {
            let zod = Izod::for_live(inventory, &NanokaNames(&data.nanoka), &settings).unwrap();
            assert_eq!(session.latest(), zod.to_json());
        }
    }
    assert_eq!(session.inventory().unwrap().discs.len(), 5);
    assert_eq!(session.snapshots(), 4);
}

#[test]
fn a_session_gives_up_on_traffic_that_no_seed_fits() {
    let mut wire = Wire::new();
    let data = game_data();
    let key = test_key();
    let candidates = candidate_seeds(&data, None, None).unwrap();
    let mut session =
        Session::new(&data, &key, candidates, ExportSettings::default(), Detection::Scored);
    let filler = wire.filler();
    let mut failure = None;
    for _ in 0..4000 {
        let (_, result) = session.feed(&filler, false);
        if let Err(error) = result {
            failure = Some(error);
            break;
        }
    }
    let failure = failure.expect("the session gives up");
    assert!(matches!(failure, FeedError::RegionNotFound { packets: 4000 }));
    assert!(failure.to_string().starts_with("no region seed decrypts the first 4000 packets"));
    assert!(failure.to_string().ends_with("pass a region or seed to skip detection"));
}

#[test]
fn an_item_without_a_name_ends_the_session() {
    let mut wire = Wire::new();
    let data = GameData::new(datamine(), descriptors(), NanokaData::default());
    let key = test_key();
    let candidates = candidate_seeds(&data, Some("Europe"), None).unwrap();
    let mut session =
        Session::new(&data, &key, candidates, ExportSettings::default(), Detection::Listed);
    let mut last = Ok(());
    for packet in &wire.login() {
        last = session.feed(packet, false).1;
    }
    let error = last.unwrap_err();
    assert!(matches!(&error, FeedError::Export(_)));
    assert!(error.to_string().starts_with("cannot build a snapshot: "));
}

#[test]
fn a_recorded_login_is_scanned_with_the_seed_that_fits() {
    let mut wire = Wire::new();
    let data = game_data();
    let key = test_key();
    let mut dump = Dump::new();
    for packet in &wire.login() {
        dump.push(packet);
    }
    let candidates = candidate_seeds(&data, None, None).unwrap();
    let scores = score_candidates(&dump, &data, &key, &candidates);
    assert_eq!(scores[2], Score { decoded: 3, complete: true });
    assert!(scores.iter().enumerate().all(|(i, score)| i == 2 || !score.complete));
    let (chosen, lines) = choose_seed(&dump, &data, &key, &candidates);
    assert_eq!(chosen, Some(("Europe".to_string(), EUROPE)));
    assert_eq!(lines.len(), 5);

    let scanner = scan(&dump, &data, &key, XorPad::for_region(EUROPE), usize::MAX);
    assert!(scanner.handshake_complete());
    assert_eq!(scanner.inventory().discs.len(), 2);
    let cut = scan(&dump, &data, &key, XorPad::for_region(EUROPE), 2);
    assert!(cut.handshake_complete() && cut.inventory().is_empty());

    // A single candidate is taken without trial.
    let single = vec![("X".to_string(), 1u64)];
    let (chosen, lines) = choose_seed(&dump, &data, &key, &single);
    assert_eq!(chosen, Some(("X".to_string(), 1)));
    assert_eq!(lines, vec!["  using X (0000000000000001)".to_string()]);
}

#[test]
fn snapshots_are_announced_in_a_line() {
    assert_eq!(
        snapshot_line(3, 2048, 10, 20, 30, 1),
        "snapshot 3 (2 KiB): 10 discs, 20 w-engines, 30 agents, 1 client(s)"
    );
}

#[test]
fn counters_travel_through_the_console() {
    let status = Status {
        packets: 1,
        snapshots: 2,
        discs: 3,
        engines: 4,
        agents: 5,
        region: Some("TW,HK,MO".to_string()),
    };
    let line = status_line(&status);
    assert_eq!(line, "status|1|2|3|4|5|TW,HK,MO");
    assert_eq!(parse_status("1|2|3|4|5|TW,HK,MO"), status);
    assert_eq!(parse_status("x|2").snapshots, 2);
    assert_eq!(parse_status("0|0|0|0|0|-"), Status::default());

    let mut console = Console::new();
    console.drain(&vec!["first".to_string(), line, "second".to_string()]);
    assert_eq!(console.status, status);
    assert_eq!(console.lines, vec!["first".to_string(), "second".to_string()]);
    let many: Vec<String> = (0..CONSOLE_LINES + 50).map(|i| format!("line {i}")).collect();
    console.drain(&many);
    assert!(console.lines.len() <= CONSOLE_LINES);
    assert_eq!(console.lines.last().unwrap(), &format!("line {}", CONSOLE_LINES + 49));
}

#[test]
fn every_packet_is_answered_with_one_status() {
    let mut wire = Wire::new();
    let data = game_data();
    let key = test_key();
    let candidates = candidate_seeds(&data, None, None).unwrap();
    let mut session =
        Session::new(&data, &key, candidates, ExportSettings::default(), Detection::Scored);
    let (notices, result) = session.feed(&wire.filler(), false);
    assert!(result.is_ok());
    let first = Status { packets: 1, ..Status::default() };
    assert!(matches!(notices.as_slice(), [Notice::Status(status)] if *status == first));

    // The packet that settles the region has one too, behind what it found.
    let mut wire = Wire::new();
    let candidates = candidate_seeds(&data, None, None).unwrap();
    let mut session =
        Session::new(&data, &key, candidates, ExportSettings::default(), Detection::Scored);
    for packet in &wire.login() {
        let (notices, result) = session.feed(packet, false);
        assert!(result.is_ok());
        let statuses = notices.iter().filter(|n| matches!(n, Notice::Status(_))).count();
        assert_eq!(statuses, 1);
        assert!(matches!(notices.last(), Some(Notice::Status(_))));
    }
    assert_eq!(session.region(), Some("Europe"));
}

#[test]
fn a_session_without_seeds_gives_up_at_the_limit() {
    let mut wire = Wire::new();
    let data = game_data();
    let key = test_key();
    let mut session =
        Session::new(&data, &key, Vec::new(), ExportSettings::default(), Detection::Scored);
    let filler = wire.filler();
    for _ in 0..3999 {
        assert!(session.feed(&filler, false).1.is_ok());
    }
    let (notices, result) = session.feed(&filler, false);
    assert!(notices.is_empty());
    assert!(matches!(result, Err(FeedError::RegionNotFound { packets: 4000 })));
}

#[test]
fn a_single_seed_is_taken_though_it_decodes_nothing() {
    let data = game_data();
    let key = test_key();
    for detection in [Detection::Scored, Detection::Listed] {
        let mut wire = Wire::new();
        let candidates = candidate_seeds(&data, Some("Europe"), None).unwrap();
        assert_eq!(candidates.len(), 1);
        let mut session =
            Session::new(&data, &key, candidates, ExportSettings::default(), detection);
        let filler = wire.filler();
        for _ in 0..600 {
            assert!(session.feed(&filler, false).1.is_ok());
        }
        assert_eq!(session.region(), Some("Europe"));
    }
}
