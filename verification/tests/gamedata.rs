//! The data files: reading them, comparing them and refreshing them.
use serde_json::Value as Json;
use std::collections::BTreeMap;
use zzzcap::datamine::{
    parse_seed, AgentData, AgentInfoFields, AvatarSkillLevel, Datamine, DiscInfoFields,
    DiscStatFields, DressedEquip, EquipData, EquipDismantle, SyncAvatarData, SyncItemData,
    WeaponData, WeaponInfoFields,
};
use zzzcap::gamedata::{
    datamine_refusal, datamine_url, dropped_keys, dropped_nap_entries, lost, manifest_url,
    nap_refusal, proto_url, update_available, DataError, DataFile, GameData, Manifest,
    DATAMINE_FILE, MANIFEST_FILE, NANOKA_FILE, PROTO_FILE,
};
use zzzcap::nanoka;
use zzzcap::nanoka::{
    character_url, equipment_url, weapon_url, Character, Equipment, EquipmentName, NanokaData,
    NanokaManifest, NanokaZzz, Weapon,
};
use zzzcap::protonap::{ProtoEntry, ProtoEntryField};
use zzzcap::refresh::{Phase, Refresh, RefreshAction, RefreshEvent, RefreshReport};
use zzzcap::update::{
    after_check, after_download, after_refresh, file_state, DataChoice, FileState, UpdateOutcome,
};
use zzzcap::version::Version;

/// Command and field numbers, as the file has them.
const DATAMINE_JSON: &str = r#"{
  "xorSeeds": {
    "America": "57A90ABCAEA7F3C5",
    "Asia": "1A7E69FE2F49590A",
    "Europe": "9543521FC9C8CAED",
    "TW,HK,MO": "883B27204BF725D3"
  },
  "cmdPlayerGetTokenScRsp": 4937,
  "cmdGetEquipDataScRsp": 1664,
  "cmdGetWeaponDataScRsp": 3318,
  "cmdGetAvatarDataScRsp": 2470,
  "cmdPlayerSyncScNotify": 1175,
  "cmdDismantleEquipCsReq": 6021,
  "syncAvatarData": {"avatarSync": 15, "avatars": 9, "dels": 4},
  "syncItemData": {"itemSync": 13, "equips": 5, "weapons": 3, "deletedEquips": 8},
  "equipDismantle": {"uid": 2, "uids": 11},
  "agentData": {"agents": 6},
  "agentInfo": {"id": 1, "level": 2, "promotion": 3, "weaponUid": 12, "mindscape": 5, "skills": 7, "dressed_equips": 8},
  "agentSkill": {"skill_type": 1, "level": 2},
  "agentEquip": {"uid": 3, "slot": 4},
  "equipData": {"discs": 14},
  "discInfo": {"uid": 10, "id": 11, "level": 12, "mainStat": 13, "subStats": 14},
  "discStat": {"key": 5, "base_value": 6, "add_value": 7},
  "weaponData": {"weapons": 1},
  "weaponInfo": {"id": 2, "uid": 3, "level": 4, "phase": 5, "modification": 6}
}"#;

/// Descriptors, as the file has them.
const PROTO_JSON: &str = r#"[
  {"name":"First","cmd_id":1175,"fields":[{"number":1,"name":"a","type":"uint32","repeated":false,"is_native_type":true,"is_enum":false,"xor_value":7}]},
  {"name":"Second","cmd_id":null,"fields":[]},
  {"name":"Last","cmd_id":2470,"fields":[]}
]"#;

fn number(object: &Json, key: &str) -> Result<u32, String> {
    let value = object.get(key).ok_or_else(|| format!("missing field `{key}`"))?;
    value
        .as_u64()
        .and_then(|n| u32::try_from(n).ok())
        .ok_or_else(|| format!("invalid type for `{key}`"))
}

fn member<'a>(object: &'a Json, key: &str) -> Result<&'a Json, String> {
    object.get(key).ok_or_else(|| format!("missing field `{key}`"))
}

fn parse_datamine(json: &str) -> Result<Datamine, String> {
    let v: Json = serde_json::from_str(json).map_err(|error| error.to_string())?;
    let mut xor_seeds = Vec::new();
    for (region, seed) in member(&v, "xorSeeds")?.as_object().ok_or("xorSeeds is no object")? {
        let seed = seed.as_str().ok_or("a seed is no string")?;
        xor_seeds.push((region.clone(), seed.to_string()));
    }
    let avatar = member(&v, "syncAvatarData")?;
    let item = member(&v, "syncItemData")?;
    let dismantle = member(&v, "equipDismantle")?;
    let agent = member(&v, "agentInfo")?;
    let skill = member(&v, "agentSkill")?;
    let equip = member(&v, "agentEquip")?;
    let disc = member(&v, "discInfo")?;
    let stat = member(&v, "discStat")?;
    let weapon = member(&v, "weaponInfo")?;
    Ok(Datamine {
        xor_seeds,
        cmd_player_get_token_sc_rsp: number(&v, "cmdPlayerGetTokenScRsp")?,
        cmd_get_equip_data_sc_rsp: number(&v, "cmdGetEquipDataScRsp")?,
        cmd_get_weapon_data_sc_rsp: number(&v, "cmdGetWeaponDataScRsp")?,
        cmd_get_avatar_data_sc_rsp: number(&v, "cmdGetAvatarDataScRsp")?,
        cmd_player_sync_sc_notify: number(&v, "cmdPlayerSyncScNotify")?,
        cmd_dismantle_equip_cs_req: number(&v, "cmdDismantleEquipCsReq")?,
        sync_avatar_data: SyncAvatarData {
            avatar_sync: number(avatar, "avatarSync")?,
            avatars: number(avatar, "avatars")?,
            dels: number(avatar, "dels")?,
        },
        sync_item_data: SyncItemData {
            item_sync: number(item, "itemSync")?,
            equips: number(item, "equips")?,
            weapons: number(item, "weapons")?,
            deleted_equips: number(item, "deletedEquips")?,
        },
        equip_dismantle: EquipDismantle {
            uid: number(dismantle, "uid")?,
            uids: number(dismantle, "uids")?,
        },
        agent_data: AgentData { agents: number(member(&v, "agentData")?, "agents")? },
        agent_info: AgentInfoFields {
            id: number(agent, "id")?,
            level: number(agent, "level")?,
            promotion: number(agent, "promotion")?,
            weapon_uid: number(agent, "weaponUid")?,
            mindscape: number(agent, "mindscape")?,
            skills: number(agent, "skills")?,
            dressed_equips: number(agent, "dressed_equips")?,
        },
        agent_skill: AvatarSkillLevel {
            skill_type: number(skill, "skill_type")?,
            level: number(skill, "level")?,
        },
        agent_equip: DressedEquip { uid: number(equip, "uid")?, slot: number(equip, "slot")? },
        equip_data: EquipData { discs: number(member(&v, "equipData")?, "discs")? },
        disc_info: DiscInfoFields {
            uid: number(disc, "uid")?,
            id: number(disc, "id")?,
            level: number(disc, "level")?,
            main_stat: number(disc, "mainStat")?,
            sub_stats: number(disc, "subStats")?,
        },
        disc_stat: DiscStatFields {
            key: number(stat, "key")?,
            base_value: number(stat, "base_value")?,
            add_value: number(stat, "add_value")?,
        },
        weapon_data: WeaponData { weapons: number(member(&v, "weaponData")?, "weapons")? },
        weapon_info: WeaponInfoFields {
            id: number(weapon, "id")?,
            uid: number(weapon, "uid")?,
            level: number(weapon, "level")?,
            phase: number(weapon, "phase")?,
            modification: number(weapon, "modification")?,
        },
    })
}

fn parse_entries(json: &str) -> Result<Vec<ProtoEntry>, String> {
    let value: Json = serde_json::from_str(json).map_err(|error| error.to_string())?;
    let text = |v: &Json| v.as_str().unwrap_or_default().to_string();
    let flag = |v: &Json| v.as_bool().unwrap_or_default();
    let mut entries = Vec::new();
    for entry in value.as_array().ok_or("no list")? {
        let mut fields = Vec::new();
        for field in entry["fields"].as_array().ok_or("no list of fields")? {
            fields.push(ProtoEntryField {
                number: field["number"].as_i64().unwrap_or_default() as i32,
                name: text(&field["name"]),
                type_ref: text(&field["type"]),
                xor_value: field["xor_value"].as_u64().map(|value| value as u32),
                is_native_type: flag(&field["is_native_type"]),
                is_enum: flag(&field["is_enum"]),
                repeated: flag(&field["repeated"]),
            });
        }
        entries.push(ProtoEntry {
            cmd_id: entry["cmd_id"].as_u64().map(|id| id as u16),
            name: text(&entry["name"]),
            fields,
        });
    }
    Ok(entries)
}

fn parse_manifest(json: &str) -> Result<Manifest, String> {
    let value: Json = serde_json::from_str(json).map_err(|error| error.to_string())?;
    Ok(Manifest { version: value["version"].as_str().unwrap_or_default().to_string() })
}

fn parse_nanoka_manifest(json: &str) -> Result<NanokaManifest, String> {
    let value: Json = serde_json::from_str(json).map_err(|error| error.to_string())?;
    let live = value["zzz"]["live"].as_str().unwrap_or_default().to_string();
    Ok(NanokaManifest { zzz: NanokaZzz { live } })
}

fn table(json: &str) -> Result<Vec<(u32, Json)>, String> {
    let value: Json = serde_json::from_str(json).map_err(|error| error.to_string())?;
    let mut rows = Vec::new();
    for (id, row) in value.as_object().ok_or("no table")? {
        rows.push((id.parse::<u32>().map_err(|error| error.to_string())?, row.clone()));
    }
    Ok(rows)
}

fn nanoka_from_json(
    version: &str,
    characters: &str,
    weapons: &str,
    equipment: &str,
) -> Result<NanokaData, String> {
    let text = |v: &Json| v.as_str().unwrap_or_default().to_string();
    let rank = |v: &Json| v["rank"].as_u64().unwrap_or_default() as u32;
    let mut data = NanokaData { version: version.to_string(), ..NanokaData::default() };
    for (id, row) in table(characters)? {
        data.characters.insert(id, Character { rank: rank(&row), en: text(&row["en"]) });
    }
    for (id, row) in table(weapons)? {
        data.weapons.insert(id, Weapon { rank: rank(&row), en: text(&row["en"]) });
    }
    for (id, row) in table(equipment)? {
        let name = text(&row["en"]["name"]);
        data.equipment.insert(id, Equipment { en: EquipmentName { name } });
    }
    Ok(data)
}

#[test]
fn parses_the_committed_file() {
    let datamine = parse_datamine(DATAMINE_JSON).expect("the file parses");
    assert_eq!(datamine.cmd_player_get_token_sc_rsp, 4937);
    assert_eq!(datamine.cmd_player_sync_sc_notify, 1175);
    assert_eq!(datamine.sync_item_data.deleted_equips, 8);
    assert_eq!(datamine.agent_info.weapon_uid, 12);
    assert_eq!(datamine.disc_stat.add_value, 7);
    assert_eq!(datamine.xor_seeds.len(), 4);
}

#[test]
fn region_seeds_round_trip() {
    let datamine = parse_datamine(DATAMINE_JSON).unwrap();
    let seed = datamine.seed_for_region("Europe").unwrap();
    assert_eq!(seed, 0x9543_521F_C9C8_CAED);
    assert_eq!(datamine.region_for_seed(seed), Some("Europe"));
    assert_eq!(datamine.seed_for_region("Nope"), None);

    // The region name with punctuation in it is a real key.
    assert_eq!(
        datamine.seed_for_region("TW,HK,MO"),
        Some(0x883B_2720_4BF7_25D3)
    );
}

#[test]
fn seeds_are_hexadecimal_numbers() {
    assert_eq!(parse_seed(" 1A7e69FE2F49590A\n"), Some(0x1A7E_69FE_2F49_590A));
    assert_eq!(parse_seed("+ff"), Some(255));
    assert_eq!(parse_seed(""), None);
    assert_eq!(parse_seed("xyz"), None);
    assert_eq!(parse_seed("1FFFFFFFFFFFFFFFF"), None);
}

/// What is published, by address.
type Published = BTreeMap<String, String>;

/// The files at hand, by name.
type Files = BTreeMap<String, String>;

fn load(files: &Files) -> Result<GameData, DataError> {
    let read = |file: DataFile| {
        files.get(&file.name()).ok_or_else(|| DataError::Io {
            path: file.name(),
            error: "No such file or directory".to_string(),
        })
    };
    let json = |file: DataFile, error: String| DataError::Json { path: Some(file.name()), error };
    let datamine =
        parse_datamine(read(DATAMINE_FILE)?).map_err(|error| json(DATAMINE_FILE, error))?;
    let entries = parse_entries(read(PROTO_FILE)?).map_err(|error| json(PROTO_FILE, error))?;
    let names = files
        .get(&NANOKA_FILE.name())
        .and_then(|body| parse_nanoka(body).ok())
        .unwrap_or_default();
    Ok(GameData::new(datamine, entries, names))
}

fn parse_nanoka(body: &str) -> Result<NanokaData, String> {
    let value: Json = serde_json::from_str(body).map_err(|error| error.to_string())?;
    nanoka_from_json(
        value["version"].as_str().unwrap_or_default(),
        &value["characters"].to_string(),
        &value["weapons"].to_string(),
        &value["equipment"].to_string(),
    )
}

fn local_version(files: &Files) -> Option<Version> {
    let manifest = parse_manifest(files.get(&MANIFEST_FILE.name())?).ok()?;
    Some(Version::parse(&manifest.version))
}

/// Carries a refresh out on files in memory.
fn refresh(files: &mut Files, published: &Published) -> Result<RefreshReport, DataError> {
    let (mut refresh, mut action) = Refresh::new();
    loop {
        let event = match action {
            RefreshAction::Finish(report) => {
                assert_eq!(refresh.phase(), Phase::Over);
                return Ok(report);
            }
            RefreshAction::Fail(error) => return Err(error),
            RefreshAction::CreateDirectory => RefreshEvent::Done,
            RefreshAction::Fetch(url) => match published.get(&url) {
                Some(body) => RefreshEvent::Text(body.clone()),
                None => RefreshEvent::Failed(DataError::Fetch(format!(
                    "no canned response for {url}"
                ))),
            },
            RefreshAction::ParseManifest(body) => match parse_manifest(&body) {
                Ok(manifest) => RefreshEvent::Text(manifest.version),
                Err(error) => RefreshEvent::Failed(DataError::Json { path: None, error }),
            },
            RefreshAction::Write { file, body } => {
                files.insert(file.name(), body);
                RefreshEvent::Done
            }
            RefreshAction::Compare { datamine, proto } => {
                let local = |file: DataFile| files.get(&file.name()).cloned().unwrap_or_default();
                let unreadable = parse_datamine(&datamine).err();
                let entries = parse_entries(&proto);
                RefreshEvent::Compared {
                    datamine: datamine_refusal(
                        &local(DATAMINE_FILE),
                        &datamine,
                        unreadable.as_deref(),
                    ),
                    proto: nap_refusal(
                        parse_entries(&local(PROTO_FILE)).ok().as_ref(),
                        entries.as_ref().ok(),
                        entries.as_ref().err().map(String::as_str),
                    ),
                }
            }
            RefreshAction::ParseNames(body) => match parse_nanoka_manifest(&body) {
                Ok(manifest) => RefreshEvent::Text(manifest.zzz.live),
                Err(error) => RefreshEvent::Failed(DataError::Json { path: None, error }),
            },
            RefreshAction::ReadCache => RefreshEvent::Cached(
                files
                    .get(&NANOKA_FILE.name())
                    .and_then(|body| parse_nanoka(body).ok())
                    .map(|data| data.version),
            ),
            RefreshAction::Build { version, characters, weapons, equipment } => {
                match nanoka_from_json(&version, &characters, &weapons, &equipment) {
                    Ok(_) => RefreshEvent::Text(format!(
                        "{{\"version\":\"{version}\",\"characters\":{characters},\"weapons\":{weapons},\"equipment\":{equipment}}}"
                    )),
                    Err(error) => RefreshEvent::Failed(DataError::Json { path: None, error }),
                }
            }
        };
        action = refresh.step(event);
    }
}

fn published(pairs: &[(String, &str)]) -> Published {
    pairs.iter().map(|(url, body)| (url.clone(), body.to_string())).collect()
}

/// What is published, with these copies of the two files that belong together.
fn published_with(datamine: &str, proto: &str) -> Published {
    published(&[
        (manifest_url(), r#"{"version":"3.2"}"#),
        (datamine_url(), datamine),
        (proto_url(), proto),
        (nanoka::manifest_url(), r#"{"zzz":{"live":"3.2"}}"#),
        (character_url("3.2"), r#"{"1":{"rank":0,"en":"A"}}"#),
        (equipment_url("3.2"), r#"{"2":{"en":{"name":"S"}}}"#),
        (weapon_url("3.2"), r#"{"3":{"rank":1,"en":"W"}}"#),
    ])
}

fn local_files() -> Files {
    let mut files = Files::new();
    files.insert(DATAMINE_FILE.name(), DATAMINE_JSON.to_string());
    files.insert(PROTO_FILE.name(), PROTO_JSON.to_string());
    files
}

#[test]
fn loads_the_committed_assets() {
    let mut files = local_files();
    files.insert(MANIFEST_FILE.name(), r#"{"version":"3.2"}"#.to_string());
    let data = load(&files).expect("the files load");

    assert_eq!(data.datamine.cmd_player_sync_sc_notify, 1175);
    assert!(!data.proto_entries.is_empty());
    assert_eq!(data.nap.entries().len(), data.proto_entries.len());
    assert_eq!(data.seed_for_region("Asia"), Some(0x1A7E_69FE_2F49_590A));
    assert_eq!(data.region_for_seed(0x1A7E_69FE_2F49_590A), Some("Asia"));
    assert_eq!(local_version(&files), Some(Version::parse("3.2")));
}

#[test]
fn a_missing_asset_fails_with_the_path_in_the_error() {
    let error = load(&Files::new()).unwrap_err();
    assert!(error.to_string().contains(&DATAMINE_FILE.name()), "{}", error.to_string());
}

#[test]
fn refreshes_every_data_file_from_the_fetcher() {
    let mut files = Files::new();
    let mut available = published(&[
        (manifest_url(), r#"{"version":"9.9"}"#),
        (nanoka::manifest_url(), r#"{"zzz":{"live":"9.9"}}"#),
        (character_url("9.9"), r#"{"1":{"rank":0,"en":"New"}}"#),
        (equipment_url("9.9"), r#"{"2":{"en":{"name":"Set"}}}"#),
        (weapon_url("9.9"), r#"{"3":{"rank":1,"en":"Gun"}}"#),
    ]);

    // Two of the files are not published, so the refresh must fail before it writes anything
    // that would break the cache.
    let error = refresh(&mut files, &available).unwrap_err();
    assert!(matches!(error, DataError::Fetch(_)));
    assert!(!files.contains_key(&DATAMINE_FILE.name()));

    available.insert(datamine_url(), DATAMINE_JSON.to_string());
    available.insert(proto_url(), PROTO_JSON.to_string());
    let report = refresh(&mut files, &available).unwrap();
    assert_eq!(
        report.updated_files,
        vec![MANIFEST_FILE, DATAMINE_FILE, PROTO_FILE, NANOKA_FILE]
    );
    assert_eq!(report.version, Some(Version::parse("9.9")));
    assert_eq!(report.nanoka_version.as_deref(), Some("9.9"));
    assert!(!report.is_empty());

    let data = load(&files).unwrap();
    assert_eq!(data.nanoka.character_name(1), Some("New"));
    assert!(!data.nanoka.names_missing());
    assert_eq!(local_version(&files), Some(Version::parse("9.9")));

    // A second refresh is a no-op for the names, which already match.
    let report = refresh(&mut files, &available).unwrap();
    assert!(!report.updated_files.contains(&NANOKA_FILE));
}

#[test]
fn refuses_a_published_datamine_that_would_drop_keys() {
    let mut files = local_files();
    let older = DATAMINE_JSON.replace("\"syncItemData\"", "\"itemSyncData\"");
    let report = refresh(&mut files, &published_with(&older, PROTO_JSON)).unwrap();

    assert_eq!(report.kept_local_names(), vec![DATAMINE_FILE]);
    assert_eq!(
        report.kept_local[0].1,
        vec!["drops `syncItemData`".to_string()]
    );
    // The other file was fine on its own, but the two have to move together.
    assert_eq!(report.held_back, vec![PROTO_FILE]);
    assert_eq!(files[&DATAMINE_FILE.name()], DATAMINE_JSON);
    // The names are independent, so they still refreshed.
    assert!(report.updated_files.contains(&NANOKA_FILE));
    assert_eq!(report.nanoka_version.as_deref(), Some("3.2"));
}

#[test]
fn refuses_a_published_nap_that_would_drop_descriptors() {
    let mut files = local_files();
    let mut entries: Vec<Json> = serde_json::from_str(PROTO_JSON).unwrap();
    let dropped = entries.last().unwrap()["name"].as_str().unwrap().to_string();
    entries.pop();
    let smaller = serde_json::to_string(&entries).unwrap();
    let report = refresh(&mut files, &published_with(DATAMINE_JSON, &smaller)).unwrap();

    assert_eq!(report.kept_local_names(), vec![PROTO_FILE]);
    assert_eq!(
        report.kept_local[0].1,
        vec![format!("drops descriptor `{dropped}`")]
    );
    assert_eq!(report.held_back, vec![DATAMINE_FILE]);
    assert_eq!(files[&PROTO_FILE.name()], PROTO_JSON);
}

#[test]
fn refuses_a_published_datamine_this_build_cannot_parse() {
    let mut files = local_files();

    // An object that shares no keys with the local file is refused for dropping them.
    let report =
        refresh(&mut files, &published_with("{\"xorSeeds\":{}}", PROTO_JSON)).unwrap();
    assert_eq!(report.kept_local_names(), vec![DATAMINE_FILE]);
    assert!(
        report.kept_local[0]
            .1
            .iter()
            .any(|reason| reason.contains("cmdPlayerSyncScNotify")),
        "reasons were {:?}",
        report.kept_local[0].1
    );

    // Something that keeps every key but cannot be read is refused for that.
    let mangled = DATAMINE_JSON.replace(
        "\"cmdPlayerSyncScNotify\":",
        "\"cmdPlayerSyncScNotify\": \"x\", \"ignored\":",
    );
    let report = refresh(&mut files, &published_with(&mangled, PROTO_JSON)).unwrap();
    assert!(
        report.kept_local[0]
            .1
            .iter()
            .any(|reason| reason.contains("cannot parse")),
        "reasons were {:?}",
        report.kept_local[0].1
    );
    assert_eq!(files[&DATAMINE_FILE.name()], DATAMINE_JSON);
}

#[test]
fn accepts_a_published_datamine_that_only_adds_keys() {
    let mut files = local_files();
    let mut value: Json = serde_json::from_str(DATAMINE_JSON).unwrap();
    value.as_object_mut().unwrap().insert("cmdSomethingNew".into(), Json::from(1));
    let newer = serde_json::to_string(&value).unwrap();
    let report = refresh(&mut files, &published_with(&newer, PROTO_JSON)).unwrap();

    assert!(report.kept_local.is_empty(), "{:?}", report.kept_local);
    assert!(report.held_back.is_empty());
    assert!(report.updated_files.contains(&DATAMINE_FILE));
    assert!(report.updated_files.contains(&PROTO_FILE));
    assert_ne!(files[&DATAMINE_FILE.name()], DATAMINE_JSON);
}

#[test]
fn update_available_compares_versions() {
    assert!(!update_available(Some("3.2"), "3.1"));
    assert!(update_available(Some("3.2"), "3.3"));
    // Without a local file anything published is newer.
    assert!(update_available(None, "0.0.1"));
}

#[test]
fn a_blank_table_of_names_fails_the_refresh() {
    let mut files = local_files();
    let mut available = published_with(DATAMINE_JSON, PROTO_JSON);
    available.insert(equipment_url("3.2"), "  \n".to_string());
    let error = refresh(&mut files, &available).unwrap_err();
    assert!(matches!(&error, DataError::Fetch(_)));
    assert_eq!(
        error.to_string(),
        "empty response from https://static.nanoka.cc/zzz/3.2/equipment.json"
    );
    // What was replaced before stays replaced.
    assert!(files.contains_key(&MANIFEST_FILE.name()));
    assert!(!files.contains_key(&NANOKA_FILE.name()));
}

#[test]
fn a_manifest_without_a_live_version_leaves_the_names_alone() {
    let mut files = local_files();
    let mut available = published_with(DATAMINE_JSON, PROTO_JSON);
    available.insert(nanoka::manifest_url(), "{}".to_string());
    let report = refresh(&mut files, &available).unwrap();
    assert_eq!(report.nanoka_version, None);
    assert_eq!(report.updated_files, vec![MANIFEST_FILE, DATAMINE_FILE, PROTO_FILE]);
}

#[test]
fn a_refresh_is_told_only_what_it_asked_for() {
    let (mut refresh, first) = Refresh::new();
    assert!(matches!(first, RefreshAction::CreateDirectory));
    assert!(matches!(
        refresh.step(RefreshEvent::Cached(None)),
        RefreshAction::Fail(DataError::Invalid(_))
    ));
    assert_eq!(refresh.phase(), Phase::Over);
}

#[test]
fn losses_are_found_and_named() {
    assert_eq!(
        dropped_keys(r#"{"b":1,"a":2}"#, r#"{"a":0}"#),
        Some(vec!["b".to_string()])
    );
    assert_eq!(dropped_keys(r#"{"a":1}"#, r#"{"a":0,"c":1}"#), None);
    assert_eq!(dropped_keys("not json", r#"{"a":0}"#), None);
    assert_eq!(dropped_keys(r#"{"a":1}"#, "[1]"), None);
    let some = |names: &[&str]| Some(names.iter().map(|n| n.to_string()).collect::<Vec<_>>());
    assert_eq!(lost(&some(&["x", "y"]), &some(&["y"])), some(&["x"]));
    assert_eq!(lost(&some(&["x"]), &None), None);

    let entry = |name: &str| ProtoEntry { cmd_id: None, name: name.to_string(), fields: vec![] };
    let local = vec![entry("b"), entry("a"), entry("b")];
    assert_eq!(
        dropped_nap_entries(Some(&local), Some(&vec![])),
        Some(vec!["a".to_string(), "b".to_string()])
    );
    assert_eq!(dropped_nap_entries(None, Some(&local)), None);
}

#[test]
fn data_errors_are_told_in_words() {
    let io = DataError::Io { path: "here".to_string(), error: "no".to_string() };
    assert_eq!(io.to_string(), "here: no");
    let json = DataError::Json { path: Some("there".to_string()), error: "bad".to_string() };
    assert_eq!(json.to_string(), "there: bad");
    assert_eq!(DataError::Json { path: None, error: "bad".to_string() }.to_string(), "bad");
    assert_eq!(DataError::Fetch("offline".to_string()).to_string(), "offline");
    assert_eq!(DataError::Invalid("odd".to_string()).to_string(), "odd");
}

#[test]
fn published_files_have_addresses() {
    assert!(manifest_url().ends_with(&format!("/assets/{}", MANIFEST_FILE.name())));
    assert!(datamine_url().ends_with("/assets/datamine.json"));
    assert!(proto_url().ends_with("/assets/nap.json"));
    assert_eq!(NANOKA_FILE.name(), "nanokaData.json");
    assert_eq!(MANIFEST_FILE.name().len(), 13);
}

#[test]
fn parses_the_three_files() {
    let characters = r#"{"1581":{"rank":4,"en":"Yixuan"},"1441":{"rank":3,"en":"Anby"}}"#;
    let weapons = r#"{"14911":{"rank":4,"en":"Boisterous Echoes"}}"#;
    let equipment = r#"{"31000":{"en":{"name":"Branch & Blade Song"}}}"#;

    let data = nanoka_from_json("3.2", characters, weapons, equipment).unwrap();
    assert_eq!(data.character_name(1581), Some("Yixuan"));
    // rank is 0-based in the source data; the export filter wants 1-based.
    assert_eq!(data.character_rarity(1581), Some(5));
    assert_eq!(data.character_rarity(1441), Some(4));
    assert_eq!(data.weapon_name(14911), Some("Boisterous Echoes"));
    assert_eq!(data.weapon_rarity(14911), Some(5));
    assert_eq!(data.equipment_name(31000), Some("Branch & Blade Song"));
}

#[test]
fn unknown_ids_return_none_instead_of_panicking() {
    let data = nanoka_from_json("3.2", "{}", "{}", "{}").unwrap();
    assert_eq!(data.character_name(9999), None);
    assert_eq!(data.character_rarity(9999), None);
    assert_eq!(data.weapon_name(9999), None);
    assert_eq!(data.equipment_name(9999), None);
}

#[test]
fn tolerates_extra_keys_and_missing_ones() {
    let characters =
        r#"{"1581":{"rank":4,"en":"Yixuan","extra":{"nested":true},"tags":["a"]}}"#;
    let data = nanoka_from_json("3.2", characters, "{}", "{}").unwrap();
    assert_eq!(data.character_name(1581), Some("Yixuan"));

    let characters = r#"{"1581":{"en":"Yixuan"}}"#;
    let data = nanoka_from_json("3.2", characters, "{}", "{}").unwrap();
    assert_eq!(data.character_rarity(1581), Some(1));
}

#[test]
fn parses_the_nanoka_manifest() {
    let manifest = parse_nanoka_manifest(r#"{"zzz":{"live":"3.2"},"other":1}"#).unwrap();
    assert_eq!(manifest.zzz.live, "3.2");
    let manifest = parse_nanoka_manifest("{}").unwrap();
    assert!(manifest.zzz.live.is_empty());
}

#[test]
fn builds_the_versioned_urls() {
    assert_eq!(
        character_url("3.2"),
        "https://static.nanoka.cc/zzz/3.2/character.json"
    );
    assert_eq!(
        weapon_url("3.2"),
        "https://static.nanoka.cc/zzz/3.2/weapon.json"
    );
    assert_eq!(
        equipment_url("3.2"),
        "https://static.nanoka.cc/zzz/3.2/equipment.json"
    );
}

#[test]
fn parses_short_and_long_forms() {
    assert_eq!(
        Version::parse("3.2"),
        Version {
            major: 3,
            minor: 2,
            patch: 0
        }
    );
    assert_eq!(
        Version::parse("3.2.1"),
        Version {
            major: 3,
            minor: 2,
            patch: 1
        }
    );
    assert_eq!(Version::parse(""), Version::default());
    assert_eq!(Version::parse("garbage"), Version::default());
    assert_eq!(
        Version::parse("2.0.0"),
        Version {
            major: 2,
            minor: 0,
            patch: 0
        }
    );
}

#[test]
fn orders_by_component() {
    assert!(Version::parse("3.1") < Version::parse("3.2"));
    assert!(Version::parse("3.2") < Version::parse("3.2.1"));
    assert!(Version::parse("2.9.9") < Version::parse("3.0"));
    assert_eq!(Version::parse("3.2"), Version::parse("3.2.0"));
}

#[test]
fn displays_canonically() {
    assert_eq!(Version::parse("3.2").to_string(), "3.2.0");
    assert_eq!(Version::parse("1.2.3").to_string(), "1.2.3");
}

#[test]
fn versions_are_read_and_written() {
    assert_eq!(Version::parse("7").to_string(), "7.0.0");
    assert_eq!(Version::parse("1.x.3").to_string(), "1.0.3");
    let data = nanoka_from_json("3.2", r#"{"1":{"en":"A"}}"#, "{}", "{}").unwrap();
    assert_eq!(data.to_string(), "nanoka 3.2 (1 agents, 0 w-engines, 0 sets)");
    assert!(NanokaData::default().names_missing());
}

fn note(outcome: &UpdateOutcome) -> &str {
    outcome.note.as_deref().unwrap_or_default()
}

#[test]
fn a_copy_that_is_current_is_kept_without_a_word() {
    let outcome = after_check(true, false, Ok(false)).unwrap();
    assert!(matches!(outcome.data, DataChoice::Local));
    assert_eq!(outcome.note, None);
    assert!(matches!(after_check(false, false, Ok(false)).unwrap().data, DataChoice::Unchanged));
    // Newer files, or missing names, call for a refresh.
    assert!(after_check(true, false, Ok(true)).is_none());
    assert!(after_check(true, true, Ok(false)).is_none());
    let offline = after_check(true, false, Err("offline")).unwrap();
    assert_eq!(note(&offline), "could not check for updates (offline); using local copy");
}

#[test]
fn a_refresh_that_fails_costs_nothing() {
    let report = RefreshReport {
        version: Some(Version::parse("3.2")),
        kept_local: vec![(DATAMINE_FILE, vec!["drops `a`".to_string(), "drops `b`".to_string()])],
        ..RefreshReport::default()
    };
    let done = after_refresh(Ok(&report), None);
    assert!(matches!(done.data, DataChoice::Reloaded));
    assert_eq!(
        note(&done),
        "data files updated (version 3.2.0); kept local datamine.json: drops `a`, drops `b`"
    );
    let bare = after_refresh(Ok(&RefreshReport::default()), None);
    assert_eq!(note(&bare), "data files updated");
    let broken = after_refresh(Ok(&report), Some("bad json"));
    assert!(matches!(broken.data, DataChoice::Local));
    assert_eq!(
        note(&broken),
        "update downloaded but the result would not load (bad json); using previous copy"
    );
    let failed = after_refresh(Err("offline"), None);
    assert!(matches!(failed.data, DataChoice::Local));
    assert_eq!(note(&failed), "data update failed (offline); using local copy");
}

#[test]
fn missing_files_are_downloaded() {
    let report = RefreshReport {
        version: Some(Version::parse("3.2")),
        kept_local: vec![(PROTO_FILE, vec!["drops descriptor `X`".to_string()])],
        ..RefreshReport::default()
    };
    let done = after_download(false, "gone", Ok(&report), None, "assets");
    assert!(matches!(done.data, DataChoice::Reloaded));
    assert_eq!(note(&done), "downloaded data files (version 3.2.0)");

    let refused = after_download(false, "gone", Ok(&report), Some("still gone"), "assets");
    assert!(matches!(refused.data, DataChoice::Failed(reason)
        if reason == "gone; download also failed: still gone; published files refused (nap.json: drops descriptor `X`)"));
    let bare = RefreshReport::default();
    let broken = after_download(false, "gone", Ok(&bare), Some("bad"), "assets");
    assert!(matches!(broken.data, DataChoice::Failed(reason)
        if reason == "gone; download also failed: bad"));
    let offline = after_download(false, "gone", Err("offline"), None, "assets");
    assert!(matches!(offline.data, DataChoice::Failed(reason)
        if reason == "gone; automatic download failed: offline \u{2014} check the connection or run `zzzcap update` in assets"));

    let kept = after_download(true, "gone", Err("offline"), None, "assets");
    assert!(matches!(kept.data, DataChoice::Local));
    assert_eq!(note(&kept), "data download failed (offline); using local copy");
    let kept = after_download(true, "gone", Ok(&bare), Some("bad"), "assets");
    assert_eq!(
        note(&kept),
        "download completed but the files would not load (bad); using previous copy"
    );
}

#[test]
fn every_file_is_accounted_for_after_a_refresh() {
    let report = RefreshReport {
        updated_files: vec![MANIFEST_FILE, NANOKA_FILE],
        kept_local: vec![(DATAMINE_FILE, vec![])],
        held_back: vec![PROTO_FILE],
        ..RefreshReport::default()
    };
    let old = vec![1u8];
    let new = vec![2u8];
    assert_eq!(file_state(&report, DATAMINE_FILE, Some(&old), Some(&old)), FileState::Refused);
    assert_eq!(file_state(&report, PROTO_FILE, Some(&old), Some(&old)), FileState::HeldBack);
    assert_eq!(
        file_state(&report, MANIFEST_FILE, Some(&old), Some(&old)),
        FileState::Rewritten
    );
    assert_eq!(file_state(&report, MANIFEST_FILE, Some(&old), Some(&new)), FileState::Updated);
    assert_eq!(file_state(&report, NANOKA_FILE, None, Some(&new)), FileState::Added);
    assert_eq!(
        file_state(&RefreshReport::default(), NANOKA_FILE, Some(&old), Some(&old)),
        FileState::Current
    );
}

#[test]
fn of_regions_that_share_a_seed_the_first_is_found() {
    let mut datamine = parse_datamine(DATAMINE_JSON).unwrap();
    let entry = |region: &str, seed: &str| (region.to_string(), seed.to_string());
    datamine.xor_seeds = vec![
        entry("A", "00000000000000FF"),
        entry("B", "not a number"),
        entry("C", "0000000000000001"),
        entry("D", "ff"),
    ];
    assert_eq!(datamine.seed_for_region("D"), Some(0xFF));
    assert_eq!(datamine.region_for_seed(0xFF), Some("A"));
    assert_eq!(datamine.seed_for_region("A"), Some(0xFF));
    assert_eq!(datamine.region_for_seed(1), Some("C"));
    assert_eq!(datamine.seed_for_region("B"), None);
    assert_eq!(datamine.region_for_seed(2), None);
}

#[test]
fn a_copy_that_loaded_survives_any_failure() {
    for had_local in [false, true] {
        let offline = after_check(had_local, false, Err("offline")).unwrap();
        assert!(matches!(offline.data, DataChoice::Local));
        assert_eq!(note(&offline), "could not check for updates (offline); using local copy");
    }
    let failed = after_refresh(Err("gone"), None);
    assert!(matches!(failed.data, DataChoice::Local));
    assert_eq!(note(&failed), "data update failed (gone); using local copy");
}

/// Tells a refresh that everything it asks for works, until both published files are written
/// or refused.
fn up_to_the_pair(refused: bool) -> (Refresh, RefreshAction) {
    let text = |text: &str| RefreshEvent::Text(text.to_string());
    let (mut refresh, _) = Refresh::new();
    refresh.step(RefreshEvent::Done);
    refresh.step(text("{}"));
    refresh.step(text("3.2"));
    refresh.step(RefreshEvent::Done);
    refresh.step(text("the datamine"));
    refresh.step(text("the descriptors"));
    let datamine = if refused { Some(vec!["drops `a`".to_string()]) } else { None };
    let action = refresh.step(RefreshEvent::Compared { datamine, proto: None });
    (refresh, action)
}

#[test]
fn a_run_replaces_both_files_or_neither() {
    let (mut refresh, action) = up_to_the_pair(true);
    assert!(matches!(action, RefreshAction::Fetch(_)));
    refresh.step(RefreshEvent::Text("{}".to_string()));
    let RefreshAction::Finish(report) = refresh.step(RefreshEvent::Text(String::new())) else {
        panic!("the refresh is over");
    };
    assert_eq!(report.updated_files, vec![MANIFEST_FILE]);
    assert_eq!(report.kept_local_names(), vec![DATAMINE_FILE]);
    assert_eq!(report.held_back, vec![PROTO_FILE]);

    let (mut refresh, action) = up_to_the_pair(false);
    assert!(matches!(action, RefreshAction::Write { file: DATAMINE_FILE, .. }));
    assert!(matches!(
        refresh.step(RefreshEvent::Done),
        RefreshAction::Write { file: PROTO_FILE, .. }
    ));
    assert!(matches!(refresh.step(RefreshEvent::Done), RefreshAction::Fetch(_)));
    refresh.step(RefreshEvent::Text("{}".to_string()));
    let RefreshAction::Finish(report) = refresh.step(RefreshEvent::Text(String::new())) else {
        panic!("the refresh is over");
    };
    assert_eq!(report.updated_files, vec![MANIFEST_FILE, DATAMINE_FILE, PROTO_FILE]);

    // Where the second cannot be written, the refresh does not finish.
    let (mut refresh, _) = up_to_the_pair(false);
    refresh.step(RefreshEvent::Done);
    assert!(matches!(
        refresh.step(RefreshEvent::Failed(DataError::Fetch("full".to_string()))),
        RefreshAction::Fail(_)
    ));
    assert_eq!(refresh.phase(), Phase::Over);
}

#[test]
fn a_refresh_hands_on_the_failure_it_is_told() {
    let told = |error: DataError| {
        let (mut refresh, _) = Refresh::new();
        let RefreshAction::Fail(error) = refresh.step(RefreshEvent::Failed(error)) else {
            panic!("the refresh goes on");
        };
        error
    };
    let (path, error) = ("p".to_string(), "e".to_string());
    assert!(matches!(told(DataError::Fetch("x".to_string())), DataError::Fetch(m) if m == "x"));
    assert!(matches!(told(DataError::Invalid("x".to_string())), DataError::Invalid(m) if m == "x"));
    assert!(matches!(
        told(DataError::Io { path: path.clone(), error: error.clone() }),
        DataError::Io { path, error } if path == "p" && error == "e"
    ));
    assert!(matches!(
        told(DataError::Json { path: Some(path), error }),
        DataError::Json { path: Some(path), error } if path == "p" && error == "e"
    ));
}
