//! The export: JSON, settings and the document itself.
use zzzcap::json::{array, boolean, number, object, string};
use zzzcap::model::{AgentInfo, AvatarSkillLevel, DiscInfo, DiscStat, DressedEquip, WeaponInfo};
use zzzcap::names::{NanokaNames, Names};
use zzzcap::nanoka::{Character, Equipment, EquipmentName, NanokaData, Weapon};
use zzzcap::settings::ExportSettings;
use zzzcap::snapshot::Inventory;
use zzzcap::zod::{ExportError, ISubstat, Izod};

#[test]
fn escapes_exactly_what_glaze_escapes() {
    assert_eq!(string("a\"b"), r#""a\"b""#);
    assert_eq!(string("a\\b"), r#""a\\b""#);
    assert_eq!(string("a/b"), r#""a/b""#);
    assert_eq!(string("a\tb"), r#""a\tb""#);
    assert_eq!(string("a\nb"), r#""a\nb""#);
    assert_eq!(string("a\rb"), r#""a\rb""#);
    assert_eq!(string("a\x08b"), r#""a\bb""#);
    assert_eq!(string("a\x0Cb"), r#""a\fb""#);
}

#[test]
fn leaves_other_control_bytes_raw() {
    assert_eq!(string("a\x00b"), "\"a\u{0}b\"");
    assert_eq!(string("a\x01b"), "\"a\u{1}b\"");
    assert_eq!(string("a\x0Bb"), "\"a\u{b}b\"");
    assert_eq!(string("a\x1Fb"), "\"a\u{1F}b\"");
    assert_eq!(string("a\x7Fz"), "\"a\u{7F}z\"");
}

#[test]
fn passes_utf8_through_unescaped() {
    assert_eq!(string("Anby \u{96ea}\u{8863}"), "\"Anby \u{96ea}\u{8863}\"");
}

#[test]
fn omits_none_and_keeps_engaged_empties() {
    assert_eq!(object(&[("a", Some(number(1u32))), ("b", None)]), r#"{"a":1}"#);
    assert_eq!(
        object(&[("discs", Some(array(&[])))]),
        r#"{"discs":[]}"#,
        "an empty exported list is present, an unexported one is absent"
    );
    assert_eq!(object(&[]), "{}");
}

#[test]
fn builds_arrays_and_scalars() {
    assert_eq!(array(&[]), "[]");
    assert_eq!(
        array(&[number(1u32), boolean(false), string("x")]),
        r#"[1,false,"x"]"#
    );
    assert_eq!(number(255u8), "255");
    assert_eq!(number(4294967295u32), "4294967295");
}

#[test]
fn signed_numbers_keep_their_sign() {
    assert_eq!(number(-12i64), "-12");
    assert_eq!(number(i64::MIN), "-9223372036854775808");
    assert_eq!(number(0u8), "0");
    assert_eq!(boolean(true), "true");
}

#[test]
fn defaults_match_the_cpp_header() {
    let settings = ExportSettings::default();
    assert_eq!(settings.min_disc_rarity, 3);
    assert_eq!(settings.min_disc_level, 0);
    assert_eq!(settings.min_engine_rarity, 3);
    assert_eq!(settings.min_engine_level, 0);
    // Four stars and up by default: this is the one floor that is not zero.
    assert_eq!(settings.min_agent_rarity, 4);
    assert_eq!(settings.min_agent_level, 0);
    assert!(settings.export_discs && settings.export_agents && settings.export_engines);
}

#[test]
fn settings_without_floors_keep_the_switches() {
    let settings = ExportSettings {
        export_discs: false,
        min_agent_level: 60,
        ..ExportSettings::default()
    };
    let floorless = settings.floorless();
    assert_eq!(
        floorless,
        ExportSettings { export_discs: false, ..ExportSettings::unfiltered() }
    );
    let unfiltered = ExportSettings::unfiltered();
    assert_eq!(unfiltered.min_agent_rarity, 0);
    assert_eq!(unfiltered.min_disc_rarity, 0);
    assert_eq!(unfiltered.min_engine_rarity, 0);
}

/// Names fixed in the tests. Rarities are given in stars.
fn name_character(data: &mut NanokaData, id: u32, name: &str, rarity: u32) {
    data.characters.insert(id, Character { rank: rarity - 1, en: name.to_string() });
}

fn name_weapon(data: &mut NanokaData, id: u32, name: &str, rarity: u32) {
    data.weapons.insert(id, Weapon { rank: rarity - 1, en: name.to_string() });
}

fn name_set(data: &mut NanokaData, id: u32, name: &str) {
    data.equipment.insert(id, Equipment { en: EquipmentName { name: name.to_string() } });
}

fn fixed_names() -> NanokaData {
    let mut data = NanokaData::default();
    name_character(&mut data, 1011, "Anby", 4);
    name_character(&mut data, 1581, "Yixuan", 5);
    name_weapon(&mut data, 25, "[Lunar] Pleniluna", 4);
    name_weapon(&mut data, 15031, "Deep Sea Visitor", 5);
    name_set(&mut data, 31300, "Woodpecker Electro");
    name_set(&mut data, 31200, "Feathered Fate");
    data
}

fn agent(id: u32, level: u32) -> AgentInfo {
    AgentInfo {
        id,
        level,
        ..AgentInfo::default()
    }
}

#[test]
fn writes_the_shape_the_reference_writes() {
    let data = fixed_names();
    let names = NanokaNames(&data);
    let mut skills: Vec<AvatarSkillLevel> = (0..6)
        .map(|kind| AvatarSkillLevel {
            skill_type: kind,
            level: 11,
        })
        .collect();
    skills[4].level = 7; // core is exported zero-based, so this becomes 6

    let inventory = Inventory {
        agents: vec![AgentInfo {
            id: 1011,
            level: 60,
            promotion: 6,
            weapon_uid: 25,
            mindscape: 6,
            skills,
            dressed_equips: vec![DressedEquip { uid: 900, slot: 1 }],
        }],
        engines: vec![WeaponInfo {
            id: 25,
            uid: 25,
            level: 60,
            phase: 5,
            modification: 5,
        }],
        discs: vec![DiscInfo {
            uid: 900,
            // 31341: set 31300, rarity digit 4 (band 5, "S"), slot 1.
            id: 31341,
            level: 15,
            main_stat: DiscStat {
                key: 11103,
                base_value: 550,
                add_value: 0,
            },
            sub_stats: vec![
                DiscStat {
                    key: 21103,
                    base_value: 24,
                    add_value: 2,
                },
                DiscStat {
                    // 12102 is `atk_`; 12103 is the flat `atk`.
                    key: 12102,
                    base_value: 19,
                    add_value: 1,
                },
            ],
        }],
    };

    let zod = Izod::from_inventory(&inventory, &names, &ExportSettings::unfiltered()).unwrap();
    assert_eq!(
        zod.to_json(),
        [
            r#"{"format":"ZOD","version":1,"source":"ZZZ Packet Capture","characters":["#,
            r#"{"equippedEngine":"","key":"Anby","level":60,"mindscape":6,"promotion":5,"#,
            r#""core":6,"dodge":11,"basic":11,"chain":11,"special":11,"assist":11,"#,
            r#""potential":0,"wengineKey":"LunarPleniluna","wenginePhase":5,"id":"Anby"}],"#,
            r#""discs":[{"setKey":"WoodpeckerElectro","slotKey":"1","level":15,"rarity":"S","#,
            r#""mainStatKey":"hp","location":"Anby","lock":false,"trash":false,"substats":["#,
            r#"{"key":"crit_dmg_","upgrades":2},{"key":"atk_","upgrades":1},"#,
            r#"{"key":"","upgrades":0},{"key":"","upgrades":0}]}],"#,
            r#""wengines":[{"key":"LunarPleniluna","level":60,"modification":5,"phase":5,"#,
            r#""location":"Anby","lock":false,"id":"zzz_wengine_25"}]}"#,
        ]
        .join("")
    );
}

#[test]
fn an_export_with_nothing_selected_omits_the_three_lists() {
    let settings = ExportSettings {
        export_agents: false,
        export_discs: false,
        export_engines: false,
        ..ExportSettings::default()
    };
    let zod =
        Izod::from_inventory(&Inventory::default(), &NanokaNames(&NanokaData::default()), &settings).unwrap();
    assert_eq!(
        zod.to_json(),
        r#"{"format":"ZOD","version":1,"source":"ZZZ Packet Capture"}"#
    );
}

#[test]
fn an_empty_selection_is_written_as_an_empty_list() {
    let zod = Izod::from_inventory(
        &Inventory::default(),
        &NanokaNames(&NanokaData::default()),
        &ExportSettings::default(),
    )
    .unwrap();
    assert_eq!(
        zod.to_json(),
        [
            r#"{"format":"ZOD","version":1,"source":"ZZZ Packet Capture","characters":[],"#,
            r#""discs":[],"wengines":[]}"#,
        ]
        .join("")
    );
}

#[test]
fn an_agent_wearing_an_engine_that_never_arrived_gets_an_empty_key() {
    let data = fixed_names();
    let names = NanokaNames(&data);
    let inventory = Inventory {
        agents: vec![AgentInfo {
            id: 1011,
            level: 60,
            weapon_uid: 999,
            skills: (0..6)
                .map(|kind| AvatarSkillLevel {
                    skill_type: kind,
                    level: 1,
                })
                .collect(),
            ..AgentInfo::default()
        }],
        ..Inventory::default()
    };
    let zod = Izod::from_inventory(&inventory, &names, &ExportSettings::unfiltered()).unwrap();
    let agent = &zod.characters.unwrap()[0];
    assert_eq!(agent.wengine_key.as_deref(), Some(""));
    assert_eq!(agent.wengine_phase, Some(1));

    // With w-engines not exported at all the fields are omitted instead.
    let settings = ExportSettings {
        export_engines: false,
        ..ExportSettings::unfiltered()
    };
    let zod = Izod::from_inventory(&inventory, &names, &settings).unwrap();
    let agent = &zod.characters.unwrap()[0];
    assert_eq!(agent.wengine_key, None);
    assert_eq!(agent.wengine_phase, None);
    assert!(!agent.to_json().contains("wengineKey"));
    assert!(zod.wengines.is_none());
}

#[test]
fn levels_and_counts_truncate_the_way_a_cpp_cast_does() {
    let data = fixed_names();
    let names = NanokaNames(&data);
    let inventory = Inventory {
        agents: vec![AgentInfo {
            id: 1011,
            // 300 & 0xFF == 44, and 0 - 1 wraps to 255 in a uint8.
            level: 300,
            promotion: 0,
            skills: (0..6)
                .map(|kind| AvatarSkillLevel {
                    skill_type: kind,
                    level: 0,
                })
                .collect(),
            ..AgentInfo::default()
        }],
        engines: vec![WeaponInfo {
            id: 25,
            uid: 7,
            level: 300,
            phase: 300,
            modification: 300,
        }],
        ..Inventory::default()
    };
    let zod = Izod::from_inventory(&inventory, &names, &ExportSettings::unfiltered()).unwrap();
    let agent = &zod.characters.unwrap()[0];
    assert_eq!(agent.level, 44);
    assert_eq!(agent.promotion, 255);
    assert_eq!(agent.core, 255, "core is skill 4 minus one, wrapping");
    let engine = &zod.wengines.unwrap()[0];
    assert_eq!(
        (engine.level, engine.phase, engine.modification),
        (44, 44, 44)
    );
}

#[test]
fn substats_are_padded_to_four_and_extra_ones_dropped() {
    let data = fixed_names();
    let names = NanokaNames(&data);
    let disc = |subs: Vec<DiscStat>| DiscInfo {
        uid: 1,
        id: 31341,
        level: 15,
        main_stat: DiscStat {
            key: 11103,
            ..DiscStat::default()
        },
        sub_stats: subs,
    };
    let stat = |key: u32, add: u32| DiscStat {
        key,
        base_value: 1,
        add_value: add,
    };

    let inventory = Inventory {
        discs: vec![
            disc(vec![stat(20103, 1)]),
            disc(vec![
                stat(20103, 1),
                stat(21103, 2),
                stat(12102, 3),
                stat(13102, 4),
                stat(23103, 5),
                stat(30502, 6),
            ]),
        ],
        ..Inventory::default()
    };
    let zod = Izod::from_inventory(&inventory, &names, &ExportSettings::unfiltered()).unwrap();
    let discs = zod.discs.unwrap();

    assert_eq!(discs[0].substats.len(), 4);
    assert_eq!(discs[0].substats[0].key, "crit_");
    assert_eq!(discs[0].substats[1], ISubstat::default());
    assert_eq!(discs[0].substats[3], ISubstat::default());

    assert_eq!(discs[1].substats.len(), 4);
    assert_eq!(
        discs[1]
            .substats
            .iter()
            .map(|sub| (sub.key.as_str(), sub.upgrades))
            .collect::<Vec<_>>(),
        vec![("crit_", 1), ("crit_dmg_", 2), ("atk_", 3), ("def_", 4),],
        "the fifth and sixth substats are dropped, not merged"
    );
}

#[test]
fn the_floors_keep_and_drop_what_they_should() {
    let data = fixed_names();
    let names = NanokaNames(&data);
    let mut inventory = Inventory {
        agents: vec![agent(1011, 60), agent(1581, 1)],
        engines: vec![
            WeaponInfo {
                id: 25,
                uid: 25,
                level: 60,
                ..WeaponInfo::default()
            },
            WeaponInfo {
                id: 15031,
                uid: 15031,
                level: 0,
                ..WeaponInfo::default()
            },
        ],
        discs: vec![
            DiscInfo {
                uid: 1,
                id: 31341,
                level: 15,
                main_stat: DiscStat {
                    key: 11103,
                    ..DiscStat::default()
                },
                ..DiscInfo::default()
            },
            DiscInfo {
                uid: 2,
                id: 31341,
                level: 3,
                main_stat: DiscStat {
                    key: 11103,
                    ..DiscStat::default()
                },
                ..DiscInfo::default()
            },
        ],
    };
    for agent in &mut inventory.agents {
        agent.skills = (0..6)
            .map(|kind| AvatarSkillLevel {
                skill_type: kind,
                level: 1,
            })
            .collect();
    }

    // Every level floor defaults to 0 and every rarity floor to three stars
    // or the band it names, so with the defaults nothing here is dropped.
    let zod = Izod::from_inventory(&inventory, &names, &ExportSettings::default()).unwrap();
    assert_eq!(zod.characters.as_ref().unwrap().len(), 2);
    assert_eq!(zod.discs.as_ref().unwrap().len(), 2);
    assert_eq!(zod.wengines.as_ref().unwrap().len(), 2);

    // A disc level floor takes the level-3 one, leaving the level-15 disc.
    let settings = ExportSettings {
        min_disc_level: 5,
        ..ExportSettings::default()
    };
    let zod = Izod::from_inventory(&inventory, &names, &settings).unwrap();
    let discs = zod.discs.unwrap();
    assert_eq!(discs.len(), 1);
    assert_eq!(discs[0].level, 15);

    // A five-star floor takes the four-star agent with it.
    let settings = ExportSettings {
        min_agent_rarity: 5,
        ..ExportSettings::default()
    };
    let zod = Izod::from_inventory(&inventory, &names, &settings).unwrap();
    let characters = zod.characters.unwrap();
    assert_eq!(characters.len(), 1);
    assert_eq!(characters[0].id, "Yixuan");

    // And a level floor takes the one that never levelled.
    let settings = ExportSettings {
        min_agent_level: 2,
        ..ExportSettings::default()
    };
    let zod = Izod::from_inventory(&inventory, &names, &settings).unwrap();
    assert_eq!(zod.characters.unwrap()[0].id, "Anby");

    // An engine level floor takes the unlevelled one.
    let settings = ExportSettings {
        min_engine_level: 1,
        ..ExportSettings::default()
    };
    let zod = Izod::from_inventory(&inventory, &names, &settings).unwrap();
    assert_eq!(zod.wengines.unwrap().len(), 1);

    // A rarity floor above what a disc can be drops all of them.
    let settings = ExportSettings {
        min_disc_rarity: 6,
        ..ExportSettings::default()
    };
    let zod = Izod::from_inventory(&inventory, &names, &settings).unwrap();
    assert!(zod.discs.unwrap().is_empty());
}

#[test]
fn the_maps_are_built_before_the_filtering() {
    let data = fixed_names();
    let names = NanokaNames(&data);
    let mut inventory = Inventory {
        agents: vec![AgentInfo {
            id: 1011,
            level: 1,
            weapon_uid: 25,
            skills: (0..6)
                .map(|kind| AvatarSkillLevel {
                    skill_type: kind,
                    level: 1,
                })
                .collect(),
            ..AgentInfo::default()
        }],
        engines: vec![WeaponInfo {
            id: 25,
            uid: 25,
            level: 60,
            ..WeaponInfo::default()
        }],
        ..Inventory::default()
    };
    let settings = ExportSettings {
        min_agent_level: 60,
        ..ExportSettings::unfiltered()
    };
    let zod = Izod::from_inventory(&inventory, &names, &settings).unwrap();
    assert!(
        zod.characters.unwrap().is_empty(),
        "the agent is filtered out"
    );
    assert_eq!(zod.wengines.unwrap()[0].location, "Anby");

    // And an unequipped engine has no location at all.
    inventory.engines.push(WeaponInfo {
        id: 25,
        uid: 26,
        level: 60,
        ..WeaponInfo::default()
    });
    let zod = Izod::from_inventory(&inventory, &names, &settings).unwrap();
    let engines = zod.wengines.unwrap();
    assert_eq!(engines[0].location, "Anby");
    assert_eq!(engines[1].location, "");
}

#[test]
fn the_disc_owner_map_is_keyed_by_the_dressed_uid() {
    // `discMap[equip.uid]`, not `discMap[disc.uid]` from the disc's own
    // record — the two happen to be the same number, and this pins that the
    // agent's list is what supplies the location.
    let data = fixed_names();
    let names = NanokaNames(&data);
    let inventory = Inventory {
        agents: vec![AgentInfo {
            id: 1011,
            level: 60,
            skills: (0..6)
                .map(|kind| AvatarSkillLevel {
                    skill_type: kind,
                    level: 1,
                })
                .collect(),
            dressed_equips: vec![DressedEquip { uid: 900, slot: 1 }],
            ..AgentInfo::default()
        }],
        discs: vec![
            DiscInfo {
                uid: 900,
                id: 31341,
                level: 15,
                main_stat: DiscStat {
                    key: 11103,
                    ..DiscStat::default()
                },
                ..DiscInfo::default()
            },
            DiscInfo {
                uid: 901,
                id: 31341,
                level: 15,
                main_stat: DiscStat {
                    key: 11103,
                    ..DiscStat::default()
                },
                ..DiscInfo::default()
            },
        ],
        ..Inventory::default()
    };
    let zod = Izod::from_inventory(&inventory, &names, &ExportSettings::unfiltered()).unwrap();
    let discs = zod.discs.unwrap();
    assert_eq!(discs[0].location, "Anby");
    assert_eq!(discs[1].location, "", "never dressed, so nowhere to be");
}

#[test]
fn an_unknown_id_fails_the_export_by_name() {
    let data = fixed_names();
    let names = NanokaNames(&data);
    let bare = |id: u32| AgentInfo {
        id,
        skills: (0..6)
            .map(|kind| AvatarSkillLevel {
                skill_type: kind,
                level: 1,
            })
            .collect(),
        ..AgentInfo::default()
    };

    let inventory = Inventory {
        agents: vec![bare(9999)],
        ..Inventory::default()
    };
    assert_eq!(
        Izod::from_inventory(&inventory, &names, &ExportSettings::default()).unwrap_err(),
        ExportError::UnknownCharacter { id: 9999 }
    );

    let settings = ExportSettings {
        export_agents: false,
        ..ExportSettings::default()
    };
    assert!(Izod::from_inventory(&inventory, &names, &settings).is_err());

    let inventory = Inventory {
        agents: vec![bare(1011)],
        engines: vec![WeaponInfo {
            id: 9999,
            uid: 5,
            level: 60,
            ..WeaponInfo::default()
        }],
        ..Inventory::default()
    };
    assert_eq!(
        Izod::from_inventory(&inventory, &names, &ExportSettings::unfiltered()).unwrap_err(),
        ExportError::UnknownWeapon { id: 9999 }
    );

    let inventory = Inventory {
        discs: vec![DiscInfo {
            id: 31991,
            level: 15,
            main_stat: DiscStat {
                key: 11103,
                ..DiscStat::default()
            },
            ..DiscInfo::default()
        }],
        ..Inventory::default()
    };
    assert_eq!(
        Izod::from_inventory(&inventory, &names, &ExportSettings::unfiltered()).unwrap_err(),
        ExportError::UnknownEquipment { set_id: 31900 }
    );
}

#[test]
fn an_unreadable_stat_or_rarity_fails_the_export() {
    let data = fixed_names();
    let names = NanokaNames(&data);
    let inventory = Inventory {
        discs: vec![DiscInfo {
            id: 31341,
            level: 15,
            main_stat: DiscStat {
                key: 424242,
                ..DiscStat::default()
            },
            ..DiscInfo::default()
        }],
        ..Inventory::default()
    };
    assert_eq!(
        Izod::from_inventory(&inventory, &names, &ExportSettings::unfiltered()).unwrap_err(),
        ExportError::UnknownStat { key: 424242 }
    );

    // A substat is only read for the four slots that are written, so an
    // unreadable one in slot five does not stop the export.
    let inventory = Inventory {
        discs: vec![DiscInfo {
            id: 31341,
            level: 15,
            main_stat: DiscStat {
                key: 11103,
                ..DiscStat::default()
            },
            sub_stats: vec![DiscStat {
                key: 424242,
                ..DiscStat::default()
            }],
            ..DiscInfo::default()
        }],
        ..Inventory::default()
    };
    assert_eq!(
        Izod::from_inventory(&inventory, &names, &ExportSettings::unfiltered()).unwrap_err(),
        ExportError::UnknownStat { key: 424242 }
    );

    let inventory = Inventory {
        discs: vec![DiscInfo {
            id: 31301,
            level: 15,
            main_stat: DiscStat {
                key: 11103,
                ..DiscStat::default()
            },
            ..DiscInfo::default()
        }],
        ..Inventory::default()
    };
    assert_eq!(
        Izod::from_inventory(&inventory, &names, &ExportSettings::unfiltered()).unwrap_err(),
        ExportError::UnmappedRarity { rarity: 1 }
    );
}

#[test]
fn an_agent_with_too_few_skills_fails_the_export() {
    let data = fixed_names();
    let names = NanokaNames(&data);
    let inventory = Inventory {
        agents: vec![AgentInfo {
            id: 1011,
            level: 60,
            skills: (0..5)
                .map(|kind| AvatarSkillLevel {
                    skill_type: kind,
                    level: 1,
                })
                .collect(),
            ..AgentInfo::default()
        }],
        ..Inventory::default()
    };
    let error =
        Izod::from_inventory(&inventory, &names, &ExportSettings::unfiltered()).unwrap_err();
    assert_eq!(
        error,
        ExportError::MissingSkill {
            agent: 1011,
            position: 5,
            len: 5
        }
    );
    assert!(error.to_string().contains("assist"), "{}", error.to_string());
}

#[test]
fn the_live_payload_ignores_the_floors() {
    // A snapshot that applied a floor would delete every record below it from
    // the site, so the floors are zeroed however they were set.
    let data = fixed_names();
    let names = NanokaNames(&data);
    let inventory = Inventory {
        agents: vec![AgentInfo {
            id: 1011,
            level: 1,
            skills: (0..6)
                .map(|kind| AvatarSkillLevel {
                    skill_type: kind,
                    level: 1,
                })
                .collect(),
            ..AgentInfo::default()
        }],
        discs: vec![DiscInfo {
            uid: 1,
            id: 31341,
            level: 3,
            main_stat: DiscStat {
                key: 11103,
                ..DiscStat::default()
            },
            ..DiscInfo::default()
        }],
        ..Inventory::default()
    };

    let floors = ExportSettings {
        min_agent_rarity: 5,
        min_disc_rarity: 5,
        min_disc_level: 10,
        ..ExportSettings::default()
    };

    // The file export with those floors drops both records...
    let file = Izod::from_inventory(&inventory, &names, &floors).unwrap();
    assert!(file.characters.as_ref().unwrap().is_empty());
    assert!(file.discs.as_ref().unwrap().is_empty());
    // ...and the live payload keeps them.
    let live = Izod::for_live(&inventory, &names, &floors).unwrap();
    assert_eq!(live.characters.as_ref().unwrap().len(), 1);
    assert_eq!(live.discs.as_ref().unwrap().len(), 1);
    // A category the capture has nothing for is null rather than empty.
    assert!(live.wengines.is_none());
    assert!(!live.to_json().contains("wengines"));
}

#[test]
fn a_live_payload_sends_nothing_for_a_switched_off_category() {
    let data = fixed_names();
    let names = NanokaNames(&data);
    let inventory = Inventory {
        engines: vec![WeaponInfo {
            id: 25,
            uid: 25,
            level: 60,
            ..WeaponInfo::default()
        }],
        ..Inventory::default()
    };
    let settings = ExportSettings {
        export_engines: false,
        ..ExportSettings::default()
    };
    let live = Izod::for_live(&inventory, &names, &settings).unwrap();
    assert!(
        live.wengines.is_none(),
        "switched off, so the site keeps what it has"
    );
    assert!(live.characters.is_none() && live.discs.is_none());
    assert_eq!(
        live.to_json(),
        r#"{"format":"ZOD","version":1,"source":"ZZZ Packet Capture"}"#,
        "a snapshot with nothing in it is still valid JSON the site ignores"
    );

    // With engines on, the empty categories stay null and the engine list
    // arrives — the one difference from the all-off payload above.
    let live = Izod::for_live(&inventory, &names, &ExportSettings::default()).unwrap();
    assert_eq!(live.wengines.as_ref().unwrap().len(), 1);
    assert!(live.characters.is_none());
}

#[test]
fn export_keys_drop_apostrophes_and_hyphens() {
    let mut data = fixed_names();
    name_character(&mut data, 1011, "Yanagi's Blade", 5);
    name_set(&mut data, 31300, "Branch & Blade Song");
    let names = NanokaNames(&data);
    let inventory = Inventory {
        agents: vec![AgentInfo {
            id: 1011,
            level: 60,
            skills: (0..6)
                .map(|kind| AvatarSkillLevel {
                    skill_type: kind,
                    level: 1,
                })
                .collect(),
            ..AgentInfo::default()
        }],
        discs: vec![DiscInfo {
            uid: 1,
            id: 31341,
            level: 15,
            main_stat: DiscStat {
                key: 11103,
                ..DiscStat::default()
            },
            ..DiscInfo::default()
        }],
        ..Inventory::default()
    };
    let zod = Izod::from_inventory(&inventory, &names, &ExportSettings::unfiltered()).unwrap();
    assert_eq!(zod.characters.as_ref().unwrap()[0].key, "YanagisBlade");
    assert_eq!(zod.characters.as_ref().unwrap()[0].id, "YanagisBlade");
    assert_eq!(zod.discs.as_ref().unwrap()[0].set_key, "BranchBladeSong");
}

/// The tables of a game version, as they are published.
fn tables() -> NanokaData {
    let mut data = NanokaData { version: "3.2".to_string(), ..NanokaData::default() };
    data.characters.insert(1011, Character { rank: 3, en: "Anby".to_string() });
    data.weapons.insert(12001, Weapon { rank: 2, en: "[Lunar] Pleniluna".to_string() });
    data.equipment.insert(
        31300,
        Equipment { en: EquipmentName { name: "Woodpecker Electro".to_string() } },
    );
    data
}

fn six_skills(levels: [u32; 6]) -> Vec<AvatarSkillLevel> {
    levels
        .iter()
        .enumerate()
        .map(|(kind, level)| AvatarSkillLevel { skill_type: kind as u32, level: *level })
        .collect()
}

#[test]
fn published_tables_name_what_is_exported() {
    let data = tables();
    let names = NanokaNames(&data);
    assert_eq!(names.character_rarity(1011), Some(4));
    assert_eq!(names.weapon_rarity(12001), Some(3));
    assert_eq!(names.weapon_rarity(1), None);
    let inventory = Inventory {
        agents: vec![AgentInfo {
            id: 1011,
            level: 60,
            promotion: 6,
            weapon_uid: 12001,
            mindscape: 6,
            skills: six_skills([12, 11, 12, 11, 7, 11]),
            dressed_equips: vec![DressedEquip { uid: 900, slot: 1 }],
        }],
        engines: vec![WeaponInfo { id: 12001, uid: 12001, level: 60, phase: 5, modification: 4 }],
        discs: vec![
            DiscInfo {
                uid: 900,
                id: 31341,
                level: 15,
                main_stat: DiscStat { key: 11103, base_value: 550, add_value: 0 },
                sub_stats: vec![DiscStat { key: 20103, base_value: 240, add_value: 2 }],
            },
            // Of the lowest rarity, for which there is no letter: the floor drops it first.
            DiscInfo { uid: 903, id: 31301, level: 15, ..DiscInfo::default() },
        ],
    };
    let zod = Izod::from_inventory(&inventory, &names, &ExportSettings::default()).unwrap();
    let agent = &zod.characters.as_ref().unwrap()[0];
    assert_eq!((agent.basic, agent.special, agent.dodge), (12, 11, 12));
    assert_eq!((agent.chain, agent.core, agent.assist), (11, 6, 11));
    assert_eq!(agent.wengine_key.as_deref(), Some("LunarPleniluna"));
    let discs = zod.discs.as_ref().unwrap();
    assert_eq!(discs.len(), 1);
    assert_eq!(
        discs[0].to_json(),
        r#"{"setKey":"WoodpeckerElectro","slotKey":"1","level":15,"rarity":"S","mainStatKey":"hp","location":"Anby","lock":false,"trash":false,"substats":[{"key":"crit_","upgrades":2},{"key":"","upgrades":0},{"key":"","upgrades":0},{"key":"","upgrades":0}]}"#
    );
    assert_eq!(
        zod.wengines.as_ref().unwrap()[0].to_json(),
        r#"{"key":"LunarPleniluna","level":60,"modification":4,"phase":5,"location":"Anby","lock":false,"id":"zzz_wengine_12001"}"#
    );
}

#[test]
fn export_errors_name_what_is_missing() {
    assert!(ExportError::UnknownCharacter { id: 9999 }.to_string().contains("9999"));
    assert!(ExportError::UnknownWeapon { id: 8888 }.to_string().contains("8888"));
    assert!(ExportError::UnknownEquipment { set_id: 31900 }.to_string().contains("31900"));
    assert!(ExportError::UnknownStat { key: 424242 }.to_string().contains("424242"));
    assert!(ExportError::UnmappedRarity { rarity: 1 }.to_string().contains('1'));
}

#[test]
fn an_empty_inventory_makes_no_live_lists() {
    let live =
        Izod::for_live(&Inventory::new(), &NanokaNames(&NanokaData::default()), &ExportSettings::default())
            .unwrap();
    assert_eq!(live, Izod::default());
}
