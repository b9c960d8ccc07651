//! Reports about recordings and inventories.
use std::collections::BTreeMap;
use zzzcap::dump::{Dump, DumpPacket};
use zzzcap::kcp::SegmentHeader;
use zzzcap::model::{AgentInfo, AvatarSkillLevel, DiscInfo, DiscStat, DressedEquip, WeaponInfo};
use zzzcap::names::NanokaNames;
use zzzcap::nanoka::{Equipment, EquipmentName, NanokaData};
use zzzcap::report::{
    agents_by_id, category_line, dangling_count, discs_by_set, discs_in_order, engine_wearer, engines_by_id,
    format_skills, format_stat, format_substats, frequent_commands, nothing_to_export,
    unnamed_sets, worn_count,
};
use zzzcap::scan::DecodeStats;
use zzzcap::snapshot::Inventory;
use zzzcap::structure::{count_direction, extent, structure_report, Extent, Verdict};
use zzzcap::tally::{count, most_frequent, tally, Tally};

fn packet(direction: u8, timestamp: i64, sn: u32, ts: u32) -> DumpPacket {
    let header = SegmentHeader {
        conv: 9,
        token: 0,
        cmd: 81,
        frg: 0,
        wnd: 128,
        ts,
        sn,
        una: 0,
        len: 0,
    };
    DumpPacket { direction, timestamp, data: header.encode().to_vec() }
}

fn dump_of(direction: u8, numbers: &[u32]) -> Dump {
    let mut dump = Dump::new();
    for (i, sn) in numbers.iter().enumerate() {
        dump.packets.push(packet(direction, 100 + i as i64, *sn, 0));
    }
    dump
}

#[test]
fn values_are_tallied() {
    let tallies = tally(&[3, 1, 3, 2, 3, 1]);
    let of = |value: u64, count: u64| Tally { value, count };
    assert_eq!(tallies, vec![of(1, 2), of(2, 1), of(3, 3)]);
    assert_eq!(most_frequent(tallies.clone(), 2), vec![of(3, 3), of(1, 2)]);
    let mut more = tallies;
    count(&mut more, 2);
    // Of equal counts the smaller value stands first.
    assert_eq!(most_frequent(more, 5), vec![of(3, 3), of(1, 2), of(2, 2)]);
    assert_eq!(
        frequent_commands(&BTreeMap::from([(7, 1), (8, 5), (9, 2)]), 2),
        vec![of(8, 5), of(9, 2)]
    );
}

#[test]
fn a_contiguous_stream_has_nothing_to_report() {
    let report = structure_report(&dump_of(0, &[1, 2, 3, 4]));
    assert!(report.outgoing.is_none());
    let incoming = report.incoming.unwrap();
    assert_eq!((incoming.steps, incoming.jumps), (3, 0));
    assert_eq!((incoming.backwards, incoming.duplicates), (0, 0));
    assert!(incoming.dips.is_empty());
    assert_eq!(incoming.verdict, Verdict::Contiguous);
    assert_eq!(report.commands, vec![Tally { value: 81, count: 4 }]);
    assert_eq!(report.fragments, vec![Tally { value: 0, count: 4 }]);
    assert_eq!(report.convs, vec![Tally { value: 9, count: 4 }]);
    assert_eq!(report.sizes, vec![Tally { value: 0, count: 4 }]);
}

#[test]
fn late_segments_and_second_streams_are_told_apart() {
    // A segment that was sent again: the number goes back once, and returns to the top.
    let late = structure_report(&dump_of(1, &[200, 201, 100, 202, 203, 203, 205]));
    let outgoing = late.outgoing.unwrap();
    assert_eq!((outgoing.steps, outgoing.jumps), (2, 2));
    assert_eq!((outgoing.backwards, outgoing.duplicates), (1, 1));
    assert_eq!((outgoing.resuming, outgoing.isolated), (0, 1));
    assert_eq!(outgoing.dips[0].diff, -101);
    assert_eq!(outgoing.dips[0].after, 2);
    assert_eq!(outgoing.verdict, Verdict::Contiguous);

    // Two streams: each time the number goes back, the lower counter goes on.
    let mut numbers = Vec::new();
    for turn in 0..3u32 {
        numbers.extend((0..8).map(|i| 1000 + 8 * turn + i));
        numbers.extend((0..8).map(|i| 10 + 8 * turn + i));
    }
    let mixed = structure_report(&dump_of(1, &numbers)).outgoing.unwrap();
    assert_eq!((mixed.resuming, mixed.isolated), (3, 0));
    assert_eq!(mixed.verdict, Verdict::Interleaved);
    let once = structure_report(&dump_of(1, &numbers[..16])).outgoing.unwrap();
    assert_eq!(once.verdict, Verdict::Suspect);
}

#[test]
fn segments_that_were_first_sent_long_before_are_counted() {
    let mut dump = Dump::new();
    dump.packets.push(packet(0, 5, 500, 9000));
    dump.packets.push(packet(0, 6, 400, 7000));
    dump.packets.push(packet(0, 7, 501, 9100));
    let incoming = structure_report(&dump).incoming.unwrap();
    assert_eq!((incoming.isolated, incoming.stale), (1, 1));
}

#[test]
fn the_extent_of_a_recording_is_found() {
    assert_eq!(extent(&Dump::new()), None);
    let mut dump = dump_of(1, &[1, 2]);
    dump.packets.push(DumpPacket { direction: 0, timestamp: -4, data: vec![0; 50] });
    assert_eq!(
        extent(&dump),
        Some(Extent { earliest: -4, latest: 101, largest_payload: 50 })
    );
    assert_eq!(count_direction(&dump, 1), 2);
    assert_eq!(count_direction(&dump, 0), 1);
}

fn disc(uid: u32, id: u32) -> DiscInfo {
    DiscInfo { uid, id, ..DiscInfo::default() }
}

fn inventory() -> Inventory {
    Inventory {
        discs: vec![disc(3, 31244), disc(1, 31342), disc(2, 31241), disc(9, 31221)],
        engines: vec![
            WeaponInfo { id: 20, uid: 7, ..WeaponInfo::default() },
            WeaponInfo { id: 10, uid: 8, ..WeaponInfo::default() },
        ],
        agents: vec![
            AgentInfo {
                id: 1581,
                weapon_uid: 7,
                dressed_equips: vec![
                    DressedEquip { uid: 3, slot: 4 },
                    DressedEquip { uid: 77, slot: 5 },
                ],
                ..AgentInfo::default()
            },
            AgentInfo { id: 1011, ..AgentInfo::default() },
        ],
    }
}

#[test]
fn inventories_are_listed_in_order() {
    let inventory = inventory();
    let agents: Vec<u32> = agents_by_id(&inventory).iter().map(|a| a.id).collect();
    assert_eq!(agents, vec![1011, 1581]);
    let engines: Vec<u32> = engines_by_id(&inventory).iter().map(|e| e.id).collect();
    assert_eq!(engines, vec![10, 20]);
    let discs: Vec<u32> = discs_in_order(&inventory).iter().map(|d| d.uid).collect();
    assert_eq!(discs, vec![2, 9, 3, 1]);
    assert_eq!(engine_wearer(&inventory, 7), Some(1581));
    assert_eq!(engine_wearer(&inventory, 8), None);
    assert_eq!(worn_count(&inventory), 1);
    assert_eq!(dangling_count(&inventory), 0);
    let mut astray = inventory;
    astray.agents[1].weapon_uid = 999;
    assert_eq!(worn_count(&astray), 2);
    assert_eq!(dangling_count(&astray), 1);
}

#[test]
fn discs_are_counted_by_set_and_rarity() {
    let inventory = inventory();
    let lines = discs_by_set(&inventory);
    assert_eq!(lines.len(), 2);
    assert_eq!((lines[0].set_id, lines[0].total), (31200, 3));
    assert_eq!(lines[0].breakdown(), "B 1, S 2");
    assert_eq!(lines[1].breakdown(), "S 1");
    let mut data = NanokaData::default();
    data.equipment.insert(
        31200,
        Equipment { en: EquipmentName { name: "Feathered Fate".to_string() } },
    );
    assert_eq!(
        unnamed_sets(&inventory, &NanokaNames(&data)),
        vec![Tally { value: 31300, count: 1 }]
    );
}

#[test]
fn agents_and_stats_are_written_out() {
    let agent = AgentInfo {
        skills: (0..4).map(|i| AvatarSkillLevel { skill_type: i, level: 10 + i }).collect(),
        ..AgentInfo::default()
    };
    assert_eq!(format_skills(&agent), "10/11/12/13/-/-");
    let hp = DiscStat { key: 11103, base_value: 550, add_value: 2 };
    let odd = DiscStat { key: 5, base_value: 1, add_value: 0 };
    assert_eq!(format_stat(&hp), "hp (base 550 add 2)");
    assert_eq!(format_substats(&vec![hp, odd]), "hp +2, stat#5 +0");
    assert_eq!(format_substats(&vec![]), "");
}

#[test]
fn exports_say_how_much_was_written() {
    assert_eq!(category_line("discs", Some(3), 5), "3 of 5 discs");
    assert_eq!(category_line("discs", None, 5), "discs not exported");
    let stats = DecodeStats { decoded: 2, proto_failures: 9, ..DecodeStats::default() };
    assert!(nothing_to_export("Europe", 255, true, &stats, "x.json")
        .starts_with("Europe (00000000000000FF) completed the handshake but nothing"));
    let wrong = nothing_to_export("Europe", 255, false, &stats, "x.json");
    assert!(wrong.contains("(2 messages decoded, 9 bodies that did not parse)"));
    assert!(wrong.ends_with("`zzzcap replay --in x.json` reports which"));
}
