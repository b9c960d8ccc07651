//! Which region a capture comes from.
//!
//! A capture does not say which region's seed its packets were made with. The seeds are tried
//! in turn on the first packets: the right one decodes hundreds of messages, a wrong one none
//! but by accident.
use crate::datamine;
use crate::dump;
use crate::dump::{Dump, DumpPacketView};
use crate::gamedata::GameData;
use crate::lookup;
use crate::nanoka;
use crate::rsa::{Key, KeyView};
use crate::scan;
use crate::scan::{Context, Scanner, ScannerView};
use crate::text;
use crate::xorpad;
use crate::xorpad::XorPad;
use vstd::prelude::*;

verus! {

/// How many packets a seed is tried on.
pub const DETECT_PACKETS: usize = 600;

/// How many messages a seed has to decode where it does not complete the handshake.
pub const MIN_VIABLE_DECODES: u64 = 8;

/// Why there are no seeds to try.
#[derive(Debug)]
pub enum SeedError {
    /// A seed that is no hexadecimal number.
    NotHex(String),
    /// A region that the data file does not know, and those that it knows.
    UnknownRegion { name: String, known: Vec<String> },
}

impl SeedError {
    /// What went wrong, in words; `option` is how the region was given.
    pub open spec fn text_for(self, option: Seq<char>) -> Seq<char> {
        match self {
            SeedError::NotHex(text) => "--seed "@ + text::quoted_text(text@)
                + " is not a hex number"@,
            SeedError::UnknownRegion { name, known } => option + " "@ + text::quoted_text(name@)
                + " is not in datamine.json (known: "@ + text::joined(text::texts(known@), ", "@)
                + ")"@,
        }
    }

    pub fn to_text(&self, option: &str) -> (r: String)
        ensures
            r@ == self.text_for(option@),
    {
        match self {
            SeedError::NotHex(text) => {
                let mut out: String = "--seed ".to_owned();
                out.push_str(text::quoted(text.as_str()).as_str());
                out.push_str(" is not a hex number");
                out
            },
            SeedError::UnknownRegion { name, known } => {
                let mut out: String = option.to_owned();
                out.push_str(" ");
                out.push_str(text::quoted(name.as_str()).as_str());
                out.push_str(" is not in datamine.json (known: ");
                out.push_str(text::join(known.as_slice(), ", ").as_str());
                out.push_str(")");
                out
            },
        }
    }
}

/// Labels and seeds as texts and numbers.
pub open spec fn candidates_view(candidates: Seq<(String, u64)>) -> Seq<(Seq<char>, u64)> {
    candidates.map_values(|c: (String, u64)| (c.0@, c.1))
}

/// The regions whose seed is a number, in the order of the data file.
pub open spec fn all_seeds(seeds: Seq<(Seq<char>, Seq<char>)>) -> Seq<(Seq<char>, u64)>
    decreases seeds.len(),
{
    if seeds.len() == 0 {
        Seq::empty()
    } else {
        let rest = all_seeds(seeds.drop_last());
        match text::parsed_hex(seeds.last().1) {
            Some(value) => rest.push((seeds.last().0, value)),
            None => rest,
        }
    }
}

/// What the seeds to try are, or why there are none.
pub enum CandidatesView {
    Seeds(Seq<(Seq<char>, u64)>),
    NotHex(Seq<char>),
    UnknownRegion(Seq<char>, Seq<Seq<char>>),
}

/// The seeds to try: the one given, or that of the region given, or all.
pub open spec fn candidates_of(
    seeds: Seq<(Seq<char>, Seq<char>)>,
    region: Option<Seq<char>>,
    seed: Option<Seq<char>>,
) -> CandidatesView {
    match seed {
        Some(given) => match text::parsed_hex(text::without_prefix(given, seq!['0', 'x'])) {
            Some(value) => CandidatesView::Seeds(seq![("--seed"@, value)]),
            None => CandidatesView::NotHex(given),
        },
        None => match region {
            Some(name) => match datamine::region_seed(seeds, name) {
                Some(value) => CandidatesView::Seeds(seq![(name, value)]),
                None => CandidatesView::UnknownRegion(
                    name,
                    seeds.map_values(|e: (Seq<char>, Seq<char>)| e.0),
                ),
            },
            None => CandidatesView::Seeds(all_seeds(seeds)),
        },
    }
}

/// What came of looking for seeds.
pub open spec fn candidates_result(r: Result<Vec<(String, u64)>, SeedError>) -> CandidatesView {
    match r {
        Ok(list) => CandidatesView::Seeds(candidates_view(list@)),
        Err(SeedError::NotHex(text)) => CandidatesView::NotHex(text@),
        Err(SeedError::UnknownRegion { name, known }) => CandidatesView::UnknownRegion(
            name@,
            text::texts(known@),
        ),
    }
}

fn region_names(data: &GameData) -> (r: Vec<String>)
    ensures
        text::texts(r@) == datamine::seeds_view(data.datamine.xor_seeds@).map_values(
            |e: (Seq<char>, Seq<char>)| e.0,
        ),
{
    let mut out: Vec<String> = Vec::new();
    let mut i: usize = 0;
    while i < data.datamine.xor_seeds.len()
        invariant
            i <= data.datamine.xor_seeds@.len(),
            out@.len() == i,
            forall|k: int|
                0 <= k < i ==> (#[trigger] out@[k])@ == data.datamine.xor_seeds@[k].0@,
        decreases data.datamine.xor_seeds@.len() - i,
    {
        out.push(data.datamine.xor_seeds[i].0.clone());
        i = i + 1;
    }
    assert(text::texts(out@) =~= datamine::seeds_view(data.datamine.xor_seeds@).map_values(
        |e: (Seq<char>, Seq<char>)| e.0,
    ));
    out
}

/// The labels and seeds to try, the most specific first.
pub fn candidate_seeds(data: &GameData, region: Option<&str>, seed: Option<&str>) -> (r: Result<
    Vec<(String, u64)>,
    SeedError,
>)
    ensures
        candidates_result(r) == candidates_of(
            datamine::seeds_view(data.datamine.xor_seeds@),
            nanoka::name_text(region),
            nanoka::name_text(seed),
        ),
{
    let mut out: Vec<(String, u64)> = Vec::new();
    if let Some(given) = seed {
        let chars: Vec<char> = text::chars_of(given);
        let prefix: [char; 2] = ['0', 'x'];
        assert(prefix@ =~= seq!['0', 'x']);
        let from: usize = text::skip_prefix(chars.as_slice(), prefix.as_slice());
        assert(chars@.subrange(from as int, chars@.len() as int) =~= chars@.skip(from as int));
        return match text::parse_hex(
            vstd::slice::slice_subrange(chars.as_slice(), from, chars.len()),
        ) {
            Some(value) => {
                out.push(("--seed".to_owned(), value));
                assert(candidates_view(out@) =~= seq![("--seed"@, value)]);
                Ok(out)
            },
            None => Err(SeedError::NotHex(given.to_owned())),
        };
    }
    if let Some(name) = region {
        return match data.seed_for_region(name) {
            Some(value) => {
                out.push((name.to_owned(), value));
                assert(candidates_view(out@) =~= seq![(name@, value)]);
                Ok(out)
            },
            None => Err(
                SeedError::UnknownRegion { name: name.to_owned(), known: region_names(data) },
            ),
        };
    }
    let ghost seeds = datamine::seeds_view(data.datamine.xor_seeds@);
    let mut i: usize = 0;
    assert(seeds.take(0) =~= Seq::empty());
    assert(candidates_view(out@) =~= Seq::empty());
    while i < data.datamine.xor_seeds.len()
        invariant
            i <= data.datamine.xor_seeds@.len(),
            seeds == datamine::seeds_view(data.datamine.xor_seeds@),
            candidates_view(out@) == all_seeds(seeds.take(i as int)),
        decreases data.datamine.xor_seeds@.len() - i,
    {
        let entry: &(String, String) = &data.datamine.xor_seeds[i];
        assert(seeds[i as int] == (entry.0@, entry.1@));
        assert(seeds.take(i + 1).drop_last() =~= seeds.take(i as int));
        assert(seeds.take(i + 1).last() == seeds[i as int]);
        let chars: Vec<char> = text::chars_of(entry.1.as_str());
        if let Some(value) = text::parse_hex(chars.as_slice()) {
            let ghost before = out@;
            out.push((entry.0.clone(), value));
            assert(candidates_view(out@) =~= candidates_view(before).push((entry.0@, value)));
        }
        i = i + 1;
    }
    assert(seeds.take(i as int) =~= seeds);
    Ok(out)
}

/// What decoding works with.
pub open spec fn context_of(data: GameData, key: KeyView) -> Context {
    Context { key, datamine: data.datamine, nap: data.nap@ }
}

/// Recorded packets are scanned in order.
pub open spec fn scanned(s: ScannerView, c: Context, packets: Seq<DumpPacketView>) -> ScannerView
    decreases packets.len(),
{
    if packets.len() == 0 {
        s
    } else {
        let p = packets.last();
        scan::packet_scanned(
            scanned(s, c, packets.drop_last()),
            c,
            p.data,
            dump::direction_of(p.direction),
            p.timestamp,
        ).1
    }
}

/// The first `limit` packets.
pub open spec fn first_packets(packets: Seq<DumpPacketView>, limit: nat) -> Seq<DumpPacketView> {
    if limit < packets.len() {
        packets.take(limit as int)
    } else {
        packets
    }
}

/// A capture scanned under a region's seed.
pub open spec fn trial(packets: Seq<DumpPacketView>, c: Context, seed: u64) -> ScannerView {
    scanned(scan::nothing_scanned(xorpad::pad_of(seed, false)), c, packets)
}

/// Scans the first packets of a recording.
pub fn scan<'a>(dump: &Dump, data: &'a GameData, key: &'a Key, pad: XorPad, limit: usize) -> (r:
    Scanner<'a>)
    ensures
        r@ == scanned(
            scan::nothing_scanned(pad@),
            context_of(*data, key@),
            first_packets(dump@, limit as nat),
        ),
        r.context() == context_of(*data, key@),
{
    let ghost c = context_of(*data, key@);
    let ghost all = dump@;
    let mut scanner: Scanner<'a> = Scanner::new(pad, key, &data.datamine, &data.nap);
    let count: usize = if limit < dump.packets.len() {
        limit
    } else {
        dump.packets.len()
    };
    let mut i: usize = 0;
    assert(all.take(0) =~= Seq::empty());
    while i < count
        invariant
            i <= count <= dump.packets@.len(),
            all == dump@,
            scanner.context() == c,
            scanner@ == scanned(scan::nothing_scanned(pad@), c, all.take(i as int)),
        decreases count - i,
    {
        let p = &dump.packets[i];
        assert(all[i as int] == p@);
        assert(all.take(i + 1).drop_last() =~= all.take(i as int));
        assert(all.take(i + 1).last() == p@);
        let _events = scanner.feed(p.data.as_slice(), p.direction(), p.timestamp);
        i = i + 1;
    }
    assert(count == all.len() ==> all.take(count as int) =~= all);
    scanner
}

/// How a seed did: how many messages it decoded, and whether it completed the handshake.
#[derive(Debug, Clone, Copy, PartialEq, Eq, Structural)]
pub struct Score {
    pub decoded: u64,
    pub complete: bool,
}

/// How a seed does on a capture.
pub open spec fn score_of(packets: Seq<DumpPacketView>, c: Context, seed: u64) -> Score {
    let s = trial(first_packets(packets, DETECT_PACKETS as nat), c, seed);
    Score { decoded: s.decoder.stats.decoded, complete: s.decoder.session.pad_ready }
}

/// How each of some seeds does.
pub open spec fn scores_of(
    candidates: Seq<(Seq<char>, u64)>,
    packets: Seq<DumpPacketView>,
    c: Context,
) -> Seq<Score> {
    candidates.map_values(|e: (Seq<char>, u64)| score_of(packets, c, e.1))
}

/// Whether a seed can be the right one.
pub open spec fn viable(score: Score) -> bool {
    score.complete || score.decoded >= MIN_VIABLE_DECODES
}

/// The position of the best of some seeds: of the viable ones, the first that decodes most.
pub open spec fn best(scores: Seq<Score>) -> Option<int>
    decreases scores.len(),
{
    if scores.len() == 0 {
        None
    } else {
        let so_far = best(scores.drop_last());
        let beaten = match so_far {
            Some(i) => scores.last().decoded > scores[i].decoded,
            None => true,
        };
        if viable(scores.last()) && beaten {
            Some(scores.len() - 1)
        } else {
            so_far
        }
    }
}

/// Picks the best of some seeds by their scores.
pub fn best_score(scores: &[Score]) -> (r: Option<usize>)
    ensures
        match r {
            Some(i) => i < scores@.len() && best(scores@) == Some(i as int),
            None => best(scores@) is None,
        },
{
    let mut found: Option<usize> = None;
    let mut i: usize = 0;
    assert(scores@.take(0) =~= Seq::empty());
    while i < scores.len()
        invariant
            i <= scores@.len(),
            match found {
                Some(k) => k < i && best(scores@.take(i as int)) == Some(k as int),
                None => best(scores@.take(i as int)) is None,
            },
        decreases scores@.len() - i,
    {
        let ghost front = scores@.take(i as int);
        assert(scores@.take(i + 1).drop_last() =~= front);
        assert(scores@.take(i + 1).last() == scores@[i as int]);
        let beaten: bool = match found {
            Some(k) => {
                assert(scores@.take(i + 1)[k as int] == scores@[k as int]);
                scores[i].decoded > scores[k].decoded
            },
            None => true,
        };
        if (scores[i].complete || scores[i].decoded >= MIN_VIABLE_DECODES) && beaten {
            found = Some(i);
        }
        i = i + 1;
    }
    assert(scores@.take(i as int) =~= scores@);
    found
}

/// The best seed is viable, no viable one decodes more, and no earlier viable one as much.
pub proof fn law_best_is_best(scores: Seq<Score>)
    ensures
        match best(scores) {
            Some(b) => {
                &&& 0 <= b < scores.len()
                &&& viable(scores[b])
                &&& forall|i: int|
                    0 <= i < scores.len() && viable(#[trigger] scores[i]) ==> scores[i].decoded
                        <= scores[b].decoded
                &&& forall|i: int|
                    0 <= i < b && viable(#[trigger] scores[i]) ==> scores[i].decoded
                        < scores[b].decoded
            },
            None => forall|i: int| 0 <= i < scores.len() ==> !viable(#[trigger] scores[i]),
        },
    decreases scores.len(),
{
    if scores.len() > 0 {
        let init = scores.drop_last();
        law_best_is_best(init);
        assert forall|i: int| 0 <= i < init.len() implies #[trigger] scores[i] == init[i] by {}
        match best(init) {
            Some(b) => {
                assert(init[b] == scores[b]);
            },
            None => {},
        }
        match best(scores) {
            Some(b) => {
                assert forall|i: int| 0 <= i < scores.len() && viable(#[trigger] scores[i]) implies
                    scores[i].decoded <= scores[b].decoded by {
                    if i < init.len() {
                        assert(viable(init[i]));
                    }
                }
                assert forall|i: int| 0 <= i < b && viable(#[trigger] scores[i]) implies
                    scores[i].decoded < scores[b].decoded by {
                    if i < init.len() {
                        assert(viable(init[i]));
                    }
                }
            },
            None => {
                assert forall|i: int| 0 <= i < scores.len() implies !viable(#[trigger] scores[i]) by {
                    if i < init.len() {
                        assert(!viable(init[i]));
                    }
                }
            },
        }
    }
}

/// Tries every seed on the first packets.
pub fn score_candidates(
    dump: &Dump,
    data: &GameData,
    key: &Key,
    candidates: &Vec<(String, u64)>,
) -> (r: Vec<Score>)
    ensures
        r@ == scores_of(candidates_view(candidates@), dump@, context_of(*data, key@)),
{
    let mut scores: Vec<Score> = Vec::new();
    let mut i: usize = 0;
    while i < candidates.len()
        invariant
            i <= candidates@.len(),
            scores@.len() == i,
            forall|k: int|
                0 <= k < i ==> #[trigger] scores@[k] == score_of(
                    dump@,
                    context_of(*data, key@),
                    candidates@[k].1,
                ),
        decreases candidates@.len() - i,
    {
        let trial: Scanner<'_> = scan(
            dump,
            data,
            key,
            XorPad::for_region(candidates[i].1),
            DETECT_PACKETS,
        );
        scores.push(
            Score { decoded: trial.stats().decoded, complete: trial.handshake_complete() },
        );
        i = i + 1;
    }
    assert(scores@ =~= scores_of(
        candidates_view(candidates@),
        dump@,
        context_of(*data, key@),
    ));
    scores
}

/// A seed that was chosen, as text and number.
pub open spec fn chosen_view(chosen: Option<(String, u64)>) -> Option<(Seq<char>, u64)> {
    match chosen {
        Some(c) => Some((c.0@, c.1)),
        None => None,
    }
}

/// The candidate at a position.
pub open spec fn candidate_at(candidates: Seq<(Seq<char>, u64)>, at: Option<int>) -> Option<
    (Seq<char>, u64),
> {
    match at {
        Some(i) => Some(candidates[i]),
        None => None,
    }
}

/// A candidate in parentheses behind its label.
pub open spec fn labelled(candidate: (Seq<char>, u64)) -> Seq<char> {
    candidate.0 + " ("@ + text::hex(candidate.1 as nat, 16) + ")"@
}

/// The line about one seed that was tried.
pub open spec fn score_line(candidate: (Seq<char>, u64), score: Score) -> Seq<char> {
    let line = "  "@ + text::padded(candidate.0, 12) + " "@ + text::hex(candidate.1 as nat, 16)
        + "  "@ + text::decimal(score.decoded as nat) + " messages decoded"@;
    if score.complete {
        line + ", session key derived"@
    } else {
        line
    }
}

/// The lines about all seeds that were tried.
pub open spec fn score_lines(candidates: Seq<(Seq<char>, u64)>, scores: Seq<Score>) -> Seq<Seq<char>> {
    Seq::new(candidates.len(), |i: int| score_line(candidates[i], scores[i]))
}

/// The line about the seed that was chosen, or that none was.
pub open spec fn choice_line(candidates: Seq<(Seq<char>, u64)>, scores: Seq<Score>) -> Seq<char> {
    match best(scores) {
        Some(i) => "  detected region: "@ + labelled(candidates[i]) + ", "@ + text::decimal(
            scores[i].decoded as nat,
        ) + " messages in the first "@ + text::decimal(DETECT_PACKETS as nat),
        None => "  no region produced a session key or "@ + text::decimal(MIN_VIABLE_DECODES as nat)
            + "+ decoded messages"@,
    }
}

/// The choice among candidates with some scores, and the lines about it. A single candidate
/// needs no trial.
pub open spec fn choice(candidates: Seq<(Seq<char>, u64)>, scores: Seq<Score>) -> (
    Option<(Seq<char>, u64)>,
    Seq<Seq<char>>,
) {
    if candidates.len() == 1 {
        (Some(candidates[0]), seq!["  using "@ + labelled(candidates[0])])
    } else {
        (
            candidate_at(candidates, best(scores)),
            score_lines(candidates, scores).push(choice_line(candidates, scores)),
        )
    }
}

fn push_labelled(out: &mut String, candidate: &(String, u64))
    ensures
        final(out)@ == old(out)@ + labelled((candidate.0@, candidate.1)),
{
    let mut label: String = candidate.0.clone();
    label.push_str(" (");
    text::push_hex(&mut label, candidate.1, 16);
    label.push_str(")");
    out.push_str(label.as_str());
}

fn score_text(candidate: &(String, u64), score: Score) -> (r: String)
    ensures
        r@ == score_line((candidate.0@, candidate.1), score),
{
    let mut out: String = "  ".to_owned();
    text::push_padded(&mut out, candidate.0.as_str(), 12);
    out.push_str(" ");
    text::push_hex(&mut out, candidate.1, 16);
    out.push_str("  ");
    text::push_decimal(&mut out, score.decoded);
    out.push_str(" messages decoded");
    if score.complete {
        out.push_str(", session key derived");
    }
    out
}

/// Chooses among candidates by their scores, and says how.
pub fn choose_by_score(candidates: &Vec<(String, u64)>, scores: &Vec<Score>) -> (r: (
    Option<(String, u64)>,
    Vec<String>,
))
    requires
        candidates@.len() == scores@.len() || candidates@.len() == 1,
    ensures
        (chosen_view(r.0), text::texts(r.1@)) == choice(candidates_view(candidates@), scores@),
{
    let ghost all = candidates_view(candidates@);
    let mut lines: Vec<String> = Vec::new();
    if candidates.len() == 1 {
        assert(all[0] == (candidates@[0].0@, candidates@[0].1));
        let mut line: String = "  using ".to_owned();
        push_labelled(&mut line, &candidates[0]);
        lines.push(line);
        assert(text::texts(lines@) =~= seq!["  using "@ + labelled(all[0])]);
        return (Some((candidates[0].0.clone(), candidates[0].1)), lines);
    }
    let mut i: usize = 0;
    while i < candidates.len()
        invariant
            i <= candidates@.len(),
            candidates@.len() == scores@.len(),
            all == candidates_view(candidates@),
            lines@.len() == i,
            forall|k: int| 0 <= k < i ==> (#[trigger] lines@[k])@ == score_line(all[k], scores@[k]),
        decreases candidates@.len() - i,
    {
        assert(all[i as int] == (candidates@[i as int].0@, candidates@[i as int].1));
        lines.push(score_text(&candidates[i], scores[i]));
        i = i + 1;
    }
    assert(text::texts(lines@) =~= score_lines(all, scores@));
    let ghost before = lines@;
    let mut last: String = String::new();
    let chosen: Option<(String, u64)> = match best_score(scores.as_slice()) {
        Some(b) => {
            assert(all[b as int] == (candidates@[b as int].0@, candidates@[b as int].1));
            last = "  detected region: ".to_owned();
            push_labelled(&mut last, &candidates[b]);
            last.push_str(", ");
            text::push_decimal(&mut last, scores[b].decoded);
            last.push_str(" messages in the first ");
            text::push_decimal(&mut last, DETECT_PACKETS as u64);
            Some((candidates[b].0.clone(), candidates[b].1))
        },
        None => {
            last = "  no region produced a session key or ".to_owned();
            text::push_decimal(&mut last, MIN_VIABLE_DECODES);
            last.push_str("+ decoded messages");
            None
        },
    };
    lines.push(last);
    assert(text::texts(lines@) =~= text::texts(before).push(last@));
    (chosen, lines)
}

/// Finds the seed of a recording, and says how.
pub fn choose_seed(dump: &Dump, data: &GameData, key: &Key, candidates: &Vec<(String, u64)>) -> (r: (
    Option<(String, u64)>,
    Vec<String>,
))
    ensures
        (chosen_view(r.0), text::texts(r.1@)) == choice(
            candidates_view(candidates@),
            scores_of(candidates_view(candidates@), dump@, context_of(*data, key@)),
        ),
{
    if candidates.len() == 1 {
        let none: Vec<Score> = Vec::new();
        return choose_by_score(candidates, &none);
    }
    let scores: Vec<Score> = score_candidates(dump, data, key, candidates);
    choose_by_score(candidates, &scores)
}

/// A seed that is given is the one to try, with or without `0x` in front of it, whatever the
/// regions are.
pub proof fn law_a_given_seed_is_tried(
    seeds: Seq<(Seq<char>, Seq<char>)>,
    region: Option<Seq<char>>,
    seed: u64,
)
    ensures
        candidates_of(seeds, region, Some(text::hex(seed as nat, 16))) == CandidatesView::Seeds(
            seq![("--seed"@, seed)],
        ),
        candidates_of(seeds, region, Some(seq!['0', 'x'] + text::hex(seed as nat, 16)))
            == CandidatesView::Seeds(seq![("--seed"@, seed)]),
{
    text::law_hex_is_read_back(seed);
}

/// A region that is given is the one to try, and one that is not known is named with those that
/// are.
pub proof fn law_a_given_region_is_tried(
    seeds: Seq<(Seq<char>, Seq<char>)>,
    i: int,
    name: Seq<char>,
    seed: u64,
)
    requires
        datamine::names_ascend(seeds),
    ensures
        0 <= i < seeds.len() && seeds[i] == (name, text::hex(seed as nat, 16)) ==> candidates_of(
            seeds,
            Some(name),
            None,
        ) == CandidatesView::Seeds(seq![(name, seed)]),
        (forall|j: int| 0 <= j < seeds.len() ==> (#[trigger] seeds[j]).0 != name) ==> {
            let r = candidates_of(seeds, Some(name), None);
            &&& r is UnknownRegion
            &&& r->UnknownRegion_0 == name
            &&& r->UnknownRegion_1.len() == seeds.len()
            &&& forall|j: int|
                0 <= j < seeds.len() ==> #[trigger] r->UnknownRegion_1[j] == seeds[j].0
        },
{
    text::law_hex_is_read_back(seed);
    if 0 <= i < seeds.len() && seeds[i] == (name, text::hex(seed as nat, 16)) {
        datamine::lemma_entry_found(seeds, i);
    }
    if forall|j: int| 0 <= j < seeds.len() ==> (#[trigger] seeds[j]).0 != name {
        lookup::lemma_find_first(seeds, datamine::is_region(name), seeds.len() as int);
    }
}

/// Where nothing is given, every region is tried in the order of the data file, but for those
/// whose seed is no number.
pub proof fn law_all_regions_are_tried_in_order(
    first: Seq<(Seq<char>, Seq<char>)>,
    then: Seq<(Seq<char>, Seq<char>)>,
    name: Seq<char>,
    seed: u64,
    other: Seq<char>,
)
    requires
        text::parsed_hex(other) is None,
    ensures
        candidates_of(first, None, None) == CandidatesView::Seeds(all_seeds(first)),
        all_seeds(first + then) == all_seeds(first) + all_seeds(then),
        all_seeds(seq![(name, text::hex(seed as nat, 16))]) == seq![(name, seed)],
        all_seeds(seq![(name, other)]) == Seq::<(Seq<char>, u64)>::empty(),
    decreases then.len(),
{
    text::law_hex_is_read_back(seed);
    reveal_with_fuel(all_seeds, 2);
    assert(seq![(name, text::hex(seed as nat, 16))].drop_last() =~= Seq::empty());
    assert(seq![(name, other)].drop_last() =~= Seq::empty());
    assert(Seq::<(Seq<char>, u64)>::empty().push((name, seed)) =~= seq![(name, seed)]);
    if then.len() == 0 {
        assert(first + then =~= first);
        assert(all_seeds(first) + Seq::empty() =~= all_seeds(first));
    } else {
        law_all_regions_are_tried_in_order(first, then.drop_last(), name, seed, other);
        assert((first + then).drop_last() =~= first + then.drop_last());
        assert((first + then).last() == then.last());
        if let Some(value) = text::parsed_hex(then.last().1) {
            let rest = all_seeds(then.drop_last());
            assert(all_seeds(first) + rest.push((then.last().0, value)) =~= (all_seeds(first)
                + rest).push((then.last().0, value)));
        }
    }
}

/// Packets are scanned one after the other, each with its direction and its time.
pub proof fn law_packets_are_scanned_in_order(
    s: ScannerView,
    c: Context,
    first: Seq<DumpPacketView>,
    then: Seq<DumpPacketView>,
    packet: DumpPacketView,
)
    ensures
        scanned(s, c, first + then) == scanned(scanned(s, c, first), c, then),
        packet.direction == 0 ==> scanned(s, c, seq![packet]) == scan::packet_scanned(
            s,
            c,
            packet.data,
            crate::kcp::Direction::Incoming,
            packet.timestamp,
        ).1,
        packet.direction == 1 ==> scanned(s, c, seq![packet]) == scan::packet_scanned(
            s,
            c,
            packet.data,
            crate::kcp::Direction::Outgoing,
            packet.timestamp,
        ).1,
        scanned(s, c, Seq::empty()) == s,
    decreases then.len(),
{
    reveal_with_fuel(scanned, 2);
    assert(seq![packet].drop_last() =~= Seq::empty());
    if then.len() == 0 {
        assert(first + then =~= first);
    } else {
        law_packets_are_scanned_in_order(s, c, first, then.drop_last(), packet);
        assert((first + then).drop_last() =~= first + then.drop_last());
        assert((first + then).last() == then.last());
    }
}

/// A seed is scored by the first 600 packets alone.
pub proof fn law_only_the_first_packets_are_scored(
    packets: Seq<DumpPacketView>,
    more: Seq<DumpPacketView>,
    c: Context,
    seed: u64,
)
    requires
        packets.len() == 600,
    ensures
        score_of(packets + more, c, seed) == score_of(packets, c, seed),
        ({
            let s = scanned(scan::nothing_scanned(xorpad::pad_of(seed, false)), c, packets);
            &&& score_of(packets, c, seed).decoded == s.decoder.stats.decoded
            &&& score_of(packets, c, seed).complete == s.decoder.session.pad_ready
        }),
{
    assert((packets + more).take(600) =~= packets);
    if more.len() == 0 {
        assert(packets + more =~= packets);
    }
}

/// Among several seeds the one is chosen that decodes most, the first of those, of the ones that
/// complete the handshake or decode at least eight messages; where there is no such seed, none
/// is. A seed that stands alone is taken.
pub proof fn law_the_best_seed_is_chosen(
    candidates: Seq<(Seq<char>, u64)>,
    scores: Seq<Score>,
    w: int,
)
    requires
        candidates.len() == scores.len(),
        candidates.len() > 0,
    ensures
        candidates.len() == 1 ==> choice(candidates, scores).0 == Some(candidates[0]),
        candidates.len() > 1 && 0 <= w < scores.len() && (scores[w].complete || scores[w].decoded
            >= 8) && (forall|i: int|
            0 <= i < w && ((#[trigger] scores[i]).complete || scores[i].decoded >= 8)
                ==> scores[i].decoded < scores[w].decoded) && (forall|i: int|
            w < i < scores.len() && ((#[trigger] scores[i]).complete || scores[i].decoded >= 8)
                ==> scores[i].decoded <= scores[w].decoded) ==> choice(candidates, scores).0 == Some(
            candidates[w],
        ),
        candidates.len() > 1 && (forall|i: int|
            0 <= i < scores.len() ==> !(#[trigger] scores[i]).complete && scores[i].decoded < 8)
            ==> choice(candidates, scores).0 is None,
{
    law_best_is_best(scores);
    if let Some(b) = best(scores) {
        assert(viable(scores[b]));
        if 0 <= w < scores.len() && viable(scores[w]) {
            if b < w {
                assert(scores[b].decoded >= scores[w].decoded);
            } else if w < b {
                assert(scores[w].decoded < scores[b].decoded);
            }
        }
    } else if 0 <= w < scores.len() {
        assert(!viable(scores[w]));
    }
}

/// Each seed that was tried has a line, in order, and the choice has the last: the line tells the
/// label, the seed and the messages, and whether the session key was derived.
pub proof fn law_trials_are_told_in_order(
    candidates: Seq<(Seq<char>, u64)>,
    scores: Seq<Score>,
    i: int,
)
    requires
        candidates.len() == scores.len(),
        candidates.len() > 1,
        0 <= i < candidates.len(),
    ensures
        ({
            let lines = choice(candidates, scores).1;
            let line = "  "@ + text::padded(candidates[i].0, 12) + " "@ + text::hex(
                candidates[i].1 as nat,
                16,
            ) + "  "@ + text::decimal(scores[i].decoded as nat) + " messages decoded"@;
            &&& lines.len() == candidates.len() + 1
            &&& !scores[i].complete ==> lines[i] == line
            &&& scores[i].complete ==> lines[i] == line + ", session key derived"@
            &&& choice(candidates, scores).0 is Some ==> exists|w: int|
                0 <= w < candidates.len() && candidates[w] == choice(candidates, scores).0->Some_0
                    && lines.last() == "  detected region: "@ + candidates[w].0 + " ("@ + text::hex(
                    candidates[w].1 as nat,
                    16,
                ) + ")"@ + ", "@ + text::decimal(#[trigger] scores[w].decoded as nat)
                    + " messages in the first "@ + text::decimal(600)
            &&& choice(candidates, scores).0 is None ==> lines.last()
                == "  no region produced a session key or "@ + text::decimal(8)
                + "+ decoded messages"@
        }),
{
    law_best_is_best(scores);
    if let Some(w) = best(scores) {
        let lines = choice(candidates, scores).1;
        assert(scores[w].decoded >= 0);
        assert(lines.last() =~= "  detected region: "@ + candidates[w].0 + " ("@ + text::hex(
            candidates[w].1 as nat,
            16,
        ) + ")"@ + ", "@ + text::decimal(scores[w].decoded as nat) + " messages in the first "@
            + text::decimal(600));
    }
}

} // verus!
