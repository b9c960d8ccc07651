//! What a recording looks like on the wire, before anything is decoded.
//!
//! Where an update of the game has changed the framing, this tells whether the packets are
//! still segments at all.
//!
//! Sequence numbers climb by one within a direction. They go back for two reasons. A dip that
//! returns straight to the top is a segment that was sent again, or arrived late. A second
//! stream that was filed under the same direction keeps climbing from its own counter
//! instead, so each dip is followed by a run of steps. A segment that was sent again also
//! carries the time of its first sending.
use crate::dump;
use crate::dump::{Dump, DumpPacket, DumpPacketView};
use crate::endian;
use crate::kcp;
use crate::kcp::SEGMENT_HEADER_SIZE;
use crate::sort;
use crate::sort::Keyed;
use crate::tally;
use crate::tally::Tally;
use vstd::prelude::*;

verus! {

/// How far a sequence number goes back in a dip, at least.
pub const DIP_DEPTH: i64 = 64;

/// How many segments behind a dip are looked at.
pub const RUN_WINDOW: usize = 7;

/// How long a run behind a dip is where a second stream goes on.
pub const RESUMED_RUN: usize = 6;

/// How late a segment is that was sent again, in milliseconds.
pub const STALE_AFTER: u32 = 1000;

/// The sizes of the payloads, in units of 128 bytes.
pub open spec fn size_classes(packets: Seq<DumpPacketView>) -> Seq<u64> {
    packets.map_values(|p: DumpPacketView| (p.data.len() / 128) as u64)
}

/// The packets that are long enough for a segment's header.
pub open spec fn with_header(packets: Seq<DumpPacketView>) -> Seq<DumpPacketView>
    decreases packets.len(),
{
    if packets.len() == 0 {
        Seq::empty()
    } else if packets.last().data.len() >= SEGMENT_HEADER_SIZE {
        with_header(packets.drop_last()).push(packets.last())
    } else {
        with_header(packets.drop_last())
    }
}

/// The command bytes.
pub open spec fn commands_of(packets: Seq<DumpPacketView>) -> Seq<u64> {
    with_header(packets).map_values(|p: DumpPacketView| p.data[8] as u64)
}

/// The fragment bytes.
pub open spec fn fragments_of(packets: Seq<DumpPacketView>) -> Seq<u64> {
    with_header(packets).map_values(|p: DumpPacketView| p.data[9] as u64)
}

/// The conversations.
pub open spec fn convs_of(packets: Seq<DumpPacketView>) -> Seq<u64> {
    with_header(packets).map_values(|p: DumpPacketView| endian::le32(p.data, 0) as u64)
}

/// The first segment of a packet.
#[derive(Debug, Clone, Copy, PartialEq, Eq, Structural)]
pub struct Seg {
    pub at: i64,
    pub ts: u32,
    pub sn: u32,
    pub cmd: u8,
    pub frg: u8,
    pub declared: u32,
}

/// The segment at the start of a packet.
pub open spec fn seg_of(p: DumpPacketView) -> Seg {
    Seg {
        at: p.timestamp,
        ts: endian::le32(p.data, 12) as u32,
        sn: endian::le32(p.data, 16) as u32,
        cmd: p.data[8],
        frg: p.data[9],
        declared: endian::le32(p.data, 24) as u32,
    }
}

/// Whether a packet of a direction starts with a segment.
pub open spec fn is_segment(p: DumpPacketView, direction: u8) -> bool {
    p.direction == direction && p.data.len() >= SEGMENT_HEADER_SIZE && kcp::CMD_PUSH <= p.data[8]
        <= kcp::CMD_WINS
}

/// The segments of a direction.
pub open spec fn segments_of(packets: Seq<DumpPacketView>, direction: u8) -> Seq<Seg>
    decreases packets.len(),
{
    if packets.len() == 0 {
        Seq::empty()
    } else if is_segment(packets.last(), direction) {
        segments_of(packets.drop_last(), direction).push(seg_of(packets.last()))
    } else {
        segments_of(packets.drop_last(), direction)
    }
}

/// A place where the sequence numbers go back.
#[derive(Debug, Clone, Copy, PartialEq, Eq, Structural)]
pub struct Dip {
    /// How far the number goes.
    pub diff: i64,
    /// Seconds from the first segment.
    pub after: i64,
    /// The segment it goes to.
    pub segment: Seg,
}

impl Keyed for Dip {
    open spec fn key_spec(&self) -> int {
        self.diff as int
    }

    fn sort_key(&self) -> (k: i128) {
        self.diff as i128
    }
}

/// The order in which the deepest dip comes first.
pub open spec fn by_depth() -> spec_fn(Dip) -> int {
    |d: Dip| d.diff as int
}

/// How the sequence numbers of a direction go.
pub struct FlowView {
    /// Steps by one.
    pub steps: nat,
    /// Steps by more than one.
    pub jumps: nat,
    /// Steps back.
    pub backwards: nat,
    /// Numbers that are repeated at once.
    pub duplicates: nat,
    /// Dips behind which a lower counter goes on.
    pub resuming: nat,
    /// Dips that return to the top.
    pub isolated: nat,
    /// Dips to a segment that was first sent over a second before.
    pub stale: nat,
    pub dips: Seq<Dip>,
    /// The latest time a segment was sent at.
    pub latest: u32,
}

/// How far the number goes from segment `i` to the next.
pub open spec fn step_at(segments: Seq<Seg>, i: int) -> int {
    segments[i + 1].sn - segments[i].sn
}

/// How many of the next `n` segments behind `i` go on counting from there, without a gap.
pub open spec fn run_behind(segments: Seq<Seg>, i: int, n: nat) -> nat
    decreases n,
{
    if n == 0 {
        0
    } else {
        let so_far = run_behind(segments, i, (n - 1) as nat);
        if so_far == n - 1 && i + n < segments.len() && segments[i + n].sn
            == segments[i].sn.wrapping_add(n as u32) {
            n
        } else {
            so_far
        }
    }
}

/// Whether a lower counter goes on behind segment `i`.
pub open spec fn resumes(segments: Seq<Seg>, i: int) -> bool {
    run_behind(segments, i, RUN_WINDOW as nat) >= RESUMED_RUN
}

pub open spec fn one_if(condition: bool) -> nat {
    if condition {
        1
    } else {
        0
    }
}

pub open spec fn later(a: u32, b: u32) -> u32 {
    if a >= b {
        a
    } else {
        b
    }
}

/// How the first `n` steps go.
pub open spec fn flow(segments: Seq<Seg>, n: nat) -> FlowView
    decreases n,
{
    if n == 0 {
        FlowView {
            steps: 0,
            jumps: 0,
            backwards: 0,
            duplicates: 0,
            resuming: 0,
            isolated: 0,
            stale: 0,
            dips: Seq::empty(),
            latest: segments[0].ts,
        }
    } else {
        let f = flow(segments, (n - 1) as nat);
        let i = n - 1;
        let diff = step_at(segments, i);
        let next = segments[i + 1];
        let dip = diff <= -DIP_DEPTH;
        FlowView {
            steps: f.steps + one_if(diff == 1),
            jumps: f.jumps + one_if(diff > 1),
            backwards: f.backwards + one_if(diff < 0),
            duplicates: f.duplicates + one_if(diff == 0),
            resuming: f.resuming + one_if(dip && resumes(segments, i + 1)),
            isolated: f.isolated + one_if(dip && !resumes(segments, i + 1)),
            stale: f.stale + one_if(dip && f.latest - next.ts > STALE_AFTER),
            dips: if dip {
                f.dips.push(
                    Dip {
                        diff: diff as i64,
                        after: next.at.wrapping_sub(segments[0].at),
                        segment: next,
                    },
                )
            } else {
                f.dips
            },
            latest: later(f.latest, next.ts),
        }
    }
}

/// What the dips of a direction mean.
#[derive(Debug, Clone, Copy, PartialEq, Eq, Structural)]
pub enum Verdict {
    /// Nothing out of the ordinary.
    Contiguous,
    /// A few dips look like a second stream.
    Suspect,
    /// Two streams were filed under one direction.
    Interleaved,
}

/// Two streams are interleaved where several dips, and at least a quarter of them, go on
/// counting.
pub open spec fn verdict(resuming: nat, isolated: nat) -> Verdict {
    if resuming >= 3 && resuming * 4 >= resuming + isolated {
        Verdict::Interleaved
    } else if resuming > 0 {
        Verdict::Suspect
    } else {
        Verdict::Contiguous
    }
}

/// What a direction of a recording looks like.
#[derive(Debug)]
pub struct DirectionReport {
    pub segments: Vec<Seg>,
    pub steps: usize,
    pub jumps: usize,
    pub backwards: usize,
    pub duplicates: usize,
    pub resuming: usize,
    pub isolated: usize,
    pub stale: usize,
    /// The dips, the deepest first.
    pub dips: Vec<Dip>,
    pub verdict: Verdict,
}

/// Whether a report says how some segments go.
pub open spec fn reports(r: DirectionReport, segments: Seq<Seg>) -> bool {
    let f = flow(segments, (segments.len() - 1) as nat);
    &&& r.segments@ == segments
    &&& r.steps == f.steps
    &&& r.jumps == f.jumps
    &&& r.backwards == f.backwards
    &&& r.duplicates == f.duplicates
    &&& r.resuming == f.resuming
    &&& r.isolated == f.isolated
    &&& r.stale == f.stale
    &&& r.dips@ == sort::stable_sort(f.dips, by_depth())
    &&& r.verdict == verdict(f.resuming, f.isolated)
}

/// What a recording looks like. Of the sizes, commands and fragments the four most frequent
/// are listed, of the conversations the three most frequent.
#[derive(Debug)]
pub struct StructureReport {
    /// Sizes in units of 128 bytes.
    pub sizes: Vec<Tally>,
    pub commands: Vec<Tally>,
    pub fragments: Vec<Tally>,
    pub convs: Vec<Tally>,
    pub incoming: Option<DirectionReport>,
    pub outgoing: Option<DirectionReport>,
}

/// Whether a report on a direction is right: there is none where there are no segments.
pub open spec fn reports_direction(r: Option<DirectionReport>, segments: Seq<Seg>) -> bool {
    match r {
        Some(report) => segments.len() > 0 && reports(report, segments),
        None => segments.len() == 0,
    }
}

fn read_segments(dump: &Dump, direction: u8) -> (r: Vec<Seg>)
    ensures
        r@ == segments_of(dump@, direction),
{
    let ghost all = dump@;
    let mut out: Vec<Seg> = Vec::new();
    let mut i: usize = 0;
    assert(all.take(0) =~= Seq::empty());
    while i < dump.packets.len()
        invariant
            i <= dump.packets@.len(),
            all == dump@,
            out@ == segments_of(all.take(i as int), direction),
        decreases dump.packets@.len() - i,
    {
        let p: &DumpPacket = &dump.packets[i];
        assert(all[i as int] == p@);
        assert(all.take(i + 1).drop_last() =~= all.take(i as int));
        assert(all.take(i + 1).last() == p@);
        if p.direction == direction && p.data.len() >= SEGMENT_HEADER_SIZE {
            let cmd: u8 = p.data[8];
            if cmd >= kcp::CMD_PUSH && cmd <= kcp::CMD_WINS {
                let bytes: &[u8] = p.data.as_slice();
                out.push(
                    Seg {
                        at: p.timestamp,
                        ts: endian::read_le32(bytes, 12),
                        sn: endian::read_le32(bytes, 16),
                        cmd,
                        frg: p.data[9],
                        declared: endian::read_le32(bytes, 24),
                    },
                );
            }
        }
        i = i + 1;
    }
    assert(all.take(i as int) =~= all);
    out
}

/// How many of the next segments behind `i` go on counting.
fn count_run(segments: &Vec<Seg>, i: usize) -> (r: usize)
    requires
        i < segments@.len(),
    ensures
        r == run_behind(segments@, i as int, RUN_WINDOW as nat),
{
    let mut k: usize = 0;
    while k < RUN_WINDOW && k + 1 < segments.len() - i && segments[i + k + 1].sn
        == segments[i].sn.wrapping_add(k as u32 + 1)
        invariant
            k <= RUN_WINDOW,
            i < segments@.len(),
            i + k < segments@.len(),
            run_behind(segments@, i as int, k as nat) == k,
        decreases RUN_WINDOW - k,
    {
        k = k + 1;
    }
    proof {
        lemma_run_stops(segments@, i as int, k as nat, RUN_WINDOW as nat);
    }
    k
}

/// A run ends at the first segment that does not go on.
proof fn lemma_run_stops(segments: Seq<Seg>, i: int, k: nat, n: nat)
    requires
        k <= n,
        run_behind(segments, i, k) == k,
        k < n ==> !(i + k + 1 < segments.len() && segments[i + k + 1].sn
            == segments[i].sn.wrapping_add((k + 1) as u32)),
    ensures
        run_behind(segments, i, n) == k,
    decreases n,
{
    if n > k {
        if n > k + 1 {
            lemma_run_stops(segments, i, k, (n - 1) as nat);
        }
    }
}

fn report_segments(segments: Vec<Seg>) -> (r: DirectionReport)
    requires
        segments@.len() > 0,
    ensures
        reports(r, segments@),
{
    let start: i64 = segments[0].at;
    let mut steps: usize = 0;
    let mut jumps: usize = 0;
    let mut backwards: usize = 0;
    let mut duplicates: usize = 0;
    let mut resuming: usize = 0;
    let mut isolated: usize = 0;
    let mut stale: usize = 0;
    let mut dips: Vec<Dip> = Vec::new();
    let mut latest: u32 = segments[0].ts;
    let mut i: usize = 0;
    while i < segments.len() - 1
        invariant
            i < segments@.len(),
            start == segments@[0].at,
            steps <= i,
            jumps <= i,
            backwards <= i,
            duplicates <= i,
            resuming <= i,
            isolated <= i,
            stale <= i,
            flow(segments@, i as nat) == (FlowView {
                steps: steps as nat,
                jumps: jumps as nat,
                backwards: backwards as nat,
                duplicates: duplicates as nat,
                resuming: resuming as nat,
                isolated: isolated as nat,
                stale: stale as nat,
                dips: dips@,
                latest,
            }),
        decreases segments@.len() - i,
    {
        let next: Seg = segments[i + 1];
        let diff: i64 = next.sn as i64 - segments[i].sn as i64;
        if diff == 0 {
            duplicates = duplicates + 1;
        } else if diff == 1 {
            steps = steps + 1;
        } else if diff < 0 {
            backwards = backwards + 1;
        } else {
            jumps = jumps + 1;
        }
        if diff <= -DIP_DEPTH {
            if count_run(&segments, i + 1) >= RESUMED_RUN {
                resuming = resuming + 1;
            } else {
                isolated = isolated + 1;
            }
            if latest > next.ts && latest - next.ts > STALE_AFTER {
                stale = stale + 1;
            }
            dips.push(Dip { diff, after: next.at.wrapping_sub(start), segment: next });
        }
        if next.ts > latest {
            latest = next.ts;
        }
        i = i + 1;
    }
    sort::sort_by_key(&mut dips);
    assert((|d: Dip| d.key_spec()) =~= by_depth());
    let weight: u128 = resuming as u128 * 4;
    let dip_count: u128 = resuming as u128 + isolated as u128;
    let verdict: Verdict = if resuming >= 3 && weight >= dip_count {
        Verdict::Interleaved
    } else if resuming > 0 {
        Verdict::Suspect
    } else {
        Verdict::Contiguous
    };
    DirectionReport {
        segments,
        steps,
        jumps,
        backwards,
        duplicates,
        resuming,
        isolated,
        stale,
        dips,
        verdict,
    }
}

fn report_direction(dump: &Dump, direction: u8) -> (r: Option<DirectionReport>)
    ensures
        reports_direction(r, segments_of(dump@, direction)),
{
    let segments: Vec<Seg> = read_segments(dump, direction);
    if segments.len() == 0 {
        None
    } else {
        Some(report_segments(segments))
    }
}

/// Looks at a recording without decoding it.
pub fn structure_report(dump: &Dump) -> (r: StructureReport)
    ensures
        r.sizes@ == tally::top(tally::tallied(size_classes(dump@)), 4),
        r.commands@ == tally::top(tally::tallied(commands_of(dump@)), 4),
        r.fragments@ == tally::top(tally::tallied(fragments_of(dump@)), 4),
        r.convs@ == tally::top(tally::tallied(convs_of(dump@)), 3),
        reports_direction(r.incoming, segments_of(dump@, 0)),
        reports_direction(r.outgoing, segments_of(dump@, 1)),
{
    let ghost all = dump@;
    let mut sizes: Vec<u64> = Vec::new();
    let mut commands: Vec<u64> = Vec::new();
    let mut fragments: Vec<u64> = Vec::new();
    let mut convs: Vec<u64> = Vec::new();
    let mut i: usize = 0;
    proof {
        assert(all.take(0) =~= Seq::empty());
        assert(sizes@ =~= size_classes(all.take(0)));
        assert(commands@ =~= commands_of(all.take(0)));
        assert(fragments@ =~= fragments_of(all.take(0)));
        assert(convs@ =~= convs_of(all.take(0)));
    }
    while i < dump.packets.len()
        invariant
            i <= dump.packets@.len(),
            all == dump@,
            sizes@ == size_classes(all.take(i as int)),
            commands@ == commands_of(all.take(i as int)),
            fragments@ == fragments_of(all.take(i as int)),
            convs@ == convs_of(all.take(i as int)),
        decreases dump.packets@.len() - i,
    {
        let p: &DumpPacket = &dump.packets[i];
        let ghost front = all.take(i as int);
        let ghost longer = all.take(i + 1);
        proof {
            assert(all[i as int] == p@);
            assert(longer.drop_last() =~= front);
            assert(longer.last() == p@);
            assert(longer =~= front.push(p@));
            assert(size_classes(longer) =~= size_classes(front).push((p@.data.len() / 128) as u64));
        }
        sizes.push((p.data.len() / 128) as u64);
        if p.data.len() >= SEGMENT_HEADER_SIZE {
            proof {
                let headed = with_header(front);
                assert(with_header(longer) == headed.push(p@));
                assert(commands_of(longer) =~= commands_of(front).push(p@.data[8] as u64));
                assert(fragments_of(longer) =~= fragments_of(front).push(p@.data[9] as u64));
                assert(convs_of(longer) =~= convs_of(front).push(endian::le32(p@.data, 0) as u64));
            }
            commands.push(p.data[8] as u64);
            fragments.push(p.data[9] as u64);
            convs.push(endian::read_le32(p.data.as_slice(), 0) as u64);
        }
        i = i + 1;
    }
    assert(all.take(i as int) =~= all);
    StructureReport {
        sizes: tally::most_frequent(tally::tally(sizes.as_slice()), 4),
        commands: tally::most_frequent(tally::tally(commands.as_slice()), 4),
        fragments: tally::most_frequent(tally::tally(fragments.as_slice()), 4),
        convs: tally::most_frequent(tally::tally(convs.as_slice()), 3),
        incoming: report_direction(dump, 0),
        outgoing: report_direction(dump, 1),
    }
}

/// Every step is of one kind, and every dip too.
pub proof fn law_every_step_is_counted(segments: Seq<Seg>, n: nat)
    requires
        n < segments.len(),
    ensures
        ({
            let f = flow(segments, n);
            &&& f.steps + f.jumps + f.backwards + f.duplicates == n
            &&& f.resuming + f.isolated == f.dips.len()
            &&& f.dips.len() <= f.backwards
            &&& f.stale <= f.dips.len()
        }),
    decreases n,
{
    if n > 0 {
        law_every_step_is_counted(segments, (n - 1) as nat);
    }
}

/// A stream that climbs by one throughout has no dips.
pub proof fn law_a_contiguous_stream_has_no_dips(segments: Seq<Seg>, n: nat)
    requires
        n < segments.len(),
        forall|i: int| 0 <= i < n ==> #[trigger] step_at(segments, i) == 1,
    ensures
        flow(segments, n).steps == n,
        flow(segments, n).dips.len() == 0,
        verdict(flow(segments, n).resuming, flow(segments, n).isolated) == Verdict::Contiguous,
    decreases n,
{
    if n > 0 {
        law_a_contiguous_stream_has_no_dips(segments, (n - 1) as nat);
        assert(step_at(segments, n - 1) == 1);
    }
}

/// How many packets go in a direction.
pub open spec fn direction_count(packets: Seq<DumpPacketView>, direction: u8) -> nat
    decreases packets.len(),
{
    if packets.len() == 0 {
        0
    } else {
        direction_count(packets.drop_last(), direction) + one_if(
            packets.last().direction == direction,
        )
    }
}

pub fn count_direction(dump: &Dump, direction: u8) -> (r: usize)
    ensures
        r == direction_count(dump@, direction),
{
    let ghost all = dump@;
    let mut count: usize = 0;
    let mut i: usize = 0;
    assert(all.take(0) =~= Seq::empty());
    while i < dump.packets.len()
        invariant
            i <= dump.packets@.len(),
            all == dump@,
            count <= i,
            count == direction_count(all.take(i as int), direction),
        decreases dump.packets@.len() - i,
    {
        assert(all[i as int] == dump.packets@[i as int]@);
        assert(all.take(i + 1).drop_last() =~= all.take(i as int));
        assert(all.take(i + 1).last() == all[i as int]);
        if dump.packets[i].direction == direction {
            count = count + 1;
        }
        i = i + 1;
    }
    assert(all.take(i as int) =~= all);
    count
}

/// The times of the first and the last packet, and the longest payload.
#[derive(Debug, Clone, Copy, PartialEq, Eq, Structural)]
pub struct Extent {
    pub earliest: i64,
    pub latest: i64,
    pub largest_payload: usize,
}

/// The extent of a recording.
pub open spec fn is_extent(e: Extent, packets: Seq<DumpPacketView>) -> bool {
    &&& forall|i: int|
        0 <= i < packets.len() ==> e.earliest <= (#[trigger] packets[i]).timestamp <= e.latest
            && packets[i].data.len() <= e.largest_payload
    &&& exists|i: int| 0 <= i < packets.len() && (#[trigger] packets[i]).timestamp == e.earliest
    &&& exists|i: int| 0 <= i < packets.len() && (#[trigger] packets[i]).timestamp == e.latest
    &&& exists|i: int|
        0 <= i < packets.len() && (#[trigger] packets[i]).data.len() == e.largest_payload
}

/// Measures a recording; an empty one has no extent.
pub fn extent(dump: &Dump) -> (r: Option<Extent>)
    ensures
        match r {
            Some(e) => is_extent(e, dump@),
            None => dump@.len() == 0,
        },
{
    if dump.packets.len() == 0 {
        return None;
    }
    let ghost all = dump@;
    let mut e = Extent {
        earliest: dump.packets[0].timestamp,
        latest: dump.packets[0].timestamp,
        largest_payload: dump.packets[0].data.len(),
    };
    let ghost mut first: int = 0;
    let ghost mut last: int = 0;
    let ghost mut largest: int = 0;
    let mut i: usize = 1;
    assert(all[0] == dump.packets@[0]@);
    while i < dump.packets.len()
        invariant
            1 <= i <= dump.packets@.len(),
            all == dump@,
            0 <= first < i,
            0 <= last < i,
            0 <= largest < i,
            all[first].timestamp == e.earliest,
            all[last].timestamp == e.latest,
            all[largest].data.len() == e.largest_payload,
            forall|k: int|
                0 <= k < i ==> e.earliest <= (#[trigger] all[k]).timestamp <= e.latest
                    && all[k].data.len() <= e.largest_payload,
        decreases dump.packets@.len() - i,
    {
        let p: &DumpPacket = &dump.packets[i];
        assert(all[i as int] == p@);
        if p.timestamp < e.earliest {
            e.earliest = p.timestamp;
            proof {
                first = i as int;
            }
        }
        if p.timestamp > e.latest {
            e.latest = p.timestamp;
            proof {
                last = i as int;
            }
        }
        if p.data.len() > e.largest_payload {
            e.largest_payload = p.data.len();
            proof {
                largest = i as int;
            }
        }
        i = i + 1;
    }
    Some(e)
}

/// Whether the six numbers behind segment `i` go on from it.
pub open spec fn six_follow(segments: Seq<Seg>, i: int) -> bool {
    &&& i + 6 < segments.len()
    &&& segments[i + 1].sn == segments[i].sn.wrapping_add(1)
    &&& segments[i + 2].sn == segments[i].sn.wrapping_add(2)
    &&& segments[i + 3].sn == segments[i].sn.wrapping_add(3)
    &&& segments[i + 4].sn == segments[i].sn.wrapping_add(4)
    &&& segments[i + 5].sn == segments[i].sn.wrapping_add(5)
    &&& segments[i + 6].sn == segments[i].sn.wrapping_add(6)
}

/// A lower counter goes on behind a segment where the next six numbers follow it.
pub proof fn law_a_run_of_six_resumes(segments: Seq<Seg>, i: int)
    requires
        0 <= i < segments.len(),
    ensures
        resumes(segments, i) <==> six_follow(segments, i),
{
    reveal_with_fuel(run_behind, 8);
}

/// A step is counted by where the number goes: on by one, on by more, back, or nowhere. One
/// that goes back by 64 or more is a dip, told with its depth, its time and its segment; the dip
/// is stale where the segment was sent over a second before the latest.
pub proof fn law_steps_are_counted_by_where_they_go(segments: Seq<Seg>, n: nat)
    requires
        n + 1 < segments.len(),
    ensures
        ({
            let f = flow(segments, n);
            let g = flow(segments, n + 1);
            let from = segments[n as int].sn;
            let next = segments[n as int + 1];
            let back = from - next.sn;
            &&& g.steps == f.steps + if next.sn == from + 1 {
                1int
            } else {
                0
            }
            &&& g.jumps == f.jumps + if next.sn > from + 1 {
                1int
            } else {
                0
            }
            &&& g.backwards == f.backwards + if next.sn < from {
                1int
            } else {
                0
            }
            &&& g.duplicates == f.duplicates + if next.sn == from {
                1int
            } else {
                0
            }
            &&& g.resuming == f.resuming + if back >= 64 && six_follow(segments, n as int + 1) {
                1int
            } else {
                0
            }
            &&& g.isolated == f.isolated + if back >= 64 && !six_follow(segments, n as int + 1) {
                1int
            } else {
                0
            }
            &&& g.stale == f.stale + if back >= 64 && next.ts + 1000 < f.latest {
                1int
            } else {
                0
            }
            &&& back < 64 ==> g.dips == f.dips
            &&& back >= 64 ==> g.dips.len() == f.dips.len() + 1 && g.dips.drop_last() == f.dips
                && g.dips.last().diff == next.sn - from && g.dips.last().segment == next
                && g.dips.last().after == next.at.wrapping_sub(segments[0].at)
            &&& g.latest >= f.latest && g.latest >= next.ts && (g.latest == f.latest || g.latest
                == next.ts)
        }),
{
    law_a_run_of_six_resumes(segments, n as int + 1);
    let f = flow(segments, n);
    let g = flow(segments, n + 1);
    assert(step_at(segments, n as int) == segments[n as int + 1].sn - segments[n as int].sn);
    assert(g.dips.len() == f.dips.len() + 1 ==> g.dips.drop_last() =~= f.dips);
}

/// Nothing is out of the ordinary where no dip goes on counting; two streams are interleaved
/// where at least three do, and at most three times as many do not.
pub proof fn law_the_verdict_goes_by_the_dips(resuming: nat, isolated: nat)
    ensures
        verdict(resuming, isolated) is Contiguous <==> resuming == 0,
        verdict(resuming, isolated) is Interleaved <==> resuming >= 3 && isolated <= 3 * resuming,
        verdict(resuming, isolated) is Suspect <==> 0 < resuming < 3 || (resuming >= 3 && isolated > 3
            * resuming),
{
}

/// The segments of a direction are those of its packets that are long enough for a header and
/// start with one of the four commands, in order.
pub proof fn law_segments_are_listed_in_order(
    first: Seq<DumpPacketView>,
    then: Seq<DumpPacketView>,
    packet: DumpPacketView,
    direction: u8,
)
    ensures
        segments_of(first + then, direction) == segments_of(first, direction) + segments_of(
            then,
            direction,
        ),
        ({
            let listed = segments_of(seq![packet], direction);
            let counts = packet.direction == direction && packet.data.len() >= 28 && 81
                <= packet.data[8] <= 84;
            &&& !counts ==> listed.len() == 0
            &&& counts ==> listed.len() == 1 && listed[0].at == packet.timestamp && listed[0].cmd
                == packet.data[8] && listed[0].frg == packet.data[9] && listed[0].ts == endian::le32(
                packet.data,
                12,
            ) && listed[0].sn == endian::le32(packet.data, 16) && listed[0].declared == endian::le32(
                packet.data,
                24,
            )
        }),
    decreases then.len(),
{
    reveal_with_fuel(segments_of, 2);
    assert(seq![packet].drop_last() =~= Seq::empty());
    if then.len() == 0 {
        assert(first + then =~= first);
        assert(segments_of(first, direction) + Seq::empty() =~= segments_of(first, direction));
    } else {
        law_segments_are_listed_in_order(first, then.drop_last(), packet, direction);
        assert((first + then).drop_last() =~= first + then.drop_last());
        assert((first + then).last() == then.last());
        let rest = segments_of(then.drop_last(), direction);
        assert(segments_of(first, direction) + rest.push(seg_of(then.last())) =~= (segments_of(
            first,
            direction,
        ) + rest).push(seg_of(then.last())));
    }
}

/// Every packet of a direction counts once, and no other.
pub proof fn law_packets_are_counted_by_direction(
    first: Seq<DumpPacketView>,
    then: Seq<DumpPacketView>,
    packet: DumpPacketView,
    direction: u8,
)
    ensures
        direction_count(first + then, direction) == direction_count(first, direction)
            + direction_count(then, direction),
        direction_count(seq![packet], packet.direction) == 1,
        packet.direction != direction ==> direction_count(seq![packet], direction) == 0,
    decreases then.len(),
{
    reveal_with_fuel(direction_count, 2);
    assert(seq![packet].drop_last() =~= Seq::empty());
    if then.len() == 0 {
        assert(first + then =~= first);
    } else {
        law_packets_are_counted_by_direction(first, then.drop_last(), packet, direction);
        assert((first + then).drop_last() =~= first + then.drop_last());
        assert((first + then).last() == then.last());
    }
}

/// Every packet is counted by its size, in units of 128 bytes; those with a header of 28 bytes by
/// the command, the fragment and the conversation that stand in it.
pub proof fn law_packets_are_listed_by_what_they_hold(
    first: Seq<DumpPacketView>,
    then: Seq<DumpPacketView>,
    packet: DumpPacketView,
)
    ensures
        size_classes(first + then) == size_classes(first) + size_classes(then),
        size_classes(seq![packet]) == seq![(packet.data.len() / 128) as u64],
        commands_of(first + then) == commands_of(first) + commands_of(then),
        fragments_of(first + then) == fragments_of(first) + fragments_of(then),
        convs_of(first + then) == convs_of(first) + convs_of(then),
        packet.data.len() < 28 ==> commands_of(seq![packet]).len() == 0 && fragments_of(
            seq![packet],
        ).len() == 0 && convs_of(seq![packet]).len() == 0,
        packet.data.len() >= 28 ==> commands_of(seq![packet]) == seq![packet.data[8] as u64]
            && fragments_of(seq![packet]) == seq![packet.data[9] as u64] && convs_of(seq![packet])
            == seq![endian::le32(packet.data, 0) as u64],
{
    lemma_with_header_in_parts(first, then);
    let one = seq![packet];
    reveal_with_fuel(with_header, 2);
    assert(one.drop_last() =~= Seq::empty());
    if packet.data.len() >= 28 {
        assert(with_header(one) =~= one);
        assert(commands_of(one) =~= seq![packet.data[8] as u64]);
        assert(fragments_of(one) =~= seq![packet.data[9] as u64]);
        assert(convs_of(one) =~= seq![endian::le32(packet.data, 0) as u64]);
    }
    assert(size_classes(one) =~= seq![(packet.data.len() / 128) as u64]);
    assert(size_classes(first + then) =~= size_classes(first) + size_classes(then));
    assert(commands_of(first + then) =~= commands_of(first) + commands_of(then));
    assert(fragments_of(first + then) =~= fragments_of(first) + fragments_of(then));
    assert(convs_of(first + then) =~= convs_of(first) + convs_of(then));
}

proof fn lemma_with_header_in_parts(first: Seq<DumpPacketView>, then: Seq<DumpPacketView>)
    ensures
        with_header(first + then) == with_header(first) + with_header(then),
    decreases then.len(),
{
    if then.len() == 0 {
        assert(first + then =~= first);
        assert(with_header(first) + Seq::empty() =~= with_header(first));
    } else {
        lemma_with_header_in_parts(first, then.drop_last());
        assert((first + then).drop_last() =~= first + then.drop_last());
        assert((first + then).last() == then.last());
        let rest = with_header(then.drop_last());
        assert(with_header(first) + rest.push(then.last()) =~= (with_header(first) + rest).push(
            then.last(),
        ));
    }
}

/// The dips are listed with the deepest first.
pub proof fn law_the_deepest_dip_comes_first(dips: Seq<Dip>, i: int, j: int)
    requires
        0 <= i <= j < dips.len(),
    ensures
        ({
            let listed = sort::stable_sort(dips, by_depth());
            &&& listed.len() == dips.len()
            &&& listed[i].diff <= listed[j].diff
        }),
{
    sort::law_stable_sort(dips, by_depth());
    let listed = sort::stable_sort(dips, by_depth());
    assert(by_depth()(listed[i]) <= by_depth()(listed[j]));
}

} // verus!
