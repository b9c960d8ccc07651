//! The live pipeline: packets in; the region found, the inventory extracted, snapshots and
//! changes out.
//!
//! The region is not known before the login was seen. Until then packets are held back, and
//! the seeds are tried on them from time to time. What the login brings is the state to
//! start from, and no change.
//!
//! A [`Session`] does no input or output. What it has to tell it returns, in order.
use crate::changelog;
use crate::changelog::{LogEntry, LogEntryView};
use crate::datamine::Datamine;
use crate::dump;
use crate::dump::{Dump, DumpPacketView, Packet, PacketView};
use crate::gamedata::GameData;
use crate::kcp;
use crate::names::NanokaNames;
use crate::region;
use crate::rsa::Key;
use crate::scan;
use crate::scan::{Context, DecodeEventView, DecodeStats, Scanner, ScannerView};
use crate::settings::ExportSettings;
use crate::snapshot;
use crate::snapshot::{ExtractSummary, Inventory, InventoryView, ItemChange};
use crate::text;
use crate::xorpad;
use crate::xorpad::XorPad;
use crate::zod;
use crate::zod::{ExportError, Izod};
use vstd::prelude::*;

verus! {

/// How many packets are held back at most: where no region is found by then, the session gives
/// up.
pub const DETECT_LIMIT: usize = 4000;

/// How many packets pass from one trial of the seeds to the next.
pub const HALF_WINDOW: usize = 300;

/// What the log says of the region that is found. Of several seeds the one that decodes most is
/// taken; a single seed is taken however it did.
#[derive(Debug, Clone, Copy, PartialEq, Eq, Structural)]
pub enum Detection {
    /// Which one it is, and how it did.
    Scored,
    /// How each one did.
    Listed,
}

/// Why a session cannot go on.
#[derive(Debug)]
pub enum FeedError {
    /// No seed fits the packets that were held back.
    RegionNotFound { packets: usize },
    /// No snapshot can be made.
    Export(String),
}

/// What a [`FeedError`] says.
pub enum FeedErrorView {
    RegionNotFound { packets: usize },
    Export(Seq<char>),
}

impl View for FeedError {
    type V = FeedErrorView;

    open spec fn view(&self) -> FeedErrorView {
        match *self {
            FeedError::RegionNotFound { packets } => FeedErrorView::RegionNotFound { packets },
            FeedError::Export(message) => FeedErrorView::Export(message@),
        }
    }
}

impl FeedError {
    /// What went wrong, in words; `options` are the ways to skip detection.
    pub open spec fn text_for(self, options: Seq<char>) -> Seq<char> {
        match self {
            FeedError::RegionNotFound { packets } => "no region seed decrypts the first "@
                + text::decimal(packets as nat)
                + " packets: either the game has updated and `xorSeeds` in datamine.json is stale, or this traffic is not the game's — pass "@
                + options + " to skip detection"@,
            FeedError::Export(message) => message@,
        }
    }

    pub fn to_text(&self, options: &str) -> (r: String)
        ensures
            r@ == self.text_for(options@),
    {
        match self {
            FeedError::RegionNotFound { packets } => {
                let mut out: String = text::with_number(
                    "no region seed decrypts the first ",
                    *packets as u64,
                );
                out.push_str(
                    " packets: either the game has updated and `xorSeeds` in datamine.json is stale, or this traffic is not the game's — pass ",
                );
                out.push_str(options);
                out.push_str(" to skip detection");
                out
            },
            FeedError::Export(message) => message.clone(),
        }
    }

    pub fn to_string(&self) -> (r: String)
        ensures
            r@ == self.text_for("a region or seed"@),
    {
        self.to_text("a region or seed")
    }
}

/// Where a session is.
#[derive(Debug, PartialEq, Eq)]
pub struct Status {
    pub packets: u64,
    pub snapshots: u64,
    pub discs: usize,
    pub engines: usize,
    pub agents: usize,
    pub region: Option<String>,
}

/// What a [`Status`] holds.
pub struct StatusView {
    pub packets: u64,
    pub snapshots: u64,
    pub discs: usize,
    pub engines: usize,
    pub agents: usize,
    pub region: Option<Seq<char>>,
}

impl View for Status {
    type V = StatusView;

    open spec fn view(&self) -> StatusView {
        StatusView {
            packets: self.packets,
            snapshots: self.snapshots,
            discs: self.discs,
            engines: self.engines,
            agents: self.agents,
            region: crate::json::value_text(self.region),
        }
    }
}

impl Default for Status {
    fn default() -> (r: Status)
        ensures
            r@ == no_status(),
    {
        Status { packets: 0, snapshots: 0, discs: 0, engines: 0, agents: 0, region: None }
    }
}

/// Before the first packet.
pub open spec fn no_status() -> StatusView {
    StatusView { packets: 0, snapshots: 0, discs: 0, engines: 0, agents: 0, region: None }
}

/// Something that a session has to tell.
#[derive(Debug)]
pub enum Notice {
    /// A line for the log.
    Log(String),
    /// A payload for the live clients.
    Snapshot { number: u64, json: String, discs: usize, engines: usize, agents: usize },
    /// Changes that were applied.
    Changes(Vec<LogEntry>),
    /// Where the session is now.
    Status(Status),
}

/// What a [`Notice`] says.
pub enum NoticeView {
    Log(Seq<char>),
    Snapshot { number: u64, json: Seq<char>, discs: usize, engines: usize, agents: usize },
    Changes(Seq<LogEntryView>),
    Status(StatusView),
}

impl View for Notice {
    type V = NoticeView;

    open spec fn view(&self) -> NoticeView {
        match *self {
            Notice::Log(line) => NoticeView::Log(line@),
            Notice::Snapshot { number, json, discs, engines, agents } => NoticeView::Snapshot {
                number,
                json: json@,
                discs,
                engines,
                agents,
            },
            Notice::Changes(entries) => NoticeView::Changes(changelog::log_view(entries@)),
            Notice::Status(status) => NoticeView::Status(status@),
        }
    }
}

pub open spec fn notices_view(notices: Seq<Notice>) -> Seq<NoticeView> {
    notices.map_values(|n: Notice| n@)
}

/// The log line for a snapshot that was sent.
pub open spec fn snapshot_text(
    number: u64,
    bytes: nat,
    discs: usize,
    engines: usize,
    agents: usize,
    clients: usize,
) -> Seq<char> {
    "snapshot "@ + text::decimal(number as nat) + " ("@ + text::decimal(bytes / 1024) + " KiB): "@
        + text::decimal(discs as nat) + " discs, "@ + text::decimal(engines as nat)
        + " w-engines, "@ + text::decimal(agents as nat) + " agents, "@ + text::decimal(
        clients as nat,
    ) + " client(s)"@
}

pub fn snapshot_line(
    number: u64,
    bytes: usize,
    discs: usize,
    engines: usize,
    agents: usize,
    clients: usize,
) -> (r: String)
    ensures
        r@ == snapshot_text(number, bytes as nat, discs, engines, agents, clients),
{
    let mut out: String = text::with_number("snapshot ", number);
    out.push_str(" (");
    text::push_decimal(&mut out, bytes as u64 / 1024);
    out.push_str(" KiB): ");
    text::push_decimal(&mut out, discs as u64);
    out.push_str(" discs, ");
    text::push_decimal(&mut out, engines as u64);
    out.push_str(" w-engines, ");
    text::push_decimal(&mut out, agents as u64);
    out.push_str(" agents, ");
    text::push_decimal(&mut out, clients as u64);
    out.push_str(" client(s)");
    out
}

/// The state of a [`Session`].
pub struct LiveView {
    pub candidates: Seq<(Seq<char>, u64)>,
    pub settings: ExportSettings,
    pub detection: Detection,
    /// The latest payload.
    pub latest: Seq<char>,
    pub scanner: Option<ScannerView>,
    /// The packets that are held back.
    pub pending: Seq<DumpPacketView>,
    pub region: Option<Seq<char>>,
    pub packets: u64,
    pub snapshots: u64,
}

/// A session before its first packet.
pub open spec fn not_begun(
    candidates: Seq<(Seq<char>, u64)>,
    settings: ExportSettings,
    detection: Detection,
) -> LiveView {
    LiveView {
        candidates,
        settings,
        detection,
        latest: Seq::empty(),
        scanner: None,
        pending: Seq::empty(),
        region: None,
        packets: 0,
        snapshots: 0,
    }
}

/// What a session works with.
pub struct LiveContext {
    pub decoding: Context,
    pub data: GameData,
}

/// What has been extracted, if the region is known.
pub open spec fn inventory_of(s: LiveView) -> Option<InventoryView> {
    match s.scanner {
        Some(scanner) => Some(scanner.inventory),
        None => None,
    }
}

pub open spec fn holds_nothing(v: InventoryView) -> bool {
    v.discs.len() == 0 && v.engines.len() == 0 && v.agents.len() == 0
}

/// The line about the progress so far.
pub open spec fn progress_text(s: LiveView) -> Seq<char> {
    match inventory_of(s) {
        Some(v) => if holds_nothing(v) {
            text::decimal(s.packets as nat) + " packets, no region yet"@
        } else {
            text::decimal(s.packets as nat) + " packets, "@ + text::decimal(s.snapshots as nat)
                + " snapshots, "@ + text::decimal(v.discs.len()) + " discs, "@ + text::decimal(
                v.engines.len(),
            ) + " w-engines, "@ + text::decimal(v.agents.len()) + " agents"@
        },
        None => text::decimal(s.packets as nat) + " packets, no region yet"@,
    }
}

/// The status of a session.
pub open spec fn status_of(s: LiveView) -> StatusView {
    let (discs, engines, agents) = match inventory_of(s) {
        Some(v) => (v.discs.len() as usize, v.engines.len() as usize, v.agents.len() as usize),
        None => (0, 0, 0),
    };
    StatusView {
        packets: s.packets,
        snapshots: s.snapshots,
        discs,
        engines,
        agents,
        region: s.region,
    }
}

/// The error that ends a session which cannot make a snapshot.
pub open spec fn snapshot_failure(error: ExportError) -> Seq<char> {
    "cannot build a snapshot: "@ + error.text()
        + " — the session stops rather than sending a payload the optimizer would import"@
}

/// A snapshot is made of what has been extracted. Nothing is sent where nothing was
/// extracted, or where the payload is the latest again.
pub open spec fn published(s: LiveView, c: LiveContext) -> (
    LiveView,
    Seq<NoticeView>,
    Option<FeedErrorView>,
) {
    match inventory_of(s) {
        None => (s, Seq::empty(), None),
        Some(v) => if holds_nothing(v) {
            (s, Seq::empty(), None)
        } else {
            match zod::live_exported(v, NanokaNames(&c.data.nanoka), s.settings) {
                Err(e) => (s, Seq::empty(), Some(FeedErrorView::Export(snapshot_failure(e)))),
                Ok(z) => {
                    let json = zod::izod_json(z);
                    if json == s.latest {
                        (s, Seq::empty(), None)
                    } else {
                        let number = s.snapshots.wrapping_add(1);
                        (
                            LiveView { latest: json, snapshots: number, ..s },
                            seq![
                                NoticeView::Snapshot {
                                    number,
                                    json,
                                    discs: v.discs.len() as usize,
                                    engines: v.engines.len() as usize,
                                    agents: v.agents.len() as usize,
                                },
                            ],
                            None,
                        )
                    }
                },
            }
        },
    }
}

/// Whether the seeds are tried now: at the first full window, then each half window, and once
/// more before the session gives up.
pub open spec fn trial_due(held: nat) -> bool {
    ||| held >= region::DETECT_PACKETS && held % (HALF_WINDOW as nat) == 0
    ||| held >= DETECT_LIMIT
}

/// The line about a region that was found.
pub open spec fn detected_text(label: Seq<char>, decoded: u64, held: nat) -> Seq<char> {
    "region detected: "@ + label + ", "@ + text::decimal(decoded as nat)
        + " messages in the first "@ + text::decimal(
        if held < region::DETECT_PACKETS {
            held
        } else {
            region::DETECT_PACKETS as nat
        },
    ) + " packets"@
}

pub open spec fn log_lines(lines: Seq<Seq<char>>) -> Seq<NoticeView> {
    lines.map_values(|l: Seq<char>| NoticeView::Log(l))
}

/// Which seed is taken: the best, or the only one there is, however it did.
pub open spec fn taken(scores: Seq<region::Score>) -> Option<int> {
    if scores.len() == 1 {
        Some(0)
    } else {
        region::best(scores)
    }
}

/// The region of the packets that are held back, and what the log says of it.
pub open spec fn found(s: LiveView, c: LiveContext) -> Option<((Seq<char>, u64), Seq<NoticeView>)> {
    let scores = region::scores_of(s.candidates, s.pending, c.decoding);
    match s.detection {
        Detection::Scored => match taken(scores) {
            Some(i) => Some(
                (
                    s.candidates[i],
                    seq![
                        NoticeView::Log(
                            detected_text(s.candidates[i].0, scores[i].decoded, s.pending.len()),
                        ),
                    ],
                ),
            ),
            None => None,
        },
        Detection::Listed => {
            let (chosen, lines) = region::choice(s.candidates, scores);
            match chosen {
                Some(candidate) => Some((candidate, log_lines(lines))),
                None => None,
            }
        },
    }
}

/// The region is known: what was held back is scanned, and is the state to start from.
pub open spec fn settled(s: LiveView, c: LiveContext, candidate: (Seq<char>, u64)) -> LiveView {
    let scanner = region::trial(s.pending, c.decoding, candidate.1);
    LiveView {
        scanner: Some(ScannerView { last_changes: Seq::empty(), ..scanner }),
        region: Some(candidate.0),
        pending: Seq::empty(),
        ..s
    }
}

/// The lines for some changes.
pub open spec fn lines_for(changes: Seq<ItemChange>, c: LiveContext, v: InventoryView) -> Seq<LogEntryView> {
    changes.map_values(
        |change: ItemChange|
            LogEntryView {
                sequence: 0,
                text: changelog::described(change, NanokaNames(&c.data.nanoka), Some(v)),
                change,
            },
    )
}

/// A packet before the region is known.
pub open spec fn held_back(s: LiveView, c: LiveContext, packet: PacketView) -> (
    LiveView,
    Seq<NoticeView>,
    Option<FeedErrorView>,
) {
    let s = LiveView { pending: s.pending.push(dump::recorded(packet)), ..s };
    if !trial_due(s.pending.len()) {
        (s, Seq::empty(), None)
    } else {
        match found(s, c) {
            Some((candidate, notices)) => {
                let (after, more, error) = published(settled(s, c, candidate), c);
                (after, notices + more, error)
            },
            None => (
                s,
                Seq::empty(),
                if s.pending.len() >= DETECT_LIMIT {
                    Some(FeedErrorView::RegionNotFound { packets: s.pending.len() as usize })
                } else {
                    None
                },
            ),
        }
    }
}

/// A packet once the region is known. The changes of one that brings a whole inventory are
/// not told.
pub open spec fn followed(s: LiveView, c: LiveContext, packet: PacketView) -> (
    LiveView,
    Seq<NoticeView>,
    Option<FeedErrorView>,
) {
    let before = s.scanner->Some_0;
    let scanner = scan::packet_scanned(
        before,
        c.decoding,
        packet.data,
        packet.direction,
        packet.timestamp,
    ).1;
    let changes = scanner.last_changes;
    let s = LiveView {
        scanner: Some(ScannerView { last_changes: Seq::empty(), ..scanner }),
        ..s
    };
    let told = if scanner.last_had_load || changes.len() == 0 {
        Seq::empty()
    } else {
        seq![NoticeView::Changes(lines_for(changes, c, scanner.inventory))]
    };
    let (s, more, error) = if changelog::total_of(before.extract) != changelog::total_of(
        scanner.extract,
    ) {
        published(s, c)
    } else {
        (s, Seq::empty(), None)
    };
    (s, told + more, error)
}

/// A packet is fed. The status comes last, unless the packet ends the session.
pub open spec fn fed(s: LiveView, c: LiveContext, packet: PacketView, progress_due: bool) -> (
    LiveView,
    Seq<NoticeView>,
    Option<FeedErrorView>,
) {
    let s = LiveView { packets: s.packets.wrapping_add(1), ..s };
    let first = if progress_due {
        seq![NoticeView::Log(progress_text(s))]
    } else {
        Seq::empty()
    };
    let (after, notices, error) = if s.scanner is None {
        held_back(s, c, packet)
    } else {
        followed(s, c, packet)
    };
    (
        after,
        if error is None {
            (first + notices).push(NoticeView::Status(status_of(after)))
        } else {
            first + notices
        },
        error,
    )
}

/// What became of a packet.
pub open spec fn fed_error(r: Result<(), FeedError>) -> Option<FeedErrorView> {
    match r {
        Ok(_) => None,
        Err(e) => Some(e@),
    }
}

/// A live session.
pub struct Session<'a> {
    data: &'a GameData,
    key: &'a Key,
    candidates: Vec<(String, u64)>,
    settings: ExportSettings,
    detection: Detection,
    latest: String,
    scanner: Option<Scanner<'a>>,
    pending: Dump,
    region: Option<String>,
    packets: u64,
    snapshots: u64,
}

impl<'a> View for Session<'a> {
    type V = LiveView;

    closed spec fn view(&self) -> LiveView {
        LiveView {
            candidates: region::candidates_view(self.candidates@),
            settings: self.settings,
            detection: self.detection,
            latest: self.latest@,
            scanner: match self.scanner {
                Some(scanner) => Some(scanner@),
                None => None,
            },
            pending: self.pending@,
            region: crate::json::value_text(self.region),
            packets: self.packets,
            snapshots: self.snapshots,
        }
    }
}

impl<'a> Session<'a> {
    /// What the session works with.
    pub closed spec fn context(&self) -> LiveContext {
        LiveContext {
            decoding: region::context_of(*self.data, self.key@),
            data: *self.data,
        }
    }

    /// The scanner works with the session's data.
    #[verifier::type_invariant]
    spec fn scanner_fits(&self) -> bool {
        match self.scanner {
            Some(scanner) => scanner.context() == region::context_of(*self.data, self.key@),
            None => true,
        }
    }

    pub fn new(
        data: &'a GameData,
        key: &'a Key,
        candidates: Vec<(String, u64)>,
        settings: ExportSettings,
        detection: Detection,
    ) -> (r: Self)
        ensures
            r@ == (LiveView {
                candidates: region::candidates_view(candidates@),
                settings,
                detection,
                latest: Seq::empty(),
                scanner: None,
                pending: Seq::empty(),
                region: None,
                packets: 0,
                snapshots: 0,
            }),
            r@ == not_begun(region::candidates_view(candidates@), settings, detection),
            r.context() == (LiveContext {
                decoding: region::context_of(*data, key@),
                data: *data,
            }),
    {
        Session {
            data,
            key,
            candidates,
            settings,
            detection,
            latest: String::new(),
            scanner: None,
            pending: Dump::new(),
            region: None,
            packets: 0,
            snapshots: 0,
        }
    }

    /// The latest payload; empty before the first snapshot.
    pub fn latest(&self) -> (r: &str)
        ensures
            r@ == self@.latest,
    {
        self.latest.as_str()
    }

    pub fn region(&self) -> (r: Option<&str>)
        ensures
            crate::nanoka::name_text(r) == self@.region,
    {
        match &self.region {
            Some(region) => Some(region.as_str()),
            None => None,
        }
    }

    /// Replaces the settings from the next snapshot on.
    pub fn set_settings(&mut self, settings: ExportSettings)
        ensures
            final(self)@ == (LiveView { settings, ..old(self)@ }),
            final(self).context() == old(self).context(),
    {
        proof {
            use_type_invariant(&*self);
        }
        self.settings = settings;
    }

    pub fn packets(&self) -> (r: u64)
        ensures
            r == self@.packets,
    {
        self.packets
    }

    pub fn snapshots(&self) -> (r: u64)
        ensures
            r == self@.snapshots,
    {
        self.snapshots
    }

    pub fn inventory(&self) -> (r: Option<&Inventory>)
        ensures
            changelog::held(r) == inventory_of(self@),
    {
        match &self.scanner {
            Some(scanner) => Some(scanner.inventory()),
            None => None,
        }
    }

    pub fn extract(&self) -> (r: Option<&ExtractSummary>)
        ensures
            match r {
                Some(summary) => self@.scanner is Some && summary@ == self@.scanner->Some_0.extract,
                None => self@.scanner is None,
            },
    {
        match &self.scanner {
            Some(scanner) => Some(scanner.extract()),
            None => None,
        }
    }

    pub fn stats(&self) -> (r: Option<&DecodeStats>)
        ensures
            match r {
                Some(stats) => self@.scanner is Some && *stats
                    == self@.scanner->Some_0.decoder.stats,
                None => self@.scanner is None,
            },
    {
        match &self.scanner {
            Some(scanner) => Some(scanner.stats()),
            None => None,
        }
    }

    /// Where the session is.
    pub fn status(&self) -> (r: Status)
        ensures
            r@ == status_of(self@),
    {
        let (discs, engines, agents): (usize, usize, usize) = match &self.scanner {
            Some(scanner) => {
                let inventory: &Inventory = scanner.inventory();
                (inventory.discs.len(), inventory.engines.len(), inventory.agents.len())
            },
            None => (0, 0, 0),
        };
        Status {
            packets: self.packets,
            snapshots: self.snapshots,
            discs,
            engines,
            agents,
            region: match &self.region {
                Some(region) => Some(region.clone()),
                None => None,
            },
        }
    }

    /// The line about the progress so far.
    pub fn progress_line(&self) -> (r: String)
        ensures
            r@ == progress_text(self@),
    {
        let mut out: String = String::new();
        text::push_decimal(&mut out, self.packets);
        assert(out@ =~= text::decimal(self.packets as nat));
        if let Some(scanner) = &self.scanner {
            let inventory: &Inventory = scanner.inventory();
            if !inventory.is_empty() {
                out.push_str(" packets, ");
                text::push_decimal(&mut out, self.snapshots);
                out.push_str(" snapshots, ");
                text::push_decimal(&mut out, inventory.discs.len() as u64);
                out.push_str(" discs, ");
                text::push_decimal(&mut out, inventory.engines.len() as u64);
                out.push_str(" w-engines, ");
                text::push_decimal(&mut out, inventory.agents.len() as u64);
                out.push_str(" agents");
                return out;
            }
        }
        out.push_str(" packets, no region yet");
        out
    }

    /// Makes a snapshot of what has been extracted.
    fn publish(&mut self) -> (r: (Vec<Notice>, Result<(), FeedError>))
        ensures
            (final(self)@, notices_view(r.0@), fed_error(r.1)) == published(
                old(self)@,
                old(self).context(),
            ),
            final(self).context() == old(self).context(),
    {
        proof {
            use_type_invariant(&*self);
        }
        let mut notices: Vec<Notice> = Vec::new();
        assert(notices_view(notices@) =~= Seq::empty());
        let inventory: &Inventory = match &self.scanner {
            Some(scanner) => scanner.inventory(),
            None => {
                return (notices, Ok(()));
            },
        };
        if inventory.is_empty() {
            return (notices, Ok(()));
        }
        let zod: Izod = match Izod::for_live(
            inventory,
            &NanokaNames(&self.data.nanoka),
            &self.settings,
        ) {
            Ok(zod) => zod,
            Err(e) => {
                let mut message: String = "cannot build a snapshot: ".to_owned();
                message.push_str(e.to_string().as_str());
                message.push_str(
                    " — the session stops rather than sending a payload the optimizer would import",
                );
                return (notices, Err(FeedError::Export(message)));
            },
        };
        let json: String = zod.to_json();
        if text::same(json.as_str(), self.latest.as_str()) {
            return (notices, Ok(()));
        }
        let (discs, engines, agents): (usize, usize, usize) = (
            inventory.discs.len(),
            inventory.engines.len(),
            inventory.agents.len(),
        );
        let number: u64 = self.snapshots.wrapping_add(1);
        self.latest = json.clone();
        self.snapshots = number;
        let notice = Notice::Snapshot { number, json, discs, engines, agents };
        notices.push(notice);
        assert(notices_view(notices@) =~= seq![notice@]);
        (notices, Ok(()))
    }

    /// Tries the seeds on what is held back.
    fn detect(&self) -> (r: Option<((String, u64), Vec<Notice>)>)
        ensures
            match r {
                Some((candidate, notices)) => found(self@, self.context()) == Some(
                    ((candidate.0@, candidate.1), notices_view(notices@)),
                ),
                None => found(self@, self.context()) is None,
            },
    {
        let mut notices: Vec<Notice> = Vec::new();
        assert(notices_view(notices@) =~= Seq::empty());
        if matches!(self.detection, Detection::Scored) {
            let scores: Vec<region::Score> = region::score_candidates(
                &self.pending,
                self.data,
                self.key,
                &self.candidates,
            );
            let chosen: Option<usize> = if scores.len() == 1 {
                Some(0)
            } else {
                region::best_score(scores.as_slice())
            };
            return match chosen {
                Some(i) => {
                    let candidate: &(String, u64) = &self.candidates[i];
                    assert(self@.candidates[i as int] == (candidate.0@, candidate.1));
                    let mut line: String = "region detected: ".to_owned();
                    line.push_str(candidate.0.as_str());
                    line.push_str(", ");
                    text::push_decimal(&mut line, scores[i].decoded);
                    line.push_str(" messages in the first ");
                    let held: usize = self.pending.len();
                    let window: usize = if held < region::DETECT_PACKETS {
                        held
                    } else {
                        region::DETECT_PACKETS
                    };
                    text::push_decimal(&mut line, window as u64);
                    line.push_str(" packets");
                    let notice = Notice::Log(line);
                    notices.push(notice);
                    assert(notices_view(notices@) =~= seq![notice@]);
                    Some(((candidate.0.clone(), candidate.1), notices))
                },
                None => None,
            };
        }
        let (chosen, lines) = region::choose_seed(
            &self.pending,
            self.data,
            self.key,
            &self.candidates,
        );
        match chosen {
            Some(candidate) => Some((candidate, log_notices(&lines))),
            None => None,
        }
    }

    /// Takes in a packet before the region is known.
    fn hold_back(&mut self, packet: &Packet) -> (r: (Vec<Notice>, Result<(), FeedError>))
        ensures
            (final(self)@, notices_view(r.0@), fed_error(r.1)) == held_back(
                old(self)@,
                old(self).context(),
                packet@,
            ),
            final(self).context() == old(self).context(),
    {
        proof {
            use_type_invariant(&*self);
        }
        let none: Vec<Notice> = Vec::new();
        assert(notices_view(none@) =~= Seq::empty());
        let mut pending: Dump = Dump::new();
        std::mem::swap(&mut pending, &mut self.pending);
        pending.push(packet);
        let held: usize = pending.len();
        self.pending = pending;
        if held < DETECT_LIMIT && (held < region::DETECT_PACKETS || held % HALF_WINDOW != 0) {
            return (none, Ok(()));
        }
        match self.detect() {
            Some((candidate, notices)) => {
                let mut scanner: Scanner<'a> = region::scan(
                    &self.pending,
                    self.data,
                    self.key,
                    XorPad::for_region(candidate.1),
                    held,
                );
                let _baseline: Vec<ItemChange> = scanner.take_changes();
                self.scanner = Some(scanner);
                self.region = Some(candidate.0);
                self.pending = Dump::new();
                let (more, outcome) = self.publish();
                (joined(notices, more), outcome)
            },
            None => if held >= DETECT_LIMIT {
                (none, Err(FeedError::RegionNotFound { packets: held }))
            } else {
                (none, Ok(()))
            },
        }
    }

    /// Takes in a packet once the region is known.
    fn follow(&mut self, packet: &Packet) -> (r: (Vec<Notice>, Result<(), FeedError>))
        requires
            old(self)@.scanner is Some,
        ensures
            (final(self)@, notices_view(r.0@), fed_error(r.1)) == followed(
                old(self)@,
                old(self).context(),
                packet@,
            ),
            final(self).context() == old(self).context(),
    {
        proof {
            use_type_invariant(&*self);
        }
        let ghost start = self@;
        let ghost c = self.context();
        let mut slot: Option<Scanner<'a>> = None;
        std::mem::swap(&mut slot, &mut self.scanner);
        let mut scanner: Scanner<'a> = slot.unwrap();
        let before: u64 = changelog::extraction_total(scanner.extract());
        let _events = scanner.feed(packet.data.as_slice(), packet.direction, packet.timestamp);
        let after: u64 = changelog::extraction_total(scanner.extract());
        let had_load: bool = scanner.last_feed_had_load();
        let ghost scanned = scanner@;
        let changes: Vec<ItemChange> = scanner.take_changes();
        let mut notices: Vec<Notice> = Vec::new();
        assert(notices_view(notices@) =~= Seq::empty());
        if !had_load && changes.len() > 0 {
            let entries: Vec<LogEntry> = entries_for(&changes, self.data, scanner.inventory());
            let notice = Notice::Changes(entries);
            notices.push(notice);
            assert(changelog::log_view(entries@) =~= lines_for(changes@, c, scanned.inventory));
            assert(notices_view(notices@) =~= seq![notice@]);
        }
        self.scanner = Some(scanner);
        if before != after {
            let (more, outcome) = self.publish();
            (joined(notices, more), outcome)
        } else {
            assert(notices_view(notices@) + Seq::<NoticeView>::empty() =~= notices_view(notices@));
            (notices, Ok(()))
        }
    }

    /// Feeds a packet. Where a line about the progress is due, it comes first; the status
    /// comes last.
    pub fn feed(&mut self, packet: &Packet, progress_due: bool) -> (r: (
        Vec<Notice>,
        Result<(), FeedError>,
    ))
        ensures
            (final(self)@, notices_view(r.0@), fed_error(r.1)) == fed(
                old(self)@,
                old(self).context(),
                packet@,
                progress_due,
            ),
            final(self).context() == old(self).context(),
    {
        proof {
            use_type_invariant(&*self);
        }
        self.packets = self.packets.wrapping_add(1);
        let mut first: Vec<Notice> = Vec::new();
        assert(notices_view(first@) =~= Seq::empty());
        if progress_due {
            let notice = Notice::Log(self.progress_line());
            first.push(notice);
            assert(notices_view(first@) =~= seq![notice@]);
        }
        let (more, outcome) = if self.scanner.is_none() {
            self.hold_back(packet)
        } else {
            self.follow(packet)
        };
        let mut notices: Vec<Notice> = joined(first, more);
        if outcome.is_ok() {
            let ghost told = notices@;
            let notice = Notice::Status(self.status());
            notices.push(notice);
            assert(notices_view(notices@) =~= notices_view(told).push(notice@));
        }
        (notices, outcome)
    }
}

fn joined(first: Vec<Notice>, more: Vec<Notice>) -> (r: Vec<Notice>)
    ensures
        notices_view(r@) == notices_view(first@) + notices_view(more@),
{
    let mut out: Vec<Notice> = first;
    let mut more: Vec<Notice> = more;
    let ghost added = more@;
    out.append(&mut more);
    assert(out@ =~= first@ + added);
    assert(notices_view(out@) =~= notices_view(first@) + notices_view(added));
    out
}

fn log_notices(lines: &Vec<String>) -> (r: Vec<Notice>)
    ensures
        notices_view(r@) == log_lines(text::texts(lines@)),
{
    let mut out: Vec<Notice> = Vec::new();
    let mut i: usize = 0;
    while i < lines.len()
        invariant
            i <= lines@.len(),
            out@.len() == i,
            forall|k: int| 0 <= k < i ==> (#[trigger] out@[k])@ == NoticeView::Log(lines@[k]@),
        decreases lines@.len() - i,
    {
        out.push(Notice::Log(lines[i].clone()));
        i = i + 1;
    }
    assert(notices_view(out@) =~= log_lines(text::texts(lines@)));
    out
}

fn entries_for(changes: &Vec<ItemChange>, data: &GameData, inventory: &Inventory) -> (r: Vec<LogEntry>)
    ensures
        r@.len() == changes@.len(),
        forall|k: int|
            0 <= k < r@.len() ==> (#[trigger] r@[k])@ == (LogEntryView {
                sequence: 0,
                text: changelog::described(
                    changes@[k],
                    NanokaNames(&data.nanoka),
                    Some(inventory@),
                ),
                change: changes@[k],
            }),
{
    let names: NanokaNames<'_> = NanokaNames(&data.nanoka);
    let mut out: Vec<LogEntry> = Vec::new();
    let mut i: usize = 0;
    while i < changes.len()
        invariant
            i <= changes@.len(),
            out@.len() == i,
            names == NanokaNames(&data.nanoka),
            forall|k: int|
                0 <= k < i ==> (#[trigger] out@[k])@ == (LogEntryView {
                    sequence: 0,
                    text: changelog::described(
                        changes@[k],
                        NanokaNames(&data.nanoka),
                        Some(inventory@),
                    ),
                    change: changes@[k],
                }),
        decreases changes@.len() - i,
    {
        out.push(
            LogEntry {
                sequence: 0,
                text: changelog::describe_change(&changes[i], &names, Some(inventory)),
                change: changes[i],
            },
        );
        i = i + 1;
    }
    out
}

/// What the login brings is told as no change: before the region is known, and by the packet
/// that makes it known, no changes are told.
pub proof fn law_the_login_is_no_change(s: LiveView, c: LiveContext, packet: PacketView, due: bool)
    requires
        s.scanner is None,
    ensures
        forall|i: int|
            0 <= i < fed(s, c, packet, due).1.len() ==> !(#[trigger] fed(
                s,
                c,
                packet,
                due,
            ).1[i] is Changes),
{
    let s1 = LiveView { packets: s.packets.wrapping_add(1), ..s };
    let s2 = LiveView { pending: s1.pending.push(dump::recorded(packet)), ..s1 };
    match found(s2, c) {
        Some((candidate, notices)) => {
            let more = published(settled(s2, c, candidate), c).1;
            assert forall|i: int| 0 <= i < (notices + more).len() implies !(#[trigger] (notices
                + more)[i] is Changes) by {
                if i >= notices.len() {
                    assert((notices + more)[i] == more[i - notices.len()]);
                }
            }
        },
        None => {},
    }
}

/// A load that brings a whole inventory is told as no change either.
pub proof fn law_loads_are_no_changes(s: LiveView, c: LiveContext, packet: PacketView)
    requires
        s.scanner is Some,
        scan::packet_scanned(
            s.scanner->Some_0,
            c.decoding,
            packet.data,
            packet.direction,
            packet.timestamp,
        ).1.last_had_load,
    ensures
        forall|i: int|
            0 <= i < followed(s, c, packet).1.len() ==> !(#[trigger] followed(
                s,
                c,
                packet,
            ).1[i] is Changes),
{
}

/// A snapshot is only sent where it differs from the latest one, and is the latest then.
pub proof fn law_no_snapshot_twice(s: LiveView, c: LiveContext)
    ensures
        ({
            let (after, notices, error) = published(s, c);
            &&& notices.len() <= 1
            &&& notices.len() == 1 ==> notices[0] is Snapshot && notices[0]->Snapshot_json
                != s.latest && after.latest == notices[0]->Snapshot_json && error is None
            &&& notices.len() == 0 ==> after == s
            &&& published(after, c).1.len() == 0
        }),
{
}

/// The search for the region is bounded: the packet that fills what may be held back either
/// gives a region or ends the session.
pub proof fn law_the_search_is_bounded(s: LiveView, c: LiveContext, packet: PacketView, due: bool)
    requires
        s.scanner is None,
        s.pending.len() == DETECT_LIMIT - 1,
    ensures
        ({
            let (after, notices, error) = fed(s, c, packet, due);
            ||| after.scanner is Some
            ||| error == Some(FeedErrorView::RegionNotFound { packets: DETECT_LIMIT })
        }),
{
}

/// Before that, no packet ends the session for want of a region.
pub proof fn law_the_search_goes_on(s: LiveView, c: LiveContext, packet: PacketView, due: bool)
    requires
        s.scanner is None,
        s.pending.len() < DETECT_LIMIT - 1,
    ensures
        !(fed(s, c, packet, due).2 is Some && fed(s, c, packet, due).2->Some_0 is RegionNotFound),
{
}

/// Where there is one seed to try, it is taken as it is, whatever was held back.
pub proof fn law_a_given_seed_skips_detection(s: LiveView, c: LiveContext)
    requires
        s.candidates.len() == 1,
    ensures
        found(s, c) is Some,
        found(s, c)->Some_0.0 == s.candidates[0],
{
}

/// One status is told for each packet that does not end the session, as the last notice.
pub proof fn law_one_status_per_packet(s: LiveView, c: LiveContext, packet: PacketView, due: bool)
    requires
        fed(s, c, packet, due).2 is None,
    ensures
        ({
            let (after, notices, error) = fed(s, c, packet, due);
            &&& notices.len() > 0
            &&& notices.last() == NoticeView::Status(status_of(after))
            &&& forall|i: int| 0 <= i < notices.len() - 1 ==> !(#[trigger] notices[i] is Status)
        }),
{
    let (after, notices, error) = fed(s, c, packet, due);
    assert forall|i: int| 0 <= i < notices.len() - 1 implies !(#[trigger] notices[i] is Status) by {}
}

/// The packets that are held back are kept until the region is known, in order.
pub proof fn law_held_packets_are_kept(s: LiveView, c: LiveContext, packet: PacketView, due: bool)
    requires
        s.scanner is None,
    ensures
        ({
            let after = fed(s, c, packet, due).0;
            after.scanner is None ==> after.pending == s.pending.push(dump::recorded(packet))
        }),
{
}

/// How much a decoded message adds to what was extracted.
pub open spec fn event_gain(s: ScannerView, event: DecodeEventView, datamine: Datamine) -> nat {
    match event {
        DecodeEventView::Message { command_id, message, .. } => changelog::weight_of_all(
            snapshot::applied(s.inventory, command_id, message, datamine).1,
        ),
        _ => 0,
    }
}

/// How much decoded messages add to what was extracted.
pub open spec fn events_gain(s: ScannerView, events: Seq<DecodeEventView>, datamine: Datamine) -> nat
    decreases events.len(),
{
    if events.len() == 0 {
        0
    } else {
        events_gain(s, events.drop_last(), datamine) + event_gain(
            scan::events_scanned(s, events.drop_last(), datamine),
            events.last(),
            datamine,
        )
    }
}

/// How much messages add to what was extracted.
pub open spec fn messages_gain(s: ScannerView, c: Context, messages: Seq<Seq<u8>>, now: i64) -> nat
    decreases messages.len(),
{
    if messages.len() == 0 {
        0
    } else {
        let before = scan::messages_scanned(s, c, messages.drop_last(), now).1;
        let (events, decoder) = scan::message_decoded(before.decoder, c, messages.last(), now);
        messages_gain(s, c, messages.drop_last(), now) + events_gain(
            ScannerView { decoder, ..before },
            events,
            c.datamine,
        )
    }
}

/// How much a packet adds to what was extracted.
pub open spec fn packet_gain(s: ScannerView, c: Context, packet: PacketView) -> nat {
    let (messages, kcp) = kcp::fed(s.kcp, packet.data, packet.direction, packet.timestamp);
    messages_gain(
        ScannerView { kcp, last_changes: Seq::empty(), last_had_load: false, ..s },
        c,
        messages,
        packet.timestamp,
    )
}

/// Every message that can touch the inventory weighs something.
proof fn lemma_no_gain_no_change(s: ScannerView, event: DecodeEventView, datamine: Datamine)
    ensures
        event_gain(s, event, datamine) == 0 ==> scan::event_scanned(s, event, datamine).inventory
            == s.inventory,
        changelog::total_of(scan::event_scanned(s, event, datamine).extract) == (
        changelog::total_of(s.extract) + event_gain(s, event, datamine)) % 0x1_0000_0000_0000_0000,
{
    match event {
        DecodeEventView::Message { command_id, message, .. } => {
            let events = snapshot::applied(s.inventory, command_id, message, datamine).1;
            changelog::law_the_total_grows(s.extract, events);
            reveal_with_fuel(changelog::weight_of_all, 3);
            if events.len() >= 2 {
                let head = events.drop_last();
                assert(changelog::weight_of_all(head) >= changelog::weight_of(head.last()));
            }
        },
        _ => {},
    }
}

proof fn lemma_gains_add_up(total: int, first: nat, second: nat)
    ensures
        ((total + first) % 0x1_0000_0000_0000_0000 + second) % 0x1_0000_0000_0000_0000 == (total
            + (first + second)) % 0x1_0000_0000_0000_0000,
{
}

proof fn lemma_events_gain(s: ScannerView, events: Seq<DecodeEventView>, datamine: Datamine)
    ensures
        ({
            let after = scan::events_scanned(s, events, datamine);
            let gain = events_gain(s, events, datamine);
            &&& gain == 0 ==> after.inventory == s.inventory
            &&& changelog::total_of(after.extract) == (changelog::total_of(s.extract) + gain)
                % 0x1_0000_0000_0000_0000
        }),
    decreases events.len(),
{
    if events.len() > 0 {
        lemma_events_gain(s, events.drop_last(), datamine);
        lemma_no_gain_no_change(
            scan::events_scanned(s, events.drop_last(), datamine),
            events.last(),
            datamine,
        );
    }
}

proof fn lemma_messages_gain(s: ScannerView, c: Context, messages: Seq<Seq<u8>>, now: i64)
    ensures
        ({
            let after = scan::messages_scanned(s, c, messages, now).1;
            let gain = messages_gain(s, c, messages, now);
            &&& gain == 0 ==> after.inventory == s.inventory
            &&& changelog::total_of(after.extract) == (changelog::total_of(s.extract) + gain)
                % 0x1_0000_0000_0000_0000
        }),
    decreases messages.len(),
{
    if messages.len() > 0 {
        lemma_messages_gain(s, c, messages.drop_last(), now);
        let before = scan::messages_scanned(s, c, messages.drop_last(), now).1;
        let (events, decoder) = scan::message_decoded(before.decoder, c, messages.last(), now);
        lemma_events_gain(ScannerView { decoder, ..before }, events, c.datamine);
        lemma_gains_add_up(
            changelog::total_of(s.extract) as int,
            messages_gain(s, c, messages.drop_last(), now),
            events_gain(ScannerView { decoder, ..before }, events, c.datamine),
        );
    }
}

/// The latest payload is the export of what is held now, or nothing is held.
pub open spec fn up_to_date(s: LiveView, c: LiveContext) -> bool {
    match inventory_of(s) {
        Some(v) => {
            ||| holds_nothing(v)
            ||| zod::live_exported(v, NanokaNames(&c.data.nanoka), s.settings) matches Ok(z)
                && s.latest == zod::izod_json(z)
        },
        None => true,
    }
}

/// The payload follows the inventory: after every packet that does not end the session, it
/// is the export of what is held. The 64-bit counter of extractions tells a change from none,
/// so one packet must not bring as many as it can count.
pub proof fn law_the_payload_stays_up_to_date(
    s: LiveView,
    c: LiveContext,
    packet: PacketView,
    due: bool,
)
    requires
        up_to_date(s, c),
        s.scanner is Some ==> packet_gain(s.scanner->Some_0, c.decoding, packet)
            < 0x1_0000_0000_0000_0000,
        fed(s, c, packet, due).2 is None,
    ensures
        up_to_date(fed(s, c, packet, due).0, c),
{
    if s.scanner is Some {
        let before = s.scanner->Some_0;
        let (messages, kcp) = kcp::fed(before.kcp, packet.data, packet.direction, packet.timestamp);
        lemma_messages_gain(
            ScannerView { kcp, last_changes: Seq::empty(), last_had_load: false, ..before },
            c.decoding,
            messages,
            packet.timestamp,
        );
    }
}

/// The seeds are tried at the 600th packet that is held back, then at every 300th, and from the
/// 4000th on. Any other packet is held back and nothing else happens.
pub proof fn law_when_the_seeds_are_tried(s: LiveView, c: LiveContext, packet: PacketView)
    ensures
        ({
            let n = s.pending.len() + 1;
            let s1 = LiveView { pending: s.pending.push(dump::recorded(packet)), ..s };
            let (after, notices, error) = held_back(s, c, packet);
            let due = n >= 4000 || (n >= 600 && n % 300 == 0);
            &&& !due ==> after == s1 && notices.len() == 0 && error is None
            &&& due && found(s1, c) is None ==> after == s1 && notices.len() == 0 && (error is Some
                <==> n >= 4000)
            &&& due && found(s1, c) is Some ==> after.scanner is Some && after.pending.len() == 0
                && after.region == Some(found(s1, c)->Some_0.0.0)
        }),
{
}

/// Of several regions the one is taken whose seed decodes most, the first of those, among the
/// seeds that complete the handshake or decode at least eight messages of the first 600
/// packets, however the choice is told. Where no seed does, no region is found.
pub proof fn law_the_best_region_is_found(s: LiveView, c: LiveContext, w: int)
    requires
        s.candidates.len() > 1,
    ensures
        ({
            let scores = region::scores_of(s.candidates, s.pending, c.decoding);
            &&& 0 <= w < scores.len() && (scores[w].complete || scores[w].decoded >= 8) && (forall|
                i: int,
            |
                0 <= i < w && ((#[trigger] scores[i]).complete || scores[i].decoded >= 8)
                    ==> scores[i].decoded < scores[w].decoded) && (forall|i: int|
                w < i < scores.len() && ((#[trigger] scores[i]).complete || scores[i].decoded >= 8)
                    ==> scores[i].decoded <= scores[w].decoded) ==> found(s, c) is Some && found(
                s,
                c,
            )->Some_0.0 == s.candidates[w]
            &&& (forall|i: int|
                0 <= i < scores.len() ==> !(#[trigger] scores[i]).complete && scores[i].decoded < 8)
                ==> found(s, c) is None
        }),
{
    let scores = region::scores_of(s.candidates, s.pending, c.decoding);
    assert(scores.len() == s.candidates.len());
    region::law_the_best_seed_is_chosen(s.candidates, scores, w);
    assert(taken(scores) == region::best(scores));
}

/// The region that was found starts from what was held back, scanned under its seed.
pub proof fn law_what_was_held_back_is_scanned(
    s: LiveView,
    c: LiveContext,
    label: Seq<char>,
    seed: u64,
)
    ensures
        ({
            let after = settled(s, c, (label, seed));
            let scanner = region::scanned(
                scan::nothing_scanned(xorpad::pad_of(seed, false)),
                c.decoding,
                s.pending,
            );
            &&& after.region == Some(label)
            &&& after.pending.len() == 0
            &&& after.scanner is Some
            &&& after.scanner->Some_0.inventory == scanner.inventory
            &&& after.scanner->Some_0.kcp == scanner.kcp
            &&& after.scanner->Some_0.decoder == scanner.decoder
            &&& after.scanner->Some_0.extract == scanner.extract
            &&& after.scanner->Some_0.last_changes.len() == 0
            &&& after.packets == s.packets
            &&& after.snapshots == s.snapshots
            &&& after.latest == s.latest
        }),
{
}

/// A snapshot is the whole inventory as it is exported, with its number and how much it holds.
/// What cannot be exported ends the session and sends nothing, and where nothing is held
/// nothing happens.
pub proof fn law_a_snapshot_is_the_inventory(s: LiveView, c: LiveContext)
    requires
        s.scanner is Some,
    ensures
        ({
            let v = s.scanner->Some_0.inventory;
            let exported = zod::live_exported(v, NanokaNames(&c.data.nanoka), s.settings);
            let (after, notices, error) = published(s, c);
            let empty = v.discs.len() == 0 && v.engines.len() == 0 && v.agents.len() == 0;
            &&& empty ==> after == s && notices.len() == 0 && error is None
            &&& !empty && exported is Err ==> after == s && notices.len() == 0 && error is Some
                && error->Some_0 is Export
            &&& !empty && exported is Ok ==> error is None && after.latest == zod::izod_json(
                exported->Ok_0,
            ) && after.scanner == s.scanner && after.region == s.region
            &&& !empty && exported is Ok && zod::izod_json(exported->Ok_0) != s.latest ==> {
                &&& after.snapshots == s.snapshots.wrapping_add(1)
                &&& notices == seq![
                    NoticeView::Snapshot {
                        number: s.snapshots.wrapping_add(1),
                        json: zod::izod_json(exported->Ok_0),
                        discs: v.discs.len() as usize,
                        engines: v.engines.len() as usize,
                        agents: v.agents.len() as usize,
                    },
                ]
            }
        }),
{
}

/// Once the region is known, every change of a packet is told, in order, in words that go by the
/// inventory after it, unless the packet brought a whole inventory.
pub proof fn law_every_change_is_told(s: LiveView, c: LiveContext, packet: PacketView)
    requires
        s.scanner is Some,
    ensures
        ({
            let scanner = scan::packet_scanned(
                s.scanner->Some_0,
                c.decoding,
                packet.data,
                packet.direction,
                packet.timestamp,
            ).1;
            let (after, notices, error) = followed(s, c, packet);
            &&& after.scanner is Some
            &&& after.scanner->Some_0.inventory == scanner.inventory
            &&& after.scanner->Some_0.decoder == scanner.decoder
            &&& after.scanner->Some_0.kcp == scanner.kcp
            &&& after.pending == s.pending
            &&& after.packets == s.packets
            &&& !scanner.last_had_load && scanner.last_changes.len() > 0 ==> {
                &&& notices.len() > 0
                &&& notices[0] is Changes
                &&& notices[0]->Changes_0.len() == scanner.last_changes.len()
                &&& forall|i: int|
                    0 <= i < scanner.last_changes.len() ==> {
                        &&& (#[trigger] notices[0]->Changes_0[i]).change == scanner.last_changes[i]
                        &&& notices[0]->Changes_0[i].text == changelog::described(
                            scanner.last_changes[i],
                            NanokaNames(&c.data.nanoka),
                            Some(scanner.inventory),
                        )
                    }
            }
        }),
{
}

/// The status counts what is held, and every packet is counted.
pub proof fn law_the_status_counts_what_is_held(
    s: LiveView,
    c: LiveContext,
    packet: PacketView,
    due: bool,
)
    ensures
        fed(s, c, packet, due).0.packets == s.packets.wrapping_add(1),
        status_of(s).packets == s.packets,
        status_of(s).snapshots == s.snapshots,
        status_of(s).region == s.region,
        s.scanner is None ==> status_of(s).discs == 0 && status_of(s).engines == 0 && status_of(
            s,
        ).agents == 0,
        s.scanner is Some ==> {
            let v = s.scanner->Some_0.inventory;
            &&& status_of(s).discs == v.discs.len() as usize
            &&& status_of(s).engines == v.engines.len() as usize
            &&& status_of(s).agents == v.agents.len() as usize
        },
        due ==> fed(s, c, packet, due).1.len() > 0 && fed(s, c, packet, due).1[0] is Log,
{
}

/// A session starts without a region, with no packet held back and none counted, and goes by the
/// seeds and settings it is given.
pub proof fn law_a_session_starts_empty(
    candidates: Seq<(Seq<char>, u64)>,
    settings: ExportSettings,
    detection: Detection,
)
    ensures
        ({
            let s = not_begun(candidates, settings, detection);
            &&& s.scanner is None && s.region is None && s.pending.len() == 0
            &&& s.packets == 0 && s.snapshots == 0 && s.latest.len() == 0
            &&& s.candidates == candidates && s.settings == settings && s.detection == detection
        }),
{
}

/// The progress tells the packets, and once something is held the snapshots and how much is held;
/// before that, that there is no region yet.
pub proof fn law_progress_is_told(s: LiveView)
    ensures
        ({
            let n = text::decimal(s.packets as nat);
            &&& s.scanner is None ==> progress_text(s) == n + " packets, no region yet"@
            &&& s.scanner is Some ==> {
                let v = s.scanner->Some_0.inventory;
                let empty = v.discs.len() == 0 && v.engines.len() == 0 && v.agents.len() == 0;
                &&& empty ==> progress_text(s) == n + " packets, no region yet"@
                &&& !empty ==> progress_text(s) == n + " packets, "@ + text::decimal(
                    s.snapshots as nat,
                ) + " snapshots, "@ + text::decimal(v.discs.len()) + " discs, "@ + text::decimal(
                    v.engines.len(),
                ) + " w-engines, "@ + text::decimal(v.agents.len()) + " agents"@
            }
        }),
{
}

/// A region that is found is told with its label, the messages its seed decoded, and how many of
/// the packets were tried: at most 600.
pub proof fn law_a_found_region_is_told(
    s: LiveView,
    c: LiveContext,
    label: Seq<char>,
    decoded: u64,
    held: nat,
)
    ensures
        held <= 600 ==> detected_text(label, decoded, held) == "region detected: "@ + label + ", "@
            + text::decimal(decoded as nat) + " messages in the first "@ + text::decimal(held)
            + " packets"@,
        held >= 600 ==> detected_text(label, decoded, held) == detected_text(label, decoded, 600),
        s.detection is Scored && found(s, c) is Some ==> {
            let notices = found(s, c)->Some_0.1;
            &&& notices.len() == 1
            &&& notices[0] is Log
        },
{
}

/// A packet from which nothing was extracted sends no snapshot, even where the settings have
/// changed since the latest.
pub proof fn law_nothing_new_sends_nothing(s: LiveView, c: LiveContext, packet: PacketView)
    requires
        s.scanner is Some,
        changelog::total_of(s.scanner->Some_0.extract) == changelog::total_of(
            scan::packet_scanned(
                s.scanner->Some_0,
                c.decoding,
                packet.data,
                packet.direction,
                packet.timestamp,
            ).1.extract,
        ),
    ensures
        ({
            let (after, notices, error) = followed(s, c, packet);
            &&& after.latest == s.latest
            &&& after.snapshots == s.snapshots
            &&& error is None
            &&& forall|i: int| 0 <= i < notices.len() ==> !(#[trigger] notices[i] is Snapshot)
        }),
{
}

} // verus!
