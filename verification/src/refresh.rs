//! A refresh of the data files, step by step.
//!
//! A [`Refresh`] says what to do next, and is told how it went. It reads and writes nothing
//! itself. The manifest comes first, then the two files that belong together, then the
//! names, which are independent of them. The first failure ends a refresh.
use crate::gamedata;
use crate::gamedata::{
    DataError, DataErrorView, DataFile, DATAMINE_FILE, MANIFEST_FILE, NANOKA_FILE, PROTO_FILE,
};
use crate::nanoka;
use crate::text;
use crate::version;
use crate::version::Version;
use vstd::prelude::*;

verus! {

/// What a refresh did.
#[derive(Debug, Clone, PartialEq, Eq)]
pub struct RefreshReport {
    /// The files that were replaced.
    pub updated_files: Vec<DataFile>,
    /// The version of the manifest that was downloaded.
    pub version: Option<Version>,
    /// The game version that the names are for.
    pub nanoka_version: Option<String>,
    /// Files that were refused, and why.
    pub kept_local: Vec<(DataFile, Vec<String>)>,
    /// Files that were left alone because the file they belong to was refused.
    pub held_back: Vec<DataFile>,
}

/// What a [`RefreshReport`] holds.
pub struct ReportView {
    pub updated_files: Seq<DataFile>,
    pub version: Option<Version>,
    pub nanoka_version: Option<Seq<char>>,
    pub kept_local: Seq<(DataFile, Seq<Seq<char>>)>,
    pub held_back: Seq<DataFile>,
}

pub open spec fn kept_view(kept: Seq<(DataFile, Vec<String>)>) -> Seq<
    (DataFile, Seq<Seq<char>>),
> {
    kept.map_values(|k: (DataFile, Vec<String>)| (k.0, text::texts(k.1@)))
}

impl View for RefreshReport {
    type V = ReportView;

    open spec fn view(&self) -> ReportView {
        ReportView {
            updated_files: self.updated_files@,
            version: self.version,
            nanoka_version: crate::json::value_text(self.nanoka_version),
            kept_local: kept_view(self.kept_local@),
            held_back: self.held_back@,
        }
    }
}

/// Nothing was done.
pub open spec fn empty_report() -> ReportView {
    ReportView {
        updated_files: Seq::empty(),
        version: None,
        nanoka_version: None,
        kept_local: Seq::empty(),
        held_back: Seq::empty(),
    }
}

impl Default for RefreshReport {
    fn default() -> (r: RefreshReport)
        ensures
            r@ == empty_report(),
    {
        let r = RefreshReport {
            updated_files: Vec::new(),
            version: None,
            nanoka_version: None,
            kept_local: Vec::new(),
            held_back: Vec::new(),
        };
        assert(r@.updated_files =~= Seq::empty());
        assert(r@.kept_local =~= Seq::empty());
        assert(r@.held_back =~= Seq::empty());
        r
    }
}

impl RefreshReport {
    /// Whether nothing was replaced.
    pub fn is_empty(&self) -> (r: bool)
        ensures
            r == (self@.updated_files.len() == 0),
    {
        self.updated_files.len() == 0
    }

    /// The files that were refused.
    pub fn kept_local_names(&self) -> (r: Vec<DataFile>)
        ensures
            r@ == self@.kept_local.map_values(
                |k: (DataFile, Seq<Seq<char>>)| k.0,
            ),
    {
        let mut out: Vec<DataFile> = Vec::new();
        let mut i: usize = 0;
        while i < self.kept_local.len()
            invariant
                i <= self.kept_local@.len(),
                out@.len() == i,
                forall|k: int| 0 <= k < i ==> #[trigger] out@[k] == self.kept_local@[k].0,
            decreases self.kept_local@.len() - i,
        {
            out.push(self.kept_local[i].0);
            i = i + 1;
        }
        assert(out@ =~= self@.kept_local.map_values(
            |k: (DataFile, Seq<Seq<char>>)| k.0,
        ));
        out
    }
}

/// What a refresh waits for.
#[derive(Debug, Clone, Copy, PartialEq, Eq, Structural)]
pub enum Phase {
    /// The directory for the files.
    Directory,
    /// The published manifest.
    Manifest,
    /// The version in the manifest.
    ManifestVersion,
    /// The manifest to be written.
    ManifestWritten,
    /// The published `datamine.json`.
    Datamine,
    /// The published `nap.json`.
    Proto,
    /// The comparison of both with the local copies.
    Comparison,
    /// `datamine.json` to be written.
    DatamineWritten,
    /// `nap.json` to be written.
    ProtoWritten,
    /// The manifest of the names.
    Names,
    /// The live version in that manifest.
    Live,
    /// The version of the names at hand.
    Cached,
    /// The agents' names.
    Characters,
    /// The disc sets' names.
    Equipment,
    /// The w-engines' names.
    Weapons,
    /// The names put together.
    Built,
    /// The names to be written.
    BuiltWritten,
    /// Nothing: the refresh is over.
    Over,
}

/// What to do next.
#[derive(Debug)]
pub enum RefreshAction {
    /// Make the directory for the files.
    CreateDirectory,
    /// Download a text.
    Fetch(String),
    /// Give the version in this manifest.
    ParseManifest(String),
    /// Replace a file.
    Write { file: DataFile, body: String },
    /// Compare these published copies of `datamine.json` and `nap.json` with the local ones.
    Compare { datamine: String, proto: String },
    /// Give the live version in this manifest.
    ParseNames(String),
    /// Give the version of the names at hand, if there are any.
    ReadCache,
    /// Put these tables together as a file.
    Build { version: String, characters: String, weapons: String, equipment: String },
    /// All is done.
    Finish(RefreshReport),
    /// The refresh has failed.
    Fail(DataError),
}

/// What a [`RefreshAction`] says.
pub enum RefreshActionView {
    CreateDirectory,
    Fetch(Seq<char>),
    ParseManifest(Seq<char>),
    Write { file: DataFile, body: Seq<char> },
    Compare { datamine: Seq<char>, proto: Seq<char> },
    ParseNames(Seq<char>),
    ReadCache,
    Build {
        version: Seq<char>,
        characters: Seq<char>,
        weapons: Seq<char>,
        equipment: Seq<char>,
    },
    Finish(ReportView),
    Fail(DataErrorView),
}

impl View for RefreshAction {
    type V = RefreshActionView;

    open spec fn view(&self) -> RefreshActionView {
        match *self {
            RefreshAction::CreateDirectory => RefreshActionView::CreateDirectory,
            RefreshAction::Fetch(url) => RefreshActionView::Fetch(url@),
            RefreshAction::ParseManifest(body) => RefreshActionView::ParseManifest(body@),
            RefreshAction::Write { file, body } => RefreshActionView::Write {
                file,
                body: body@,
            },
            RefreshAction::Compare { datamine, proto } => RefreshActionView::Compare {
                datamine: datamine@,
                proto: proto@,
            },
            RefreshAction::ParseNames(body) => RefreshActionView::ParseNames(body@),
            RefreshAction::ReadCache => RefreshActionView::ReadCache,
            RefreshAction::Build { version, characters, weapons, equipment } =>
                RefreshActionView::Build {
                version: version@,
                characters: characters@,
                weapons: weapons@,
                equipment: equipment@,
            },
            RefreshAction::Finish(report) => RefreshActionView::Finish(report@),
            RefreshAction::Fail(error) => RefreshActionView::Fail(error@),
        }
    }
}

/// How it went.
#[derive(Debug)]
pub enum RefreshEvent {
    /// It is done.
    Done,
    /// The text that was asked for.
    Text(String),
    /// The version of the names at hand, if there are any.
    Cached(Option<String>),
    /// Why `datamine.json` and `nap.json` must not be replaced, if they must not.
    Compared { datamine: Option<Vec<String>>, proto: Option<Vec<String>> },
    /// It did not work.
    Failed(DataError),
}

/// What a [`RefreshEvent`] says.
pub enum RefreshEventView {
    Done,
    Text(Seq<char>),
    Cached(Option<Seq<char>>),
    Compared { datamine: Option<Seq<Seq<char>>>, proto: Option<Seq<Seq<char>>> },
    Failed(DataErrorView),
}

impl View for RefreshEvent {
    type V = RefreshEventView;

    open spec fn view(&self) -> RefreshEventView {
        match *self {
            RefreshEvent::Done => RefreshEventView::Done,
            RefreshEvent::Text(text) => RefreshEventView::Text(text@),
            RefreshEvent::Cached(version) => RefreshEventView::Cached(
                crate::json::value_text(version),
            ),
            RefreshEvent::Compared { datamine, proto } => RefreshEventView::Compared {
                datamine: gamedata::keys_view(datamine),
                proto: gamedata::keys_view(proto),
            },
            RefreshEvent::Failed(error) => RefreshEventView::Failed(error@),
        }
    }
}

/// The state of a [`Refresh`].
pub struct RefreshView {
    pub phase: Phase,
    pub report: ReportView,
    pub version: Version,
    pub manifest: Seq<char>,
    pub datamine: Seq<char>,
    pub proto: Seq<char>,
    pub live: Seq<char>,
    pub characters: Seq<char>,
    pub equipment: Seq<char>,
}

/// Before the first step.
pub open spec fn not_begun() -> RefreshView {
    RefreshView {
        phase: Phase::Directory,
        report: empty_report(),
        version: version::zero(),
        manifest: Seq::empty(),
        datamine: Seq::empty(),
        proto: Seq::empty(),
        live: Seq::empty(),
        characters: Seq::empty(),
        equipment: Seq::empty(),
    }
}

/// A file was replaced.
pub open spec fn with_updated(report: ReportView, file: DataFile) -> ReportView {
    ReportView { updated_files: report.updated_files.push(file), ..report }
}

/// What is kept of the two files that belong together, and why.
pub open spec fn kept_of(datamine: Option<Seq<Seq<char>>>, proto: Option<Seq<Seq<char>>>) -> Seq<
    (DataFile, Seq<Seq<char>>),
> {
    let first = match datamine {
        Some(reasons) => seq![(DATAMINE_FILE, reasons)],
        None => Seq::empty(),
    };
    match proto {
        Some(reasons) => first.push((PROTO_FILE, reasons)),
        None => first,
    }
}

/// What is held back of the two files that belong together: the one that is usable, where
/// the other is not.
pub open spec fn held_of(datamine: Option<Seq<Seq<char>>>, proto: Option<Seq<Seq<char>>>) -> Seq<
    DataFile,
> {
    if datamine is Some && proto is None {
        seq![PROTO_FILE]
    } else if datamine is None && proto is Some {
        seq![DATAMINE_FILE]
    } else {
        Seq::empty()
    }
}

/// The refresh is over.
pub open spec fn finished(s: RefreshView, live: Option<Seq<char>>) -> (RefreshView, RefreshActionView) {
    let report = ReportView { version: Some(s.version), nanoka_version: live, ..s.report };
    (
        RefreshView { phase: Phase::Over, report, ..s },
        RefreshActionView::Finish(report),
    )
}

/// The refresh has failed.
pub open spec fn failed(s: RefreshView, error: DataErrorView) -> (RefreshView, RefreshActionView) {
    (RefreshView { phase: Phase::Over, ..s }, RefreshActionView::Fail(error))
}

/// A download of names that holds nothing.
pub open spec fn blank_failure(url: Seq<char>) -> DataErrorView {
    DataErrorView::Fetch("empty response from "@ + url)
}

/// The refresh was told something that it does not wait for.
pub open spec fn unasked() -> DataErrorView {
    DataErrorView::Invalid("the refresh was told something it did not ask for"@)
}

pub open spec fn is_blank(body: Seq<char>) -> bool {
    text::trimmed(body).len() == 0
}

/// One step: what was waited for has come.
pub open spec fn stepped(s: RefreshView, event: RefreshEventView) -> (RefreshView, RefreshActionView) {
    match (s.phase, event) {
        (_, RefreshEventView::Failed(error)) => failed(s, error),
        (Phase::Directory, RefreshEventView::Done) => (
            RefreshView { phase: Phase::Manifest, ..s },
            RefreshActionView::Fetch(gamedata::file_url(MANIFEST_FILE)),
        ),
        (Phase::Manifest, RefreshEventView::Text(body)) => (
            RefreshView { phase: Phase::ManifestVersion, manifest: body, ..s },
            RefreshActionView::ParseManifest(body),
        ),
        (Phase::ManifestVersion, RefreshEventView::Text(text)) => (
            RefreshView {
                phase: Phase::ManifestWritten,
                version: version::parsed(text),
                ..s
            },
            RefreshActionView::Write { file: MANIFEST_FILE, body: s.manifest },
        ),
        (Phase::ManifestWritten, RefreshEventView::Done) => (
            RefreshView {
                phase: Phase::Datamine,
                report: with_updated(s.report, MANIFEST_FILE),
                ..s
            },
            RefreshActionView::Fetch(gamedata::file_url(DATAMINE_FILE)),
        ),
        (Phase::Datamine, RefreshEventView::Text(body)) => (
            RefreshView { phase: Phase::Proto, datamine: body, ..s },
            RefreshActionView::Fetch(gamedata::file_url(PROTO_FILE)),
        ),
        (Phase::Proto, RefreshEventView::Text(body)) => (
            RefreshView { phase: Phase::Comparison, proto: body, ..s },
            RefreshActionView::Compare { datamine: s.datamine, proto: body },
        ),
        (Phase::Comparison, RefreshEventView::Compared { datamine, proto }) => if datamine is None
            && proto is None {
            (
                RefreshView { phase: Phase::DatamineWritten, ..s },
                RefreshActionView::Write { file: DATAMINE_FILE, body: s.datamine },
            )
        } else {
            (
                RefreshView {
                    phase: Phase::Names,
                    report: ReportView {
                        kept_local: kept_of(datamine, proto),
                        held_back: held_of(datamine, proto),
                        ..s.report
                    },
                    ..s
                },
                RefreshActionView::Fetch(nanoka::manifest_url_text()),
            )
        },
        (Phase::DatamineWritten, RefreshEventView::Done) => (
            RefreshView {
                phase: Phase::ProtoWritten,
                report: with_updated(s.report, DATAMINE_FILE),
                ..s
            },
            RefreshActionView::Write { file: PROTO_FILE, body: s.proto },
        ),
        (Phase::ProtoWritten, RefreshEventView::Done) => (
            RefreshView {
                phase: Phase::Names,
                report: with_updated(s.report, PROTO_FILE),
                ..s
            },
            RefreshActionView::Fetch(nanoka::manifest_url_text()),
        ),
        (Phase::Names, RefreshEventView::Text(body)) => (
            RefreshView { phase: Phase::Live, ..s },
            RefreshActionView::ParseNames(body),
        ),
        (Phase::Live, RefreshEventView::Text(live)) => if live.len() == 0 {
            finished(s, None)
        } else {
            (RefreshView { phase: Phase::Cached, live, ..s }, RefreshActionView::ReadCache)
        },
        (Phase::Cached, RefreshEventView::Cached(cached)) => if cached == Some(s.live) {
            finished(s, Some(s.live))
        } else {
            (
                RefreshView { phase: Phase::Characters, ..s },
                RefreshActionView::Fetch(nanoka::table_url(s.live, "character.json"@)),
            )
        },
        (Phase::Characters, RefreshEventView::Text(body)) => if is_blank(body) {
            failed(s, blank_failure(nanoka::table_url(s.live, "character.json"@)))
        } else {
            (
                RefreshView { phase: Phase::Equipment, characters: body, ..s },
                RefreshActionView::Fetch(nanoka::table_url(s.live, "equipment.json"@)),
            )
        },
        (Phase::Equipment, RefreshEventView::Text(body)) => if is_blank(body) {
            failed(s, blank_failure(nanoka::table_url(s.live, "equipment.json"@)))
        } else {
            (
                RefreshView { phase: Phase::Weapons, equipment: body, ..s },
                RefreshActionView::Fetch(nanoka::table_url(s.live, "weapon.json"@)),
            )
        },
        (Phase::Weapons, RefreshEventView::Text(body)) => if is_blank(body) {
            failed(s, blank_failure(nanoka::table_url(s.live, "weapon.json"@)))
        } else {
            (
                RefreshView { phase: Phase::Built, ..s },
                RefreshActionView::Build {
                    version: s.live,
                    characters: s.characters,
                    weapons: body,
                    equipment: s.equipment,
                },
            )
        },
        (Phase::Built, RefreshEventView::Text(body)) => (
            RefreshView { phase: Phase::BuiltWritten, ..s },
            RefreshActionView::Write { file: NANOKA_FILE, body },
        ),
        (Phase::BuiltWritten, RefreshEventView::Done) => finished(
            RefreshView { report: with_updated(s.report, NANOKA_FILE), ..s },
            Some(s.live),
        ),
        _ => failed(s, unasked()),
    }
}

/// A refresh in progress.
pub struct Refresh {
    phase: Phase,
    report: RefreshReport,
    version: Version,
    manifest: String,
    datamine: String,
    proto: String,
    live: String,
    characters: String,
    equipment: String,
}

impl View for Refresh {
    type V = RefreshView;

    closed spec fn view(&self) -> RefreshView {
        RefreshView {
            phase: self.phase,
            report: self.report@,
            version: self.version,
            manifest: self.manifest@,
            datamine: self.datamine@,
            proto: self.proto@,
            live: self.live@,
            characters: self.characters@,
            equipment: self.equipment@,
        }
    }
}

fn blank(body: &str) -> (r: bool)
    ensures
        r == is_blank(body@),
{
    let chars: Vec<char> = text::chars_of(body);
    let (from, to): (usize, usize) = text::trim(chars.as_slice());
    from == to
}

fn empty_response(url: &str) -> (r: DataError)
    ensures
        r@ == blank_failure(url@),
{
    let mut message: String = "empty response from ".to_owned();
    message.push_str(url);
    DataError::Fetch(message)
}

impl Refresh {
    /// A refresh before its first step: the directory for the files is to be made.
    pub fn new() -> (r: (Refresh, RefreshAction))
        ensures
            r.0@ == not_begun(),
            r.1@ == RefreshActionView::CreateDirectory,
    {
        (
            Refresh {
                phase: Phase::Directory,
                report: RefreshReport::default(),
                version: Version::default(),
                manifest: String::new(),
                datamine: String::new(),
                proto: String::new(),
                live: String::new(),
                characters: String::new(),
                equipment: String::new(),
            },
            RefreshAction::CreateDirectory,
        )
    }

    pub fn phase(&self) -> (r: Phase)
        ensures
            r == self@.phase,
    {
        self.phase
    }

    fn fail(&mut self, error: DataError) -> (r: RefreshAction)
        ensures
            (final(self)@, r@) == failed(old(self)@, error@),
            r == RefreshAction::Fail(error),
    {
        self.phase = Phase::Over;
        RefreshAction::Fail(error)
    }

    fn finish(&mut self, live: Option<String>) -> (r: RefreshAction)
        ensures
            (final(self)@, r@) == finished(old(self)@, crate::json::value_text(live)),
    {
        self.phase = Phase::Over;
        self.report.version = Some(self.version);
        self.report.nanoka_version = live;
        RefreshAction::Finish(copy_report(&self.report))
    }

    fn note_updated(&mut self, file: DataFile)
        ensures
            final(self)@ == (RefreshView {
                report: with_updated(old(self)@.report, file),
                ..old(self)@
            }),
    {
        self.report.updated_files.push(file);
    }

    fn note_refusals(&mut self, datamine: Option<Vec<String>>, proto: Option<Vec<String>>)
        ensures
            final(self)@ == (RefreshView {
                report: ReportView {
                    kept_local: kept_of(gamedata::keys_view(datamine), gamedata::keys_view(proto)),
                    held_back: held_of(gamedata::keys_view(datamine), gamedata::keys_view(proto)),
                    ..old(self)@.report
                },
                ..old(self)@
            }),
    {
        let ghost d = gamedata::keys_view(datamine);
        let ghost p = gamedata::keys_view(proto);
        let mut kept: Vec<(DataFile, Vec<String>)> = Vec::new();
        let mut held: Vec<DataFile> = Vec::new();
        if datamine.is_some() && proto.is_none() {
            held.push(PROTO_FILE);
        }
        if datamine.is_none() && proto.is_some() {
            held.push(DATAMINE_FILE);
        }
        assert(held@ =~= held_of(d, p));
        if let Some(reasons) = datamine {
            kept.push((DATAMINE_FILE, reasons));
        }
        if let Some(reasons) = proto {
            kept.push((PROTO_FILE, reasons));
        }
        assert(kept_view(kept@) =~= kept_of(d, p));
        self.report.kept_local = kept;
        self.report.held_back = held;
    }

    /// Takes in how the last action went, and says what to do next.
    pub fn step(&mut self, event: RefreshEvent) -> (r: RefreshAction)
        ensures
            (final(self)@, r@) == stepped(old(self)@, event@),
            event matches RefreshEvent::Failed(error) ==> r == RefreshAction::Fail(error),
    {
        match event {
            RefreshEvent::Failed(error) => self.fail(error),
            RefreshEvent::Done => match self.phase {
                Phase::Directory => {
                    self.phase = Phase::Manifest;
                    RefreshAction::Fetch(gamedata::manifest_url())
                },
                Phase::ManifestWritten => {
                    self.note_updated(MANIFEST_FILE);
                    self.phase = Phase::Datamine;
                    RefreshAction::Fetch(gamedata::datamine_url())
                },
                Phase::DatamineWritten => {
                    self.note_updated(DATAMINE_FILE);
                    self.phase = Phase::ProtoWritten;
                    RefreshAction::Write { file: PROTO_FILE, body: self.proto.clone() }
                },
                Phase::ProtoWritten => {
                    self.note_updated(PROTO_FILE);
                    self.phase = Phase::Names;
                    RefreshAction::Fetch(nanoka::manifest_url())
                },
                Phase::BuiltWritten => {
                    self.note_updated(NANOKA_FILE);
                    let live: String = self.live.clone();
                    self.finish(Some(live))
                },
                _ => self.unexpected(),
            },
            RefreshEvent::Text(text) => self.step_text(text),
            RefreshEvent::Cached(cached) => match self.phase {
                Phase::Cached => {
                    let current: bool = match &cached {
                        Some(version) => text::same(version.as_str(), self.live.as_str()),
                        None => false,
                    };
                    if current {
                        let live: String = self.live.clone();
                        self.finish(Some(live))
                    } else {
                        self.phase = Phase::Characters;
                        RefreshAction::Fetch(nanoka::character_url(self.live.as_str()))
                    }
                },
                _ => self.unexpected(),
            },
            RefreshEvent::Compared { datamine, proto } => match self.phase {
                Phase::Comparison => {
                    if datamine.is_none() && proto.is_none() {
                        self.phase = Phase::DatamineWritten;
                        RefreshAction::Write { file: DATAMINE_FILE, body: self.datamine.clone() }
                    } else {
                        self.note_refusals(datamine, proto);
                        self.phase = Phase::Names;
                        RefreshAction::Fetch(nanoka::manifest_url())
                    }
                },
                _ => self.unexpected(),
            },
        }
    }

    fn unexpected(&mut self) -> (r: RefreshAction)
        ensures
            (final(self)@, r@) == failed(old(self)@, unasked()),
    {
        self.fail(
            DataError::Invalid("the refresh was told something it did not ask for".to_owned()),
        )
    }

    fn step_text(&mut self, text: String) -> (r: RefreshAction)
        ensures
            (final(self)@, r@) == stepped(old(self)@, RefreshEventView::Text(text@)),
    {
        match self.phase {
            Phase::Manifest => {
                self.manifest = text.clone();
                self.phase = Phase::ManifestVersion;
                RefreshAction::ParseManifest(text)
            },
            Phase::ManifestVersion => {
                self.version = Version::parse(text.as_str());
                self.phase = Phase::ManifestWritten;
                RefreshAction::Write { file: MANIFEST_FILE, body: self.manifest.clone() }
            },
            Phase::Datamine => {
                self.datamine = text;
                self.phase = Phase::Proto;
                RefreshAction::Fetch(gamedata::proto_url())
            },
            Phase::Proto => {
                self.proto = text.clone();
                self.phase = Phase::Comparison;
                RefreshAction::Compare { datamine: self.datamine.clone(), proto: text }
            },
            Phase::Names => {
                self.phase = Phase::Live;
                RefreshAction::ParseNames(text)
            },
            Phase::Live => {
                if text::chars_of(text.as_str()).len() == 0 {
                    self.finish(None)
                } else {
                    self.live = text;
                    self.phase = Phase::Cached;
                    RefreshAction::ReadCache
                }
            },
            Phase::Characters => {
                if blank(text.as_str()) {
                    let url: String = nanoka::character_url(self.live.as_str());
                    self.fail(empty_response(url.as_str()))
                } else {
                    self.characters = text;
                    self.phase = Phase::Equipment;
                    RefreshAction::Fetch(nanoka::equipment_url(self.live.as_str()))
                }
            },
            Phase::Equipment => {
                if blank(text.as_str()) {
                    let url: String = nanoka::equipment_url(self.live.as_str());
                    self.fail(empty_response(url.as_str()))
                } else {
                    self.equipment = text;
                    self.phase = Phase::Weapons;
                    RefreshAction::Fetch(nanoka::weapon_url(self.live.as_str()))
                }
            },
            Phase::Weapons => {
                if blank(text.as_str()) {
                    let url: String = nanoka::weapon_url(self.live.as_str());
                    self.fail(empty_response(url.as_str()))
                } else {
                    self.phase = Phase::Built;
                    RefreshAction::Build {
                        version: self.live.clone(),
                        characters: self.characters.clone(),
                        weapons: text,
                        equipment: self.equipment.clone(),
                    }
                }
            },
            Phase::Built => {
                self.phase = Phase::BuiltWritten;
                RefreshAction::Write { file: NANOKA_FILE, body: text }
            },
            _ => self.unexpected(),
        }
    }
}

fn copy_report(report: &RefreshReport) -> (r: RefreshReport)
    ensures
        r@ == report@,
{
    let mut updated_files: Vec<DataFile> = Vec::new();
    let mut i: usize = 0;
    while i < report.updated_files.len()
        invariant
            i <= report.updated_files@.len(),
            updated_files@.len() == i,
            forall|k: int| 0 <= k < i ==> #[trigger] updated_files@[k] == report.updated_files@[k],
        decreases report.updated_files@.len() - i,
    {
        updated_files.push(report.updated_files[i]);
        i = i + 1;
    }
    assert(updated_files@ =~= report.updated_files@);
    let mut held_back: Vec<DataFile> = Vec::new();
    let mut i: usize = 0;
    while i < report.held_back.len()
        invariant
            i <= report.held_back@.len(),
            held_back@.len() == i,
            forall|k: int| 0 <= k < i ==> #[trigger] held_back@[k] == report.held_back@[k],
        decreases report.held_back@.len() - i,
    {
        held_back.push(report.held_back[i]);
        i = i + 1;
    }
    assert(held_back@ =~= report.held_back@);
    let mut kept_local: Vec<(DataFile, Vec<String>)> = Vec::new();
    let mut i: usize = 0;
    while i < report.kept_local.len()
        invariant
            i <= report.kept_local@.len(),
            kept_local@.len() == i,
            forall|k: int|
                0 <= k < i ==> (#[trigger] kept_local@[k]).0 == report.kept_local@[k].0
                    && text::texts(kept_local@[k].1@) == text::texts(report.kept_local@[k].1@),
        decreases report.kept_local@.len() - i,
    {
        kept_local.push(
            (report.kept_local[i].0, text::copy_all(report.kept_local[i].1.as_slice())),
        );
        i = i + 1;
    }
    assert(kept_view(kept_local@) =~= kept_view(report.kept_local@));
    RefreshReport {
        updated_files,
        version: report.version,
        nanoka_version: report.nanoka_version.clone(),
        kept_local,
        held_back,
    }
}

/// The two files that belong together are written together: the first only once both were
/// compared and neither was refused, the second only behind the first.
pub proof fn law_the_pair_moves_together(s: RefreshView, event: RefreshEventView)
    ensures
        match stepped(s, event) {
            (next, RefreshActionView::Write { file, body }) => {
                &&& file == DATAMINE_FILE ==> s.phase == Phase::Comparison && event == (
                RefreshEventView::Compared { datamine: None, proto: None }) && next.phase
                    == Phase::DatamineWritten && body == s.datamine
                &&& file == PROTO_FILE ==> s.phase == Phase::DatamineWritten
                    && event is Done && body == s.proto
            },
            (next, _) => next.phase != Phase::DatamineWritten && next.phase != Phase::ProtoWritten,
        },
{
}

/// A refresh is told one thing after the other: its state, and what it asked for, first of all
/// the directory.
pub open spec fn ran(events: Seq<RefreshEventView>) -> (RefreshView, Seq<RefreshActionView>)
    decreases events.len(),
{
    if events.len() == 0 {
        (not_begun(), seq![RefreshActionView::CreateDirectory])
    } else {
        let (s, actions) = ran(events.drop_last());
        let (next, action) = stepped(s, events.last());
        (next, actions.push(action))
    }
}

/// Whether a file is reported as replaced.
pub open spec fn is_replaced(report: ReportView, file: DataFile) -> bool {
    report.updated_files.contains(file)
}

/// Action `i` asked for `nap.json` to be written, and it has not been told that this is done.
pub open spec fn proto_pending(
    events: Seq<RefreshEventView>,
    actions: Seq<RefreshActionView>,
    i: int,
) -> bool {
    &&& 0 <= i < actions.len()
    &&& actions[i] matches RefreshActionView::Write { file, .. } && file == PROTO_FILE
    &&& i < events.len() ==> !(events[i] is Done)
}

/// The files that are replaced before the pair.
spec fn first_files() -> Seq<DataFile> {
    Seq::empty().push(MANIFEST_FILE)
}

/// With one of the pair.
spec fn half_files() -> Seq<DataFile> {
    first_files().push(DATAMINE_FILE)
}

/// With both of the pair.
spec fn pair_files() -> Seq<DataFile> {
    half_files().push(PROTO_FILE)
}

/// The pair was refused or held back.
spec fn is_refused(report: ReportView) -> bool {
    report.kept_local.len() + report.held_back.len() == 2
}

/// The files that are reported as replaced, by how far a refresh has come.
spec fn on_course(s: RefreshView) -> bool {
    let files = s.report.updated_files;
    match s.phase {
        Phase::Directory | Phase::Manifest | Phase::ManifestVersion | Phase::ManifestWritten => files
            == Seq::<DataFile>::empty(),
        Phase::Datamine | Phase::Proto | Phase::Comparison | Phase::DatamineWritten => files
            == first_files(),
        Phase::ProtoWritten => files == half_files(),
        Phase::Over => {
            ||| files == Seq::<DataFile>::empty()
            ||| files == first_files()
            ||| files == half_files()
            ||| files == pair_files()
            ||| files == first_files().push(NANOKA_FILE)
            ||| files == pair_files().push(NANOKA_FILE)
        },
        _ => files == pair_files() || (files == first_files() && is_refused(s.report)),
    }
}

/// The report of a refresh that has finished.
spec fn ends_well(report: ReportView) -> bool {
    let files = report.updated_files;
    ||| files == pair_files()
    ||| files == pair_files().push(NANOKA_FILE)
    ||| files == first_files() && is_refused(report)
    ||| files == first_files().push(NANOKA_FILE) && is_refused(report)
}

proof fn lemma_files_differ()
    ensures
        half_files() != first_files().push(NANOKA_FILE),
        half_files() != pair_files(),
        half_files() != first_files(),
        half_files() != pair_files().push(NANOKA_FILE),
        half_files() != Seq::<DataFile>::empty(),
{
    assert(half_files()[1] == DATAMINE_FILE);
    assert(first_files().push(NANOKA_FILE)[1] == NANOKA_FILE);
    assert(half_files().len() == 2 && pair_files().len() == 3 && first_files().len() == 1);
    assert(pair_files().push(NANOKA_FILE).len() == 4);
}

proof fn lemma_step_on_course(s: RefreshView, event: RefreshEventView)
    requires
        on_course(s),
    ensures
        ({
            let (next, action) = stepped(s, event);
            &&& on_course(next)
            &&& action matches RefreshActionView::Finish(report) ==> report == next.report
                && ends_well(report)
            &&& action matches RefreshActionView::Write { file, .. } ==> (file == PROTO_FILE)
                == (next.phase == Phase::ProtoWritten)
            &&& next.phase == Phase::ProtoWritten ==> action is Write
            &&& next.report.updated_files == half_files() ==> next.phase == Phase::ProtoWritten || (
            s.report.updated_files == half_files() && (s.phase == Phase::ProtoWritten ==> event !is Done))
        }),
{
    lemma_files_differ();
}

proof fn lemma_on_course(events: Seq<RefreshEventView>)
    ensures
        ({
            let (s, actions) = ran(events);
            &&& actions.len() == events.len() + 1
            &&& on_course(s)
            &&& s.report.updated_files == half_files() ==> exists|i: int|
                #[trigger] proto_pending(events, actions, i)
            &&& s.phase == Phase::ProtoWritten ==> proto_pending(events, actions, events.len() as int)
            &&& actions.last() matches RefreshActionView::Write { file, .. } ==> (file
                == PROTO_FILE) == (s.phase == Phase::ProtoWritten)
            &&& actions.last() matches RefreshActionView::Finish(report) ==> report == s.report
                && ends_well(report)
        }),
    decreases events.len(),
{
    if events.len() == 0 {
        lemma_files_differ();
    } else {
        let init = events.drop_last();
        let event = events.last();
        lemma_on_course(init);
        let (s, before) = ran(init);
        let (next, actions) = ran(events);
        lemma_step_on_course(s, event);
        let last = events.len() as int;
        assert(actions[last] == actions.last());
        if next.phase == Phase::ProtoWritten {
            assert(proto_pending(events, actions, last));
        } else if next.report.updated_files == half_files() {
            let i = choose|i: int| #[trigger] proto_pending(init, before, i);
            assert(before.last() == before[init.len() as int]);
            assert(actions[i] == before[i]);
            if i < init.len() {
                assert(events[i] == init[i]);
            } else {
                assert(events[i] == event);
            }
            assert(proto_pending(events, actions, i));
        }
    }
}

/// The two files that belong together are replaced both or neither, whatever a refresh is
/// told: where it finishes, it reports both as replaced, or none of them and each as refused
/// or held back. `nap.json` is never reported without `datamine.json`, and `datamine.json`
/// without `nap.json` only where writing the latter was asked for and has not succeeded.
pub proof fn law_a_run_replaces_both_or_neither(events: Seq<RefreshEventView>)
    ensures
        ({
            let (s, actions) = ran(events);
            &&& actions.last() matches RefreshActionView::Finish(report) ==> {
                &&& report == s.report
                &&& is_replaced(report, DATAMINE_FILE) == is_replaced(report, PROTO_FILE)
                &&& !is_replaced(report, DATAMINE_FILE) ==> report.kept_local.len()
                    + report.held_back.len() == 2
            }
            &&& is_replaced(s.report, PROTO_FILE) ==> is_replaced(s.report, DATAMINE_FILE)
            &&& is_replaced(s.report, DATAMINE_FILE) && !is_replaced(s.report, PROTO_FILE)
                ==> exists|i: int| #[trigger] proto_pending(events, actions, i)
        }),
{
    lemma_on_course(events);
    lemma_files_hold();
}

proof fn lemma_files_hold()
    ensures
        !half_files().contains(PROTO_FILE),
        !first_files().contains(DATAMINE_FILE),
        !first_files().contains(PROTO_FILE),
        !first_files().push(NANOKA_FILE).contains(DATAMINE_FILE),
        !first_files().push(NANOKA_FILE).contains(PROTO_FILE),
        pair_files().contains(DATAMINE_FILE),
        pair_files().contains(PROTO_FILE),
        pair_files().push(NANOKA_FILE).contains(DATAMINE_FILE),
        pair_files().push(NANOKA_FILE).contains(PROTO_FILE),
{
    assert(pair_files()[1] == DATAMINE_FILE && pair_files()[2] == PROTO_FILE);
    assert(pair_files().push(NANOKA_FILE)[1] == DATAMINE_FILE);
    assert(pair_files().push(NANOKA_FILE)[2] == PROTO_FILE);
}

/// A failure ends a refresh, and what was replaced before stays reported.
pub proof fn law_a_failure_ends_the_refresh(s: RefreshView, error: DataErrorView)
    ensures
        stepped(s, RefreshEventView::Failed(error)).0.phase == Phase::Over,
        stepped(s, RefreshEventView::Failed(error)).1 == RefreshActionView::Fail(error),
        stepped(s, RefreshEventView::Failed(error)).0.report == s.report,
{
}

/// Where one of the two files is refused, each of them is reported: refused, or held back.
pub proof fn law_the_pair_is_accounted_for(
    datamine: Option<Seq<Seq<char>>>,
    proto: Option<Seq<Seq<char>>>,
)
    requires
        datamine is Some || proto is Some,
    ensures
        kept_of(datamine, proto).len() + held_of(datamine, proto).len() == 2,
{
}

/// The events of a refresh in which nothing fails and every file is new: what each download
/// brought.
pub struct Downloads {
    pub manifest: Seq<char>,
    pub version: Seq<char>,
    pub datamine: Seq<char>,
    pub proto: Seq<char>,
    pub names: Seq<char>,
    pub live: Seq<char>,
    pub cached: Option<Seq<char>>,
    pub characters: Seq<char>,
    pub equipment: Seq<char>,
    pub weapons: Seq<char>,
    pub built: Seq<char>,
}

/// What the refresh is told up to the comparison of the pair.
pub open spec fn told_before_the_pair(d: Downloads) -> Seq<RefreshEventView> {
    seq![
        RefreshEventView::Done,
        RefreshEventView::Text(d.manifest),
        RefreshEventView::Text(d.version),
        RefreshEventView::Done,
        RefreshEventView::Text(d.datamine),
        RefreshEventView::Text(d.proto),
    ]
}

/// What it is told of the names.
pub open spec fn told_of_names(d: Downloads) -> Seq<RefreshEventView> {
    seq![
        RefreshEventView::Text(d.names),
        RefreshEventView::Text(d.live),
        RefreshEventView::Cached(d.cached),
        RefreshEventView::Text(d.characters),
        RefreshEventView::Text(d.equipment),
        RefreshEventView::Text(d.weapons),
        RefreshEventView::Text(d.built),
        RefreshEventView::Done,
    ]
}

/// The state behind some events, starting from a state.
pub open spec fn run_from(s: RefreshView, events: Seq<RefreshEventView>) -> (
    RefreshView,
    Seq<RefreshActionView>,
)
    decreases events.len(),
{
    if events.len() == 0 {
        (s, Seq::empty())
    } else {
        let (next, action) = stepped(s, events[0]);
        let (after, actions) = run_from(next, events.skip(1));
        (after, seq![action] + actions)
    }
}

proof fn lemma_run_in_parts(
    s: RefreshView,
    first: Seq<RefreshEventView>,
    then: Seq<RefreshEventView>,
)
    ensures
        run_from(s, first + then).0 == run_from(run_from(s, first).0, then).0,
        run_from(s, first + then).1 == run_from(s, first).1 + run_from(run_from(s, first).0, then).1,
    decreases first.len(),
{
    if first.len() == 0 {
        assert(first + then =~= then);
        assert(run_from(s, first).1 + run_from(s, then).1 =~= run_from(s, then).1);
    } else {
        let (next, action) = stepped(s, first[0]);
        lemma_run_in_parts(next, first.skip(1), then);
        assert((first + then).skip(1) =~= first.skip(1) + then);
        assert((first + then)[0] == first[0]);
        let some = run_from(next, first.skip(1)).1;
        let more = run_from(run_from(s, first).0, then).1;
        assert(seq![action] + (some + more) =~= seq![action] + some + more);
    }
}

/// A refresh makes the directory, fetches the manifest and writes it, then fetches the two files
/// that belong together and has them compared.
pub proof fn law_the_pair_is_fetched_and_compared(d: Downloads)
    ensures
        ({
            let (after, actions) = run_from(not_begun(), told_before_the_pair(d));
            &&& actions.len() == 6
            &&& actions[0] == RefreshActionView::Fetch(gamedata::file_url(MANIFEST_FILE))
            &&& actions[1] == RefreshActionView::ParseManifest(d.manifest)
            &&& actions[2] == (RefreshActionView::Write { file: MANIFEST_FILE, body: d.manifest })
            &&& actions[3] == RefreshActionView::Fetch(gamedata::file_url(DATAMINE_FILE))
            &&& actions[4] == RefreshActionView::Fetch(gamedata::file_url(PROTO_FILE))
            &&& actions[5] == (RefreshActionView::Compare { datamine: d.datamine, proto: d.proto })
            &&& after.phase is Comparison
            &&& after.datamine == d.datamine
            &&& after.proto == d.proto
            &&& after.version == version::parsed(d.version)
            &&& after.report.updated_files == seq![MANIFEST_FILE]
            &&& after.report.kept_local.len() == 0
            &&& after.report.held_back.len() == 0
        }),
{
    reveal_with_fuel(run_from, 7);
    let t0 = told_before_the_pair(d);
    let t1 = t0.skip(1);
    let t2 = t1.skip(1);
    let t3 = t2.skip(1);
    let t4 = t3.skip(1);
    let t5 = t4.skip(1);
    assert(t5.skip(1) =~= Seq::empty());
    assert(t1[0] == t0[1] && t2[0] == t0[2] && t3[0] == t0[3] && t4[0] == t0[4] && t5[0] == t0[5]);
    let (after, _actions) = run_from(not_begun(), t0);
    assert(after.report.updated_files =~= seq![MANIFEST_FILE]);
}

/// Where neither of the pair is refused both are written as they were fetched, the datamine
/// first; where one is, neither is. Either way the names come next.
pub proof fn law_a_usable_pair_is_written(
    s: RefreshView,
    datamine: Option<Seq<Seq<char>>>,
    proto: Option<Seq<Seq<char>>>,
)
    requires
        s.phase is Comparison,
    ensures
        ({
            let (next, first) = stepped(s, RefreshEventView::Compared { datamine, proto });
            let (then, second) = stepped(next, RefreshEventView::Done);
            let (last, third) = stepped(then, RefreshEventView::Done);
            let names = RefreshActionView::Fetch(nanoka::manifest_url_text());
            &&& datamine is None && proto is None ==> {
                &&& first == (RefreshActionView::Write { file: DATAMINE_FILE, body: s.datamine })
                &&& second == (RefreshActionView::Write { file: PROTO_FILE, body: s.proto })
                &&& third == names
                &&& last.phase is Names
                &&& last.report.updated_files == s.report.updated_files.push(DATAMINE_FILE).push(
                    PROTO_FILE,
                )
                &&& last.report.kept_local == s.report.kept_local
            }
            &&& datamine is Some || proto is Some ==> {
                &&& first == names
                &&& next.phase is Names
                &&& next.report.updated_files == s.report.updated_files
                &&& next.report.kept_local.len() == (if datamine is Some {
                    1int
                } else {
                    0
                }) + (if proto is Some {
                    1int
                } else {
                    0
                })
                &&& datamine is Some ==> next.report.kept_local[0] == (
                    DATAMINE_FILE,
                    datamine->Some_0,
                )
                &&& proto is Some ==> next.report.kept_local.last() == (PROTO_FILE, proto->Some_0)
                &&& datamine is None ==> next.report.held_back == seq![DATAMINE_FILE]
                &&& proto is None ==> next.report.held_back == seq![PROTO_FILE]
                &&& datamine is Some && proto is Some ==> next.report.held_back.len() == 0
            }
        }),
{
}

proof fn lemma_first_table(s: RefreshView, d: Downloads)
    requires
        s.phase is Names,
        d.live.len() > 0,
        d.cached != Some(d.live),
        text::trimmed(d.characters).len() > 0,
    ensures
        ({
            let (after, actions) = run_from(s, told_of_names(d).take(4));
            &&& actions.len() == 4
            &&& actions[0] == RefreshActionView::ParseNames(d.names)
            &&& actions[1] == RefreshActionView::ReadCache
            &&& actions[2] == RefreshActionView::Fetch(
                nanoka::table_url(d.live, "character.json"@),
            )
            &&& actions[3] == RefreshActionView::Fetch(
                nanoka::table_url(d.live, "equipment.json"@),
            )
            &&& after == (RefreshView {
                phase: Phase::Equipment,
                live: d.live,
                characters: d.characters,
                ..s
            })
        }),
{
    reveal_with_fuel(run_from, 5);
    let t0 = told_of_names(d).take(4);
    let t1 = t0.skip(1);
    let t2 = t1.skip(1);
    let t3 = t2.skip(1);
    assert(t3.skip(1) =~= Seq::empty());
    assert(t1[0] == t0[1] && t2[0] == t0[2] && t3[0] == t0[3]);
}

proof fn lemma_other_tables(s: RefreshView, d: Downloads)
    requires
        s.phase is Equipment,
        s.live == d.live,
        s.characters == d.characters,
        text::trimmed(d.equipment).len() > 0,
        text::trimmed(d.weapons).len() > 0,
    ensures
        ({
            let (after, actions) = run_from(s, told_of_names(d).skip(4));
            &&& actions.len() == 4
            &&& actions[0] == RefreshActionView::Fetch(nanoka::table_url(d.live, "weapon.json"@))
            &&& actions[1] == (RefreshActionView::Build {
                version: d.live,
                characters: d.characters,
                weapons: d.weapons,
                equipment: d.equipment,
            })
            &&& actions[2] == (RefreshActionView::Write { file: NANOKA_FILE, body: d.built })
            &&& actions[3] == RefreshActionView::Finish(after.report)
            &&& after.report == (ReportView {
                updated_files: s.report.updated_files.push(NANOKA_FILE),
                version: Some(s.version),
                nanoka_version: Some(d.live),
                ..s.report
            })
        }),
{
    reveal_with_fuel(run_from, 5);
    let t0 = told_of_names(d).skip(4);
    let t1 = t0.skip(1);
    let t2 = t1.skip(1);
    let t3 = t2.skip(1);
    assert(t3.skip(1) =~= Seq::empty());
    assert(t1[0] == t0[1] && t2[0] == t0[2] && t3[0] == t0[3]);
}

/// The tables of a new game version are fetched, built into one file and written; the refresh
/// then finishes and reports the version.
pub proof fn law_new_names_are_fetched_and_written(s: RefreshView, d: Downloads)
    requires
        s.phase is Names,
        d.live.len() > 0,
        d.cached != Some(d.live),
        text::trimmed(d.characters).len() > 0,
        text::trimmed(d.equipment).len() > 0,
        text::trimmed(d.weapons).len() > 0,
    ensures
        ({
            let (after, actions) = run_from(s, told_of_names(d));
            &&& actions.len() == 8
            &&& actions[0] == RefreshActionView::ParseNames(d.names)
            &&& actions[1] == RefreshActionView::ReadCache
            &&& actions[2] == RefreshActionView::Fetch(
                nanoka::table_url(d.live, "character.json"@),
            )
            &&& actions[3] == RefreshActionView::Fetch(
                nanoka::table_url(d.live, "equipment.json"@),
            )
            &&& actions[4] == RefreshActionView::Fetch(nanoka::table_url(d.live, "weapon.json"@))
            &&& actions[5] == (RefreshActionView::Build {
                version: d.live,
                characters: d.characters,
                weapons: d.weapons,
                equipment: d.equipment,
            })
            &&& actions[6] == (RefreshActionView::Write { file: NANOKA_FILE, body: d.built })
            &&& actions[7] == RefreshActionView::Finish(after.report)
            &&& after.report.updated_files == s.report.updated_files.push(NANOKA_FILE)
            &&& after.report.version == Some(s.version)
            &&& after.report.nanoka_version == Some(d.live)
            &&& after.report.kept_local == s.report.kept_local
            &&& after.report.held_back == s.report.held_back
        }),
{
    let first = told_of_names(d).take(4);
    let then = told_of_names(d).skip(4);
    assert(first + then =~= told_of_names(d));
    lemma_run_in_parts(s, first, then);
    lemma_first_table(s, d);
    lemma_other_tables(run_from(s, first).0, d);
}

/// Names that are cached already are not fetched again, and where the manifest names no version
/// there is nothing to fetch; an empty table fails the refresh.
pub proof fn law_current_names_are_left_alone(s: RefreshView, body: Seq<char>)
    ensures
        s.phase is Cached ==> stepped(s, RefreshEventView::Cached(Some(s.live))).1 is Finish,
        s.phase is Cached ==> stepped(s, RefreshEventView::Cached(None)).1
            == RefreshActionView::Fetch(nanoka::table_url(s.live, "character.json"@)),
        s.phase is Live ==> stepped(s, RefreshEventView::Text(Seq::empty())).1 is Finish,
        s.phase is Live ==> stepped(
            s,
            RefreshEventView::Text(Seq::empty()),
        ).0.report.nanoka_version is None,
        (s.phase is Characters || s.phase is Equipment || s.phase is Weapons) && text::trimmed(
            body,
        ).len() == 0 ==> stepped(s, RefreshEventView::Text(body)).1 is Fail,
{
}

} // verus!
