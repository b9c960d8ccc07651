//! The data files: where they are published, when a published copy may replace the local
//! one, and in which order a refresh goes about it.
//!
//! `datamine.json` and `nap.json` are made together for a game version, so they are replaced
//! together or not at all. A published copy that lacks something the local one has is
//! refused: its version need not tell that it is older.
use crate::datamine::Datamine;
use crate::nanoka;
use crate::nanoka::NanokaData;
use crate::protonap;
use crate::protonap::{ProtoEntry, ProtoEntryView, Protonap};
use crate::text;
use crate::version;
use crate::version::Version;
use vstd::prelude::*;

verus! {

/// The files that the data lies in.
#[derive(Debug, Clone, Copy, PartialEq, Eq, Structural)]
pub enum DataFile {
    /// The version of the files.
    Manifest,
    /// Command and field numbers.
    Datamine,
    /// The descriptors.
    Proto,
    /// The names.
    Nanoka,
}

pub const MANIFEST_FILE: DataFile = DataFile::Manifest;

pub const DATAMINE_FILE: DataFile = DataFile::Datamine;

pub const PROTO_FILE: DataFile = DataFile::Proto;

pub const NANOKA_FILE: DataFile = DataFile::Nanoka;

impl DataFile {
    /// The file's name without its extension.
    pub open spec fn stem(self) -> Seq<char> {
        match self {
            DataFile::Manifest => "manifest"@,
            DataFile::Datamine => "datamine"@,
            DataFile::Proto => "nap"@,
            DataFile::Nanoka => "nanokaData"@,
        }
    }

    /// The file's name.
    pub open spec fn file_name(self) -> Seq<char> {
        self.stem() + ".json"@
    }

    pub fn name(self) -> (r: String)
        ensures
            r@ == self.file_name(),
    {
        let mut out: String = match self {
            DataFile::Manifest => "manifest".to_owned(),
            DataFile::Datamine => "datamine".to_owned(),
            DataFile::Proto => "nap".to_owned(),
            DataFile::Nanoka => "nanokaData".to_owned(),
        };
        out.push_str(".json");
        out
    }
}

/// Where a data file is published.
pub open spec fn file_url(file: DataFile) -> Seq<char> {
    "https://raw.githubusercontent.com/pingwinekZ/zzz_packet_capture_0delay/refs/heads/master/assets/"@
        + file.file_name()
}

fn url_of(file: DataFile) -> (r: String)
    ensures
        r@ == file_url(file),
{
    let mut out: String =
        "https://raw.githubusercontent.com/pingwinekZ/zzz_packet_capture_0delay/refs/heads/master/assets/".to_owned();
    out.push_str(file.name().as_str());
    out
}

pub fn manifest_url() -> (r: String)
    ensures
        r@ == file_url(MANIFEST_FILE),
{
    url_of(MANIFEST_FILE)
}

pub fn datamine_url() -> (r: String)
    ensures
        r@ == file_url(DATAMINE_FILE),
{
    url_of(DATAMINE_FILE)
}

pub fn proto_url() -> (r: String)
    ensures
        r@ == file_url(PROTO_FILE),
{
    url_of(PROTO_FILE)
}

/// The manifest of the data files.
#[derive(Debug, Clone, PartialEq, Eq)]
pub struct Manifest {
    pub version: String,
}

/// What goes wrong with data files.
#[derive(Debug)]
pub enum DataError {
    /// A file cannot be read or written.
    Io { path: String, error: String },
    /// A text is not what it should be.
    Json { path: Option<String>, error: String },
    /// A download failed.
    Fetch(String),
    Invalid(String),
}

/// What a [`DataError`] holds.
pub enum DataErrorView {
    Io { path: Seq<char>, error: Seq<char> },
    Json { path: Option<Seq<char>>, error: Seq<char> },
    Fetch(Seq<char>),
    Invalid(Seq<char>),
}

impl View for DataError {
    type V = DataErrorView;

    open spec fn view(&self) -> DataErrorView {
        match *self {
            DataError::Io { path, error } => DataErrorView::Io { path: path@, error: error@ },
            DataError::Json { path: Some(path), error } => DataErrorView::Json {
                path: Some(path@),
                error: error@,
            },
            DataError::Json { path: None, error } => DataErrorView::Json {
                path: None,
                error: error@,
            },
            DataError::Fetch(message) => DataErrorView::Fetch(message@),
            DataError::Invalid(message) => DataErrorView::Invalid(message@),
        }
    }
}

impl DataErrorView {
    /// What went wrong, in words.
    pub open spec fn text(self) -> Seq<char> {
        match self {
            DataErrorView::Io { path, error } => path + ": "@ + error,
            DataErrorView::Json { path: Some(path), error } => path + ": "@ + error,
            DataErrorView::Json { path: None, error } => error,
            DataErrorView::Fetch(message) => message,
            DataErrorView::Invalid(message) => message,
        }
    }
}

impl DataError {
    pub fn to_string(&self) -> (r: String)
        ensures
            r@ == self@.text(),
    {
        match self {
            DataError::Io { path, error } => {
                let mut out: String = path.clone();
                out.push_str(": ");
                out.push_str(error.as_str());
                out
            },
            DataError::Json { path: Some(path), error } => {
                let mut out: String = path.clone();
                out.push_str(": ");
                out.push_str(error.as_str());
                out
            },
            DataError::Json { path: None, error } => error.clone(),
            DataError::Fetch(message) => message.clone(),
            DataError::Invalid(message) => message.clone(),
        }
    }
}

/// Everything that decoding and exporting needs.
#[derive(Debug)]
pub struct GameData {
    pub datamine: Datamine,
    pub proto_entries: Vec<ProtoEntry>,
    pub nap: Protonap,
    pub nanoka: NanokaData,
}

impl GameData {
    /// Puts the data together, and indexes the descriptors.
    pub fn new(datamine: Datamine, entries: Vec<ProtoEntry>, nanoka: NanokaData) -> (r: GameData)
        ensures
            r.datamine == datamine,
            protonap::entries_view(r.proto_entries@) == protonap::entries_view(entries@),
            r.nap@ == protonap::indexed(protonap::entries_view(entries@)),
            r.nanoka == nanoka,
    {
        let mut copies: Vec<ProtoEntry> = Vec::new();
        let mut i: usize = 0;
        while i < entries.len()
            invariant
                i <= entries@.len(),
                copies@.len() == i,
                forall|k: int| 0 <= k < i ==> (#[trigger] copies@[k])@ == entries@[k]@,
            decreases entries@.len() - i,
        {
            copies.push(entries[i].clone());
            i = i + 1;
        }
        assert(protonap::entries_view(copies@) =~= protonap::entries_view(entries@));
        GameData { datamine, proto_entries: copies, nap: Protonap::new(entries), nanoka }
    }

    pub fn seed_for_region(&self, region: &str) -> (r: Option<u64>)
        ensures
            r == crate::datamine::region_seed(
                crate::datamine::seeds_view(self.datamine.xor_seeds@),
                region@,
            ),
    {
        self.datamine.seed_for_region(region)
    }

    pub fn region_for_seed(&self, seed: u64) -> (r: Option<&str>)
        ensures
            nanoka::name_text(r) == crate::datamine::seed_region(
                crate::datamine::seeds_view(self.datamine.xor_seeds@),
                seed,
            ),
    {
        self.datamine.region_for_seed(seed)
    }
}

/// Whether the published files are newer than the local ones. Without a local manifest the
/// local version is 0.0.0.
pub fn update_available(local: Option<&str>, published: &str) -> (r: bool)
    ensures
        r == version::older(
            match local {
                Some(text) => version::parsed(text@),
                None => version::zero(),
            },
            version::parsed(published@),
        ),
{
    let local: Version = match local {
        Some(text) => Version::parse(text),
        None => Version::default(),
    };
    local < Version::parse(published)
}

/// The keys of the JSON object that a text is, in the order the parser gives them; none where
/// the text is no JSON object.
pub uninterp spec fn json_keys(json: Seq<char>) -> Option<Seq<Seq<char>>>;

/// The keys as texts.
pub open spec fn keys_view(keys: Option<Vec<String>>) -> Option<Seq<Seq<char>>> {
    match keys {
        Some(keys) => Some(text::texts(keys@)),
        None => None,
    }
}

/// `serde_json::from_str` to a `serde_json::Value`, and the keys of its top-level object. What
/// counts as JSON, and in which order the keys come, is not stated.
#[verifier::external_body]
fn object_keys(json: &str) -> (r: Option<Vec<String>>)
    ensures
        keys_view(r) == json_keys(json@),
{
    match serde_json::from_str::<serde_json::Value>(json) {
        Ok(serde_json::Value::Object(map)) => Some(map.keys().cloned().collect()),
        _ => None,
    }
}

/// What stands in one list and not in another.
pub open spec fn missing(local: Seq<Seq<char>>, published: Seq<Seq<char>>) -> Seq<Seq<char>>
    decreases local.len(),
{
    if local.len() == 0 {
        Seq::empty()
    } else {
        let rest = missing(local.drop_last(), published);
        if published.contains(local.last()) {
            rest
        } else {
            rest.push(local.last())
        }
    }
}

/// What a published copy would drop; none where nothing, or where there is nothing to compare.
pub open spec fn dropped(local: Option<Seq<Seq<char>>>, published: Option<Seq<Seq<char>>>) -> Option<
    Seq<Seq<char>>,
> {
    match (local, published) {
        (Some(local), Some(published)) => {
            let lost = missing(local, published);
            if lost.len() == 0 {
                None
            } else {
                Some(lost)
            }
        },
        _ => None,
    }
}

fn listed(names: &Vec<String>, name: &String) -> (r: bool)
    ensures
        r == text::texts(names@).contains(name@),
{
    let ghost all = text::texts(names@);
    let mut i: usize = 0;
    while i < names.len()
        invariant
            i <= names@.len(),
            all == text::texts(names@),
            forall|k: int| 0 <= k < i ==> #[trigger] all[k] != name@,
        decreases names@.len() - i,
    {
        assert(all[i as int] == names@[i as int]@);
        if text::same(names[i].as_str(), name.as_str()) {
            return true;
        }
        i = i + 1;
    }
    assert(!all.contains(name@));
    false
}

/// What a published list lacks of a local one.
pub fn lost(local: &Option<Vec<String>>, published: &Option<Vec<String>>) -> (r: Option<
    Vec<String>,
>)
    ensures
        keys_view(r) == dropped(keys_view(*local), keys_view(*published)),
{
    let (local, published) = match (local, published) {
        (Some(local), Some(published)) => (local, published),
        _ => {
            return None;
        },
    };
    let ghost names = text::texts(local@);
    let ghost there = text::texts(published@);
    let mut out: Vec<String> = Vec::new();
    let mut i: usize = 0;
    assert(names.take(0) =~= Seq::empty());
    assert(text::texts(out@) =~= Seq::empty());
    while i < local.len()
        invariant
            i <= local@.len(),
            names == text::texts(local@),
            there == text::texts(published@),
            text::texts(out@) == missing(names.take(i as int), there),
        decreases local@.len() - i,
    {
        assert(names[i as int] == local@[i as int]@);
        assert(names.take(i + 1).drop_last() =~= names.take(i as int));
        assert(names.take(i + 1).last() == names[i as int]);
        if !listed(published, &local[i]) {
            let ghost before = out@;
            out.push(local[i].clone());
            assert(text::texts(out@) =~= text::texts(before).push(names[i as int]));
        }
        i = i + 1;
    }
    assert(names.take(i as int) =~= names);
    assert(text::texts(out@).len() == out@.len());
    if out.len() == 0 {
        None
    } else {
        Some(out)
    }
}

/// The top-level keys that a published text lacks of a local one.
pub fn dropped_keys(local: &str, published: &str) -> (r: Option<Vec<String>>)
    ensures
        keys_view(r) == dropped(json_keys(local@), json_keys(published@)),
{
    let local: Option<Vec<String>> = object_keys(local);
    let published: Option<Vec<String>> = object_keys(published);
    lost(&local, &published)
}

/// A name goes to its place among names in order; one that is there stays.
pub open spec fn with_name(names: Seq<Seq<char>>, name: Seq<char>) -> Seq<Seq<char>>
    decreases names.len(),
{
    if names.len() == 0 {
        seq![name]
    } else if names.last() == name {
        names
    } else if text::before(names.last(), name) {
        names.push(name)
    } else {
        with_name(names.drop_last(), name).push(names.last())
    }
}

/// The names of some entries, in order, each once.
pub open spec fn sorted_names(entries: Seq<ProtoEntryView>) -> Seq<Seq<char>>
    decreases entries.len(),
{
    if entries.len() == 0 {
        Seq::empty()
    } else {
        with_name(sorted_names(entries.drop_last()), entries.last().name)
    }
}

/// The names of some entries.
pub open spec fn names_of(entries: Seq<ProtoEntryView>) -> Seq<Seq<char>> {
    entries.map_values(|e: ProtoEntryView| e.name)
}

/// Puts a name in its place.
fn insert_name(names: &mut Vec<String>, name: &String)
    ensures
        text::texts(final(names)@) == with_name(text::texts(old(names)@), name@),
{
    let ghost all = text::texts(names@);
    let mut i: usize = names.len();
    assert(all.take(i as int) =~= all);
    assert(all.skip(i as int) =~= Seq::empty());
    assert(with_name(all.take(i as int), name@) + all.skip(i as int) =~= with_name(all, name@));
    while i > 0
        invariant
            i <= names@.len(),
            all == text::texts(names@),
            *names == *old(names),
            with_name(all.take(i as int), name@) + all.skip(i as int) == with_name(all, name@),
        decreases i,
    {
        let ghost front = all.take(i as int);
        assert(all[i - 1] == names@[i - 1]@);
        assert(front.last() == all[i - 1]);
        if text::same(names[i - 1].as_str(), name.as_str()) {
            assert(front + all.skip(i as int) =~= all);
            return;
        }
        if text::is_before(names[i - 1].as_str(), name.as_str()) {
            assert(front.push(name@) + all.skip(i as int) =~= all.insert(i as int, name@));
            names.insert(i, name.clone());
            assert(text::texts(names@) =~= all.insert(i as int, name@));
            return;
        }
        assert(front.drop_last() =~= all.take(i - 1));
        assert(with_name(all.take(i - 1), name@).push(all[i - 1]) + all.skip(i as int) =~= with_name(
            all.take(i - 1),
            name@,
        ) + all.skip(i - 1));
        i = i - 1;
    }
    assert(all.take(0) =~= Seq::empty());
    assert(seq![name@] + all.skip(0) =~= all.insert(0, name@));
    names.insert(0, name.clone());
    assert(text::texts(names@) =~= all.insert(0, name@));
}

/// The entries that a list stands for, if it could be read.
pub open spec fn list_view(entries: Option<&Vec<ProtoEntry>>) -> Option<Seq<ProtoEntryView>> {
    match entries {
        Some(entries) => Some(protonap::entries_view(entries@)),
        None => None,
    }
}

/// The names that published descriptors lack of local ones.
pub open spec fn dropped_names(
    local: Option<Seq<ProtoEntryView>>,
    published: Option<Seq<ProtoEntryView>>,
) -> Option<Seq<Seq<char>>> {
    match (local, published) {
        (Some(local), Some(published)) => dropped(
            Some(sorted_names(local)),
            Some(names_of(published)),
        ),
        _ => None,
    }
}

/// The descriptors that a published list lacks of a local one, in the order of their names.
/// A missing descriptor would leave its fields as garbage.
pub fn dropped_nap_entries(local: Option<&Vec<ProtoEntry>>, published: Option<&Vec<ProtoEntry>>) -> (r:
    Option<Vec<String>>)
    ensures
        keys_view(r) == dropped_names(list_view(local), list_view(published)),
{
    let (local, published) = match (local, published) {
        (Some(local), Some(published)) => (local, published),
        _ => {
            return None;
        },
    };
    let ghost ours = protonap::entries_view(local@);
    let ghost theirs = protonap::entries_view(published@);
    let mut names: Vec<String> = Vec::new();
    let mut i: usize = 0;
    assert(ours.take(0) =~= Seq::empty());
    assert(text::texts(names@) =~= Seq::empty());
    while i < local.len()
        invariant
            i <= local@.len(),
            ours == protonap::entries_view(local@),
            text::texts(names@) == sorted_names(ours.take(i as int)),
        decreases local@.len() - i,
    {
        assert(ours[i as int] == local@[i as int]@);
        assert(ours.take(i + 1).drop_last() =~= ours.take(i as int));
        assert(ours.take(i + 1).last() == ours[i as int]);
        insert_name(&mut names, &local[i].name);
        i = i + 1;
    }
    assert(ours.take(i as int) =~= ours);
    let mut there: Vec<String> = Vec::new();
    let mut i: usize = 0;
    while i < published.len()
        invariant
            i <= published@.len(),
            there@.len() == i,
            forall|k: int| 0 <= k < i ==> (#[trigger] there@[k])@ == published@[k].name@,
        decreases published@.len() - i,
    {
        there.push(published[i].name.clone());
        i = i + 1;
    }
    assert(text::texts(there@) =~= names_of(theirs));
    let names: Option<Vec<String>> = Some(names);
    let there: Option<Vec<String>> = Some(there);
    lost(&names, &there)
}

/// Each name between `prefix` and a closing quote.
pub open spec fn reasons(names: Seq<Seq<char>>, prefix: Seq<char>) -> Seq<Seq<char>> {
    names.map_values(|n: Seq<char>| prefix + n + "`"@)
}

/// Why a published copy must not replace the local one: it drops something, or this build
/// cannot read it.
pub open spec fn refusal(
    lost: Option<Seq<Seq<char>>>,
    prefix: Seq<char>,
    unreadable: Option<Seq<char>>,
) -> Option<Seq<Seq<char>>> {
    match lost {
        Some(names) => Some(reasons(names, prefix)),
        None => match unreadable {
            Some(error) => Some(seq!["this build cannot parse it: "@ + error]),
            None => None,
        },
    }
}

fn refusal_of(lost: Option<Vec<String>>, prefix: &str, unreadable: Option<&str>) -> (r: Option<
    Vec<String>,
>)
    ensures
        keys_view(r) == refusal(keys_view(lost), prefix@, nanoka::name_text(unreadable)),
{
    let mut out: Vec<String> = Vec::new();
    match lost {
        Some(names) => {
            let ghost all = text::texts(names@);
            let mut i: usize = 0;
            while i < names.len()
                invariant
                    i <= names@.len(),
                    out@.len() == i,
                    forall|k: int|
                        0 <= k < i ==> (#[trigger] out@[k])@ == prefix@ + names@[k]@ + "`"@,
                decreases names@.len() - i,
            {
                let mut reason: String = prefix.to_owned();
                reason.push_str(names[i].as_str());
                reason.push_str("`");
                out.push(reason);
                i = i + 1;
            }
            assert(text::texts(out@) =~= reasons(all, prefix@));
            Some(out)
        },
        None => match unreadable {
            Some(error) => {
                let mut reason: String = "this build cannot parse it: ".to_owned();
                reason.push_str(error);
                out.push(reason);
                assert(text::texts(out@) =~= seq!["this build cannot parse it: "@ + error@]);
                Some(out)
            },
            None => None,
        },
    }
}

/// Why a published `datamine.json` must not replace the local one. `unreadable` says why
/// this build cannot read it, if it cannot.
pub fn datamine_refusal(local: &str, published: &str, unreadable: Option<&str>) -> (r: Option<
    Vec<String>,
>)
    ensures
        keys_view(r) == refusal(
            dropped(json_keys(local@), json_keys(published@)),
            "drops `"@,
            nanoka::name_text(unreadable),
        ),
{
    refusal_of(dropped_keys(local, published), "drops `", unreadable)
}

/// Why a published `nap.json` must not replace the local one.
pub fn nap_refusal(
    local: Option<&Vec<ProtoEntry>>,
    published: Option<&Vec<ProtoEntry>>,
    unreadable: Option<&str>,
) -> (r: Option<Vec<String>>)
    ensures
        keys_view(r) == refusal(
            dropped_names(list_view(local), list_view(published)),
            "drops descriptor `"@,
            nanoka::name_text(unreadable),
        ),
{
    refusal_of(dropped_nap_entries(local, published), "drops descriptor `", unreadable)
}

proof fn lemma_missing(local: Seq<Seq<char>>, published: Seq<Seq<char>>, name: Seq<char>)
    ensures
        missing(local, published).contains(name) <==> local.contains(name) && !published.contains(
            name,
        ),
    decreases local.len(),
{
    if local.len() > 0 {
        let init = local.drop_last();
        let rest = missing(init, published);
        lemma_missing(init, published, name);
        assert(local.contains(name) <==> init.contains(name) || local.last() == name) by {
            if local.contains(name) {
                let i = choose|i: int| 0 <= i < local.len() && local[i] == name;
                if i < init.len() {
                    assert(init[i] == name);
                }
            }
            if init.contains(name) {
                let i = choose|i: int| 0 <= i < init.len() && init[i] == name;
                assert(local[i] == name);
            }
            assert(local[local.len() - 1] == local.last());
        }
        if !published.contains(local.last()) {
            let grown = rest.push(local.last());
            assert(grown.contains(name) <==> rest.contains(name) || local.last() == name) by {
                if grown.contains(name) {
                    let i = choose|i: int| 0 <= i < grown.len() && grown[i] == name;
                    if i < rest.len() {
                        assert(rest[i] == name);
                    }
                }
                if rest.contains(name) {
                    let i = choose|i: int| 0 <= i < rest.len() && rest[i] == name;
                    assert(grown[i] == name);
                }
                assert(grown[rest.len() as int] == local.last());
            }
        }
    }
}

/// A published copy is refused for exactly the names that it lacks; one that only adds names
/// is not refused.
pub proof fn law_only_losses_are_refused(
    local: Seq<Seq<char>>,
    published: Seq<Seq<char>>,
    name: Seq<char>,
)
    ensures
        dropped(Some(local), Some(published)) is None <==> forall|n: Seq<char>|
            local.contains(n) ==> #[trigger] published.contains(n),
        dropped(Some(local), Some(published)) is Some ==> (dropped(
            Some(local),
            Some(published),
        )->Some_0.contains(name) <==> local.contains(name) && !published.contains(name)),
{
    let lost = missing(local, published);
    lemma_missing(local, published, name);
    if lost.len() == 0 {
        assert forall|n: Seq<char>| local.contains(n) implies #[trigger] published.contains(n) by {
            lemma_missing(local, published, n);
        }
    } else {
        lemma_missing(local, published, lost[0]);
        assert(lost.contains(lost[0]));
    }
}

/// Names in order, each before the next.
pub open spec fn in_order(names: Seq<Seq<char>>) -> bool {
    forall|i: int, j: int|
        0 <= i < j < names.len() ==> text::before(#[trigger] names[i], #[trigger] names[j])
}

proof fn lemma_with_name(names: Seq<Seq<char>>, name: Seq<char>)
    requires
        in_order(names),
    ensures
        in_order(with_name(names, name)),
        forall|n: Seq<char>| #[trigger]
            with_name(names, name).contains(n) <==> names.contains(n) || n == name,
    decreases names.len(),
{
    let r = with_name(names, name);
    if names.len() == 0 {
        assert(r[0] == name);
        assert forall|n: Seq<char>| #[trigger] r.contains(n) <==> names.contains(n) || n == name by {
            if n == name {
                assert(r[0] == n);
            }
        }
    } else if names.last() == name {
        assert(names[names.len() - 1] == name);
    } else if text::before(names.last(), name) {
        assert forall|i: int, j: int| 0 <= i < j < r.len() implies text::before(
            #[trigger] r[i],
            #[trigger] r[j],
        ) by {
            if j == names.len() && i < names.len() - 1 {
                assert(text::before(names[i], names[names.len() - 1]));
                text::lemma_before_transitive(names[i], names.last(), name);
            }
        }
        assert forall|n: Seq<char>| #[trigger] r.contains(n) <==> names.contains(n) || n == name by {
            if names.contains(n) {
                let i = choose|i: int| 0 <= i < names.len() && names[i] == n;
                assert(r[i] == n);
            }
            assert(r[names.len() as int] == name);
        }
    } else {
        let init = names.drop_last();
        let front = with_name(init, name);
        let last = names.last();
        assert forall|i: int, j: int| 0 <= i < j < init.len() implies text::before(
            #[trigger] init[i],
            #[trigger] init[j],
        ) by {
            assert(text::before(names[i], names[j]));
        }
        lemma_with_name(init, name);
        text::lemma_before_total(last, name);
        assert(r == front.push(last));
        assert forall|i: int, j: int| 0 <= i < j < r.len() implies text::before(
            #[trigger] r[i],
            #[trigger] r[j],
        ) by {
            if j == front.len() {
                assert(front.contains(front[i]));
                if front[i] != name {
                    assert(init.contains(front[i]));
                    let k = choose|k: int| 0 <= k < init.len() && init[k] == front[i];
                    assert(text::before(names[k], names[names.len() - 1]));
                }
            } else {
                assert(text::before(front[i], front[j]));
            }
        }
        assert forall|n: Seq<char>| #[trigger] r.contains(n) <==> names.contains(n) || n == name by {
            if r.contains(n) {
                let i = choose|i: int| 0 <= i < r.len() && r[i] == n;
                if i < front.len() {
                    assert(front.contains(n)) by {
                        assert(front[i] == n);
                    }
                    if n != name {
                        assert(init.contains(n));
                        let k = choose|k: int| 0 <= k < init.len() && init[k] == n;
                        assert(names[k] == n);
                    }
                } else {
                    assert(names[names.len() - 1] == n);
                }
            }
            if names.contains(n) {
                let k = choose|k: int| 0 <= k < names.len() && names[k] == n;
                if k < init.len() {
                    assert(init[k] == n);
                    assert(init.contains(n));
                    assert(front.contains(n));
                    let i = choose|i: int| 0 <= i < front.len() && front[i] == n;
                    assert(r[i] == n);
                } else {
                    assert(r[front.len() as int] == n);
                }
            }
            if n == name {
                assert(front.contains(n));
                let i = choose|i: int| 0 <= i < front.len() && front[i] == n;
                assert(r[i] == n);
            }
        }
    }
}

/// The names of descriptors are listed in order, each once, and none is left out.
pub proof fn law_names_are_sorted(entries: Seq<ProtoEntryView>)
    ensures
        in_order(sorted_names(entries)),
        forall|n: Seq<char>| #[trigger]
            sorted_names(entries).contains(n) <==> names_of(entries).contains(n),
    decreases entries.len(),
{
    if entries.len() > 0 {
        let init = entries.drop_last();
        law_names_are_sorted(init);
        lemma_with_name(sorted_names(init), entries.last().name);
        assert forall|n: Seq<char>| #[trigger]
            sorted_names(entries).contains(n) <==> names_of(entries).contains(n) by {
            let all = names_of(entries);
            let front = names_of(init);
            assert(front.contains(n) ==> all.contains(n)) by {
                if front.contains(n) {
                    let i = choose|i: int| 0 <= i < front.len() && front[i] == n;
                    assert(all[i] == n);
                }
            }
            assert(all[entries.len() - 1] == entries.last().name);
            if all.contains(n) {
                let i = choose|i: int| 0 <= i < all.len() && all[i] == n;
                if i < front.len() {
                    assert(front[i] == n);
                }
            }
            assert(sorted_names(init).contains(n) <==> front.contains(n));
        }
    }
}

/// A published copy is refused where it drops something, with a reason for each thing it drops,
/// or where it cannot be read; a copy that drops nothing and can be read is not.
pub proof fn law_when_a_copy_is_refused(
    lost: Option<Seq<Seq<char>>>,
    prefix: Seq<char>,
    unreadable: Option<Seq<char>>,
)
    ensures
        refusal(lost, prefix, unreadable) is None <==> lost is None && unreadable is None,
        lost is Some ==> {
            let r = refusal(lost, prefix, unreadable)->Some_0;
            &&& r.len() == lost->Some_0.len()
            &&& forall|i: int|
                0 <= i < r.len() ==> #[trigger] r[i] == prefix + lost->Some_0[i] + "`"@
        },
        lost is None && unreadable is Some ==> refusal(lost, prefix, unreadable) == Some(
            seq!["this build cannot parse it: "@ + unreadable->Some_0],
        ),
{
}

/// Of the descriptors, those are named that the local list has and the published one lacks, each
/// once and in order; where one of the lists is missing there is nothing to compare.
pub proof fn law_lost_descriptors_are_named(
    local: Seq<ProtoEntryView>,
    published: Seq<ProtoEntryView>,
    name: Seq<char>,
)
    ensures
        ({
            let lost = dropped_names(Some(local), Some(published));
            &&& lost is None <==> forall|n: Seq<char>|
                names_of(local).contains(n) ==> #[trigger] names_of(published).contains(n)
            &&& lost is Some ==> (lost->Some_0.contains(name) <==> names_of(local).contains(name)
                && !names_of(published).contains(name))
            &&& lost is Some ==> in_order(lost->Some_0)
        }),
        dropped_names(None, Some(published)) is None,
        dropped_names(Some(local), None) is None,
{
    let sorted = sorted_names(local);
    law_names_are_sorted(local);
    law_only_losses_are_refused(sorted, names_of(published), name);
    if forall|n: Seq<char>| names_of(local).contains(n) ==> #[trigger] names_of(published).contains(n) {
        assert forall|n: Seq<char>| sorted.contains(n) implies #[trigger] names_of(
            published,
        ).contains(n) by {
            assert(names_of(local).contains(n));
        }
    }
    if forall|n: Seq<char>| sorted.contains(n) ==> #[trigger] names_of(published).contains(n) {
        assert forall|n: Seq<char>| names_of(local).contains(n) implies #[trigger] names_of(
            published,
        ).contains(n) by {
            assert(sorted.contains(n));
        }
    }
    assert(sorted.contains(name) <==> names_of(local).contains(name));
    lemma_missing_in_order(sorted, names_of(published));
}

proof fn lemma_missing_in_order(local: Seq<Seq<char>>, published: Seq<Seq<char>>)
    requires
        in_order(local),
    ensures
        in_order(missing(local, published)),
        forall|i: int|
            0 <= i < missing(local, published).len() ==> local.contains(
                #[trigger] missing(local, published)[i],
            ),
    decreases local.len(),
{
    if local.len() > 0 {
        let init = local.drop_last();
        let last = local.last();
        assert forall|i: int, j: int| 0 <= i < j < init.len() implies text::before(
            #[trigger] init[i],
            #[trigger] init[j],
        ) by {
            assert(text::before(local[i], local[j]));
        }
        lemma_missing_in_order(init, published);
        let rest = missing(init, published);
        let all = missing(local, published);
        assert forall|i: int| 0 <= i < rest.len() implies text::before(#[trigger] rest[i], last)
            && local.contains(rest[i]) by {
            assert(init.contains(rest[i]));
            let k = choose|k: int| 0 <= k < init.len() && init[k] == rest[i];
            assert(local[k] == rest[i]);
            assert(text::before(local[k], local[local.len() - 1]));
        }
        assert forall|i: int, j: int| 0 <= i < j < all.len() implies text::before(
            #[trigger] all[i],
            #[trigger] all[j],
        ) by {
            if j < rest.len() {
                assert(text::before(rest[i], rest[j]));
            } else {
                assert(text::before(rest[i], last));
            }
        }
        assert forall|i: int| 0 <= i < all.len() implies local.contains(#[trigger] all[i]) by {
            if i < rest.len() {
                assert(all[i] == rest[i]);
            } else {
                assert(local[local.len() - 1] == last);
            }
        }
    }
}

} // verus!
