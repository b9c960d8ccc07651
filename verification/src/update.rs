//! What the window does about its data files: which copy it goes on with, and what it says
//! about it.
//!
//! Missing files are downloaded. Files that are there are kept, unless newer ones are
//! published or the names are missing. A refresh that fails never costs a copy that works.
use crate::gamedata::DataFile;
use crate::nanoka;
use crate::refresh::{RefreshReport, ReportView};
use crate::text;
use vstd::prelude::*;

verus! {

/// Which copy to go on with.
#[derive(Debug)]
pub enum DataChoice {
    /// The one at hand, which is in use already.
    Unchanged,
    /// The one that was loaded before the update.
    Local,
    /// The one that was loaded after the update.
    Reloaded,
    /// None, for this reason.
    Failed(String),
}

/// What a [`DataChoice`] says.
pub enum DataChoiceView {
    Unchanged,
    Local,
    Reloaded,
    Failed(Seq<char>),
}

impl View for DataChoice {
    type V = DataChoiceView;

    open spec fn view(&self) -> DataChoiceView {
        match *self {
            DataChoice::Unchanged => DataChoiceView::Unchanged,
            DataChoice::Local => DataChoiceView::Local,
            DataChoice::Reloaded => DataChoiceView::Reloaded,
            DataChoice::Failed(reason) => DataChoiceView::Failed(reason@),
        }
    }
}

/// What came of an update.
#[derive(Debug)]
pub struct UpdateOutcome {
    pub data: DataChoice,
    pub note: Option<String>,
}

/// What an [`UpdateOutcome`] says.
pub struct OutcomeView {
    pub data: DataChoiceView,
    pub note: Option<Seq<char>>,
}

impl View for UpdateOutcome {
    type V = OutcomeView;

    open spec fn view(&self) -> OutcomeView {
        OutcomeView { data: self.data@, note: crate::json::value_text(self.note) }
    }
}

/// The local copy, where it was asked for.
pub open spec fn local_if(had_local: bool) -> DataChoiceView {
    if had_local {
        DataChoiceView::Local
    } else {
        DataChoiceView::Unchanged
    }
}

fn local_choice(had_local: bool) -> (r: DataChoice)
    ensures
        r@ == local_if(had_local),
{
    if had_local {
        DataChoice::Local
    } else {
        DataChoice::Unchanged
    }
}

fn noted(before: &str, error: &str, after: &str) -> (r: Option<String>)
    ensures
        crate::json::value_text(r) == Some(before@ + error@ + after@),
{
    let mut out: String = before.to_owned();
    out.push_str(error);
    out.push_str(after);
    Some(out)
}

/// After the check for newer files: what to go on with, or none where a refresh is due.
pub open spec fn checked(had_local: bool, names_missing: bool, check: Result<bool, Seq<char>>) -> Option<
    OutcomeView,
> {
    match check {
        Err(error) => Some(
            OutcomeView {
                data: DataChoiceView::Local,
                note: Some("could not check for updates ("@ + error + "); using local copy"@),
            },
        ),
        Ok(stale) => if !stale && !names_missing {
            Some(OutcomeView { data: local_if(had_local), note: None })
        } else {
            None
        },
    }
}

/// The result of a check, its error as text.
pub open spec fn check_view(check: Result<bool, &str>) -> Result<bool, Seq<char>> {
    match check {
        Ok(stale) => Ok(stale),
        Err(error) => Err(error@),
    }
}

pub fn after_check(had_local: bool, names_missing: bool, check: Result<bool, &str>) -> (r: Option<
    UpdateOutcome,
>)
    ensures
        match r {
            Some(outcome) => checked(had_local, names_missing, check_view(check)) == Some(outcome@),
            None => checked(had_local, names_missing, check_view(check)) is None,
        },
{
    match check {
        Err(error) => Some(
            UpdateOutcome {
                data: DataChoice::Local,
                note: noted("could not check for updates (", error, "); using local copy"),
            },
        ),
        Ok(stale) => if !stale && !names_missing {
            Some(UpdateOutcome { data: local_choice(had_local), note: None })
        } else {
            None
        },
    }
}

/// The files that were kept, each with the reasons.
pub open spec fn kept_texts(report: ReportView) -> Seq<Seq<char>> {
    report.kept_local.map_values(
        |k: (DataFile, Seq<Seq<char>>)| k.0.file_name() + ": "@ + text::joined(k.1, ", "@),
    )
}

fn kept_lines(report: &RefreshReport) -> (r: Vec<String>)
    ensures
        text::texts(r@) == kept_texts(report@),
{
    let mut out: Vec<String> = Vec::new();
    let mut i: usize = 0;
    while i < report.kept_local.len()
        invariant
            i <= report.kept_local@.len(),
            out@.len() == i,
            forall|k: int|
                0 <= k < i ==> (#[trigger] out@[k])@ == report.kept_local@[k].0.file_name() + ": "@
                    + text::joined(text::texts(report.kept_local@[k].1@), ", "@),
        decreases report.kept_local@.len() - i,
    {
        let mut line: String = report.kept_local[i].0.name();
        line.push_str(": ");
        line.push_str(text::join(report.kept_local[i].1.as_slice(), ", ").as_str());
        out.push(line);
        i = i + 1;
    }
    assert(text::texts(out@) =~= kept_texts(report@));
    out
}

/// A note with the version of the report, if it has one.
pub open spec fn version_note(what: Seq<char>, report: ReportView) -> Seq<char> {
    match report.version {
        Some(version) => what + " (version "@ + version.text() + ")"@,
        None => what,
    }
}

fn note_version(what: &str, report: &RefreshReport) -> (r: String)
    ensures
        r@ == version_note(what@, report@),
{
    let mut out: String = what.to_owned();
    if let Some(version) = report.version {
        out.push_str(" (version ");
        out.push_str(version.to_string().as_str());
        out.push_str(")");
    }
    out
}

/// After a refresh of files that were there. `unloadable` says why the refreshed files cannot
/// be loaded, if they cannot.
pub open spec fn refreshed(
    refresh: Result<ReportView, Seq<char>>,
    unloadable: Option<Seq<char>>,
) -> OutcomeView {
    match refresh {
        Err(error) => OutcomeView {
            data: DataChoiceView::Local,
            note: Some("data update failed ("@ + error + "); using local copy"@),
        },
        Ok(report) => match unloadable {
            Some(error) => OutcomeView {
                data: DataChoiceView::Local,
                note: Some(
                    "update downloaded but the result would not load ("@ + error
                        + "); using previous copy"@,
                ),
            },
            None => {
                let note = version_note("data files updated"@, report);
                OutcomeView {
                    data: DataChoiceView::Reloaded,
                    note: Some(
                        if report.kept_local.len() == 0 {
                            note
                        } else {
                            note + "; kept local "@ + text::joined(kept_texts(report), "; "@)
                        },
                    ),
                }
            },
        },
    }
}

/// The result of a refresh, its error as text.
pub open spec fn refresh_view(refresh: Result<&RefreshReport, &str>) -> Result<ReportView, Seq<char>> {
    match refresh {
        Ok(report) => Ok(report@),
        Err(error) => Err(error@),
    }
}

pub fn after_refresh(refresh: Result<&RefreshReport, &str>, unloadable: Option<&str>) -> (r:
    UpdateOutcome)
    ensures
        r@ == refreshed(refresh_view(refresh), nanoka::name_text(unloadable)),
{
    let report: &RefreshReport = match refresh {
        Ok(report) => report,
        Err(error) => {
            return UpdateOutcome {
                data: DataChoice::Local,
                note: noted("data update failed (", error, "); using local copy"),
            };
        },
    };
    if let Some(error) = unloadable {
        return UpdateOutcome {
            data: DataChoice::Local,
            note: noted(
                "update downloaded but the result would not load (",
                error,
                "); using previous copy",
            ),
        };
    }
    let mut note: String = note_version("data files updated", report);
    if report.kept_local.len() > 0 {
        note.push_str("; kept local ");
        note.push_str(text::join(kept_lines(report).as_slice(), "; ").as_str());
    }
    UpdateOutcome { data: DataChoice::Reloaded, note: Some(note) }
}

/// After a download of files that could not be loaded. `has_copy` says whether an earlier copy
/// is at hand, `missing` why the local files could not be loaded, `assets` where they belong.
pub open spec fn downloaded(
    has_copy: bool,
    missing: Seq<char>,
    refresh: Result<ReportView, Seq<char>>,
    unloadable: Option<Seq<char>>,
    assets: Seq<char>,
) -> OutcomeView {
    match refresh {
        Err(error) => if has_copy {
            OutcomeView {
                data: DataChoiceView::Local,
                note: Some("data download failed ("@ + error + "); using local copy"@),
            }
        } else {
            OutcomeView {
                data: DataChoiceView::Failed(
                    missing + "; automatic download failed: "@ + error
                        + " — check the connection or run `zzzcap update` in "@ + assets,
                ),
                note: None,
            }
        },
        Ok(report) => match unloadable {
            None => OutcomeView {
                data: DataChoiceView::Reloaded,
                note: Some(version_note("downloaded data files"@, report)),
            },
            Some(error) => if has_copy {
                OutcomeView {
                    data: DataChoiceView::Local,
                    note: Some(
                        "download completed but the files would not load ("@ + error
                            + "); using previous copy"@,
                    ),
                }
            } else {
                OutcomeView {
                    data: DataChoiceView::Failed(
                        if report.kept_local.len() == 0 {
                            missing + "; download also failed: "@ + error
                        } else {
                            missing + "; download also failed: "@ + error
                                + "; published files refused ("@ + text::joined(
                                kept_texts(report),
                                "; "@,
                            ) + ")"@
                        },
                    ),
                    note: None,
                }
            },
        },
    }
}

pub fn after_download(
    has_copy: bool,
    missing: &str,
    refresh: Result<&RefreshReport, &str>,
    unloadable: Option<&str>,
    assets: &str,
) -> (r: UpdateOutcome)
    ensures
        r@ == downloaded(
            has_copy,
            missing@,
            refresh_view(refresh),
            nanoka::name_text(unloadable),
            assets@,
        ),
{
    let report: &RefreshReport = match refresh {
        Ok(report) => report,
        Err(error) => {
            if has_copy {
                return UpdateOutcome {
                    data: DataChoice::Local,
                    note: noted("data download failed (", error, "); using local copy"),
                };
            }
            let mut reason: String = missing.to_owned();
            reason.push_str("; automatic download failed: ");
            reason.push_str(error);
            reason.push_str(" — check the connection or run `zzzcap update` in ");
            reason.push_str(assets);
            return UpdateOutcome { data: DataChoice::Failed(reason), note: None };
        },
    };
    match unloadable {
        None => UpdateOutcome {
            data: DataChoice::Reloaded,
            note: Some(note_version("downloaded data files", report)),
        },
        Some(error) => {
            if has_copy {
                return UpdateOutcome {
                    data: DataChoice::Local,
                    note: noted(
                        "download completed but the files would not load (",
                        error,
                        "); using previous copy",
                    ),
                };
            }
            let mut reason: String = missing.to_owned();
            reason.push_str("; download also failed: ");
            reason.push_str(error);
            if report.kept_local.len() > 0 {
                reason.push_str("; published files refused (");
                reason.push_str(text::join(kept_lines(report).as_slice(), "; ").as_str());
                reason.push_str(")");
            }
            UpdateOutcome { data: DataChoice::Failed(reason), note: None }
        },
    }
}

/// An update never costs a copy that works. A failed check, a failed refresh and a refresh
/// whose files cannot be loaded all go on with the copy that was loaded before; so does a
/// failed download where there is one. No update of files that are there ends without a copy.
pub proof fn law_a_working_copy_is_kept(
    had_local: bool,
    names_missing: bool,
    check: Result<bool, Seq<char>>,
    refresh: Result<ReportView, Seq<char>>,
    unloadable: Option<Seq<char>>,
    missing: Seq<char>,
    assets: Seq<char>,
)
    ensures
        check is Err ==> checked(had_local, names_missing, check) is Some && checked(
            had_local,
            names_missing,
            check,
        )->Some_0.data is Local,
        refresh is Err || unloadable is Some ==> refreshed(refresh, unloadable).data is Local,
        refresh is Ok && unloadable is None ==> refreshed(refresh, unloadable).data is Reloaded,
        refresh is Err || unloadable is Some ==> downloaded(
            true,
            missing,
            refresh,
            unloadable,
            assets,
        ).data is Local,
        checked(had_local, names_missing, check) matches Some(outcome) ==> !(outcome.data is Failed),
{
}

/// What became of a file in a refresh.
#[derive(Debug, Clone, Copy, PartialEq, Eq, Structural)]
pub enum FileState {
    /// It was refused.
    Refused,
    /// It was left alone because of the file it belongs to.
    HeldBack,
    /// There was nothing to do.
    Current,
    /// It was replaced by the same bytes.
    Rewritten,
    /// It was replaced.
    Updated,
    /// It was not there before.
    Added,
}

/// What became of a file: `before` and `after` are its contents, if it was there.
pub open spec fn state_of(
    report: ReportView,
    file: DataFile,
    before: Option<Seq<u8>>,
    after: Option<Seq<u8>>,
) -> FileState {
    if report.kept_local.map_values(|k: (DataFile, Seq<Seq<char>>)| k.0).contains(file) {
        FileState::Refused
    } else if report.held_back.contains(file) {
        FileState::HeldBack
    } else if !report.updated_files.contains(file) {
        FileState::Current
    } else {
        match before {
            Some(bytes) => if after == Some(bytes) {
                FileState::Rewritten
            } else {
                FileState::Updated
            },
            None => FileState::Added,
        }
    }
}

fn named(files: &Vec<DataFile>, file: DataFile) -> (r: bool)
    ensures
        r == files@.contains(file),
{
    let mut i: usize = 0;
    while i < files.len()
        invariant
            i <= files@.len(),
            forall|k: int| 0 <= k < i ==> #[trigger] files@[k] != file,
        decreases files@.len() - i,
    {
        if files[i] == file {
            return true;
        }
        i = i + 1;
    }
    false
}

/// The bytes of a file, if it was there.
pub open spec fn contents(file: Option<&Vec<u8>>) -> Option<Seq<u8>> {
    match file {
        Some(bytes) => Some(bytes@),
        None => None,
    }
}

fn same_bytes(a: &Vec<u8>, b: &Vec<u8>) -> (r: bool)
    ensures
        r == (a@ == b@),
{
    if a.len() != b.len() {
        return false;
    }
    let mut i: usize = 0;
    while i < a.len()
        invariant
            i <= a@.len(),
            a@.len() == b@.len(),
            forall|k: int| 0 <= k < i ==> a@[k] == b@[k],
        decreases a@.len() - i,
    {
        if a[i] != b[i] {
            return false;
        }
        i = i + 1;
    }
    assert(a@ =~= b@);
    true
}

pub fn file_state(
    report: &RefreshReport,
    file: DataFile,
    before: Option<&Vec<u8>>,
    after: Option<&Vec<u8>>,
) -> (r: FileState)
    ensures
        r == state_of(report@, file, contents(before), contents(after)),
{
    if named(&report.kept_local_names(), file) {
        FileState::Refused
    } else if named(&report.held_back, file) {
        FileState::HeldBack
    } else if !named(&report.updated_files, file) {
        FileState::Current
    } else {
        match before {
            Some(bytes) => match after {
                Some(now) => if same_bytes(bytes, now) {
                    FileState::Rewritten
                } else {
                    FileState::Updated
                },
                None => FileState::Updated,
            },
            None => FileState::Added,
        }
    }
}

/// What became of a file goes by the report first: a file that was refused or held back is told
/// as that, and one that was not replaced is current. Of one that was, the bytes decide.
pub proof fn law_a_files_state_goes_by_the_report(
    report: ReportView,
    file: DataFile,
    i: int,
    before: Option<Seq<u8>>,
    after: Option<Seq<u8>>,
)
    ensures
        0 <= i < report.kept_local.len() && report.kept_local[i].0 == file ==> state_of(
            report,
            file,
            before,
            after,
        ) is Refused,
        (forall|k: int| 0 <= k < report.kept_local.len() ==> (#[trigger] report.kept_local[k]).0
            != file) ==> {
            let s = state_of(report, file, before, after);
            let replaced = !report.held_back.contains(file) && report.updated_files.contains(file);
            &&& report.held_back.contains(file) ==> s is HeldBack
            &&& !report.held_back.contains(file) && !report.updated_files.contains(file)
                ==> s is Current
            &&& replaced && before is None ==> s is Added
            &&& replaced && before is Some && before == after ==> s is Rewritten
            &&& replaced && before is Some && before != after ==> s is Updated
        },
{
    let files = report.kept_local.map_values(|k: (DataFile, Seq<Seq<char>>)| k.0);
    if 0 <= i < report.kept_local.len() && report.kept_local[i].0 == file {
        assert(files[i] == file);
    }
}

/// Nothing is downloaded where the check says that the files are current and the names are
/// there; a stale file, or missing names, make a download due. Only a first download can fail,
/// and only where there is no copy to fall back on.
pub proof fn law_when_a_download_is_due(
    had_local: bool,
    names_missing: bool,
    stale: bool,
    missing: Seq<char>,
    refresh: Result<ReportView, Seq<char>>,
    unloadable: Option<Seq<char>>,
    assets: Seq<char>,
)
    ensures
        checked(had_local, names_missing, Ok(stale)) is None <==> stale || names_missing,
        !stale && !names_missing && had_local ==> checked(
            had_local,
            names_missing,
            Ok(stale),
        )->Some_0.data is Local,
        !stale && !names_missing && !had_local ==> checked(
            had_local,
            names_missing,
            Ok(stale),
        )->Some_0.data is Unchanged,
        !stale && !names_missing ==> checked(had_local, names_missing, Ok(stale))->Some_0.note is None,
        refresh is Err ==> downloaded(false, missing, refresh, unloadable, assets).data is Failed,
        refresh is Ok && unloadable is None ==> downloaded(
            had_local,
            missing,
            refresh,
            unloadable,
            assets,
        ).data is Reloaded,
        !(downloaded(true, missing, refresh, unloadable, assets).data is Failed),
{
}

/// What could not be done is noted with its error, and what was done with the version; files that
/// were kept are named behind it.
pub proof fn law_outcomes_are_noted(
    had_local: bool,
    names_missing: bool,
    error: Seq<char>,
    report: ReportView,
)
    ensures
        checked(had_local, names_missing, Err(error))->Some_0.note == Some(
            "could not check for updates ("@ + error + "); using local copy"@,
        ),
        refreshed(Err(error), None).note == Some(
            "data update failed ("@ + error + "); using local copy"@,
        ),
        refreshed(Ok(report), Some(error)).note == Some(
            "update downloaded but the result would not load ("@ + error
                + "); using previous copy"@,
        ),
        report.version is Some && report.kept_local.len() == 0 ==> refreshed(Ok(report), None).note
            == Some("data files updated (version "@ + report.version->Some_0.text() + ")"@),
        report.version is None && report.kept_local.len() == 1 ==> refreshed(Ok(report), None).note
            == Some(
            "data files updated; kept local "@ + report.kept_local[0].0.file_name() + ": "@
                + text::joined(report.kept_local[0].1, ", "@),
        ),
{
    if report.version is Some && report.kept_local.len() == 0 {
        let v = report.version->Some_0.text();
        reveal_strlit("data files updated (version ");
        reveal_strlit("data files updated");
        reveal_strlit(" (version ");
        assert("data files updated"@ + " (version "@ + v + ")"@ =~= "data files updated (version "@
            + v + ")"@);
    }
    if report.version is None && report.kept_local.len() == 1 {
        let line = report.kept_local[0].0.file_name() + ": "@ + text::joined(
            report.kept_local[0].1,
            ", "@,
        );
        assert(kept_texts(report) =~= seq![line]);
        reveal_strlit("data files updated; kept local ");
        reveal_strlit("data files updated");
        reveal_strlit("; kept local ");
        assert("data files updated"@ + "; kept local "@ + line =~= "data files updated; kept local "@
            + report.kept_local[0].0.file_name() + ": "@ + text::joined(
            report.kept_local[0].1,
            ", "@,
        ));
    }
}

/// Where there is no copy to fall back on, the failure tells what was missing and why the
/// download did not help, and which published files were refused.
pub proof fn law_a_failed_download_tells_why(
    missing: Seq<char>,
    error: Seq<char>,
    report: ReportView,
    assets: Seq<char>,
)
    ensures
        downloaded(false, missing, Err(error), None, assets).data == DataChoiceView::Failed(
            missing + "; automatic download failed: "@ + error
                + " — check the connection or run `zzzcap update` in "@ + assets,
        ),
        report.kept_local.len() == 0 ==> downloaded(
            false,
            missing,
            Ok(report),
            Some(error),
            assets,
        ).data == DataChoiceView::Failed(missing + "; download also failed: "@ + error),
        report.kept_local.len() > 0 ==> downloaded(
            false,
            missing,
            Ok(report),
            Some(error),
            assets,
        ).data == DataChoiceView::Failed(
            missing + "; download also failed: "@ + error + "; published files refused ("@
                + text::joined(
                Seq::new(
                    report.kept_local.len(),
                    |i: int|
                        report.kept_local[i].0.file_name() + ": "@ + text::joined(
                            report.kept_local[i].1,
                            ", "@,
                        ),
                ),
                "; "@,
            ) + ")"@,
        ),
        downloaded(true, missing, Err(error), None, assets).note == Some(
            "data download failed ("@ + error + "); using local copy"@,
        ),
        downloaded(true, missing, Ok(report), Some(error), assets).note == Some(
            "download completed but the files would not load ("@ + error
                + "); using previous copy"@,
        ),
{
    assert(kept_texts(report) =~= Seq::new(
        report.kept_local.len(),
        |i: int|
            report.kept_local[i].0.file_name() + ": "@ + text::joined(report.kept_local[i].1, ", "@),
    ));
}

} // verus!
