//! What a painting of devices comes to, and what is shown of it.

use crate::commands::select;
use crate::text;
use vstd::prelude::*;

verus! {

/// What came of painting one device: its written id, and what is said of the failure if it
/// failed.
#[derive(Debug)]
pub struct SetResult {
    pub id: String,
    pub error: Option<String>,
}

/// A `SetResult` as mathematical values.
pub struct SetResultView {
    pub id: Seq<char>,
    pub error: Option<Seq<char>>,
}

/// A text that may be missing, as mathematical values.
pub open spec fn optional_text(s: Option<String>) -> Option<Seq<char>> {
    match s {
        Some(text) => Some(text@),
        None => None,
    }
}

impl View for SetResult {
    type V = SetResultView;

    open spec fn view(&self) -> SetResultView {
        SetResultView { id: self.id@, error: optional_text(self.error) }
    }
}

/// The results of a list, as mathematical values.
pub open spec fn result_views(list: Seq<SetResult>) -> Seq<SetResultView> {
    list.map_values(|r: SetResult| r@)
}

/// Why painting as a whole failed.
#[derive(Debug)]
pub enum SetFailure {
    /// The filter picked no device; what is said of it.
    NoMatch(String),
    /// There is no device at all.
    NoDevices,
    /// At least one device could not be painted.
    SomeFailed,
}

/// A `SetFailure` as mathematical values.
pub enum SetFailureView {
    NoMatch(Seq<char>),
    NoDevices,
    SomeFailed,
}

impl View for SetFailure {
    type V = SetFailureView;

    open spec fn view(&self) -> SetFailureView {
        match *self {
            SetFailure::NoMatch(message) => SetFailureView::NoMatch(message@),
            SetFailure::NoDevices => SetFailureView::NoDevices,
            SetFailure::SomeFailed => SetFailureView::SomeFailed,
        }
    }
}

/// What is said of a failure.
pub open spec fn failure_text(failure: SetFailureView) -> Seq<char> {
    match failure {
        SetFailureView::NoMatch(message) => message,
        SetFailureView::NoDevices => "no devices detected"@,
        SetFailureView::SomeFailed => "one or more devices failed to update"@,
    }
}

impl SetFailure {
    /// What is said of the failure.
    pub fn to_string(&self) -> (s: String)
        ensures
            s@ == failure_text(self@),
    {
        match self {
            SetFailure::NoMatch(message) => message.clone(),
            SetFailure::NoDevices => "no devices detected".to_owned(),
            SetFailure::SomeFailed => "one or more devices failed to update".to_owned(),
        }
    }
}

/// What is printed after a painting, and how it ends.
#[derive(Debug)]
pub struct SetReport {
    pub lines: Vec<String>,
    pub failure: Option<SetFailure>,
}

/// A `SetReport` as mathematical values.
pub struct SetReportView {
    pub lines: Seq<Seq<char>>,
    pub failure: Option<SetFailureView>,
}

impl View for SetReport {
    type V = SetReportView;

    open spec fn view(&self) -> SetReportView {
        SetReportView {
            lines: text::texts(self.lines@),
            failure: match self.failure {
                Some(failure) => Some(failure@),
                None => None,
            },
        }
    }
}

/// The line of a result.
pub open spec fn result_line(r: SetResultView) -> Seq<char> {
    match r.error {
        None => "ok    "@ + r.id,
        Some(error) => "error "@ + r.id + "  "@ + error,
    }
}

/// The results as rows of device, success and error.
pub open spec fn rows_of(results: Seq<SetResultView>) -> Seq<(Seq<char>, bool, Option<Seq<char>>)> {
    results.map_values(|r: SetResultView| (r.id, r.error is None, r.error))
}

/// Some device could not be painted.
pub open spec fn some_failed(results: Seq<SetResultView>) -> bool {
    exists|i: int| 0 <= i < results.len() && (#[trigger] results[i]).error is Some
}

/// What is printed after a painting, and how it ends. With no result there is nothing to print:
/// the filter picked nothing, or there is no device. Else the results are printed, one line
/// each or all as JSON, and the painting fails where one of them did. `json` is what the
/// results are as JSON.
pub open spec fn report_of(
    results: Seq<SetResultView>,
    filter: Option<Seq<char>>,
    as_json: bool,
    json: Seq<char>,
) -> SetReportView {
    let verdict = if some_failed(results) {
        Some(SetFailureView::SomeFailed)
    } else {
        None
    };
    if results.len() == 0 {
        SetReportView {
            lines: Seq::empty(),
            failure: Some(
                match filter {
                    Some(part) => SetFailureView::NoMatch(select::no_match_text(part)),
                    None => SetFailureView::NoDevices,
                },
            ),
        }
    } else if !as_json {
        SetReportView {
            lines: results.map_values(|r: SetResultView| result_line(r)),
            failure: verdict,
        }
    } else {
        SetReportView { lines: seq![json], failure: verdict }
    }
}

// ---------------------------------------------------------------------------
// JSON
// ---------------------------------------------------------------------------

/// The error of the outside crate `serde_json`.
#[verifier::external_type_specification]
#[verifier::external_body]
pub struct ExJsonError(serde_json::Error);

/// The rows of device, success and error of a list, as mathematical values.
pub open spec fn row_views(rows: Seq<(String, bool, Option<String>)>) -> Seq<
    (Seq<char>, bool, Option<Seq<char>>),
> {
    rows.map_values(|r: (String, bool, Option<String>)| (r.0@, r.1, optional_text(r.2)))
}

/// What `serde_json::to_string_pretty` makes of a list of objects with three entries each: a
/// text, a flag, and a text that may be missing, under the given keys.
pub uninterp spec fn json_pretty(
    text_key: Seq<char>,
    flag_key: Seq<char>,
    note_key: Seq<char>,
    rows: Seq<(Seq<char>, bool, Option<Seq<char>>)>,
) -> Seq<char>;

/// `serde_json::to_string_pretty` on an array of one object for each row, which holds the row's
/// text, flag and optional text (null where it is missing) under the given keys. Claimed is
/// that it succeeds, since keys are texts and such values are written into memory, and that the
/// outcome depends on nothing but keys and rows.
#[verifier::external_body]
fn pretty_rows(
    text_key: &str,
    flag_key: &str,
    note_key: &str,
    rows: &Vec<(String, bool, Option<String>)>,
) -> (r: Result<String, serde_json::Error>)
    ensures
        r is Ok,
        r matches Ok(text) ==> text@ == json_pretty(
            text_key@,
            flag_key@,
            note_key@,
            row_views(rows@),
        ),
{
    let array: Vec<serde_json::Value> = rows
        .iter()
        .map(|row| {
            let mut object = serde_json::Map::new();
            object.insert(text_key.to_string(), serde_json::Value::from(row.0.as_str()));
            object.insert(flag_key.to_string(), serde_json::Value::from(row.1));
            object.insert(note_key.to_string(), serde_json::Value::from(row.2.clone()));
            serde_json::Value::Object(object)
        })
        .collect();
    serde_json::to_string_pretty(&array)
}

/// The results as rows of device, success and error.
fn result_rows(results: &Vec<SetResult>) -> (rows: Vec<(String, bool, Option<String>)>)
    ensures
        row_views(rows@) == rows_of(result_views(results@)),
{
    let ghost all = rows_of(result_views(results@));
    let mut rows: Vec<(String, bool, Option<String>)> = Vec::new();
    let mut i: usize = 0;
    assert(row_views(rows@) =~= all.take(0));
    while i < results.len()
        invariant
            i <= results@.len(),
            all == rows_of(result_views(results@)),
            row_views(rows@) == all.take(i as int),
        decreases results@.len() - i,
    {
        let error = match &results[i].error {
            Some(message) => Some(message.clone()),
            None => None,
        };
        let ghost before = row_views(rows@);
        rows.push((results[i].id.clone(), results[i].error.is_none(), error));
        assert(row_views(rows@) =~= before.push(all[i as int]));
        i += 1;
        assert(row_views(rows@) =~= all.take(i as int));
    }
    assert(all.take(i as int) =~= all);
    rows
}

/// The results as JSON: a list of objects with the entries `device`, `ok` and `error`.
pub fn results_json(results: &Vec<SetResult>) -> (json: String)
    ensures
        json@ == json_pretty("device"@, "ok"@, "error"@, rows_of(result_views(results@))),
{
    let rows = result_rows(results);
    pretty_rows("device", "ok", "error", &rows).unwrap()
}

// ---------------------------------------------------------------------------
// The report
// ---------------------------------------------------------------------------

/// The line of a result.
fn show_result(r: &SetResult) -> (line: String)
    ensures
        line@ == result_line(r@),
{
    match &r.error {
        None => {
            let mut line = "ok    ".to_owned();
            line.append(r.id.as_str());
            line
        },
        Some(error) => {
            let mut line = "error ".to_owned();
            line.append(r.id.as_str());
            line.append("  ");
            line.append(error.as_str());
            line
        },
    }
}

/// Whether some device could not be painted.
fn any_failed(results: &Vec<SetResult>) -> (yes: bool)
    ensures
        yes == some_failed(result_views(results@)),
{
    let ghost views = result_views(results@);
    let mut i: usize = 0;
    while i < results.len()
        invariant
            i <= results@.len(),
            views == result_views(results@),
            forall|k: int| 0 <= k < i ==> (#[trigger] views[k]).error is None,
        decreases results@.len() - i,
    {
        if results[i].error.is_some() {
            assert(views[i as int].error is Some);
            return true;
        }
        i += 1;
    }
    false
}

/// What is printed after a painting, and how it ends, given what the results are as JSON.
pub fn set_report(
    results: &Vec<SetResult>,
    filter: Option<&str>,
    as_json: bool,
    json: String,
) -> (report: SetReport)
    ensures
        report@ == report_of(
            result_views(results@),
            select::filter_view(filter),
            as_json,
            json@,
        ),
{
    let ghost views = result_views(results@);
    let mut lines: Vec<String> = Vec::new();
    assert(text::texts(lines@) =~= Seq::empty());
    if results.len() == 0 {
        let failure = match filter {
            Some(part) => SetFailure::NoMatch(select::no_match_message(part)),
            None => SetFailure::NoDevices,
        };
        return SetReport { lines, failure: Some(failure) };
    }
    if as_json {
        let ghost shown = json@;
        lines.push(json);
        assert(text::texts(lines@) =~= seq![shown]);
    } else {
        let ghost all = views.map_values(|r: SetResultView| result_line(r));
        let mut i: usize = 0;
        assert(text::texts(lines@) =~= all.take(0));
        while i < results.len()
            invariant
                i <= results@.len(),
                views == result_views(results@),
                all == views.map_values(|r: SetResultView| result_line(r)),
                text::texts(lines@) == all.take(i as int),
            decreases results@.len() - i,
        {
            let ghost before = text::texts(lines@);
            lines.push(show_result(&results[i]));
            assert(lines@.last()@ == all[i as int]);
            assert(text::texts(lines@) =~= before.push(lines@.last()@));
            i += 1;
            assert(text::texts(lines@) =~= all.take(i as int));
        }
        assert(all.take(i as int) =~= all);
    }
    let failure = if any_failed(results) {
        Some(SetFailure::SomeFailed)
    } else {
        None
    };
    SetReport { lines, failure }
}

/// What is printed after a painting, and how it ends.
pub fn run_set(results: &Vec<SetResult>, filter: Option<&str>, as_json: bool) -> (report: SetReport)
    ensures
        report@ == report_of(
            result_views(results@),
            select::filter_view(filter),
            as_json,
            json_pretty("device"@, "ok"@, "error"@, rows_of(result_views(results@))),
        ),
{
    if !as_json {
        return set_report(results, filter, false, String::new());
    }
    let json = results_json(results);
    set_report(results, filter, true, json)
}

// ---------------------------------------------------------------------------
// What holds of every painting
// ---------------------------------------------------------------------------

/// A painting succeeds exactly when there was a device to paint and every device was painted.
pub proof fn law_success_means_all_painted(
    results: Seq<SetResultView>,
    filter: Option<Seq<char>>,
    as_json: bool,
    json: Seq<char>,
)
    ensures
        report_of(results, filter, as_json, json).failure is None <==> {
            &&& results.len() > 0
            &&& forall|i: int| 0 <= i < results.len() ==> (#[trigger] results[i]).error is None
        },
{
}

/// A failed device is no reason to leave out the others: each result has its line, in order.
pub proof fn law_every_result_is_shown(
    results: Seq<SetResultView>,
    filter: Option<Seq<char>>,
    json: Seq<char>,
    i: int,
)
    requires
        0 <= i < results.len(),
    ensures
        report_of(results, filter, false, json).lines.len() == results.len(),
        report_of(results, filter, false, json).lines[i] == result_line(results[i]),
{
}

} // verus!
