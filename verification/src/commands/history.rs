//! `serval history`: the newest reports, as a table.
use vstd::prelude::*;

use crate::report::{unix_seconds, unix_seconds_of, ReportRecord, RunSummary};
use crate::runner::opt_str_view;
use crate::text::strs_view;
use crate::textops::{decimal, decimal_string, pad_right, pad_str};

verus! {

/// What `time` writes for the UTC instant `ns` with the format
/// `[year]-[month]-[day] [hour]:[minute]:[second]`, when it can.
pub uninterp spec fn started_text_of(ns: int) -> Option<Seq<char>>;

/// What `Path::file_name` gives for the path `p`, as text.
pub uninterp spec fn path_file_name(p: Seq<char>) -> Option<Seq<char>>;

/// Formats an instant with `time` as `YYYY-MM-DD hh:mm:ss`.
#[verifier::external_body]
pub(crate) fn format_started_time(ns: i128) -> (r: Option<String>)
    ensures
        opt_str_view(r) == started_text_of(ns as int),
{
    let t = time::OffsetDateTime::from_unix_timestamp_nanos(ns).ok()?;
    let fmt = time::format_description::parse("[year]-[month]-[day] [hour]:[minute]:[second]").ok()?;
    t.format(&fmt).ok()
}

/// The last component of a path, by `std::path::Path::file_name`.
#[verifier::external_body]
pub(crate) fn file_name_of(p: &str) -> (r: Option<String>)
    ensures
        opt_str_view(r) == path_file_name(p@),
{
    std::path::Path::new(p).file_name().map(|s| s.to_string_lossy().into_owned())
}

/// The newest `limit` records of a newest-first list.
pub fn newest(records: Vec<ReportRecord>, limit: usize) -> (r: Vec<ReportRecord>)
    ensures
        r@ == records@.take(if limit < records@.len() { limit as int } else { records@.len() as int }),
{
    let mut records = records;
    records.truncate(limit);
    records
}

/// How a start time is shown: the formatted time, or the Unix seconds.
pub open spec fn started_text(ns: int) -> Seq<char> {
    match started_text_of(ns) {
        Some(t) => t,
        None => decimal(unix_seconds(ns)),
    }
}

/// `passed/total (FAIL)` or `passed/total (OK)`.
pub open spec fn summary_text(s: RunSummary) -> Seq<char> {
    decimal(s.passed as int) + "/"@ + decimal(s.total as int) + " "@ + if s.failed > 0 {
        "(FAIL)"@
    } else {
        "(OK)"@
    }
}

/// The file name of the source file, or the whole path.
pub open spec fn source_text(path: Seq<char>) -> Seq<char> {
    match path_file_name(path) {
        Some(n) => n,
        None => path,
    }
}

/// One record's table row.
pub open spec fn history_row(r: ReportRecord) -> Seq<char> {
    "  "@ + pad_right(r.id@, 32) + "  "@ + pad_right(started_text(r.report.started_at_ns as int), 19) + "  "@
        + pad_right(summary_text(r.report.summary), 10) + "  "@ + source_text(r.report.source_file@)
}

/// The lines of the history table.
pub open spec fn history_lines(rs: Seq<ReportRecord>) -> Seq<Seq<char>> {
    if rs.len() == 0 {
        seq!["  no reports found"@]
    } else {
        seq!["  "@ + pad_right("ID"@, 32) + "  "@ + pad_right("STARTED"@, 19) + "  "@ + pad_right("SUMMARY"@, 10) + "  SOURCE"@]
            + rs.map_values(|r: ReportRecord| history_row(r))
    }
}

fn history_row_exec(r: &ReportRecord) -> (s: String)
    requires
        r.report.started_at_ns > i128::MIN,
    ensures
        s@ == history_row(*r),
{
    let ns = r.report.started_at_ns;
    let started = match format_started_time(ns) {
        Some(t) => t,
        None => decimal_string(unix_seconds_of(ns)),
    };
    let sm = &r.report.summary;
    let mut summary = decimal_string(sm.passed as i128);
    summary.append("/");
    let t = decimal_string(sm.total as i128);
    summary.append(t.as_str());
    summary.append(" ");
    summary.append(if sm.failed > 0 { "(FAIL)" } else { "(OK)" });
    let source = match file_name_of(r.report.source_file.as_str()) {
        Some(n) => n,
        None => r.report.source_file.clone(),
    };
    let mut s = String::from_str("  ");
    let a = pad_str(r.id.as_str(), 32);
    s.append(a.as_str());
    s.append("  ");
    let b = pad_str(started.as_str(), 19);
    s.append(b.as_str());
    s.append("  ");
    let c = pad_str(summary.as_str(), 10);
    s.append(c.as_str());
    s.append("  ");
    s.append(source.as_str());
    s
}

/// The lines `history` prints (see [`history_lines`]).
pub fn history_table(records: &Vec<ReportRecord>) -> (lines: Vec<String>)
    requires
        forall|i: int| 0 <= i < records@.len() ==> (#[trigger] records@[i]).report.started_at_ns > i128::MIN,
    ensures
        strs_view(lines@) == history_lines(records@),
{
    let mut lines: Vec<String> = Vec::new();
    if records.len() == 0 {
        lines.push(String::from_str("  no reports found"));
        assert(strs_view(lines@) =~= history_lines(records@));
        return lines;
    }
    let mut head = String::from_str("  ");
    let h1 = pad_str("ID", 32);
    head.append(h1.as_str());
    head.append("  ");
    let h2 = pad_str("STARTED", 19);
    head.append(h2.as_str());
    head.append("  ");
    let h3 = pad_str("SUMMARY", 10);
    head.append(h3.as_str());
    head.append("  SOURCE");
    lines.push(head);
    let ghost first = strs_view(lines@);
    let mut i: usize = 0;
    while i < records.len()
        invariant
            i <= records.len(),
            forall|k: int| 0 <= k < records@.len() ==> (#[trigger] records@[k]).report.started_at_ns > i128::MIN,
            strs_view(lines@) == first + records@.take(i as int).map_values(|r: ReportRecord| history_row(r)),
        decreases records.len() - i,
    {
        let row = history_row_exec(&records[i]);
        let ghost lv = strs_view(lines@);
        let ghost rv = row@;
        lines.push(row);
        assert(strs_view(lines@) =~= lv.push(rv));
        assert(records@.take(i + 1) =~= records@.take(i as int).push(records@[i as int]));
        i += 1;
    }
    assert(records@.take(i as int) =~= records@);
    lines
}

} // verus!
