//! The text forms of results: the console line and the rows of the CSV report.
use vstd::prelude::*;

use crate::report::ScanResult;

verus! {

/// Width of the right-aligned size column of a console line.
pub const SIZE_COLUMN_WIDTH: usize = 10;

/// `n` spaces.
pub open spec fn spaces(n: nat) -> Seq<char> {
    Seq::new(n, |i: int| ' ')
}

/// `s` right-aligned in a column of `width` characters; a longer text is kept whole.
pub open spec fn pad_left(s: Seq<char>, width: nat) -> Seq<char> {
    if s.len() < width {
        spaces((width - s.len()) as nat) + s
    } else {
        s
    }
}

/// The console line of a completed root: the right-aligned size, a comma, the path.
pub open spec fn console_line_spec(r: ScanResult) -> Seq<char> {
    pad_left(r.formatted_size@, SIZE_COLUMN_WIDTH as nat) + ","@ + r.path@
}

/// Renders the console line of a completed root.
pub fn console_line(r: &ScanResult) -> (line: String)
    ensures
        line@ == console_line_spec(*r),
{
    let len = r.formatted_size.as_str().unicode_len();
    let mut line = String::new();
    let mut k: usize = 0;
    let pad: usize = if len < SIZE_COLUMN_WIDTH {
        SIZE_COLUMN_WIDTH - len
    } else {
        0
    };
    while k < pad
        invariant
            k <= pad,
            line@ == spaces(k as nat),
        decreases pad - k,
    {
        line.append(" ");
        proof {
            reveal_strlit(" ");
            assert(spaces(k as nat) + " "@ =~= spaces((k + 1) as nat));
        }
        k = k + 1;
    }
    line.append(r.formatted_size.as_str());
    line.append(",");
    line.append(r.path.as_str());
    proof {
        if len < SIZE_COLUMN_WIDTH {
        } else {
            assert(spaces(0) + r.formatted_size@ =~= r.formatted_size@);
        }
        assert(line@ =~= console_line_spec(*r));
    }
    line
}

/// The header of the CSV report: storage path, storage class, storage size.
pub open spec fn csv_header_spec() -> Seq<Seq<char>> {
    seq!["存储路径"@, "存储类型"@, "存储大小"@]
}

/// The three header fields of the CSV report.
pub fn csv_header() -> (r: Vec<String>)
    ensures
        r@.map_values(|s: String| s@) == csv_header_spec(),
{
    let mut r: Vec<String> = Vec::new();
    r.push(String::from_str("存储路径"));
    r.push(String::from_str("存储类型"));
    r.push(String::from_str("存储大小"));
    proof {
        assert(r@.map_values(|s: String| s@) =~= csv_header_spec());
    }
    r
}

/// The human-readable text of a duration of `secs` seconds and `nanos` nanoseconds.
pub uninterp spec fn duration_text(secs: u64, nanos: u32) -> Seq<char>;

/// Relies on humantime::format_duration: its text is a function of the
/// duration alone, and a zero duration reads "0s".
#[verifier::external_body]
fn format_duration_text(secs: u64, nanos: u32) -> (r: String)
    requires
        nanos < 1_000_000_000,
    ensures
        r@ == duration_text(secs, nanos),
        secs == 0 && nanos == 0 ==> r@ == "0s"@,
{
    humantime::format_duration(std::time::Duration::new(secs, nanos)).to_string()
}

/// The closing line of a run: the wall-clock time it took.
pub fn elapsed_line(secs: u64, nanos: u32) -> (r: String)
    requires
        nanos < 1_000_000_000,
    ensures
        r@ == "total time:"@ + duration_text(secs, nanos),
{
    let mut line = String::from_str("total time:");
    let text = format_duration_text(secs, nanos);
    line.append(text.as_str());
    line
}

/// One data row of the CSV report.
pub struct CsvRow {
    pub path: String,
    pub class_label: String,
    pub size_text: String,
}

/// The row holds the result's path, its size-class label and its formatted size.
pub open spec fn row_of(row: CsvRow, r: ScanResult) -> bool {
    row.path@ == r.path@ && row.class_label@ == r.size_class.label_spec() && row.size_text@
        == r.formatted_size@
}

/// The CSV row of one result.
pub fn csv_row(r: &ScanResult) -> (row: CsvRow)
    ensures
        row_of(row, *r),
{
    CsvRow {
        path: r.path.clone(),
        class_label: r.size_class.label(),
        size_text: r.formatted_size.clone(),
    }
}

/// The CSV rows of a report, one per result, in the report's order.
pub fn csv_rows(report: &Vec<ScanResult>) -> (rows: Vec<CsvRow>)
    ensures
        rows@.len() == report@.len(),
        forall|i: int| 0 <= i < report@.len() ==> row_of(#[trigger] rows@[i], report@[i]),
{
    let mut rows: Vec<CsvRow> = Vec::new();
    let mut i: usize = 0;
    while i < report.len()
        invariant
            i <= report@.len(),
            rows@.len() == i,
            forall|j: int| 0 <= j < i ==> row_of(#[trigger] rows@[j], report@[j]),
        decreases report@.len() - i,
    {
        rows.push(csv_row(&report[i]));
        i = i + 1;
    }
    rows
}

} // verus!
