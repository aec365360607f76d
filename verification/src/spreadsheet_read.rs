//! Reading spreadsheets: the choice of sheet and range, and the table that is
//! shown.
use crate::cell_address;
use crate::cell_address::parse_cell_range;
use crate::entities;
use crate::slides;
use crate::text;
use crate::text::{copy_str, decimal_of_i64, decimal_of_usize, str_replace};
use vstd::prelude::*;

verus! {

/// How many rows are returned unless told otherwise.
pub const DEFAULT_MAX_ROWS: usize = 200;

/// How many rows are returned at most.
pub const MOST_ROWS: usize = 2000;

/// How many columns are returned at most.
pub const MAX_COLUMNS: usize = 60;

/// Read rows from a spreadsheet file. Returns a markdown table plus workbook
/// metadata.
#[derive(Clone, Debug)]
pub struct ReadSpreadsheetToolInput {
    /// Path to the spreadsheet file. Relative paths resolve inside the project.
    pub path: String,
    /// Sheet name to read. Defaults to the first sheet.
    pub sheet: Option<String>,
    /// Cell range to read, e.g. "A1:F100". Defaults to the whole used range.
    pub range: Option<String>,
    /// Maximum number of rows to return (default 200). Read again with a
    /// `range` for rows beyond the cap.
    pub max_rows: Option<usize>,
}

/// What was read of a sheet.
#[derive(Debug)]
pub struct SpreadsheetRead {
    pub sheet: String,
    pub sheets: Vec<String>,
    pub rows_total: usize,
    pub rows_returned: usize,
    pub truncated: bool,
    pub table_markdown: String,
}

/// What the reading tool gives back.
#[derive(Debug)]
pub enum ReadSpreadsheetToolOutput {
    Success(SpreadsheetRead),
    Error { error: String },
}

// ---- cells ----------------------------------------------------------------------------------

/// An error that a cell holds.
#[derive(Clone, Copy, Debug, PartialEq, Eq, Structural)]
pub enum CellError {
    Div0,
    NA,
    Name,
    Null,
    Num,
    Ref,
    Value,
    GettingData,
}

/// What a cell holds.
#[derive(Debug)]
pub enum Data {
    Empty,
    Text(String),
    Int(i64),
    /// A number: the integer that it is, where it is one below a thousand
    /// million million, and its text.
    Float { whole: Option<i64>, text: String },
    Bool(bool),
    /// A date and time: the days since the epoch of spreadsheets, the rounded
    /// second of the day, and the text of the serial number.
    DateTime { days: i64, second: i64, text: String },
    DateTimeIso(String),
    DurationIso(String),
    Error(CellError),
}

/// What the `chrono` crate shows for a number of seconds since the Unix epoch,
/// as year, month, day and time; nothing where it is out of its range.
pub uninterp spec fn timestamp_shown(secs: i64) -> Option<Seq<char>>;

/// Calls `chrono::NaiveDateTime::from_timestamp_opt` and formats the date with
/// `%Y-%m-%d %H:%M:%S`. What comes out depends on the seconds alone.
#[verifier::external_body]
#[allow(deprecated)]
pub(crate) fn show_timestamp(secs: i64) -> (r: Option<String>)
    ensures
        text::opt_view(r) == timestamp_shown(secs),
{
    chrono::NaiveDateTime::from_timestamp_opt(secs, 0).map(
        |d| d.format("%Y-%m-%d %H:%M:%S").to_string(),
    )
}

/// The days from the epoch of spreadsheets to the Unix epoch.
pub const EPOCH_DAYS: i64 = 25569;

/// The seconds since the Unix epoch of a date and time.
pub open spec fn unix_seconds(days: i64, second: i64) -> int {
    (days - EPOCH_DAYS) * 86400 + second
}

/// The seconds of a date and time can be counted.
pub open spec fn data_fits(data: Data) -> bool {
    data matches Data::DateTime { days, second, .. } ==> {
        &&& i64::MIN <= days - EPOCH_DAYS
        &&& i64::MIN <= (days - EPOCH_DAYS) * 86400 <= i64::MAX
        &&& i64::MIN <= unix_seconds(days, second) <= i64::MAX
    }
}

/// The name of an error.
pub open spec fn error_name(e: CellError) -> Seq<char> {
    match e {
        CellError::Div0 => "#Div0"@,
        CellError::NA => "#NA"@,
        CellError::Name => "#Name"@,
        CellError::Null => "#Null"@,
        CellError::Num => "#Num"@,
        CellError::Ref => "#Ref"@,
        CellError::Value => "#Value"@,
        CellError::GettingData => "#GettingData"@,
    }
}

/// A date and time as it is shown: the date where there is one, else the
/// serial number.
pub open spec fn date_shown(stamp: Option<Seq<char>>, serial: Seq<char>) -> Seq<char> {
    match stamp {
        Some(d) => d,
        None => serial,
    }
}

/// What a cell holds, as it is shown.
pub open spec fn shown(data: Data) -> Seq<char> {
    match data {
        Data::Empty => Seq::empty(),
        Data::Text(t) => t@,
        Data::Int(n) => text::decimal_int(n as int),
        Data::Float { whole, text: t } => match whole {
            Some(n) => text::decimal_int(n as int),
            None => t@,
        },
        Data::Bool(b) => if b {
            "true"@
        } else {
            "false"@
        },
        Data::DateTime { days, second, text: t } => date_shown(
            timestamp_shown(unix_seconds(days, second) as i64),
            t@,
        ),
        Data::DateTimeIso(t) => t@,
        Data::DurationIso(t) => t@,
        Data::Error(e) => error_name(e),
    }
}

fn error_text(e: CellError) -> (r: &'static str)
    ensures
        r@ == error_name(e),
{
    match e {
        CellError::Div0 => "#Div0",
        CellError::NA => "#NA",
        CellError::Name => "#Name",
        CellError::Null => "#Null",
        CellError::Num => "#Num",
        CellError::Ref => "#Ref",
        CellError::Value => "#Value",
        CellError::GettingData => "#GettingData",
    }
}

/// A date and time as it is shown.
pub fn date_text(stamp: Option<String>, serial: &str) -> (out: String)
    ensures
        out@ == date_shown(text::opt_view(stamp), serial@),
{
    match stamp {
        Some(d) => d,
        None => copy_str(serial),
    }
}

/// What a cell holds, as it is shown.
pub fn format_data(data: &Data) -> (out: String)
    requires
        data_fits(*data),
    ensures
        out@ == shown(*data),
        data is Int ==> text::number_read(out@) == data->Int_0,
        data is Float && data->whole is Some ==> text::number_read(out@) == data->whole->0,
{
    proof {
        if data is Int {
            law_whole_numbers_read_back(*data, data->Int_0);
        }
        if data is Float && data->whole is Some {
            law_whole_numbers_read_back(*data, data->whole->0);
        }
    }
    match data {
        Data::Empty => String::new(),
        Data::Text(t) => copy_str(t.as_str()),
        Data::Int(n) => decimal_of_i64(*n),
        Data::Float { whole, text: t } => match whole {
            Some(n) => decimal_of_i64(*n),
            None => copy_str(t.as_str()),
        },
        Data::Bool(b) => {
            if *b {
                copy_str("true")
            } else {
                copy_str("false")
            }
        },
        Data::DateTime { days, second, text: t } => {
            let secs: i64 = (*days - EPOCH_DAYS) * 86400 + *second;
            date_text(show_timestamp(secs), t.as_str())
        },
        Data::DateTimeIso(t) => copy_str(t.as_str()),
        Data::DurationIso(t) => copy_str(t.as_str()),
        Data::Error(e) => copy_str(error_text(*e)),
    }
}

/// Whether the seconds of a date and time can be counted.
pub fn data_in_range(data: &Data) -> (r: bool)
    ensures
        r == data_fits(*data),
{
    match data {
        Data::DateTime { days, second, .. } => {
            let scaled: i128 = (*days as i128 - EPOCH_DAYS as i128) * 86400;
            let total: i128 = scaled + *second as i128;
            (*days as i128 - EPOCH_DAYS as i128) >= i64::MIN as i128 && i64::MIN as i128 <= scaled
                && scaled <= i64::MAX as i128 && i64::MIN as i128 <= total && total
                <= i64::MAX as i128
        },
        _ => true,
    }
}

// ---- the table --------------------------------------------------------------------------------

/// A cell of a table with its bars escaped.
pub open spec fn escaped_cell(cell: Seq<char>) -> Seq<char> {
    text::replace(cell, "|"@, "\\|"@)
}

/// A cell of a table with its bars escaped.
pub fn escape_pipes(cell: &str) -> (out: String)
    ensures
        out@ == escaped_cell(cell@),
{
    proof {
        reveal_strlit("|");
    }
    str_replace(cell, "|", "\\|")
}

/// The cells of a row, each followed by a bar.
pub open spec fn row_cells(row: Seq<Seq<char>>) -> Seq<char>
    decreases row.len(),
{
    if row.len() == 0 {
        Seq::empty()
    } else {
        row_cells(row.drop_last()) + (escaped_cell(row.last()) + " | "@)
    }
}

/// A row of a table.
pub open spec fn row_text(row: Seq<Seq<char>>) -> Seq<char> {
    "| "@ + row_cells(row) + "\n"@
}

/// Adds a row to a table.
pub fn markdown_row(out: &mut String, row: &Vec<String>)
    ensures
        final(out)@ == old(out)@ + row_text(text::views(row@)),
{
    let ghost start = out@;
    let ghost cells = text::views(row@);
    out.append("| ");
    let mut i: usize = 0;
    assert(out@ =~= start + "| "@ + row_cells(cells.take(0)));
    while i < row.len()
        invariant
            i <= row@.len(),
            cells == text::views(row@),
            out@ == start + "| "@ + row_cells(cells.take(i as int)),
        decreases row@.len() - i,
    {
        let cell = escape_pipes(row[i].as_str());
        out.append(cell.as_str());
        out.append(" | ");
        proof {
            assert(cells.take(i + 1).drop_last() =~= cells.take(i as int));
            assert(cells.take(i + 1).last() == row@[i as int]@);
            assert(out@ =~= start + "| "@ + row_cells(cells.take(i + 1)));
        }
        i = i + 1;
    }
    assert(cells.take(cells.len() as int) =~= cells);
    out.append("\n");
    assert(out@ =~= start + row_text(cells));
}

/// The line below the head of a table.
pub open spec fn rule_cells(n: nat) -> Seq<char>
    decreases n,
{
    if n == 0 {
        Seq::empty()
    } else {
        rule_cells((n - 1) as nat) + " --- |"@
    }
}

/// The rows of a table, one after the other.
pub open spec fn rows_text(rows: Seq<Seq<Seq<char>>>) -> Seq<char>
    decreases rows.len(),
{
    if rows.len() == 0 {
        Seq::empty()
    } else {
        rows_text(rows.drop_last()) + row_text(rows.last())
    }
}

/// A table: its first row is its head.
pub open spec fn table_text(rows: Seq<Seq<Seq<char>>>) -> Seq<char> {
    if rows.len() == 0 {
        Seq::empty()
    } else {
        row_text(rows[0]) + "|"@ + rule_cells(rows[0].len()) + "\n"@ + rows_text(rows.skip(1))
    }
}

/// The texts of rows.
pub open spec fn row_views(rows: Seq<Vec<String>>) -> Seq<Seq<Seq<char>>> {
    rows.map_values(|r: Vec<String>| text::views(r@))
}

/// The table of the given rows.
fn markdown_table(rows: &Vec<Vec<String>>) -> (out: String)
    ensures
        out@ == table_text(row_views(rows@)),
{
    let mut out = String::new();
    if rows.len() == 0 {
        assert(out@ =~= Seq::empty());
        return out;
    }
    let ghost all = row_views(rows@);
    markdown_row(&mut out, &rows[0]);
    out.append("|");
    let ghost head = out@;
    assert(head =~= row_text(all[0]) + "|"@);
    let count: usize = rows[0].len();
    let mut i: usize = 0;
    assert(out@ =~= head + rule_cells(0));
    while i < count
        invariant
            i <= count,
            out@ == head + rule_cells(i as nat),
        decreases count - i,
    {
        out.append(" --- |");
        i = i + 1;
        assert(out@ =~= head + rule_cells(i as nat));
    }
    out.append("\n");
    let ghost top = out@;
    let ghost rest = all.skip(1);
    let mut k: usize = 1;
    assert(out@ =~= top + rows_text(rest.take(0)));
    while k < rows.len()
        invariant
            1 <= k <= rows@.len(),
            all == row_views(rows@),
            rest == all.skip(1),
            out@ == top + rows_text(rest.take(k - 1)),
        decreases rows@.len() - k,
    {
        markdown_row(&mut out, &rows[k]);
        proof {
            assert(rest.take(k as int).drop_last() =~= rest.take(k - 1));
            assert(rest.take(k as int).last() == text::views(rows@[k as int]@));
            assert(out@ =~= top + rows_text(rest.take(k as int)));
        }
        k = k + 1;
    }
    assert(rest.take(rest.len() as int) =~= rest);
    assert(out@ =~= table_text(all));
    out
}

// ---- picking cells ------------------------------------------------------------------------------

/// The part of a sheet that is read: from a row and a column on, and up to a
/// row and a column where there is an end.
pub struct Window {
    pub first_row: int,
    pub first_col: int,
    pub last: Option<(int, int)>,
}

/// The rectangle between two cells, whichever of their columns is the
/// greater.
pub open spec fn rectangle(s: (int, int), e: (int, int)) -> Window {
    Window {
        first_row: s.0,
        first_col: if s.1 <= e.1 {
            s.1
        } else {
            e.1
        },
        last: Some(
            (
                e.0,
                if s.1 <= e.1 {
                    e.1
                } else {
                    s.1
                },
            ),
        ),
    }
}

/// The row is in the window.
pub open spec fn row_inside(w: Window, row: int) -> bool {
    w.first_row <= row && (w.last matches Some((r, _)) ==> row <= r)
}

/// The column is in the window.
pub open spec fn col_inside(w: Window, col: int) -> bool {
    w.first_col <= col && (w.last matches Some((_, c)) ==> col <= c)
}

/// The rows of a sheet that are in the window. The first row given is row
/// `start` of the sheet.
pub open spec fn rows_inside(rows: Seq<Vec<Data>>, start: int, w: Window) -> Seq<Vec<Data>>
    decreases rows.len(),
{
    if rows.len() == 0 {
        Seq::empty()
    } else {
        let before = rows_inside(rows.drop_last(), start, w);
        if row_inside(w, start + rows.len() - 1) {
            before.push(rows.last())
        } else {
            before
        }
    }
}

/// What the cells of a row that are in the window show. The first cell given
/// is column `start` of the sheet.
pub open spec fn cells_inside(row: Seq<Data>, start: int, w: Window) -> Seq<Seq<char>>
    decreases row.len(),
{
    if row.len() == 0 {
        Seq::empty()
    } else {
        let before = cells_inside(row.drop_last(), start, w);
        if col_inside(w, start + row.len() - 1) {
            before.push(shown(row.last()))
        } else {
            before
        }
    }
}

/// What is shown of a row: its cells in the window, up to a number of columns.
pub open spec fn row_shown(row: Seq<Data>, start: int, w: Window) -> Seq<Seq<char>> {
    slides::first_n(cells_inside(row, start, w), MAX_COLUMNS as nat)
}

/// How many rows are returned at most.
pub open spec fn row_limit(max_rows: Option<usize>) -> nat {
    let asked = match max_rows {
        Some(n) => n as nat,
        None => DEFAULT_MAX_ROWS as nat,
    };
    if asked <= MOST_ROWS {
        asked
    } else {
        MOST_ROWS as nat
    }
}

/// The rows of the table.
pub open spec fn table_rows(
    rows: Seq<Vec<Data>>,
    start: (int, int),
    w: Window,
    max_rows: Option<usize>,
) -> Seq<Seq<Seq<char>>> {
    slides::first_n(rows_inside(rows, start.0, w), row_limit(max_rows)).map_values(
        |row: Vec<Data>| row_shown(row@, start.1, w),
    )
}

/// The cells of a row that are shown can be shown.
pub open spec fn row_fits(row: Seq<Data>, start: int, w: Window) -> bool {
    forall|j: int|
        0 <= j < row.len() && col_inside(w, start + j) && cells_inside(row.take(j), start, w).len()
            < MAX_COLUMNS ==> data_fits(#[trigger] row[j])
}

/// The rows that are returned can be shown.
pub open spec fn rows_fit(
    rows: Seq<Vec<Data>>,
    start: (int, int),
    w: Window,
    limit: nat,
) -> bool {
    forall|i: int|
        0 <= i < rows.len() && row_inside(w, start.0 + i) && rows_inside(
            rows.take(i),
            start.0,
            w,
        ).len() < limit ==> row_fits((#[trigger] rows[i])@, start.1, w)
}

/// The window of a read, or nothing where the range is not one.
pub open spec fn window_of(range: Option<Seq<char>>) -> Option<Window> {
    match range {
        None => Some(Window { first_row: 0, first_col: 0, last: None }),
        Some(r) => match cell_address::range_of(r) {
            Some((s, e)) => Some(rectangle(s, e)),
            None => None,
        },
    }
}

/// The part of a sheet that is read.
struct Part {
    first_row: usize,
    first_col: usize,
    last: Option<(usize, usize)>,
}

impl View for Part {
    type V = Window;

    closed spec fn view(&self) -> Window {
        Window {
            first_row: self.first_row as int,
            first_col: self.first_col as int,
            last: match self.last {
                Some((r, c)) => Some((r as int, c as int)),
                None => None,
            },
        }
    }
}

fn has_row(p: &Part, row: usize) -> (r: bool)
    ensures
        r == row_inside(p@, row as int),
{
    p.first_row <= row && match p.last {
        Some((last, _)) => row <= last,
        None => true,
    }
}

fn has_col(p: &Part, col: usize) -> (r: bool)
    ensures
        r == col_inside(p@, col as int),
{
    p.first_col <= col && match p.last {
        Some((_, last)) => col <= last,
        None => true,
    }
}

/// What is shown of a row.
fn show_row(row: &Vec<Data>, start_col: usize, p: &Part) -> (out: Vec<String>)
    requires
        start_col + row@.len() <= usize::MAX,
        row_fits(row@, start_col as int, p@),
    ensures
        text::views(out@) == row_shown(row@, start_col as int, p@),
{
    let mut out: Vec<String> = Vec::new();
    let mut j: usize = 0;
    let ghost w = p@;
    assert(text::views(out@) =~= Seq::empty());
    while j < row.len()
        invariant
            j <= row@.len(),
            start_col + row@.len() <= usize::MAX,
            w == p@,
            row_fits(row@, start_col as int, w),
            out@.len() <= MAX_COLUMNS,
            text::views(out@) == slides::first_n(
                cells_inside(row@.take(j as int), start_col as int, w),
                MAX_COLUMNS as nat,
            ),
        decreases row@.len() - j,
    {
        let ghost before = text::views(out@);
        let ghost cells = cells_inside(row@.take(j as int), start_col as int, w);
        proof {
            assert(row@.take(j + 1).drop_last() =~= row@.take(j as int));
            assert(row@.take(j + 1).last() == row@[j as int]);
        }
        if has_col(p, start_col + j) && out.len() < MAX_COLUMNS {
            assert(before =~= cells);
            let cell = format_data(&row[j]);
            out.push(cell);
            assert(text::views(out@) =~= before.push(cell@));
        }
        assert(text::views(out@) =~= slides::first_n(
            cells_inside(row@.take(j + 1), start_col as int, w),
            MAX_COLUMNS as nat,
        ));
        j = j + 1;
    }
    assert(row@.take(row@.len() as int) =~= row@);
    out
}

/// The rows of the table, and how many rows are in the window.
fn show_rows(
    rows: &Vec<Vec<Data>>,
    start_row: usize,
    start_col: usize,
    p: &Part,
    limit: usize,
) -> (r: (Vec<Vec<String>>, usize))
    requires
        start_row + rows@.len() <= usize::MAX,
        forall|i: int| 0 <= i < rows@.len() ==> start_col + (#[trigger] rows@[i])@.len()
            <= usize::MAX,
        rows_fit(rows@, (start_row as int, start_col as int), p@, limit as nat),
    ensures
        r.1 == rows_inside(rows@, start_row as int, p@).len(),
        row_views(r.0@) == slides::first_n(
            rows_inside(rows@, start_row as int, p@),
            limit as nat,
        ).map_values(|row: Vec<Data>| row_shown(row@, start_col as int, p@)),
{
    let ghost w = p@;
    let ghost f = |row: Vec<Data>| row_shown(row@, start_col as int, w);
    let mut out: Vec<Vec<String>> = Vec::new();
    let mut total: usize = 0;
    let mut i: usize = 0;
    assert(row_views(out@) =~= slides::first_n(
        rows_inside(rows@.take(0), start_row as int, w),
        limit as nat,
    ).map_values(f));
    while i < rows.len()
        invariant
            i <= rows@.len(),
            total <= i,
            start_row + rows@.len() <= usize::MAX,
            forall|k: int|
                0 <= k < rows@.len() ==> start_col + (#[trigger] rows@[k])@.len() <= usize::MAX,
            rows_fit(rows@, (start_row as int, start_col as int), w, limit as nat),
            w == p@,
            f == (|row: Vec<Data>| row_shown(row@, start_col as int, w)),
            total == rows_inside(rows@.take(i as int), start_row as int, w).len(),
            out@.len() <= limit,
            row_views(out@) == slides::first_n(
                rows_inside(rows@.take(i as int), start_row as int, w),
                limit as nat,
            ).map_values(f),
        decreases rows@.len() - i,
    {
        let ghost before = row_views(out@);
        let ghost picked = rows_inside(rows@.take(i as int), start_row as int, w);
        proof {
            assert(rows@.take(i + 1).drop_last() =~= rows@.take(i as int));
            assert(rows@.take(i + 1).last() == rows@[i as int]);
        }
        let ghost next = rows_inside(rows@.take(i + 1), start_row as int, w);
        if has_row(p, start_row + i) {
            total = total + 1;
            assert(next == picked.push(rows@[i as int]));
            if out.len() < limit {
                assert(picked.len() < limit) by {
                    assert(before.len() == slides::first_n(picked, limit as nat).len());
                }
                let line = show_row(&rows[i], start_col, p);
                out.push(line);
                proof {
                    assert(out@.len() == before.len() + 1);
                    assert(row_views(out@) =~= before.push(text::views(line@)));
                    assert(slides::first_n(next, limit as nat).map_values(f) =~= before.push(
                        f(rows@[i as int]),
                    ));
                }
            } else {
                proof {
                    assert(before.len() == slides::first_n(picked, limit as nat).len());
                    assert(slides::first_n(next, limit as nat) =~= slides::first_n(
                        picked,
                        limit as nat,
                    ));
                }
            }
        }
        i = i + 1;
    }
    assert(rows@.take(rows@.len() as int) =~= rows@);
    (out, total)
}

// ---- the read -----------------------------------------------------------------------------------

/// What `std` shows for a list of texts with the `{:?}` format.
pub uninterp spec fn list_shown(names: Seq<Seq<char>>) -> Seq<char>;

/// Formats a list of texts with `{:?}`. What comes out depends on the texts
/// alone.
#[verifier::external_body]
pub(crate) fn show_list(names: &Vec<String>) -> (r: String)
    ensures
        r@ == list_shown(text::views(names@)),
{
    format!("{:?}", names)
}

/// The sheet that is read, or why there is none: the one asked for if there
/// is such a sheet, else the first one.
pub open spec fn chosen_sheet(
    asked: Option<Seq<char>>,
    names: Seq<Seq<char>>,
    listed: Seq<char>,
) -> Result<Seq<char>, Seq<char>> {
    if names.len() == 0 {
        Err("the workbook contains no sheets"@)
    } else {
        match asked {
            Some(name) => if names.contains(name) {
                Ok(name)
            } else {
                Err("sheet `"@ + name + "` not found; available sheets: "@ + listed)
            },
            None => Ok(names[0]),
        }
    }
}

/// A result by its contents.
pub open spec fn text_result(r: Result<String, String>) -> Result<Seq<char>, Seq<char>> {
    match r {
        Ok(s) => Ok(s@),
        Err(e) => Err(e@),
    }
}

/// The sheet that is read, given how the list of sheets is shown.
pub fn choose_sheet_given(asked: &Option<String>, names: &Vec<String>, listed: &str) -> (r: Result<
    String,
    String,
>)
    ensures
        text_result(r) == chosen_sheet(text::opt_view(*asked), text::views(names@), listed@),
{
    if names.len() == 0 {
        return Err(copy_str("the workbook contains no sheets"));
    }
    match asked {
        Some(name) => {
            if crate::models::contains_text(names, name.as_str()) {
                Ok(copy_str(name.as_str()))
            } else {
                let mut out = copy_str("sheet `");
                out.append(name.as_str());
                out.append("` not found; available sheets: ");
                out.append(listed);
                Err(out)
            }
        },
        None => Ok(copy_str(names[0].as_str())),
    }
}

/// The sheet that is read, or why there is none.
pub fn choose_sheet(asked: &Option<String>, names: &Vec<String>) -> (r: Result<String, String>)
    ensures
        text_result(r) == chosen_sheet(
            text::opt_view(*asked),
            text::views(names@),
            list_shown(text::views(names@)),
        ),
{
    let listed = show_list(names);
    choose_sheet_given(asked, names, listed.as_str())
}

/// A sheet as it was read: where its used range starts, and the rows of that.
#[derive(Debug)]
pub struct SheetData {
    pub start: Option<(u32, u32)>,
    pub rows: Vec<Vec<Data>>,
}

/// Where the used range starts.
pub open spec fn start_of(sheet: SheetData) -> (int, int) {
    match sheet.start {
        Some((r, c)) => (r as int, c as int),
        None => (0, 0),
    }
}

/// The rows and columns of a sheet can be counted, and the cells that are read
/// be shown. Nothing is read where the range is not one.
pub open spec fn sheet_fits(
    sheet: SheetData,
    window: Option<Window>,
    max_rows: Option<usize>,
) -> bool {
    window matches Some(w) ==> {
        &&& start_of(sheet).0 + sheet.rows@.len() <= usize::MAX
        &&& forall|i: int|
            0 <= i < sheet.rows@.len() ==> start_of(sheet).1 + (#[trigger] sheet.rows@[i])@.len()
                <= usize::MAX
        &&& rows_fit(sheet.rows@, start_of(sheet), w, row_limit(max_rows))
    }
}

/// What is read of a sheet: the rows in the window, up to a number of rows.
pub open spec fn is_read(
    r: SpreadsheetRead,
    sheet: Seq<char>,
    names: Seq<Seq<char>>,
    data: SheetData,
    w: Window,
    max_rows: Option<usize>,
) -> bool {
    let rows = table_rows(data.rows@, start_of(data), w, max_rows);
    &&& r.sheet@ == sheet
    &&& text::views(r.sheets@) == names
    &&& r.rows_total == rows_inside(data.rows@, start_of(data).0, w).len()
    &&& r.rows_returned == rows.len()
    &&& r.truncated == (r.rows_returned < r.rows_total)
    &&& r.table_markdown@ == table_text(rows)
}

/// The part that a read asks for, or nothing where the range is not one.
fn part_of(range: &Option<String>) -> (r: Option<Part>)
    requires
        range matches Some(t) ==> cell_address::range_fits(t@),
    ensures
        match r {
            Some(p) => window_of(text::opt_view(*range)) == Some(p@),
            None => window_of(text::opt_view(*range)) is None,
        },
{
    match range {
        None => Some(Part { first_row: 0, first_col: 0, last: None }),
        Some(t) => match parse_cell_range(t.as_str()) {
            Some((s, e)) => {
                let (c1, c2): (usize, usize) = if s.1 <= e.1 {
                    (s.1, e.1)
                } else {
                    (e.1, s.1)
                };
                Some(Part { first_row: s.0, first_col: c1, last: Some((e.0, c2)) })
            },
            None => None,
        },
    }
}

/// How many rows are returned at most.
fn limit_of(max_rows: Option<usize>) -> (n: usize)
    ensures
        n == row_limit(max_rows),
{
    let asked: usize = match max_rows {
        Some(n) => n,
        None => DEFAULT_MAX_ROWS,
    };
    if asked <= MOST_ROWS {
        asked
    } else {
        MOST_ROWS
    }
}

/// Where the used range starts.
fn start_cell(data: &SheetData) -> (r: (usize, usize))
    ensures
        (r.0 as int, r.1 as int) == start_of(*data),
{
    match data.start {
        Some((r, c)) => (r as usize, c as usize),
        None => (0, 0),
    }
}

/// Whether the cells of a row that are shown can be shown.
fn row_in_range(row: &Vec<Data>, start_col: usize, p: &Part) -> (r: bool)
    requires
        start_col + row@.len() <= usize::MAX,
    ensures
        r == row_fits(row@, start_col as int, p@),
{
    let mut count: usize = 0;
    let mut j: usize = 0;
    let ghost w = p@;
    while j < row.len()
        invariant
            j <= row@.len(),
            start_col + row@.len() <= usize::MAX,
            w == p@,
            count <= j,
            count == cells_inside(row@.take(j as int), start_col as int, w).len(),
            forall|k: int|
                0 <= k < j && col_inside(w, start_col + k) && cells_inside(
                    row@.take(k),
                    start_col as int,
                    w,
                ).len() < MAX_COLUMNS ==> data_fits(#[trigger] row@[k]),
        decreases row@.len() - j,
    {
        proof {
            assert(row@.take(j + 1).drop_last() =~= row@.take(j as int));
        }
        if has_col(p, start_col + j) {
            if count < MAX_COLUMNS && !data_in_range(&row[j]) {
                assert(!data_fits(row@[j as int]));
                return false;
            }
            count = count + 1;
        }
        j = j + 1;
    }
    true
}

/// Whether the rows and columns of a sheet can be counted, and the cells that
/// are read be shown.
pub fn sheet_in_range(input: &ReadSpreadsheetToolInput, data: &SheetData) -> (r: bool)
    requires
        input.range matches Some(range) ==> cell_address::range_fits(range@),
    ensures
        r == sheet_fits(*data, window_of(text::opt_view(input.range)), input.max_rows),
{
    let part = match part_of(&input.range) {
        Some(part) => part,
        None => {
            return true;
        },
    };
    let (start_row, start_col): (usize, usize) = start_cell(data);
    let limit: usize = limit_of(input.max_rows);
    let rows = &data.rows;
    if rows.len() > usize::MAX - start_row {
        return false;
    }
    let mut total: usize = 0;
    let mut narrow = true;
    let mut fits = true;
    let mut i: usize = 0;
    let ghost w = part@;
    let ghost start = start_of(*data);
    while i < rows.len()
        invariant
            i <= rows@.len(),
            total <= i,
            start == (start_row as int, start_col as int),
            start_row + rows@.len() <= usize::MAX,
            w == part@,
            total == rows_inside(rows@.take(i as int), start.0, w).len(),
            narrow == (forall|k: int|
                0 <= k < i ==> start.1 + (#[trigger] rows@[k])@.len() <= usize::MAX),
            narrow ==> fits == (forall|k: int|
                0 <= k < i && row_inside(w, start.0 + k) && rows_inside(
                    rows@.take(k),
                    start.0,
                    w,
                ).len() < limit ==> row_fits((#[trigger] rows@[k])@, start.1, w)),
        decreases rows@.len() - i,
    {
        proof {
            assert(rows@.take(i + 1).drop_last() =~= rows@.take(i as int));
        }
        let ghost line = rows@[i as int];
        if rows[i].len() > usize::MAX - start_col {
            narrow = false;
            assert(start.1 + line@.len() > usize::MAX);
        }
        if has_row(&part, start_row + i) {
            if narrow && total < limit && !row_in_range(&rows[i], start_col, &part) {
                fits = false;
                assert(!row_fits(line@, start.1, w));
            }
            total = total + 1;
        }
        i = i + 1;
    }
    narrow && fits
}

/// What is read of a sheet. Fails where the range is not one.
pub fn read_sheet(
    input: &ReadSpreadsheetToolInput,
    sheet: String,
    names: Vec<String>,
    data: &SheetData,
) -> (r: Result<SpreadsheetRead, String>)
    requires
        input.range matches Some(range) ==> cell_address::range_fits(range@),
        sheet_fits(*data, window_of(text::opt_view(input.range)), input.max_rows),
    ensures
        match window_of(text::opt_view(input.range)) {
            Some(w) => r matches Ok(read) && is_read(
                read,
                sheet@,
                text::views(names@),
                *data,
                w,
                input.max_rows,
            ),
            None => r matches Err(e) && e@ == "invalid range `"@ + text::opt_view(input.range)->0
                + "`"@,
        },
{
    let part = match part_of(&input.range) {
        Some(part) => part,
        None => {
            let mut out = copy_str("invalid range `");
            if let Some(range) = &input.range {
                out.append(range.as_str());
            }
            out.append("`");
            return Err(out);
        },
    };
    let (start_row, start_col): (usize, usize) = start_cell(data);
    let limit: usize = limit_of(input.max_rows);
    let (rows, total) = show_rows(&data.rows, start_row, start_col, &part, limit);
    let table_markdown = markdown_table(&rows);
    let returned: usize = rows.len();
    proof {
        assert(row_views(rows@) =~= table_rows(
            data.rows@,
            start_of(*data),
            part@,
            input.max_rows,
        ));
    }
    Ok(
        SpreadsheetRead {
            sheet,
            sheets: names,
            rows_total: total,
            rows_returned: returned,
            truncated: total > returned,
            table_markdown,
        },
    )
}

/// What the reading tool gives back.
pub fn read_impl(read: Result<SpreadsheetRead, String>) -> (out: ReadSpreadsheetToolOutput)
    ensures
        match read {
            Ok(r) => out == ReadSpreadsheetToolOutput::Success(r),
            Err(e) => out matches ReadSpreadsheetToolOutput::Error { error } && error@ == e@,
        },
{
    match read {
        Ok(r) => ReadSpreadsheetToolOutput::Success(r),
        Err(error) => ReadSpreadsheetToolOutput::Error { error },
    }
}

/// What is shown of a read, given how the list of sheets is shown.
pub open spec fn read_text(read: SpreadsheetRead, listed: Seq<char>) -> Seq<char> {
    "Sheets: "@ + listed + ". Reading `"@ + read.sheet@ + "`: "@ + text::decimal(
        read.rows_returned as nat,
    ) + " of "@ + text::decimal(read.rows_total as nat) + " rows"@ + (if read.truncated {
        " (truncated — call again with a `range` for the rest)"@
    } else {
        ""@
    }) + ".\n\n"@ + read.table_markdown@
}

/// What is shown of a read, given how the list of sheets is shown.
pub fn read_content(read: &SpreadsheetRead, listed: &str) -> (out: String)
    ensures
        out@ == read_text(*read, listed@),
{
    let mut out = copy_str("Sheets: ");
    out.append(listed);
    out.append(". Reading `");
    out.append(read.sheet.as_str());
    out.append("`: ");
    let returned = decimal_of_usize(read.rows_returned);
    out.append(returned.as_str());
    out.append(" of ");
    let total = decimal_of_usize(read.rows_total);
    out.append(total.as_str());
    out.append(" rows");
    if read.truncated {
        out.append(" (truncated — call again with a `range` for the rest)");
    } else {
        out.append("");
    }
    out.append(".\n\n");
    out.append(read.table_markdown.as_str());
    out
}

impl ReadSpreadsheetToolOutput {
    /// The text of the tool result.
    pub fn content(self) -> (out: String)
        ensures
            out@ == match self {
                ReadSpreadsheetToolOutput::Success(read) => read_text(
                    read,
                    list_shown(text::views(read.sheets@)),
                ),
                ReadSpreadsheetToolOutput::Error { error } => error@,
            },
    {
        match self {
            ReadSpreadsheetToolOutput::Success(read) => {
                let listed = show_list(&read.sheets);
                read_content(&read, listed.as_str())
            },
            ReadSpreadsheetToolOutput::Error { error } => error,
        }
    }
}

// ---- laws -----------------------------------------------------------------------------------------

/// A read never returns more rows than asked for, nor more than the most, and
/// says that rows are missing exactly where some are.
pub proof fn law_read_is_bounded(
    r: SpreadsheetRead,
    sheet: Seq<char>,
    names: Seq<Seq<char>>,
    data: SheetData,
    w: Window,
    max_rows: Option<usize>,
)
    requires
        is_read(r, sheet, names, data, w, max_rows),
    ensures
        r.rows_returned <= row_limit(max_rows),
        r.rows_returned <= 2000,
        r.rows_returned <= r.rows_total,
        r.truncated <==> r.rows_total > row_limit(max_rows),
{
}

/// A row of the table has no more columns than the most.
pub proof fn law_rows_are_narrow(
    rows: Seq<Vec<Data>>,
    start: (int, int),
    w: Window,
    max_rows: Option<usize>,
    i: int,
)
    requires
        0 <= i < table_rows(rows, start, w, max_rows).len(),
    ensures
        table_rows(rows, start, w, max_rows)[i].len() <= 60,
{
}

/// A cell that holds a whole number is shown as the text that reads back as
/// that number, with a minus sign exactly where it is negative, so that cells
/// with different whole numbers are shown differently.
pub proof fn law_whole_numbers_read_back(data: Data, n: i64)
    requires
        data == Data::Int(n) || (data is Float && data->whole == Some(n)),
    ensures
        text::number_read(shown(data)) == n,
        shown(data).len() > 0,
        shown(data)[0] == '-' <==> n < 0,
        text::all_digits(
            if n < 0 {
                shown(data).skip(1)
            } else {
                shown(data)
            },
        ),
        n != 0 ==> shown(data)[if n < 0 {
            1
        } else {
            0int
        }] != '0',
{
    text::law_integer_reads_back(n as int);
}

/// A cell that holds a text is shown as that text, whole; so is a number that
/// is not whole, and a date or a duration that is a text. An empty cell shows
/// nothing, and a truth value its name.
pub proof fn law_texts_are_shown_whole(data: Data)
    ensures
        data matches Data::Text(t) ==> shown(data) == t@,
        data matches Data::DateTimeIso(t) ==> shown(data) == t@,
        data matches Data::DurationIso(t) ==> shown(data) == t@,
        data matches Data::Float { whole: None, text: t } ==> shown(data) == t@,
        data is Empty ==> shown(data).len() == 0,
        data == Data::Bool(true) ==> shown(data) == seq!['t', 'r', 'u', 'e'],
        data == Data::Bool(false) ==> shown(data) == seq!['f', 'a', 'l', 's', 'e'],
{
    reveal_strlit("true");
    reveal_strlit("false");
    assert("true"@ =~= seq!['t', 'r', 'u', 'e']);
    assert("false"@ =~= seq!['f', 'a', 'l', 's', 'e']);
}

/// A date and time is shown as the second of the Unix epoch that it is: the
/// Unix epoch is day 25569, a day has 86400 seconds. Where there is no such
/// date, its number is shown.
pub proof fn law_dates_count_from_the_epoch(days: i64, second: i64, serial: String, secs: i64)
    requires
        secs == (days - 25569) * 86400 + second,
    ensures
        ({
            let data = Data::DateTime { days, second, text: serial };
            &&& timestamp_shown(secs) matches Some(d) ==> shown(data) == d
            &&& timestamp_shown(secs) is None ==> shown(data) == serial@
        }),
{
}

/// Errors are told apart, and each is shown behind a hash.
pub proof fn law_errors_are_told_apart(a: CellError, b: CellError)
    ensures
        shown(Data::Error(a)) == shown(Data::Error(b)) ==> a == b,
        shown(Data::Error(a)).len() > 1,
        shown(Data::Error(a))[0] == '#',
{
    reveal_strlit("#Div0");
    reveal_strlit("#NA");
    reveal_strlit("#Name");
    reveal_strlit("#Null");
    reveal_strlit("#Num");
    reveal_strlit("#Ref");
    reveal_strlit("#Value");
    reveal_strlit("#GettingData");
    let x = error_name(a);
    let y = error_name(b);
    if x == y {
        assert(x.len() == y.len());
        assert(x[1] == y[1]);
        assert(x[2] == y[2]);
        assert(x.len() > 3 ==> x[3] == y[3]);
    }
}

/// The cells that a row of a table stands for, from position `i` on: what
/// stands between bars, where a bar behind a backslash does not count as one.
pub open spec fn cells_read(t: Seq<char>, i: int) -> Seq<Seq<char>>
    decreases t.len() - i,
{
    if i < 0 || i >= t.len() {
        seq![Seq::empty()]
    } else if t[i] == '|' {
        seq![Seq::empty()] + cells_read(t, i + 1)
    } else if t[i] == '\\' && i + 1 < t.len() && t[i + 1] == '|' {
        with_first('|', cells_read(t, i + 2))
    } else {
        with_first(t[i], cells_read(t, i + 1))
    }
}

/// Cells with a character before the first.
pub open spec fn with_first(c: char, cells: Seq<Seq<char>>) -> Seq<Seq<char>> {
    cells.update(0, seq![c] + cells[0])
}

/// A text before the first of some cells.
spec fn in_front(head: Seq<char>, cells: Seq<Seq<char>>) -> Seq<Seq<char>> {
    cells.update(0, head + cells[0])
}

proof fn lemma_cells_there(t: Seq<char>, i: int)
    ensures
        cells_read(t, i).len() > 0,
    decreases t.len() - i,
{
    if i < 0 || i >= t.len() {
    } else if t[i] == '|' {
        lemma_cells_there(t, i + 1);
    } else if t[i] == '\\' && i + 1 < t.len() && t[i + 1] == '|' {
        lemma_cells_there(t, i + 2);
    } else {
        lemma_cells_there(t, i + 1);
    }
}

/// Reading depends on what stands from the position on.
proof fn lemma_read_shift(t: Seq<char>, i: int)
    requires
        0 <= i <= t.len(),
    ensures
        cells_read(t, i) == cells_read(t.skip(i), 0),
    decreases t.len() - i,
{
    let u = t.skip(i);
    if i < t.len() {
        assert(u[0] == t[i]);
        if t[i] == '|' {
            lemma_read_shift(t, i + 1);
            lemma_read_shift(u, 1);
            assert(u.skip(1) =~= t.skip(i + 1));
        } else if t[i] == '\\' && i + 1 < t.len() && t[i + 1] == '|' {
            assert(u[1] == t[i + 1]);
            lemma_read_shift(t, i + 2);
            lemma_read_shift(u, 2);
            assert(u.skip(2) =~= t.skip(i + 2));
        } else {
            if i + 1 < t.len() {
                assert(u[1] == t[i + 1]);
            }
            lemma_read_shift(t, i + 1);
            lemma_read_shift(u, 1);
            assert(u.skip(1) =~= t.skip(i + 1));
        }
    }
}

proof fn lemma_plain_char(c: char, rest: Seq<char>)
    requires
        c != '|',
        c != '\\' || rest.len() == 0 || rest[0] != '|',
    ensures
        cells_read(seq![c] + rest, 0) == with_first(c, cells_read(rest, 0)),
{
    let t = seq![c] + rest;
    assert(t.skip(1) =~= rest);
    lemma_read_shift(t, 1);
    if rest.len() > 0 {
        assert(t[1] == rest[0]);
    }
}

proof fn lemma_bar(rest: Seq<char>)
    ensures
        cells_read(seq!['|'] + rest, 0) == seq![Seq::<char>::empty()] + cells_read(rest, 0),
{
    let t = seq!['|'] + rest;
    assert(t.skip(1) =~= rest);
    lemma_read_shift(t, 1);
}

proof fn lemma_escaped_front(cell: Seq<char>)
    ensures
        cell.len() > 0 ==> escaped_cell(cell) == if cell[0] == '|' {
            seq!['\\', '|'] + escaped_cell(cell.skip(1))
        } else {
            seq![cell[0]] + escaped_cell(cell.skip(1))
        },
        cell.len() == 0 ==> escaped_cell(cell) == Seq::<char>::empty(),
        escaped_cell(cell).len() > 0 ==> escaped_cell(cell)[0] != '|',
{
    reveal_strlit("|");
    reveal_strlit("\\|");
    assert("|"@ =~= seq!['|']);
    assert("\\|"@ =~= seq!['\\', '|']);
    if cell.len() > 0 {
        entities::lemma_replace_shift(cell, "|"@, "\\|"@, 1);
        if cell[0] == '|' {
            assert(cell.subrange(0, 1) =~= "|"@);
            assert(text::matches_at(cell, "|"@, 0));
        } else {
            if text::matches_at(cell, "|"@, 0) {
                assert(cell.subrange(0, 1)[0] == '|');
            }
        }
    }
}

/// A cell, escaped and followed by something that is no bar, is read as the
/// cell.
proof fn lemma_cell_read(cell: Seq<char>, rest: Seq<char>)
    requires
        rest.len() > 0,
        rest[0] != '|',
    ensures
        cells_read(escaped_cell(cell) + rest, 0) == in_front(cell, cells_read(rest, 0)),
    decreases cell.len(),
{
    lemma_cells_there(rest, 0);
    lemma_escaped_front(cell);
    let read = cells_read(rest, 0);
    if cell.len() == 0 {
        assert(escaped_cell(cell) + rest =~= rest);
        assert(cell + read[0] =~= read[0]);
        assert(in_front(cell, read) =~= read);
    } else {
        let tail = cell.skip(1);
        let u = escaped_cell(tail) + rest;
        lemma_cell_read(tail, rest);
        lemma_escaped_front(tail);
        if cell[0] == '|' {
            let t = escaped_cell(cell) + rest;
            assert(t =~= seq!['\\', '|'] + u);
            assert(t.skip(2) =~= u);
            lemma_read_shift(t, 2);
        } else {
            assert(escaped_cell(cell) + rest =~= seq![cell[0]] + u);
            assert(u[0] != '|') by {
                if escaped_cell(tail).len() == 0 {
                    assert(u[0] == rest[0]);
                } else {
                    assert(u[0] == escaped_cell(tail)[0]);
                }
            }
            lemma_plain_char(cell[0], u);
        }
        assert(seq![cell[0]] + (tail + read[0]) =~= cell + read[0]);
        assert(cells_read(escaped_cell(cell) + rest, 0) =~= in_front(cell, read));
    }
}

/// The cells of a row as a table shows them: each between spaces, with nothing
/// before the first bar and the end of the line behind the last.
pub open spec fn between_bars(row: Seq<Seq<char>>) -> Seq<Seq<char>> {
    seq![Seq::<char>::empty()] + row.map_values(
        |c: Seq<char>| seq![' '] + c + seq![' '],
    ).push(seq![' ', '\n'])
}

spec fn cells_onward(row: Seq<Seq<char>>) -> Seq<Seq<char>> {
    row.map_values(|c: Seq<char>| seq![' '] + c + seq![' ']).push(seq![' ', '\n'])
}

/// The cells of a row from the front, each followed by a bar.
spec fn cells_front(row: Seq<Seq<char>>) -> Seq<char>
    decreases row.len(),
{
    if row.len() == 0 {
        Seq::empty()
    } else {
        escaped_cell(row[0]) + " | "@ + cells_front(row.skip(1))
    }
}

proof fn lemma_cells_front(row: Seq<Seq<char>>)
    ensures
        row_cells(row) == cells_front(row),
    decreases row.len(),
{
    if row.len() == 1 {
        assert(row.drop_last() =~= Seq::empty());
        assert(row.skip(1) =~= Seq::empty());
        assert(row_cells(row.drop_last()) =~= Seq::empty());
        assert(cells_front(row.skip(1)) =~= Seq::empty());
        assert(row_cells(row) =~= cells_front(row));
    } else if row.len() > 1 {
        lemma_cells_front(row.drop_last());
        lemma_cells_front(row.skip(1));
        lemma_cells_front(row.drop_last().skip(1));
        assert(row.drop_last().skip(1) =~= row.skip(1).drop_last());
        assert(row_cells(row) =~= cells_front(row));
    }
}

proof fn lemma_row_read(row: Seq<Seq<char>>)
    ensures
        cells_read(seq![' '] + cells_front(row) + seq!['\n'], 0) == cells_onward(row),
    decreases row.len(),
{
    reveal_strlit(" | ");
    assert(" | "@ =~= seq![' ', '|', ' ']);
    let t = seq![' '] + cells_front(row) + seq!['\n'];
    if row.len() == 0 {
        let end = seq!['\n'];
        let none = Seq::<char>::empty();
        assert(t =~= seq![' '] + end);
        assert(end =~= seq!['\n'] + none);
        lemma_plain_char(' ', end);
        lemma_plain_char('\n', none);
        assert(cells_read(none, 0) =~= seq![none]);
        assert(cells_read(end, 0) =~= seq![seq!['\n'] + none]);
        assert(seq!['\n'] + none =~= seq!['\n']);
        assert(seq![' '] + seq!['\n'] =~= seq![' ', '\n']);
        assert(cells_read(t, 0) =~= cells_onward(row));
    } else {
        let rest = row.skip(1);
        let u = seq![' '] + cells_front(rest) + seq!['\n'];
        let barred = seq!['|'] + u;
        let spaced = seq![' '] + barred;
        let v = escaped_cell(row[0]) + spaced;
        lemma_row_read(rest);
        lemma_bar(u);
        lemma_plain_char(' ', barred);
        lemma_cell_read(row[0], spaced);
        lemma_escaped_front(row[0]);
        assert(t =~= seq![' '] + v);
        lemma_plain_char(' ', v);
        let none = Seq::<char>::empty();
        let onward = cells_onward(rest);
        assert(cells_read(barred, 0) == seq![none] + onward);
        assert(seq![' '] + none =~= seq![' ']);
        assert(cells_read(spaced, 0) =~= seq![seq![' ']] + onward);
        assert(cells_read(v, 0) =~= seq![row[0] + seq![' ']] + onward);
        assert(seq![' '] + (row[0] + seq![' ']) =~= seq![' '] + row[0] + seq![' ']);
        assert(cells_read(t, 0) =~= seq![seq![' '] + row[0] + seq![' ']] + onward);
        assert(seq![seq![' '] + row[0] + seq![' ']] + onward =~= cells_onward(row));
    }
}

/// Whatever its cells hold, bars and backslashes among it, a row of a table
/// reads back as its cells, each of them whole and in its place.
pub proof fn law_row_reads_back(row: Seq<Seq<char>>)
    ensures
        cells_read(row_text(row), 0) == between_bars(row),
{
    reveal_strlit("| ");
    reveal_strlit("\n");
    assert("| "@ =~= seq!['|', ' ']);
    assert("\n"@ =~= seq!['\n']);
    lemma_cells_front(row);
    lemma_row_read(row);
    let u = seq![' '] + cells_front(row) + seq!['\n'];
    assert(row_text(row) =~= seq!['|'] + u);
    lemma_bar(u);
    assert(cells_read(row_text(row), 0) =~= between_bars(row));
}

/// A table is its first row, a line of rules with one for each of its cells,
/// and its other rows, each a line of its own, in order.
pub proof fn law_table_is_its_rows(rows: Seq<Seq<Seq<char>>>, last: Seq<Seq<char>>)
    ensures
        table_text(Seq::empty()).len() == 0,
        table_text(seq![last]) == row_text(last) + seq!['|'] + rule_cells(last.len()) + seq!['\n'],
        rows.len() > 0 ==> table_text(rows.push(last)) == table_text(rows) + row_text(last),
        rule_cells(last.len()).len() == 6 * last.len(),
        forall|j: int|
            0 <= j < last.len() ==> #[trigger] rule_cells(last.len()).subrange(6 * j, 6 * j + 6)
                == seq![' ', '-', '-', '-', ' ', '|'],
{
    reveal_strlit("|");
    reveal_strlit("\n");
    assert("|"@ =~= seq!['|']);
    assert("\n"@ =~= seq!['\n']);
    lemma_rules(last.len());
    let one = seq![last];
    assert(one.skip(1) =~= Seq::empty());
    assert(rows_text(one.skip(1)) =~= Seq::empty());
    assert(table_text(one) =~= row_text(last) + seq!['|'] + rule_cells(last.len()) + seq!['\n']);
    if rows.len() > 0 {
        let more = rows.push(last);
        assert(more.skip(1).drop_last() =~= rows.skip(1));
        assert(more.skip(1).last() == last);
        assert(more[0] == rows[0]);
        assert(table_text(more) =~= table_text(rows) + row_text(last));
    }
}

proof fn lemma_rules(n: nat)
    ensures
        rule_cells(n).len() == 6 * n,
        forall|j: int|
            0 <= j < n ==> #[trigger] rule_cells(n).subrange(6 * j, 6 * j + 6) == seq![
                ' ',
                '-',
                '-',
                '-',
                ' ',
                '|',
            ],
    decreases n,
{
    reveal_strlit(" --- |");
    let one = seq![' ', '-', '-', '-', ' ', '|'];
    assert(" --- |"@ =~= one);
    if n > 0 {
        let m = (n - 1) as nat;
        lemma_rules(m);
        assert forall|j: int| 0 <= j < n implies #[trigger] rule_cells(n).subrange(6 * j, 6 * j + 6)
            == one by {
            if j < m {
                assert(rule_cells(n).subrange(6 * j, 6 * j + 6) =~= rule_cells(m).subrange(
                    6 * j,
                    6 * j + 6,
                ));
            } else {
                assert(rule_cells(n).subrange(6 * j, 6 * j + 6) =~= one);
            }
        }
    }
}

/// How many of the rows or columns that begin at `start` stand before `first`.
pub open spec fn before_first(first: int, start: int) -> int {
    if first > start {
        first - start
    } else {
        0
    }
}

/// How many of the `count` rows or columns that begin at `start` stand up to
/// `last`, that one among them; all where there is no last.
pub open spec fn up_to_last(last: Option<int>, start: int, count: int) -> int {
    match last {
        None => count,
        Some(l) => if l - start + 1 <= 0 {
            0
        } else if l - start + 1 <= count {
            l - start + 1
        } else {
            count
        },
    }
}

/// The items from place `a` up to place `b`; none where `b` is not behind `a`.
pub open spec fn stretch<T>(items: Seq<T>, a: int, b: int) -> Seq<T> {
    if a < b {
        items.subrange(a, b)
    } else {
        Seq::empty()
    }
}

/// The last row of a window, if it has one.
pub open spec fn last_row(w: Window) -> Option<int> {
    match w.last {
        Some((r, _)) => Some(r),
        None => None,
    }
}

/// The last column of a window, if it has one.
pub open spec fn last_col(w: Window) -> Option<int> {
    match w.last {
        Some((_, c)) => Some(c),
        None => None,
    }
}

/// The rows that are read are those from the first row of the window up to its
/// last, all of them and in order.
pub proof fn law_rows_of_the_window_are_read(rows: Seq<Vec<Data>>, start: int, w: Window)
    ensures
        rows_inside(rows, start, w) == stretch(
            rows,
            before_first(w.first_row, start),
            up_to_last(last_row(w), start, rows.len() as int),
        ),
    decreases rows.len(),
{
    let a = before_first(w.first_row, start);
    let b = up_to_last(last_row(w), start, rows.len() as int);
    if rows.len() > 0 {
        let rest = rows.drop_last();
        law_rows_of_the_window_are_read(rest, start, w);
    }
    assert(rows_inside(rows, start, w) =~= stretch(rows, a, b));
}

/// The cells that are shown of a row are those from the first column of the
/// window up to its last, all of them and in order.
pub proof fn law_cells_of_the_window_are_shown(row: Seq<Data>, start: int, w: Window)
    ensures
        cells_inside(row, start, w) == stretch(
            row,
            before_first(w.first_col, start),
            up_to_last(last_col(w), start, row.len() as int),
        ).map_values(|d: Data| shown(d)),
    decreases row.len(),
{
    let a = before_first(w.first_col, start);
    let b = up_to_last(last_col(w), start, row.len() as int);
    if row.len() > 0 {
        law_cells_of_the_window_are_shown(row.drop_last(), start, w);
    }
    assert(cells_inside(row, start, w) =~= stretch(row, a, b).map_values(|d: Data| shown(d)));
}

/// The window of a range between two cells is the rectangle that they span,
/// and without a range all is read.
pub proof fn law_range_is_the_window(r1: nat, c1: nat, r2: nat, c2: nat)
    requires
        r1 < usize::MAX,
        c1 < usize::MAX,
        r2 < usize::MAX,
        c2 < usize::MAX,
    ensures
        ({
            let range = cell_address::cell_address(r1, c1) + seq![':']
                + cell_address::cell_address(r2, c2);
            &&& window_of(Some(range)) matches Some(w) && {
                &&& w.first_row == if r1 <= r2 { r1 } else { r2 }
                &&& w.first_col == if c1 <= c2 { c1 } else { c2 }
                &&& last_row(w) == Some(if r1 <= r2 { r2 as int } else { r1 as int })
                &&& last_col(w) == Some(if c1 <= c2 { c2 as int } else { c1 as int })
            }
        }),
        window_of(None) matches Some(w) && w.first_row == 0 && w.first_col == 0 && w.last is None,
{
    cell_address::law_range_spans_its_cells(r1, c1, r2, c2);
}

/// How many rows a read returns at most: as many as were asked for, two
/// hundred unless told otherwise, two thousand at the very most.
pub proof fn law_row_limit(max_rows: Option<usize>)
    ensures
        max_rows is None ==> row_limit(max_rows) == 200,
        max_rows matches Some(n) ==> row_limit(max_rows) == if n <= 2000 {
            n as nat
        } else {
            2000
        },
{
}

/// What a read returns: of the rows of the window as many as may be returned,
/// from the first on; of each its cells in the window, sixty at most; and how
/// many rows there are. Row `k` and column `j` of the table show the cell that
/// stands that many rows and columns behind the first of the window.
pub proof fn law_read_shows_the_cells(
    r: SpreadsheetRead,
    sheet: Seq<char>,
    names: Seq<Seq<char>>,
    data: SheetData,
    w: Window,
    max_rows: Option<usize>,
    rows: Seq<Seq<Seq<char>>>,
    k: int,
    j: int,
)
    requires
        is_read(r, sheet, names, data, w, max_rows),
        rows == table_rows(data.rows@, start_of(data), w, max_rows),
    ensures
        r.sheet@ == sheet,
        text::views(r.sheets@) == names,
        r.table_markdown@ == table_text(rows),
        ({
            let (row0, col0) = match data.start {
                Some((a, b)) => (a as int, b as int),
                None => (0int, 0int),
            };
            let first = before_first(w.first_row, row0);
            let end = up_to_last(last_row(w), row0, data.rows@.len() as int);
            let total = if first < end {
                end - first
            } else {
                0
            };
            let left = before_first(w.first_col, col0);
            &&& r.rows_total == total
            &&& r.rows_returned == rows.len()
            &&& rows.len() == if total <= row_limit(max_rows) {
                total
            } else {
                row_limit(max_rows) as int
            }
            &&& r.truncated <==> rows.len() < total
            &&& 0 <= k < rows.len() ==> {
                let row = data.rows@[first + k]@;
                let right = up_to_last(last_col(w), col0, row.len() as int);
                let width = if left < right {
                    right - left
                } else {
                    0
                };
                &&& rows[k].len() == if width <= 60 {
                    width
                } else {
                    60
                }
                &&& 0 <= j < rows[k].len() ==> rows[k][j] == shown(row[left + j])
            }
        }),
{
    let start = start_of(data);
    law_rows_of_the_window_are_read(data.rows@, start.0, w);
    let picked = rows_inside(data.rows@, start.0, w);
    let first = before_first(w.first_row, start.0);
    if 0 <= k < rows.len() {
        let line = picked[k];
        assert(line == data.rows@[first + k]);
        law_cells_of_the_window_are_shown(line@, start.1, w);
        assert(rows[k] == row_shown(line@, start.1, w));
    }
}

/// The sheet that is read is the one that was asked for, and the first where
/// none was; one that is not there is refused, and the error names it.
pub proof fn law_sheet_is_the_one_asked_for(
    asked: Option<Seq<char>>,
    names: Seq<Seq<char>>,
    listed: Seq<char>,
)
    requires
        names.len() > 0,
    ensures
        asked is None ==> chosen_sheet(asked, names, listed) == Ok::<Seq<char>, Seq<char>>(names[0]),
        asked matches Some(name) ==> {
            &&& (exists|i: int| 0 <= i < names.len() && #[trigger] names[i] == name) ==> chosen_sheet(
                asked,
                names,
                listed,
            ) == Ok::<Seq<char>, Seq<char>>(name)
            &&& (forall|i: int| 0 <= i < names.len() ==> #[trigger] names[i] != name) ==> {
                &&& chosen_sheet(asked, names, listed) is Err
                &&& text::contains(chosen_sheet(asked, names, listed)->Err_0, name)
                &&& text::ends_with(chosen_sheet(asked, names, listed)->Err_0, listed)
            }
        },
{
    if let Some(name) = asked {
        if !names.contains(name) {
            let e = chosen_sheet(asked, names, listed)->Err_0;
            let a = "sheet `"@.len() as int;
            assert(e.subrange(a, a + name.len()) =~= name);
            assert(text::matches_at(e, name, a));
            assert(e.subrange(e.len() - listed.len(), e.len() as int) =~= listed);
        }
    }
}

/// What is shown of a read begins with the list of sheets and ends with the
/// table, whole.
pub proof fn law_read_text_holds_the_table(read: SpreadsheetRead, listed: Seq<char>)
    ensures
        text::starts_with(read_text(read, listed), "Sheets: "@ + listed),
        text::ends_with(read_text(read, listed), read.table_markdown@),
{
    let t = read_text(read, listed);
    let head = "Sheets: "@ + listed;
    let table = read.table_markdown@;
    assert(t.subrange(0, head.len() as int) =~= head);
    assert(t.subrange(t.len() - table.len(), t.len() as int) =~= table);
}

/// What is shown of a read tells the sheet, how many rows came back and of how
/// many, and, exactly where there are more of them, that it was cut.
pub proof fn law_read_text_tells_the_rows(read: SpreadsheetRead, listed: Seq<char>) -> (at: Seq<
    int,
>)
    ensures
        text::in_order(
            read_text(read, listed),
            seq![
                "Sheets: "@ + listed,
                "Reading `"@ + read.sheet@ + "`: "@,
                text::decimal(read.rows_returned as nat) + " of "@ + text::decimal(
                    read.rows_total as nat,
                ) + " rows"@ + (if read.truncated {
                    " (truncated — call again with a `range` for the rest)."@
                } else {
                    "."@
                }),
                read.table_markdown@,
            ],
            at,
        ),
{
    reveal_strlit(". Reading `");
    reveal_strlit("Reading `");
    reveal_strlit(" (truncated — call again with a `range` for the rest)");
    reveal_strlit(" (truncated — call again with a `range` for the rest).");
    reveal_strlit("");
    reveal_strlit(".");
    reveal_strlit(".\n\n");
    let t = read_text(read, listed);
    let a = "Sheets: "@ + listed;
    let b = "Reading `"@ + read.sheet@ + "`: "@;
    let rows = text::decimal(read.rows_returned as nat) + " of "@ + text::decimal(
        read.rows_total as nat,
    ) + " rows"@;
    let note = if read.truncated {
        " (truncated — call again with a `range` for the rest)"@
    } else {
        ""@
    };
    let dotted = if read.truncated {
        " (truncated — call again with a `range` for the rest)."@
    } else {
        "."@
    };
    assert(note + "."@ =~= dotted);
    let c = rows + dotted;
    let table = read.table_markdown@;
    let p = a.len() as int + 2;
    let q = p + b.len();
    let z = q + c.len() + 2;
    assert(t =~= a + ". Reading `"@ + read.sheet@ + "`: "@ + rows + note + ".\n\n"@ + table);
    assert(t.subrange(0, a.len() as int) =~= a);
    assert(t.subrange(p, q) =~= b);
    assert(t.subrange(q, q + c.len()) =~= c);
    assert(t.subrange(z, z + table.len()) =~= table);
    seq![0, p, q, z]
}

// ---- what callers see -------------------------------------------------------------------------

/// A sheet that is there and asked for is read, and the first where none is
/// asked for. A workbook without sheets is refused.
pub proof fn law_sheet_asked_for_is_chosen(
    asked: &Option<String>,
    names: &Vec<String>,
    r: Result<String, String>,
    i: int,
)
    requires
        call_ensures(choose_sheet, (asked, names), r),
    ensures
        names@.len() > 0 && asked is None ==> r is Ok && r->Ok_0@ == names@[0]@,
        asked matches Some(name) ==> (0 <= i < names@.len() && names@[i]@ == name@ ==> r is Ok
            && r->Ok_0@ == name@),
        asked matches Some(name) ==> ((forall|k: int|
            0 <= k < names@.len() ==> (#[trigger] names@[k])@ != name@) ==> r is Err),
        names@.len() == 0 ==> r is Err && r->Err_0@ == "the workbook contains no sheets"@,
{
    let all = text::views(names@);
    assert(all.len() == names@.len());
    if names@.len() > 0 {
        assert(all[0] == names@[0]@);
    }
    if 0 <= i < all.len() {
        assert(all[i] == names@[i]@);
    }
    if let Some(name) = asked {
        if all.contains(name@) {
            let k = all.index_of(name@);
            assert(names@[k]@ == all[k]);
        }
    }
}

/// A read of a sheet tells that sheet and all sheets, how many rows the range
/// has, and how many of them came back: as many as were asked for, or all. A
/// text that is no range is refused, and the error tells it.
pub proof fn law_rows_that_were_asked_for_are_read(
    input: &ReadSpreadsheetToolInput,
    sheet: String,
    names: Vec<String>,
    data: &SheetData,
    r: Result<SpreadsheetRead, String>,
    w: Window,
)
    requires
        call_ensures(read_sheet, (input, sheet, names, data), r),
    ensures
        window_of(text::opt_view(input.range)) == Some(w) ==> {
            let rows = rows_inside(data.rows@, start_of(*data).0, w);
            &&& r is Ok
            &&& r->Ok_0.sheet@ == sheet@
            &&& text::views(r->Ok_0.sheets@) == text::views(names@)
            &&& r->Ok_0.rows_total == rows.len()
            &&& r->Ok_0.rows_returned == (if rows.len() <= row_limit(input.max_rows) {
                rows.len()
            } else {
                row_limit(input.max_rows)
            })
            &&& r->Ok_0.truncated <==> r->Ok_0.rows_returned < r->Ok_0.rows_total
            &&& r->Ok_0.table_markdown@ == table_text(
                table_rows(data.rows@, start_of(*data), w, input.max_rows),
            )
        },
        input.range matches Some(range) ==> (cell_address::range_of(range@) is None ==> r is Err
            && r->Err_0@ == "invalid range `"@ + range@ + "`"@),
        input.range is None ==> r is Ok,
{
}

/// What the tool gives back shows what was read, or the error as it is.
pub proof fn law_read_tool_tells(
    read: SpreadsheetRead,
    error: String,
    done: ReadSpreadsheetToolOutput,
    undone: ReadSpreadsheetToolOutput,
    told: String,
    failed: String,
)
    requires
        call_ensures(read_impl, (Ok(read),), done),
        call_ensures(read_impl, (Err(error),), undone),
        call_ensures(ReadSpreadsheetToolOutput::content, (done,), told),
        call_ensures(ReadSpreadsheetToolOutput::content, (undone,), failed),
    ensures
        told@ == read_text(read, list_shown(text::views(read.sheets@))),
        failed@ == error@,
{
}

/// Every date within a million years of the epoch can be shown, and so can
/// every other value.
pub proof fn law_usual_values_can_be_shown(data: Data)
    ensures
        !(data is DateTime) ==> data_fits(data),
        data matches Data::DateTime { days, second, .. } ==> (-365_000_000 <= days <= 365_000_000
            && 0 <= second <= 86400 ==> data_fits(data)),
{
}

} // verus!
