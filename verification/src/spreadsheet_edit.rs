//! Editing workbooks: sheets are created, cells set, rows appended and ranges
//! made bold.
use crate::cell_address;
use crate::cell_address::{cell_range_fits, coord_to_address, parse_cell_range};
use crate::text;
use crate::text::{copy_str, decimal_of_usize, join_strings, str_eq, str_strip_prefix};
use vstd::prelude::*;

verus! {

/// An edit to apply to a spreadsheet cell range or sheet.
#[derive(Clone, Debug)]
pub enum SpreadsheetEdit {
    /// Set a cell's value. Numeric strings are stored as numbers and values
    /// starting with "=" as formulas.
    SetCell { cell: String, value: String },
    /// Append rows after the last used row of the sheet.
    AppendRows { rows: Vec<Vec<String>> },
    /// Make every cell in the range bold, e.g. "A1:F1" (handy for headers).
    SetBold { range: String },
    /// Create a new sheet with the given name (ignored if it already exists).
    CreateSheet { name: String },
}

/// Edit an .xlsx workbook in place: set cells, append rows, format ranges,
/// create sheets.
#[derive(Clone, Debug)]
pub struct EditSpreadsheetToolInput {
    /// Path to the .xlsx file. Created as a fresh workbook when missing.
    pub path: String,
    /// Target sheet name. Defaults to the first sheet (or the sheet created
    /// by a `create_sheet` edit).
    pub sheet: Option<String>,
    /// The edits to apply, in order.
    pub edits: Vec<SpreadsheetEdit>,
}

/// What the editing tool gives back.
#[derive(Debug)]
pub enum EditSpreadsheetToolOutput {
    Success { summary: String },
    Error { error: String },
}

impl EditSpreadsheetToolOutput {
    /// The text of the tool result.
    pub fn content(self) -> (out: String)
        ensures
            out@ == match self {
                EditSpreadsheetToolOutput::Success { summary } => summary@,
                EditSpreadsheetToolOutput::Error { error } => error@,
            },
    {
        match self {
            EditSpreadsheetToolOutput::Success { summary } => summary,
            EditSpreadsheetToolOutput::Error { error } => error,
        }
    }
}

// ---- workbooks ------------------------------------------------------------------------------------

#[verifier::external_type_specification]
#[verifier::external_body]
pub struct ExSpreadsheet(umya_spreadsheet::Spreadsheet);

#[verifier::external_type_specification]
#[verifier::external_body]
pub struct ExStyle(umya_spreadsheet::Style);

#[verifier::external_type_specification]
#[verifier::external_body]
pub struct ExFont(umya_spreadsheet::Font);

/// What a value is.
pub enum ValueKind {
    Empty,
    Number,
    Truth,
    Error,
    Text,
}

/// A value: what it is, and its text.
pub struct ValueView {
    pub kind: ValueKind,
    pub text: Seq<char>,
}

/// A font: whether it is bold, and the rest of it, left out where it is that
/// of the font that the `umya-spreadsheet` crate gives a style without one.
pub struct FontView {
    pub bold: bool,
    pub rest: Option<umya_spreadsheet::Font>,
}

/// A style: its font, where it has one, and the rest of it, left out where it
/// is that of the default style.
pub struct StyleView {
    pub font: Option<FontView>,
    pub rest: Option<umya_spreadsheet::Style>,
}

/// A cell: its value, its formula, and its style.
pub struct CellView {
    pub value: ValueView,
    pub formula: Seq<char>,
    pub style: StyleView,
}

/// A sheet: its name, its cells by column and row, both counted from one, and
/// the styles of the columns and of the rows that have one of their own.
pub struct SheetView {
    pub name: Seq<char>,
    pub cells: Map<(u32, u32), CellView>,
    pub columns: Map<u32, StyleView>,
    pub rows: Map<u32, StyleView>,
}

/// The sheets of a workbook of the `umya-spreadsheet` crate. The text of a
/// value is the one that `Cell::get_value` gives.
pub uninterp spec fn book_sheets(b: umya_spreadsheet::Spreadsheet) -> Seq<SheetView>;

/// Every sheet of a workbook of the `umya-spreadsheet` crate was read from its
/// file, if the workbook has one. A new workbook has nothing left to read, and
/// `reader::xlsx::read` reads all sheets before it returns one; `lazy_read`
/// leaves them for later, when a sheet that is malformed makes the crate panic.
pub uninterp spec fn sheets_are_read(b: umya_spreadsheet::Spreadsheet) -> bool;

/// The value that a cell of the `umya-spreadsheet` crate holds once it was set
/// to a text: numbers, truth values and errors are told apart.
pub uninterp spec fn stored_value(t: Seq<char>) -> ValueView;

/// The column and the row that the `umya-spreadsheet` crate reads from the
/// upper case of an address, each where it finds one.
pub uninterp spec fn cell_index_of(t: Seq<char>) -> (Option<u32>, Option<u32>);

/// The sheet that a workbook has after it was made.
pub open spec fn blank_sheet(name: Seq<char>) -> SheetView {
    SheetView { name, cells: Map::empty(), columns: Map::empty(), rows: Map::empty() }
}

/// The names of sheets.
pub open spec fn names_of(sheets: Seq<SheetView>) -> Seq<Seq<char>> {
    sheets.map_values(|s: SheetView| s.name)
}

/// Only the sheet `t` differs, and it keeps its name.
pub open spec fn only_sheet(a: Seq<SheetView>, b: Seq<SheetView>, t: int) -> bool {
    &&& a.len() == b.len()
    &&& forall|i: int| 0 <= i < a.len() && i != t ==> #[trigger] b[i] == a[i]
    &&& b[t].name == a[t].name
}

/// The style of a cell that is made: that of its row, failing that the one of
/// its column, failing that the default style.
pub open spec fn new_style(s: SheetView, pos: (u32, u32)) -> StyleView {
    if s.rows.contains_key(pos.1) {
        s.rows[pos.1]
    } else if s.columns.contains_key(pos.0) {
        s.columns[pos.0]
    } else {
        StyleView { font: None, rest: None }
    }
}

/// The cell at `pos`; one that is not there is made without a value.
pub open spec fn cell_at(s: SheetView, pos: (u32, u32)) -> CellView {
    if s.cells.contains_key(pos) {
        s.cells[pos]
    } else {
        CellView {
            value: ValueView { kind: ValueKind::Empty, text: Seq::empty() },
            formula: Seq::empty(),
            style: new_style(s, pos),
        }
    }
}

/// The font of the style is bold.
pub open spec fn is_bold(style: StyleView) -> bool {
    style.font matches Some(font) && font.bold
}

/// A style with its font made bold; the rest of the font, and of the style,
/// stays.
pub open spec fn with_bold(style: StyleView) -> StyleView {
    let rest = match style.font {
        Some(font) => font.rest,
        None => None,
    };
    StyleView { font: Some(FontView { bold: true, rest }), rest: style.rest }
}

/// A cell set to a value: it has no formula, and keeps its style.
pub open spec fn with_value(cell: CellView, value: ValueView) -> CellView {
    CellView { value, formula: Seq::empty(), style: cell.style }
}

/// A cell with a formula: it keeps its value and its style.
pub open spec fn with_formula(cell: CellView, formula: Seq<char>) -> CellView {
    CellView { value: cell.value, formula, style: cell.style }
}

/// A cell made bold: it keeps its value and its formula.
pub open spec fn bolded(cell: CellView) -> CellView {
    CellView { value: cell.value, formula: cell.formula, style: with_bold(cell.style) }
}

/// A sheet whose cell at `pos` is the given one; everything else stays.
pub open spec fn with_cell(s: SheetView, pos: (u32, u32), cell: CellView) -> SheetView {
    SheetView { name: s.name, cells: s.cells.insert(pos, cell), columns: s.columns, rows: s.rows }
}

/// A text without its sign, if it begins with one.
pub open spec fn unsigned(t: Seq<char>) -> Seq<char> {
    if t.len() > 0 && (t[0] == '+' || t[0] == '-') {
        t.skip(1)
    } else {
        t
    }
}

/// Digits, or one or more digits with a point before, among or after them.
pub open spec fn is_mantissa(t: Seq<char>) -> bool {
    ||| text::all_digits(t)
    ||| t.len() > 1 && exists|p: int|
        0 <= p < t.len() && #[trigger] t[p] == '.' && forall|i: int|
            0 <= i < t.len() && i != p ==> text::is_digit(#[trigger] t[i])
}

/// A decimal number without a sign, which an exponent may follow.
pub open spec fn is_numeral(t: Seq<char>) -> bool {
    ||| is_mantissa(t)
    ||| exists|e: int|
        0 <= e < t.len() && (#[trigger] t[e] == 'e' || t[e] == 'E') && is_mantissa(t.take(e))
            && text::all_digits(unsigned(t.skip(e + 1)))
}

/// A text that a cell takes for a number: a numeral, infinity or not a number,
/// behind a sign or without one, but for "nan" without one. The words may be
/// written in any case.
pub open spec fn is_numeric(t: Seq<char>) -> bool {
    let word = text::ascii_lowered(unsigned(t));
    ||| is_numeral(unsigned(t))
    ||| word == "inf"@
    ||| word == "infinity"@
    ||| word == "nan"@ && unsigned(t) != t
}

/// What is known of the value that a cell holds for a text. It is a number
/// exactly where the text is numeric, and empty exactly where the text is. A
/// value of text has the text; so has a whole number of at most fifteen digits
/// that is written without zeros before it.
pub open spec fn stores(value: ValueView, t: Seq<char>) -> bool {
    &&& value.kind is Number <==> is_numeric(t)
    &&& value.kind is Empty <==> t.len() == 0
    &&& value.kind is Empty || value.kind is Text ==> value.text == t
    &&& text::all_digits(t) && t.len() <= 15 && (t.len() == 1 || t[0] != '0') ==> value.text == t
}

/// `row` is the greatest row of a cell; zero where there is no cell.
pub open spec fn is_top_row(s: SheetView, row: u32) -> bool {
    &&& forall|p: (u32, u32)| #[trigger] s.cells.contains_key(p) ==> p.1 <= row
    &&& row > 0 ==> exists|p: (u32, u32)| #[trigger] s.cells.contains_key(p) && p.1 == row
}

/// An address of at most three capital letters and of digits for a row that 32
/// bits hold: its column and its row.
pub open spec fn plain_index(t: Seq<char>) -> Option<(u32, u32)> {
    match cell_address::digit_from(t, 0) {
        Some(k) if 1 <= k <= 3 && (forall|i: int| 0 <= i < k ==> 'A' <= #[trigger] t[i] && t[i]
            <= 'Z') && text::all_digits(t.skip(k)) && text::digits_value(t.skip(k))
            <= u32::MAX => Some(
            (
                cell_address::letters_value(t.take(k)) as u32,
                text::digits_value(t.skip(k)) as u32,
            ),
        ),
        _ => None,
    }
}

/// From an address that is plain in capital letters its column and its row
/// were read.
pub open spec fn reads_plain(r: (Option<u32>, Option<u32>), t: Seq<char>) -> bool {
    plain_index(text::ascii_raised(t)) matches Some(p) ==> r == (Some(p.0), Some(p.1))
}

/// The column and the row that an address names, each where it names one.
/// Small letters stand for capital ones.
pub open spec fn cell_position(t: Seq<char>) -> (Option<u32>, Option<u32>) {
    match plain_index(text::ascii_raised(t)) {
        Some(p) => (Some(p.0), Some(p.1)),
        None => cell_index_of(t),
    }
}

/// What making a sheet has given.
pub open spec fn sheet_added(
    a: Seq<SheetView>,
    b: Seq<SheetView>,
    name: Seq<char>,
    r: Result<(), String>,
) -> bool {
    if names_of(a).contains(name) {
        r matches Err(e) && e@ == "name duplicate."@ && b == a
    } else {
        r is Ok && b == a.push(blank_sheet(name))
    }
}

/// Calls `umya_spreadsheet::new_file`: a workbook with one sheet, `Sheet1`,
/// that has no cells and no styled columns or rows. Nothing is left to read.
#[verifier::external_body]
pub(crate) fn new_workbook() -> (b: umya_spreadsheet::Spreadsheet)
    ensures
        book_sheets(b) == seq![blank_sheet("Sheet1"@)],
        sheets_are_read(b),
{
    umya_spreadsheet::new_file()
}

/// Takes the names of the sheets from
/// `Spreadsheet::get_sheet_collection_no_check`, in order.
#[verifier::external_body]
pub(crate) fn sheet_names(b: &umya_spreadsheet::Spreadsheet) -> (r: Vec<String>)
    ensures
        text::views(r@) == names_of(book_sheets(*b)),
{
    b.get_sheet_collection_no_check().iter().map(|s| s.get_name().to_string()).collect()
}

/// Calls `Spreadsheet::new_sheet`, which adds a sheet without cells and styled
/// columns or rows behind the others, and refuses a name that a sheet has. The
/// new sheet has nothing left to read.
#[verifier::external_body]
pub(crate) fn add_sheet(b: &mut umya_spreadsheet::Spreadsheet, name: &str) -> (r: Result<
    (),
    String,
>)
    ensures
        sheet_added(book_sheets(*old(b)), book_sheets(*final(b)), name@, r),
        sheets_are_read(*old(b)) ==> sheets_are_read(*final(b)),
{
    b.new_sheet(name).map(|_| ()).map_err(|e| e.to_string())
}

/// Calls `Spreadsheet::get_sheet_collection_mut` and
/// `Worksheet::get_highest_row`: the greatest row of a cell, zero where there
/// is no cell. The sheets stay as they are. The former panics where a sheet
/// that was not read yet is malformed.
#[verifier::external_body]
pub(crate) fn highest_row(b: &mut umya_spreadsheet::Spreadsheet, sheet: usize) -> (r: u32)
    requires
        sheets_are_read(*old(b)),
        sheet < book_sheets(*old(b)).len(),
    ensures
        sheets_are_read(*final(b)),
        book_sheets(*final(b)) == book_sheets(*old(b)),
        is_top_row(book_sheets(*old(b))[sheet as int], r),
{
    b.get_sheet_collection_mut()[sheet].get_highest_row()
}

/// Calls `umya_spreadsheet::helper::coordinate::index_from_coordinate` on the
/// upper case of an address, as `Worksheet::get_cell_mut` does for a text.
#[verifier::external_body]
pub(crate) fn cell_index(cell: &str) -> (r: (Option<u32>, Option<u32>))
    ensures
        r == cell_index_of(cell@),
        reads_plain(r, cell@),
{
    let (col, row, _, _) = umya_spreadsheet::helper::coordinate::index_from_coordinate(
        cell.to_uppercase(),
    );
    (col, row)
}

/// Calls `Spreadsheet::get_sheet_collection_mut`, `Worksheet::get_cell_mut` and
/// `Cell::set_value`, which tells from the text what the value is, by
/// `str::parse::<f64>` where it is a number. A cell that was not there is made
/// with the style of its row or column. The first call panics where a sheet
/// that was not read yet is malformed.
#[verifier::external_body]
pub(crate) fn put_value(
    b: &mut umya_spreadsheet::Spreadsheet,
    sheet: usize,
    col: u32,
    row: u32,
    value: &str,
)
    requires
        sheets_are_read(*old(b)),
        sheet < book_sheets(*old(b)).len(),
    ensures
        sheets_are_read(*final(b)),
        only_sheet(book_sheets(*old(b)), book_sheets(*final(b)), sheet as int),
        book_sheets(*final(b))[sheet as int] == with_cell(
            book_sheets(*old(b))[sheet as int],
            (col, row),
            with_value(
                cell_at(book_sheets(*old(b))[sheet as int], (col, row)),
                stored_value(value@),
            ),
        ),
        stores(cell_at(book_sheets(*final(b))[sheet as int], (col, row)).value, value@),
{
    b.get_sheet_collection_mut()[sheet].get_cell_mut((col, row)).set_value(value);
}

/// Calls `Spreadsheet::get_sheet_collection_mut`, `Worksheet::get_cell_mut` and
/// `Cell::set_formula`. The value of the cell stays. A cell that was not there
/// is made without a value, with the style of its row or column. The first
/// call panics where a sheet that was not read yet is malformed.
#[verifier::external_body]
pub(crate) fn put_formula(
    b: &mut umya_spreadsheet::Spreadsheet,
    sheet: usize,
    col: u32,
    row: u32,
    formula: &str,
)
    requires
        sheets_are_read(*old(b)),
        sheet < book_sheets(*old(b)).len(),
    ensures
        sheets_are_read(*final(b)),
        only_sheet(book_sheets(*old(b)), book_sheets(*final(b)), sheet as int),
        book_sheets(*final(b))[sheet as int] == with_cell(
            book_sheets(*old(b))[sheet as int],
            (col, row),
            with_formula(cell_at(book_sheets(*old(b))[sheet as int], (col, row)), formula@),
        ),
{
    b.get_sheet_collection_mut()[sheet].get_cell_mut((col, row)).set_formula(formula);
}

/// Calls `Spreadsheet::get_sheet_collection_mut` and
/// `Worksheet::get_cell_mut`, copies the cell's style, makes its font bold with
/// `Style::get_font_mut` and `Font::set_bold`, and sets the style with
/// `Cell::set_style`. A cell that was not there is made without a value, with
/// the style of its row or column. The first call panics where a sheet that was
/// not read yet is malformed.
#[verifier::external_body]
pub(crate) fn put_bold(b: &mut umya_spreadsheet::Spreadsheet, sheet: usize, col: u32, row: u32)
    requires
        sheets_are_read(*old(b)),
        sheet < book_sheets(*old(b)).len(),
    ensures
        sheets_are_read(*final(b)),
        only_sheet(book_sheets(*old(b)), book_sheets(*final(b)), sheet as int),
        book_sheets(*final(b))[sheet as int] == with_cell(
            book_sheets(*old(b))[sheet as int],
            (col, row),
            bolded(cell_at(book_sheets(*old(b))[sheet as int], (col, row))),
        ),
{
    let cell = b.get_sheet_collection_mut()[sheet].get_cell_mut((col, row));
    let mut style = cell.get_style().clone();
    style.get_font_mut().set_bold(true);
    cell.set_style(style);
}

proof fn lemma_top_row(s: SheetView, a: u32, b: u32)
    requires
        is_top_row(s, a),
        is_top_row(s, b),
    ensures
        a == b,
{
    if a > 0 {
        let p = choose|p: (u32, u32)| #[trigger] s.cells.contains_key(p) && p.1 == a;
        assert(s.cells.contains_key(p));
    }
    if b > 0 {
        let p = choose|p: (u32, u32)| #[trigger] s.cells.contains_key(p) && p.1 == b;
        assert(s.cells.contains_key(p));
    }
}

proof fn lemma_has_top_row(s: SheetView, bound: int)
    requires
        0 <= bound <= u32::MAX,
        forall|p: (u32, u32)| #[trigger] s.cells.contains_key(p) ==> p.1 <= bound,
    ensures
        is_top_row(s, top_row(s)),
    decreases bound,
{
    if bound == 0 {
        assert(is_top_row(s, 0));
    } else if exists|p: (u32, u32)| #[trigger] s.cells.contains_key(p) && p.1 == bound {
        assert(is_top_row(s, bound as u32));
    } else {
        assert forall|p: (u32, u32)| #[trigger] s.cells.contains_key(p) implies p.1 <= bound - 1 by {
            assert(p.1 != bound);
        }
        lemma_has_top_row(s, bound - 1);
    }
}

/// The greatest row of a cell; zero where there is no cell.
pub open spec fn top_row(s: SheetView) -> u32 {
    choose|row: u32| is_top_row(s, row)
}

// ---- edits ------------------------------------------------------------------------------------------

/// How many columns an address can name.
pub const MOST_COLUMNS: usize = 18278;

/// Why an edit cannot be applied.
pub enum Problem {
    /// The range is not one.
    InvalidRange,
    /// A cell that it names has no address.
    Unaddressable,
}

/// A row and a column, counted from zero, have an address.
pub open spec fn addressable(row: int, col: int) -> bool {
    0 <= row < u32::MAX && 0 <= col < MOST_COLUMNS
}

/// The texts of rows.
pub open spec fn row_values(rows: Seq<Vec<String>>) -> Seq<Seq<Seq<char>>> {
    rows.map_values(|r: Vec<String>| text::views(r@))
}

/// The cells of the rows that are appended below row `start` have addresses.
pub open spec fn rows_addressable(rows: Seq<Seq<Seq<char>>>, start: int) -> bool {
    forall|i: int|
        0 <= i < rows.len() && (#[trigger] rows[i]).len() > 0 ==> addressable(
            start + i,
            rows[i].len() - 1,
        )
}

/// The least and the greatest of two columns.
pub open spec fn columns_of(s: (int, int), e: (int, int)) -> (int, int) {
    if s.1 <= e.1 {
        (s.1, e.1)
    } else {
        (e.1, s.1)
    }
}

/// Why an edit of a sheet cannot be applied, if it cannot.
pub open spec fn edit_problem(s: SheetView, edit: SpreadsheetEdit) -> Option<Problem> {
    match edit {
        SpreadsheetEdit::CreateSheet { .. } => None,
        SpreadsheetEdit::SetCell { cell, .. } => match cell_position(cell@) {
            (Some(_), Some(_)) => None,
            _ => Some(Problem::Unaddressable),
        },
        SpreadsheetEdit::AppendRows { rows } => if rows_addressable(
            row_values(rows@),
            top_row(s) as int,
        ) {
            None
        } else {
            Some(Problem::Unaddressable)
        },
        SpreadsheetEdit::SetBold { range } => if !cell_address::range_fits(range@) {
            Some(Problem::Unaddressable)
        } else {
            match cell_address::range_of(range@) {
                None => Some(Problem::InvalidRange),
                Some((s, e)) => if addressable(e.0, columns_of(s, e).1) {
                    None
                } else {
                    Some(Problem::Unaddressable)
                },
            }
        },
    }
}

/// A cell lies in the block of the first `n` rows and the first `m` cells of
/// the next, below row `start`.
pub open spec fn in_block(
    rows: Seq<Seq<Seq<char>>>,
    start: int,
    n: int,
    m: int,
    pos: (u32, u32),
) -> bool {
    let i = pos.1 - start - 1;
    let j = pos.0 - 1;
    &&& 0 <= i
    &&& 0 <= j
    &&& (i < n && i < rows.len() && j < rows[i].len()) || (i == n && j < m)
}

/// The cell was set to the value of a text.
pub open spec fn cell_holds(before: CellView, after: CellView, t: Seq<char>) -> bool {
    after == with_value(before, stored_value(t)) && stores(after.value, t)
}

/// The block was filled with the values of the rows; the other cells stay.
pub open spec fn block_filled(
    a: SheetView,
    b: SheetView,
    rows: Seq<Seq<Seq<char>>>,
    start: int,
    n: int,
    m: int,
) -> bool {
    &&& b.columns == a.columns && b.rows == a.rows
    &&& forall|p: (u32, u32)| #[trigger]
        b.cells.contains_key(p) <==> a.cells.contains_key(p) || in_block(rows, start, n, m, p)
    &&& forall|p: (u32, u32)|
        in_block(rows, start, n, m, p) ==> cell_holds(
            cell_at(a, p),
            #[trigger] b.cells[p],
            rows[p.1 - start - 1][p.0 - 1],
        )
    &&& forall|p: (u32, u32)|
        a.cells.contains_key(p) && !in_block(rows, start, n, m, p) ==> #[trigger] b.cells[p]
            == a.cells[p]
}

/// A cell lies in the rows of a rectangle up to row `n` or, in row `n`, left
/// of column `m`. Rows and columns are counted from zero.
pub open spec fn in_rectangle(
    r1: int,
    c1: int,
    c2: int,
    n: int,
    m: int,
    pos: (u32, u32),
) -> bool {
    let r = pos.1 - 1;
    let c = pos.0 - 1;
    &&& r1 <= r
    &&& c1 <= c <= c2
    &&& r < n || (r == n && c < m)
}

/// The cells of the rectangle were made bold, and keep what they held; the
/// other cells stay.
pub open spec fn rectangle_bolded(
    a: SheetView,
    b: SheetView,
    r1: int,
    c1: int,
    c2: int,
    n: int,
    m: int,
) -> bool {
    &&& b.columns == a.columns && b.rows == a.rows
    &&& forall|p: (u32, u32)| #[trigger]
        b.cells.contains_key(p) <==> a.cells.contains_key(p) || in_rectangle(r1, c1, c2, n, m, p)
    &&& forall|p: (u32, u32)|
        in_rectangle(r1, c1, c2, n, m, p) ==> #[trigger] b.cells[p] == bolded(cell_at(a, p))
    &&& forall|p: (u32, u32)|
        a.cells.contains_key(p) && !in_rectangle(r1, c1, c2, n, m, p) ==> #[trigger] b.cells[p]
            == a.cells[p]
}

/// What an edit makes of a sheet. A value that starts with "=" is stored as a
/// formula, another one as what it is.
pub open spec fn edit_done(a: SheetView, b: SheetView, edit: SpreadsheetEdit) -> bool {
    match edit {
        SpreadsheetEdit::CreateSheet { .. } => b == a,
        SpreadsheetEdit::SetCell { cell, value } => {
            let (col, row) = cell_position(cell@);
            let pos = (col->0, row->0);
            match text::strip_prefix(value@, "="@) {
                Some(formula) => b == with_cell(a, pos, with_formula(cell_at(a, pos), formula)),
                None => {
                    &&& b == with_cell(a, pos, with_value(cell_at(a, pos), stored_value(value@)))
                    &&& stores(stored_value(value@), value@)
                },
            }
        },
        SpreadsheetEdit::AppendRows { rows } => block_filled(
            a,
            b,
            row_values(rows@),
            top_row(a) as int,
            rows@.len() as int,
            0,
        ),
        SpreadsheetEdit::SetBold { range } => {
            let (s, e) = cell_address::range_of(range@)->0;
            let (c1, c2) = columns_of(s, e);
            rectangle_bolded(a, b, s.0, c1, c2, e.0 + 1, 0)
        },
    }
}

/// What is told of an edit.
pub open spec fn edit_note(edit: SpreadsheetEdit) -> Option<Seq<char>> {
    match edit {
        SpreadsheetEdit::CreateSheet { .. } => None,
        SpreadsheetEdit::SetCell { cell, .. } => Some("set "@ + cell@),
        SpreadsheetEdit::AppendRows { rows } => Some(
            "appended "@ + text::decimal(rows@.len()) + " row(s)"@,
        ),
        SpreadsheetEdit::SetBold { range } => Some("bolded "@ + range@),
    }
}

// ---- applying one edit --------------------------------------------------------------------------------

proof fn lemma_plain(row: nat, col: nat)
    requires
        addressable(row as int, col as int),
    ensures
        plain_index(text::ascii_raised(cell_address::cell_address(row, col))) == Some(
            ((col + 1) as u32, (row + 1) as u32),
        ),
        row < usize::MAX,
        col < usize::MAX,
{
    let letters = cell_address::column_letters(col);
    let digits = text::decimal(row + 1);
    let addr = cell_address::cell_address(row, col);
    let k = letters.len() as int;
    cell_address::law_column_reads_back(col);
    cell_address::law_address_reads_back(row, col);
    text::lemma_decimal(row + 1);
    lemma_short(col);
    assert(text::is_digit(digits[0]));
    assert(addr[k] == digits[0]);
    assert forall|j: int| 0 <= j < k implies !text::is_digit(#[trigger] addr[j]) && 'A' <= addr[j]
        && addr[j] <= 'Z' by {
        assert(addr[j] == letters[j]);
    }
    assert(text::ascii_raised(addr) =~= addr) by {
        assert forall|j: int| 0 <= j < addr.len() implies text::ascii_raised(addr)[j] == #[trigger] addr[j] by {
            if j >= k {
                assert(addr[j] == digits[j - k]);
                assert(text::is_digit(digits[j - k]));
            }
        }
    }
    cell_address::lemma_digit_behind(addr, k, 0);
    assert(addr.take(k) =~= letters);
    assert(addr.skip(k) =~= digits);
    assert(cell_address::letters_value(letters) == col + 1);
}

proof fn lemma_short(col: nat)
    requires
        col < 18278,
    ensures
        1 <= cell_address::column_letters(col).len() <= 3,
{
    reveal_with_fuel(cell_address::column_letters, 4);
    if col >= 26 {
        let a = (col / 26 - 1) as nat;
        assert(a < 702);
        if a >= 26 {
            let b = (a / 26 - 1) as nat;
            assert(b < 26);
        }
    }
}

/// The column and the row, counted from one, of a cell whose row and column
/// are counted from zero, by way of its address.
fn locate(row: usize, col: usize) -> (r: (u32, u32))
    requires
        addressable(row as int, col as int),
    ensures
        r == ((col + 1) as u32, (row + 1) as u32),
{
    proof {
        lemma_plain(row as nat, col as nat);
    }
    let address = coord_to_address(row, col);
    match cell_index(address.as_str()) {
        (Some(c), Some(r)) => (c, r),
        _ => (0, 0),
    }
}

fn rows_fit(rows: &Vec<Vec<String>>, start: u32) -> (r: bool)
    ensures
        r == rows_addressable(row_values(rows@), start as int),
{
    let ghost views = row_values(rows@);
    let mut i: usize = 0;
    while i < rows.len()
        invariant
            i <= rows@.len(),
            views == row_values(rows@),
            forall|k: int|
                0 <= k < i && (#[trigger] views[k]).len() > 0 ==> addressable(
                    start + k,
                    views[k].len() - 1,
                ),
        decreases rows@.len() - i,
    {
        let count: usize = rows[i].len();
        assert(views[i as int].len() == count);
        if count > 0 && (start as u128 + i as u128 >= u32::MAX as u128 || count > MOST_COLUMNS) {
            assert(!addressable(start + i, views[i as int].len() - 1));
            return false;
        }
        i = i + 1;
    }
    true
}

/// Appends rows below row `start`.
fn append_rows(
    b: &mut umya_spreadsheet::Spreadsheet,
    sheet: usize,
    rows: &Vec<Vec<String>>,
    start: u32,
)
    requires
        sheets_are_read(*old(b)),
        sheet < book_sheets(*old(b)).len(),
        rows_addressable(row_values(rows@), start as int),
    ensures
        sheets_are_read(*final(b)),
        only_sheet(book_sheets(*old(b)), book_sheets(*final(b)), sheet as int),
        block_filled(
            book_sheets(*old(b))[sheet as int],
            book_sheets(*final(b))[sheet as int],
            row_values(rows@),
            start as int,
            rows@.len() as int,
            0,
        ),
{
    let ghost views = row_values(rows@);
    let ghost all = book_sheets(*b);
    let ghost t = sheet as int;
    let mut i: usize = 0;
    while i < rows.len()
        invariant
            i <= rows@.len(),
            t == sheet,
            views == row_values(rows@),
            sheet < all.len(),
            rows_addressable(views, start as int),
            sheets_are_read(*b),
            only_sheet(all, book_sheets(*b), t),
            block_filled(all[t], book_sheets(*b)[t], views, start as int, i as int, 0),
        decreases rows@.len() - i,
    {
        let row = &rows[i];
        assert(views[i as int] == text::views(row@));
        let mut j: usize = 0;
        while j < row.len()
            invariant
                j <= row@.len(),
                i < rows@.len(),
                t == sheet,
                views == row_values(rows@),
                views[i as int] == text::views(row@),
                sheet < all.len(),
                rows_addressable(views, start as int),
                sheets_are_read(*b),
                only_sheet(all, book_sheets(*b), t),
                block_filled(all[t], book_sheets(*b)[t], views, start as int, i as int, j as int),
            decreases row@.len() - j,
        {
            let ghost before = book_sheets(*b);
            proof {
                assert(views[i as int].len() > 0);
                assert(addressable(start + i, views[i as int].len() - 1));
            }
            let (c, r) = locate(start as usize + i, j);
            put_value(b, sheet, c, r, row[j].as_str());
            proof {
                assert(views[i as int][j as int] == row@[j as int]@);
                lemma_block_step(
                    all[t],
                    before[t],
                    book_sheets(*b)[t],
                    views,
                    start as int,
                    i as int,
                    j as int,
                    (c, r),
                );
            }
            j = j + 1;
        }
        proof {
            lemma_block_row(
                all[t],
                book_sheets(*b)[t],
                views,
                start as int,
                i as int,
            );
        }
        i = i + 1;
    }
}

proof fn lemma_block_step(
    a: SheetView,
    b: SheetView,
    c: SheetView,
    rows: Seq<Seq<Seq<char>>>,
    start: int,
    n: int,
    m: int,
    pos: (u32, u32),
)
    requires
        0 <= n < rows.len(),
        0 <= m < rows[n].len(),
        block_filled(a, b, rows, start, n, m),
        pos.0 == m + 1,
        pos.1 == start + n + 1,
        c == with_cell(b, pos, with_value(cell_at(b, pos), stored_value(rows[n][m]))),
        stores(cell_at(c, pos).value, rows[n][m]),
    ensures
        block_filled(a, c, rows, start, n, m + 1),
{
    assert(!in_block(rows, start, n, m, pos));
    assert(b.cells.contains_key(pos) <==> a.cells.contains_key(pos));
    assert(cell_at(b, pos) == cell_at(a, pos));
    assert forall|p: (u32, u32)| #[trigger] c.cells.contains_key(p) <==> a.cells.contains_key(p)
        || in_block(rows, start, n, m + 1, p) by {
        assert(c.cells.dom().contains(p) <==> b.cells.dom().contains(p) || p == pos);
        assert(b.cells.contains_key(p) <==> a.cells.contains_key(p) || in_block(
            rows,
            start,
            n,
            m,
            p,
        ));
        if in_block(rows, start, n, m + 1, p) && !in_block(rows, start, n, m, p) {
            assert(p == pos);
        }
        assert(in_block(rows, start, n, m + 1, pos));
    }
    assert forall|p: (u32, u32)| in_block(rows, start, n, m + 1, p) implies cell_holds(
        cell_at(a, p),
        #[trigger] c.cells[p],
        rows[p.1 - start - 1][p.0 - 1],
    ) by {
        if p != pos {
            assert(in_block(rows, start, n, m, p));
            assert(b.cells.contains_key(p));
            assert(c.cells[p] == b.cells[p]);
        }
    }
    assert forall|p: (u32, u32)|
        a.cells.contains_key(p) && !in_block(rows, start, n, m + 1, p) implies #[trigger] c.cells[p]
        == a.cells[p] by {
        assert(p != pos);
        assert(!in_block(rows, start, n, m, p));
        assert(b.cells.contains_key(p));
        assert(c.cells[p] == b.cells[p]);
        assert(b.cells[p] == a.cells[p]);
    }
}

proof fn lemma_block_row(
    a: SheetView,
    b: SheetView,
    rows: Seq<Seq<Seq<char>>>,
    start: int,
    n: int,
)
    requires
        0 <= n < rows.len(),
        block_filled(a, b, rows, start, n, rows[n].len() as int),
    ensures
        block_filled(a, b, rows, start, n + 1, 0),
{
    assert forall|p: (u32, u32)|
        in_block(rows, start, n, rows[n].len() as int, p) == #[trigger] in_block(
            rows,
            start,
            n + 1,
            0,
            p,
        ) by {}
    assert forall|p: (u32, u32)| #[trigger] b.cells.contains_key(p) <==> a.cells.contains_key(p)
        || in_block(rows, start, n + 1, 0, p) by {
        assert(in_block(rows, start, n, rows[n].len() as int, p) == in_block(
            rows,
            start,
            n + 1,
            0,
            p,
        ));
    }
    assert forall|p: (u32, u32)| in_block(rows, start, n + 1, 0, p) implies cell_holds(
        cell_at(a, p),
        #[trigger] b.cells[p],
        rows[p.1 - start - 1][p.0 - 1],
    ) by {
        assert(in_block(rows, start, n, rows[n].len() as int, p));
    }
    assert forall|p: (u32, u32)|
        a.cells.contains_key(p) && !in_block(rows, start, n + 1, 0, p) implies #[trigger] b.cells[p]
        == a.cells[p] by {
        assert(!in_block(rows, start, n, rows[n].len() as int, p));
    }
}

/// Makes the cells of a rectangle bold.
fn bold_rectangle(
    b: &mut umya_spreadsheet::Spreadsheet,
    sheet: usize,
    r1: usize,
    c1: usize,
    r2: usize,
    c2: usize,
)
    requires
        sheets_are_read(*old(b)),
        sheet < book_sheets(*old(b)).len(),
        r1 <= r2,
        c1 <= c2,
        addressable(r2 as int, c2 as int),
    ensures
        sheets_are_read(*final(b)),
        only_sheet(book_sheets(*old(b)), book_sheets(*final(b)), sheet as int),
        rectangle_bolded(
            book_sheets(*old(b))[sheet as int],
            book_sheets(*final(b))[sheet as int],
            r1 as int,
            c1 as int,
            c2 as int,
            r2 + 1,
            0,
        ),
{
    let ghost all = book_sheets(*b);
    let ghost t = sheet as int;
    let mut r: usize = r1;
    while r <= r2
        invariant
            r1 <= r <= r2 + 1,
            c1 <= c2,
            t == sheet,
            sheet < all.len(),
            addressable(r2 as int, c2 as int),
            sheets_are_read(*b),
            only_sheet(all, book_sheets(*b), t),
            rectangle_bolded(
                all[t],
                book_sheets(*b)[t],
                r1 as int,
                c1 as int,
                c2 as int,
                r as int,
                0,
            ),
        decreases r2 + 1 - r,
    {
        let mut c: usize = c1;
        proof {
            lemma_rectangle_row_start(
                all[t],
                book_sheets(*b)[t],
                r1 as int,
                c1 as int,
                c2 as int,
                r as int,
            );
        }
        while c <= c2
            invariant
                r1 <= r <= r2,
                c1 <= c <= c2 + 1,
                c1 <= c2,
                t == sheet,
                sheet < all.len(),
                addressable(r2 as int, c2 as int),
                sheets_are_read(*b),
                only_sheet(all, book_sheets(*b), t),
                rectangle_bolded(
                    all[t],
                    book_sheets(*b)[t],
                    r1 as int,
                    c1 as int,
                    c2 as int,
                    r as int,
                    c as int,
                ),
            decreases c2 + 1 - c,
        {
            let ghost before = book_sheets(*b);
            let (col, row) = locate(r, c);
            put_bold(b, sheet, col, row);
            proof {
                lemma_rectangle_step(
                    all[t],
                    before[t],
                    book_sheets(*b)[t],
                    r1 as int,
                    c1 as int,
                    c2 as int,
                    r as int,
                    c as int,
                    (col, row),
                );
            }
            c = c + 1;
        }
        proof {
            lemma_rectangle_row_end(
                all[t],
                book_sheets(*b)[t],
                r1 as int,
                c1 as int,
                c2 as int,
                r as int,
            );
        }
        r = r + 1;
    }
}

proof fn lemma_rectangle_same(
    a: SheetView,
    b: SheetView,
    r1: int,
    c1: int,
    c2: int,
    n: int,
    m: int,
    n2: int,
    m2: int,
)
    requires
        rectangle_bolded(a, b, r1, c1, c2, n, m),
        forall|p: (u32, u32)| #[trigger]
            in_rectangle(r1, c1, c2, n, m, p) == in_rectangle(r1, c1, c2, n2, m2, p),
    ensures
        rectangle_bolded(a, b, r1, c1, c2, n2, m2),
{
    assert forall|p: (u32, u32)| #[trigger] b.cells.contains_key(p) <==> a.cells.contains_key(p)
        || in_rectangle(r1, c1, c2, n2, m2, p) by {
        assert(in_rectangle(r1, c1, c2, n, m, p) == in_rectangle(r1, c1, c2, n2, m2, p));
    }
    assert forall|p: (u32, u32)| in_rectangle(r1, c1, c2, n2, m2, p) implies #[trigger] b.cells[p]
        == bolded(cell_at(a, p)) by {
        assert(in_rectangle(r1, c1, c2, n, m, p));
    }
    assert forall|p: (u32, u32)|
        a.cells.contains_key(p) && !in_rectangle(r1, c1, c2, n2, m2, p) implies #[trigger] b.cells[p]
        == a.cells[p] by {
        assert(!in_rectangle(r1, c1, c2, n, m, p));
    }
}

proof fn lemma_rectangle_row_start(
    a: SheetView,
    b: SheetView,
    r1: int,
    c1: int,
    c2: int,
    r: int,
)
    requires
        0 <= c1,
        rectangle_bolded(a, b, r1, c1, c2, r, 0),
    ensures
        rectangle_bolded(a, b, r1, c1, c2, r, c1),
{
    assert forall|p: (u32, u32)| #[trigger] in_rectangle(r1, c1, c2, r, 0, p) == in_rectangle(
        r1,
        c1,
        c2,
        r,
        c1,
        p,
    ) by {}
    lemma_rectangle_same(a, b, r1, c1, c2, r, 0, r, c1);
}

proof fn lemma_rectangle_row_end(a: SheetView, b: SheetView, r1: int, c1: int, c2: int, r: int)
    requires
        0 <= c1,
        r1 <= r,
        rectangle_bolded(a, b, r1, c1, c2, r, c2 + 1),
    ensures
        rectangle_bolded(a, b, r1, c1, c2, r + 1, 0),
{
    assert forall|p: (u32, u32)| #[trigger] in_rectangle(r1, c1, c2, r, c2 + 1, p) == in_rectangle(
        r1,
        c1,
        c2,
        r + 1,
        0,
        p,
    ) by {}
    lemma_rectangle_same(a, b, r1, c1, c2, r, c2 + 1, r + 1, 0);
}

proof fn lemma_rectangle_step(
    a: SheetView,
    b: SheetView,
    c: SheetView,
    r1: int,
    c1: int,
    c2: int,
    n: int,
    m: int,
    pos: (u32, u32),
)
    requires
        r1 <= n,
        c1 <= m <= c2,
        rectangle_bolded(a, b, r1, c1, c2, n, m),
        pos.0 == m + 1,
        pos.1 == n + 1,
        c == with_cell(b, pos, bolded(cell_at(b, pos))),
    ensures
        rectangle_bolded(a, c, r1, c1, c2, n, m + 1),
{
    assert(!in_rectangle(r1, c1, c2, n, m, pos));
    assert(b.cells.contains_key(pos) <==> a.cells.contains_key(pos));
    assert(a.cells.contains_key(pos) ==> b.cells[pos] == a.cells[pos]);
    assert(cell_at(b, pos) == cell_at(a, pos));
    assert(in_rectangle(r1, c1, c2, n, m + 1, pos));
    assert forall|p: (u32, u32)| p != pos implies #[trigger] in_rectangle(r1, c1, c2, n, m + 1, p)
        == in_rectangle(r1, c1, c2, n, m, p) by {}
    assert forall|p: (u32, u32)| #[trigger] c.cells.contains_key(p) <==> a.cells.contains_key(p)
        || in_rectangle(r1, c1, c2, n, m + 1, p) by {
        assert(c.cells.dom().contains(p) <==> b.cells.dom().contains(p) || p == pos);
        assert(b.cells.contains_key(p) <==> a.cells.contains_key(p) || in_rectangle(
            r1,
            c1,
            c2,
            n,
            m,
            p,
        ));
        if p != pos {
            assert(in_rectangle(r1, c1, c2, n, m + 1, p) == in_rectangle(r1, c1, c2, n, m, p));
        }
    }
    assert forall|p: (u32, u32)| in_rectangle(r1, c1, c2, n, m + 1, p) implies #[trigger] c.cells[p]
        == bolded(cell_at(a, p)) by {
        if p != pos {
            assert(in_rectangle(r1, c1, c2, n, m, p));
            assert(b.cells.contains_key(p));
            assert(c.cells[p] == b.cells[p]);
        }
    }
    assert forall|p: (u32, u32)|
        a.cells.contains_key(p) && !in_rectangle(r1, c1, c2, n, m + 1, p) implies #[trigger] c.cells[p]
        == a.cells[p] by {
        assert(p != pos);
        assert(!in_rectangle(r1, c1, c2, n, m, p));
        assert(b.cells.contains_key(p));
        assert(c.cells[p] == b.cells[p]);
        assert(b.cells[p] == a.cells[p]);
    }
}

/// What came of an edit: nothing stands in its way, or a problem does.
fn apply_edit(b: &mut umya_spreadsheet::Spreadsheet, sheet: usize, edit: &SpreadsheetEdit) -> (r:
    Option<Problem>)
    requires
        sheets_are_read(*old(b)),
        sheet < book_sheets(*old(b)).len(),
    ensures
        sheets_are_read(*final(b)),
        r == edit_problem(book_sheets(*old(b))[sheet as int], *edit),
        r is None ==> {
            &&& only_sheet(book_sheets(*old(b)), book_sheets(*final(b)), sheet as int)
            &&& edit_done(
                book_sheets(*old(b))[sheet as int],
                book_sheets(*final(b))[sheet as int],
                *edit,
            )
        },
{
    match edit {
        SpreadsheetEdit::CreateSheet { .. } => None,
        SpreadsheetEdit::SetCell { cell, value } => match cell_index(cell.as_str()) {
            (Some(col), Some(row)) => {
                match str_strip_prefix(value.as_str(), "=") {
                    Some(formula) => put_formula(b, sheet, col, row, formula.as_str()),
                    None => put_value(b, sheet, col, row, value.as_str()),
                }
                None
            },
            _ => Some(Problem::Unaddressable),
        },
        SpreadsheetEdit::AppendRows { rows } => {
            let start = highest_row(b, sheet);
            proof {
                let s = book_sheets(*b)[sheet as int];
                lemma_top_row(s, start, top_row(s));
            }
            if !rows_fit(rows, start) {
                return Some(Problem::Unaddressable);
            }
            append_rows(b, sheet, rows, start);
            None
        },
        SpreadsheetEdit::SetBold { range } => {
            if !cell_range_fits(range.as_str()) {
                return Some(Problem::Unaddressable);
            }
            match parse_cell_range(range.as_str()) {
                None => Some(Problem::InvalidRange),
                Some((s, e)) => {
                    let (c1, c2): (usize, usize) = if s.1 <= e.1 {
                        (s.1, e.1)
                    } else {
                        (e.1, s.1)
                    };
                    if e.0 as u128 >= u32::MAX as u128 || c2 >= MOST_COLUMNS {
                        return Some(Problem::Unaddressable);
                    }
                    bold_rectangle(b, sheet, s.0, c1, e.0, c2);
                    None
                },
            }
        },
    }
}

// ---- applying all edits -------------------------------------------------------------------------------

/// The sheets after the edits that create sheets: one whose name is there is
/// not created again.
pub open spec fn with_created(sheets: Seq<SheetView>, edits: Seq<SpreadsheetEdit>) -> Seq<SheetView>
    decreases edits.len(),
{
    if edits.len() == 0 {
        sheets
    } else {
        let before = with_created(sheets, edits.drop_last());
        match edits.last() {
            SpreadsheetEdit::CreateSheet { name } if !names_of(before).contains(
                name@,
            ) => before.push(blank_sheet(name@)),
            _ => before,
        }
    }
}

/// What is told of the edits that create sheets.
pub open spec fn creation_notes(edits: Seq<SpreadsheetEdit>) -> Seq<Seq<char>>
    decreases edits.len(),
{
    if edits.len() == 0 {
        Seq::empty()
    } else {
        let before = creation_notes(edits.drop_last());
        match edits.last() {
            SpreadsheetEdit::CreateSheet { name } => before.push(
                "created sheet `"@ + name@ + "`"@,
            ),
            _ => before,
        }
    }
}

/// What is told of the other edits.
pub open spec fn edit_notes(edits: Seq<SpreadsheetEdit>) -> Seq<Seq<char>>
    decreases edits.len(),
{
    if edits.len() == 0 {
        Seq::empty()
    } else {
        let before = edit_notes(edits.drop_last());
        match edit_note(edits.last()) {
            Some(note) => before.push(note),
            None => before,
        }
    }
}

/// The name of the last sheet that an edit creates.
pub open spec fn last_created(edits: Seq<SpreadsheetEdit>) -> Option<Seq<char>>
    decreases edits.len(),
{
    if edits.len() == 0 {
        None
    } else {
        match edits.last() {
            SpreadsheetEdit::CreateSheet { name } => Some(name@),
            _ => last_created(edits.drop_last()),
        }
    }
}

/// The name of the sheet that is edited: the one asked for, else the last one
/// that an edit creates, else the first one.
pub open spec fn target_name(
    asked: Option<Seq<char>>,
    edits: Seq<SpreadsheetEdit>,
    sheets: Seq<SheetView>,
) -> Seq<char> {
    match asked {
        Some(name) => name,
        None => match last_created(edits) {
            Some(name) => name,
            None => if sheets.len() > 0 {
                sheets[0].name
            } else {
                "Sheet1"@
            },
        },
    }
}

/// The first of the names, from place `i` on, that is `name`.
pub open spec fn name_index(names: Seq<Seq<char>>, name: Seq<char>, i: int) -> Option<int>
    decreases names.len() - i,
{
    if i < 0 || i >= names.len() {
        None
    } else if names[i] == name {
        Some(i)
    } else {
        name_index(names, name, i + 1)
    }
}

/// An edit of sheet `t` meets no problem and makes `now` of the sheets `mid`.
pub open spec fn edit_step(
    mid: Seq<SheetView>,
    now: Seq<SheetView>,
    t: int,
    edit: SpreadsheetEdit,
) -> bool {
    &&& edit_problem(mid[t], edit) is None
    &&& only_sheet(mid, now, t)
    &&& edit_done(mid[t], now[t], edit)
}

/// The sheets `now` can be what the first `n` edits make of sheet `t`, none
/// of them meeting a problem.
pub open spec fn after_edits(
    start: Seq<SheetView>,
    t: int,
    edits: Seq<SpreadsheetEdit>,
    n: int,
    now: Seq<SheetView>,
) -> bool
    decreases n,
{
    if n <= 0 {
        now == start
    } else {
        exists|mid: Seq<SheetView>|
            after_edits(start, t, edits, n - 1, mid) && #[trigger] edit_step(
                mid,
                now,
                t,
                edits[n - 1],
            )
    }
}

/// An edit of sheet `t` meets the problem `p`.
pub open spec fn meets(mid: Seq<SheetView>, t: int, edit: SpreadsheetEdit, p: Problem) -> bool {
    edit_problem(mid[t], edit) == Some(p)
}

/// The edits meet the problem `p` at edit `k` of sheet `t`.
pub open spec fn stops_at(
    start: Seq<SheetView>,
    t: int,
    edits: Seq<SpreadsheetEdit>,
    k: int,
    p: Problem,
) -> bool {
    0 <= k < edits.len() && exists|mid: Seq<SheetView>|
        after_edits(start, t, edits, k, mid) && #[trigger] meets(mid, t, edits[k], p)
}

/// An edit of sheet `t` names a cell without an address, and those before it
/// meet no problem.
pub open spec fn some_unaddressable(
    start: Seq<SheetView>,
    t: int,
    edits: Seq<SpreadsheetEdit>,
) -> bool {
    exists|k: int| #[trigger] stops_at(start, t, edits, k, Problem::Unaddressable)
}

/// Why edits were not applied.
#[derive(Debug)]
pub enum EditFailure {
    /// They cannot be; the error says why.
    Failed(String),
    /// A cell that one of them names has no address.
    Unaddressable,
}

/// The range of an edit.
pub open spec fn range_text(edit: SpreadsheetEdit) -> Seq<char> {
    match edit {
        SpreadsheetEdit::SetBold { range } => range@,
        _ => Seq::empty(),
    }
}

/// What applying edits to a workbook gives: the workbook with the created
/// sheets, the edits applied to one sheet in order, and what is told of them;
/// or why they cannot be applied.
pub open spec fn edits_outcome(
    before: Seq<SheetView>,
    input: EditSpreadsheetToolInput,
    r: Result<(umya_spreadsheet::Spreadsheet, Vec<String>), EditFailure>,
) -> bool {
    let edits = input.edits@;
    let start = with_created(before, edits);
    let target = target_name(text::opt_view(input.sheet), edits, start);
    match name_index(names_of(start), target, 0) {
        None if edits.len() > 0 => r matches Err(EditFailure::Failed(e)) && e@ == "sheet `"@ + target
            + "` not found"@,
        None => r matches Ok((book, notes)) && book_sheets(book) == start && notes@.len() == 0,
        Some(t) => match r {
            Ok((book, notes)) => after_edits(
                start,
                t,
                edits,
                edits.len() as int,
                book_sheets(book),
            ) && text::views(notes@) == creation_notes(edits) + edit_notes(edits),
            Err(EditFailure::Failed(e)) => exists|k: int|
                stops_at(start, t, edits, k, Problem::InvalidRange) && e@ == "invalid range `"@
                    + #[trigger] range_text(edits[k]) + "`"@,
            Err(EditFailure::Unaddressable) => some_unaddressable(start, t, edits),
        },
    }
}

/// Creates the sheets that edits ask for.
fn create_sheets(b: &mut umya_spreadsheet::Spreadsheet, edits: &Vec<SpreadsheetEdit>) -> (notes: Vec<
    String,
>)
    ensures
        book_sheets(*final(b)) == with_created(book_sheets(*old(b)), edits@),
        text::views(notes@) == creation_notes(edits@),
        sheets_are_read(*old(b)) ==> sheets_are_read(*final(b)),
{
    let ghost start = book_sheets(*b);
    let ghost read = sheets_are_read(*b);
    let mut notes: Vec<String> = Vec::new();
    let mut i: usize = 0;
    assert(text::views(notes@) =~= Seq::empty());
    while i < edits.len()
        invariant
            i <= edits@.len(),
            read ==> sheets_are_read(*b),
            book_sheets(*b) == with_created(start, edits@.take(i as int)),
            text::views(notes@) == creation_notes(edits@.take(i as int)),
        decreases edits@.len() - i,
    {
        let ghost before = text::views(notes@);
        proof {
            assert(edits@.take(i + 1).drop_last() =~= edits@.take(i as int));
            assert(edits@.take(i + 1).last() == edits@[i as int]);
        }
        if let SpreadsheetEdit::CreateSheet { name } = &edits[i] {
            let names = sheet_names(b);
            if !crate::models::contains_text(&names, name.as_str()) {
                let added = add_sheet(b, name.as_str());
                assert(added is Ok);
            }
            let mut note = copy_str("created sheet `");
            note.append(name.as_str());
            note.append("`");
            notes.push(note);
            assert(text::views(notes@) =~= before.push(note@));
        }
        i = i + 1;
    }
    assert(edits@.take(edits@.len() as int) =~= edits@);
    notes
}

fn last_created_name(edits: &Vec<SpreadsheetEdit>) -> (r: Option<String>)
    ensures
        text::opt_view(r) == last_created(edits@),
{
    let mut i: usize = edits.len();
    assert(edits@.take(edits@.len() as int) =~= edits@);
    while i > 0
        invariant
            i <= edits@.len(),
            last_created(edits@) == last_created(edits@.take(i as int)),
        decreases i,
    {
        proof {
            assert(edits@.take(i as int).drop_last() =~= edits@.take(i - 1));
            assert(edits@.take(i as int).last() == edits@[i - 1]);
        }
        if let SpreadsheetEdit::CreateSheet { name } = &edits[i - 1] {
            return Some(copy_str(name.as_str()));
        }
        i = i - 1;
    }
    None
}

fn choose_target(
    asked: &Option<String>,
    edits: &Vec<SpreadsheetEdit>,
    b: &umya_spreadsheet::Spreadsheet,
) -> (r: String)
    ensures
        r@ == target_name(text::opt_view(*asked), edits@, book_sheets(*b)),
{
    if let Some(name) = asked {
        return copy_str(name.as_str());
    }
    if let Some(name) = last_created_name(edits) {
        return name;
    }
    let names = sheet_names(b);
    assert(text::views(names@).len() == book_sheets(*b).len());
    if names.len() > 0 {
        assert(text::views(names@)[0] == names@[0]@);
        copy_str(names[0].as_str())
    } else {
        copy_str("Sheet1")
    }
}

fn find_name(names: &Vec<String>, name: &str) -> (r: Option<usize>)
    ensures
        match r {
            Some(t) => name_index(text::views(names@), name@, 0) == Some(t as int) && t
                < names@.len(),
            None => name_index(text::views(names@), name@, 0) is None,
        },
{
    let mut i: usize = 0;
    while i < names.len()
        invariant
            i <= names@.len(),
            name_index(text::views(names@), name@, 0) == name_index(
                text::views(names@),
                name@,
                i as int,
            ),
        decreases names@.len() - i,
    {
        assert(text::views(names@)[i as int] == names@[i as int]@);
        if str_eq(names[i].as_str(), name) {
            return Some(i);
        }
        i = i + 1;
    }
    None
}

fn note_of(edit: &SpreadsheetEdit) -> (r: Option<String>)
    ensures
        text::opt_view(r) == edit_note(*edit),
{
    match edit {
        SpreadsheetEdit::CreateSheet { .. } => None,
        SpreadsheetEdit::SetCell { cell, .. } => {
            let mut out = copy_str("set ");
            out.append(cell.as_str());
            Some(out)
        },
        SpreadsheetEdit::AppendRows { rows } => {
            let mut out = copy_str("appended ");
            let count = decimal_of_usize(rows.len());
            out.append(count.as_str());
            out.append(" row(s)");
            Some(out)
        },
        SpreadsheetEdit::SetBold { range } => {
            let mut out = copy_str("bolded ");
            out.append(range.as_str());
            Some(out)
        },
    }
}

fn invalid_range(edit: &SpreadsheetEdit) -> (out: String)
    ensures
        out@ == "invalid range `"@ + range_text(*edit) + "`"@,
{
    let mut out = copy_str("invalid range `");
    match edit {
        SpreadsheetEdit::SetBold { range } => {
            out.append(range.as_str());
        },
        _ => {
            assert(out@ + Seq::<char>::empty() =~= out@);
        },
    }
    out.append("`");
    out
}

proof fn lemma_one_more(
    start: Seq<SheetView>,
    t: int,
    edits: Seq<SpreadsheetEdit>,
    n: int,
    mid: Seq<SheetView>,
    now: Seq<SheetView>,
)
    requires
        0 <= n < edits.len(),
        after_edits(start, t, edits, n, mid),
        edit_problem(mid[t], edits[n]) is None,
        only_sheet(mid, now, t),
        edit_done(mid[t], now[t], edits[n]),
    ensures
        after_edits(start, t, edits, n + 1, now),
{
    let m = n + 1;
    assert(edit_step(mid, now, t, edits[m - 1]));
    assert(after_edits(start, t, edits, m - 1, mid));
    assert(after_edits(start, t, edits, m, now));
}

/// Applies edits to a workbook: sheets are created first, in order, and then
/// the edits are applied to one sheet, in order. The sheets of the workbook
/// must have been read, as they are in a new workbook, in one that was read
/// eagerly, and in one that this function has given.
pub fn apply_edits(book: umya_spreadsheet::Spreadsheet, input: &EditSpreadsheetToolInput) -> (r:
    Result<(umya_spreadsheet::Spreadsheet, Vec<String>), EditFailure>)
    requires
        sheets_are_read(book),
    ensures
        edits_outcome(book_sheets(book), *input, r),
        r matches Ok((edited, _)) ==> sheets_are_read(edited),
        r is Ok && input.edits@.len() > 0 && input.sheet is Some ==> only_first_named_differs(
            book_sheets(book),
            book_sheets(r->Ok_0.0),
            input.sheet->0@,
        ),
{
    let ghost before = book_sheets(book);
    let mut b = book;
    let mut notes = create_sheets(&mut b, &input.edits);
    let ghost created = text::views(notes@);
    let ghost edits = input.edits@;
    let ghost start = book_sheets(b);
    let target = choose_target(&input.sheet, &input.edits, &b);
    let names = sheet_names(&b);
    let sheet: usize = match find_name(&names, target.as_str()) {
        Some(t) => t,
        None => {
            if input.edits.len() == 0 {
                assert(creation_notes(edits) =~= Seq::empty());
                assert(notes@.len() == 0) by {
                    assert(text::views(notes@).len() == notes@.len());
                }
                return Ok((b, notes));
            }
            let mut out = copy_str("sheet `");
            out.append(target.as_str());
            out.append("` not found");
            return Err(EditFailure::Failed(out));
        },
    };
    let ghost t = sheet as int;
    assert(text::views(names@).len() == names@.len());
    assert(edit_notes(edits.take(0)) =~= Seq::empty());
    assert(created + edit_notes(edits.take(0)) =~= created);
    let mut i: usize = 0;
    while i < input.edits.len()
        invariant
            i <= edits.len(),
            edits == input.edits@,
            t == sheet,
            before == book_sheets(book),
            start == with_created(before, edits),
            name_index(
                names_of(start),
                target_name(text::opt_view(input.sheet), edits, start),
                0,
            ) == Some(t),
            sheets_are_read(b),
            sheet < book_sheets(b).len(),
            after_edits(start, t, edits, i as int, book_sheets(b)),
            created == creation_notes(edits),
            text::views(notes@) == created + edit_notes(edits.take(i as int)),
        decreases edits.len() - i,
    {
        let ghost mid = book_sheets(b);
        let ghost told = text::views(notes@);
        match apply_edit(&mut b, sheet, &input.edits[i]) {
            Some(Problem::InvalidRange) => {
                let e = invalid_range(&input.edits[i]);
                proof {
                    assert(meets(mid, t, edits[i as int], Problem::InvalidRange));
                    assert(stops_at(start, t, edits, i as int, Problem::InvalidRange));
                    assert(e@ == "invalid range `"@ + range_text(edits[i as int]) + "`"@);
                }
                return Err(EditFailure::Failed(e));
            },
            Some(Problem::Unaddressable) => {
                proof {
                    assert(meets(mid, t, edits[i as int], Problem::Unaddressable));
                    assert(stops_at(start, t, edits, i as int, Problem::Unaddressable));
                    assert(some_unaddressable(start, t, edits));
                }
                return Err(EditFailure::Unaddressable);
            },
            None => {},
        }
        proof {
            assert(edits.take(i + 1).drop_last() =~= edits.take(i as int));
            assert(edits.take(i + 1).last() == edits[i as int]);
            lemma_one_more(start, t, edits, i as int, mid, book_sheets(b));
        }
        if let Some(note) = note_of(&input.edits[i]) {
            notes.push(note);
            assert(text::views(notes@) =~= told.push(note@));
        }
        assert(text::views(notes@) =~= created + edit_notes(edits.take(i + 1)));
        i = i + 1;
    }
    assert(edits.take(edits.len() as int) =~= edits);
    proof {
        let target = target_name(text::opt_view(input.sheet), edits, start);
        lemma_reached(before, edits, t, target, book_sheets(b));
    }
    Ok((b, notes))
}

/// What an edit of a file that is not there starts from: a workbook with one
/// sheet without cells.
pub fn fresh_workbook() -> (b: umya_spreadsheet::Spreadsheet)
    ensures
        book_sheets(b) == seq![blank_sheet("Sheet1"@)],
        sheets_are_read(b),
{
    new_workbook()
}

/// What the editing tool gives back, once the workbook was saved or could not
/// be: what is told of the edits and of the file.
pub fn edit_impl(edited: Result<Vec<String>, String>, path: &str) -> (out:
    EditSpreadsheetToolOutput)
    ensures
        match edited {
            Ok(notes) => out matches EditSpreadsheetToolOutput::Success { summary } && summary@
                == text::join(text::views(notes@).push("saved "@ + path@), "; "@),
            Err(e) => out matches EditSpreadsheetToolOutput::Error { error } && error@ == e@,
        },
{
    match edited {
        Ok(notes) => {
            let ghost before = text::views(notes@);
            let mut notes = notes;
            let mut saved = copy_str("saved ");
            saved.append(path);
            notes.push(saved);
            assert(text::views(notes@) =~= before.push(saved@));
            EditSpreadsheetToolOutput::Success { summary: join_strings(&notes, "; ") }
        },
        Err(error) => EditSpreadsheetToolOutput::Error { error },
    }
}

// ---- laws ---------------------------------------------------------------------------------------------

/// The edit sets the cell at `p`.
pub open spec fn sets_cell(edit: SpreadsheetEdit, p: (u32, u32)) -> bool {
    edit matches SpreadsheetEdit::SetCell { cell, .. } && {
        let (col, row) = cell_position(cell@);
        p == (col->0, row->0)
    }
}

/// A style stays as it is, or its font is made bold.
pub open spec fn keeps_style(before: StyleView, after: StyleView) -> bool {
    after == before || after == with_bold(before)
}

/// A cell keeps what it holds through an edit that does not set it: setting
/// another cell, appending rows, or making a range bold changes no value and
/// no formula that was there.
pub proof fn law_edits_keep_other_values(
    a: SheetView,
    b: SheetView,
    edit: SpreadsheetEdit,
    p: (u32, u32),
)
    requires
        edit_done(a, b, edit),
        a.cells.contains_key(p),
        !sets_cell(edit, p),
    ensures
        b.cells.contains_key(p),
        b.cells[p].value == a.cells[p].value,
        b.cells[p].formula == a.cells[p].formula,
{
    match edit {
        SpreadsheetEdit::AppendRows { rows } => {
            let start = top_row(a) as int;
            lemma_has_top_row(a, u32::MAX as int);
            assert(p.1 <= start);
            assert(!in_block(row_values(rows@), start, rows@.len() as int, 0, p));
        },
        SpreadsheetEdit::SetBold { range } => {
            let (s, e) = cell_address::range_of(range@)->0;
            let (c1, c2) = columns_of(s, e);
            if !in_rectangle(s.0, c1, c2, e.0 + 1, 0, p) {
                assert(b.cells[p] == a.cells[p]);
            }
            assert(b.cells.contains_key(p));
        },
        SpreadsheetEdit::SetCell { cell, value } => {
            let (col, row) = cell_position(cell@);
            assert(b.cells.dom().contains(p));
            assert(b.cells[p] == a.cells[p]);
        },
        SpreadsheetEdit::CreateSheet { .. } => {},
    }
}

/// Formatting is kept: a cell that was there keeps its style through any
/// edit, and a cell that an edit makes has the style of its row or column.
/// Only making a range bold changes a font, and of the font nothing else. The
/// styles of the columns and rows stay.
pub proof fn law_formatting_is_kept(
    a: SheetView,
    b: SheetView,
    edit: SpreadsheetEdit,
    p: (u32, u32),
)
    requires
        edit_done(a, b, edit),
        b.cells.contains_key(p),
    ensures
        keeps_style(cell_at(a, p).style, b.cells[p].style),
        !(edit is SetBold) ==> b.cells[p].style == cell_at(a, p).style,
        b.cells[p].style.rest == cell_at(a, p).style.rest,
        b.columns == a.columns,
        b.rows == a.rows,
{
    match edit {
        SpreadsheetEdit::AppendRows { rows } => {
            let start = top_row(a) as int;
            if !in_block(row_values(rows@), start, rows@.len() as int, 0, p) {
                assert(a.cells.contains_key(p));
                assert(b.cells[p] == a.cells[p]);
            }
        },
        SpreadsheetEdit::SetBold { range } => {
            let (s, e) = cell_address::range_of(range@)->0;
            let (c1, c2) = columns_of(s, e);
            if !in_rectangle(s.0, c1, c2, e.0 + 1, 0, p) {
                assert(a.cells.contains_key(p));
                assert(b.cells[p] == a.cells[p]);
            }
        },
        SpreadsheetEdit::SetCell { cell, value } => {
            let (col, row) = cell_position(cell@);
            if p != (col->0, row->0) {
                assert(a.cells.dom().contains(p));
                assert(b.cells[p] == a.cells[p]);
            }
        },
        SpreadsheetEdit::CreateSheet { .. } => {},
    }
}

/// A cell that was set to a text holds it: behind a "=" as its formula, while
/// its value stays, and else as its value, without a formula. A numeric text
/// is stored as a number, and digits are numeric.
pub proof fn law_set_cell_is_stored(a: SheetView, b: SheetView, cell: String, value: String)
    requires
        edit_done(a, b, SpreadsheetEdit::SetCell { cell, value }),
    ensures
        ({
            let (col, row) = cell_position(cell@);
            let pos = (col->0, row->0);
            let now = b.cells[pos];
            &&& b.cells.contains_key(pos)
            &&& match text::strip_prefix(value@, "="@) {
                Some(formula) => now.formula == formula && now.value == cell_at(a, pos).value,
                None => {
                    &&& now.formula == Seq::<char>::empty()
                    &&& now.value == stored_value(value@)
                    &&& now.value.kind is Number <==> is_numeric(value@)
                    &&& text::all_digits(value@) ==> now.value.kind is Number
                },
            }
        }),
{
    let (col, row) = cell_position(cell@);
    let pos = (col->0, row->0);
    assert(b.cells.dom().contains(pos));
    if text::all_digits(value@) {
        assert(text::is_digit(value@[0]));
        assert(unsigned(value@) == value@);
    }
}

proof fn lemma_cells_stay(a: SheetView, b: SheetView, edit: SpreadsheetEdit, p: (u32, u32))
    requires
        edit_done(a, b, edit),
        a.cells.contains_key(p),
    ensures
        b.cells.contains_key(p),
{
    if sets_cell(edit, p) {
        assert(b.cells.dom().contains(p));
    } else {
        law_edits_keep_other_values(a, b, edit, p);
    }
}

/// None of the first `n` edits sets the cell at `p`.
pub open spec fn untouched(edits: Seq<SpreadsheetEdit>, n: int, p: (u32, u32)) -> bool {
    forall|k: int| 0 <= k < n ==> !sets_cell(#[trigger] edits[k], p)
}

/// The cell at `p` is there and holds the value and the formula that it held.
pub open spec fn holds_on(a: SheetView, b: SheetView, p: (u32, u32)) -> bool {
    &&& b.cells.contains_key(p)
    &&& b.cells[p].value == a.cells[p].value
    &&& b.cells[p].formula == a.cells[p].formula
}

/// The cell at `p` is there with its style, but that its font may be bold.
pub open spec fn dressed_on(a: SheetView, b: SheetView, p: (u32, u32)) -> bool {
    b.cells.contains_key(p) && keeps_style(a.cells[p].style, b.cells[p].style)
}

/// A run of edits changes no sheet but the one that is edited. There it leaves
/// every cell its value and its formula that no edit sets, and every cell its
/// style, but that its font may be bold.
pub proof fn law_run_keeps_the_rest(
    start: Seq<SheetView>,
    t: int,
    edits: Seq<SpreadsheetEdit>,
    n: int,
    now: Seq<SheetView>,
)
    requires
        0 <= n <= edits.len(),
        0 <= t < start.len(),
        after_edits(start, t, edits, n, now),
    ensures
        names_of(now) == names_of(start),
        forall|i: int| 0 <= i < start.len() && i != t ==> #[trigger] now[i] == start[i],
        forall|p: (u32, u32)|
            start[t].cells.contains_key(p) && untouched(edits, n, p) ==> #[trigger] holds_on(
                start[t],
                now[t],
                p,
            ),
        forall|p: (u32, u32)|
            start[t].cells.contains_key(p) ==> #[trigger] dressed_on(start[t], now[t], p),
    decreases n,
{
    if n > 0 {
        let mid = choose|mid: Seq<SheetView>|
            after_edits(start, t, edits, n - 1, mid) && #[trigger] edit_step(
                mid,
                now,
                t,
                edits[n - 1],
            );
        law_run_keeps_the_rest(start, t, edits, n - 1, mid);
        assert(names_of(mid).len() == mid.len() && names_of(start).len() == start.len());
        assert forall|i: int| 0 <= i < start.len() implies #[trigger] names_of(now)[i] == names_of(
            start,
        )[i] by {
            assert(names_of(mid)[i] == mid[i].name);
            if i != t {
                assert(now[i] == mid[i]);
            }
        }
        assert(names_of(now) =~= names_of(start));
        assert forall|p: (u32, u32)|
            start[t].cells.contains_key(p) && untouched(edits, n, p) implies #[trigger] holds_on(
            start[t],
            now[t],
            p,
        ) by {
            assert(!sets_cell(edits[n - 1], p));
            assert(untouched(edits, n - 1, p));
            assert(holds_on(start[t], mid[t], p));
            law_edits_keep_other_values(mid[t], now[t], edits[n - 1], p);
        }
        assert forall|p: (u32, u32)| start[t].cells.contains_key(p) implies #[trigger] dressed_on(
            start[t],
            now[t],
            p,
        ) by {
            assert(dressed_on(start[t], mid[t], p));
            lemma_cells_stay(mid[t], now[t], edits[n - 1], p);
            law_formatting_is_kept(mid[t], now[t], edits[n - 1], p);
        }
    }
}

/// Appended rows stand below every cell that was there, in order, each from
/// the first column on. A numeric text is stored as a number.
pub proof fn law_rows_are_appended_below(
    a: SheetView,
    b: SheetView,
    rows: Vec<Vec<String>>,
    i: int,
    j: int,
)
    requires
        edit_done(a, b, SpreadsheetEdit::AppendRows { rows }),
        edit_problem(a, SpreadsheetEdit::AppendRows { rows }) is None,
        0 <= i < rows@.len(),
        0 <= j < rows@[i]@.len(),
    ensures
        ({
            let p = ((j + 1) as u32, (top_row(a) + i + 1) as u32);
            &&& b.cells.contains_key(p)
            &&& b.cells[p].value == stored_value(rows@[i]@[j]@)
            &&& b.cells[p].value.kind is Number <==> is_numeric(rows@[i]@[j]@)
        }),
{
    let views = row_values(rows@);
    let start = top_row(a) as int;
    assert(views[i] == text::views(rows@[i]@));
    assert(views[i].len() > 0);
    assert(addressable(start + i, views[i].len() - 1));
    let p = ((j + 1) as u32, (start + i + 1) as u32);
    assert(in_block(views, start, rows@.len() as int, 0, p));
    assert(views[i][j] == rows@[i]@[j]@);
}

/// Every cell of the range is bold after it was made bold, whichever of its
/// corners were written.
pub proof fn law_range_is_bold(a: SheetView, b: SheetView, range: String, row: int, col: int)
    requires
        edit_done(a, b, SpreadsheetEdit::SetBold { range }),
        edit_problem(a, SpreadsheetEdit::SetBold { range }) is None,
        ({
            let (s, e) = cell_address::range_of(range@)->0;
            let (c1, c2) = columns_of(s, e);
            s.0 <= row <= e.0 && c1 <= col <= c2
        }),
    ensures
        b.cells.contains_key(((col + 1) as u32, (row + 1) as u32)),
        is_bold(b.cells[((col + 1) as u32, (row + 1) as u32)].style),
{
    let (s, e) = cell_address::range_of(range@)->0;
    let (c1, c2) = columns_of(s, e);
    let (x, y) = cell_address::range_parts(range@)->0;
    assert(cell_address::address_of(x) is Some && cell_address::address_of(y) is Some);
    assert(cell_address::address_fits(x) && cell_address::address_fits(y));
    let p = ((col + 1) as u32, (row + 1) as u32);
    assert(in_rectangle(s.0, c1, c2, e.0 + 1, 0, p));
}

/// Sheets that were there stay where they are when others are created, and a
/// sheet that an edit creates is there.
pub proof fn law_sheets_are_created(sheets: Seq<SheetView>, edits: Seq<SpreadsheetEdit>)
    ensures
        with_created(sheets, edits).len() >= sheets.len(),
        forall|i: int|
            0 <= i < sheets.len() ==> #[trigger] with_created(sheets, edits)[i] == sheets[i],
        forall|k: int|
            0 <= k < edits.len() && edits[k] is CreateSheet ==> names_of(
                with_created(sheets, edits),
            ).contains((#[trigger] edits[k])->name@),
    decreases edits.len(),
{
    if edits.len() > 0 {
        let rest = edits.drop_last();
        law_sheets_are_created(sheets, rest);
        let before = with_created(sheets, rest);
        let after = with_created(sheets, edits);
        assert forall|k: int| 0 <= k < edits.len() && edits[k] is CreateSheet implies names_of(
            after,
        ).contains((#[trigger] edits[k])->name@) by {
            let name = edits[k]->name@;
            if k < rest.len() {
                assert(rest[k] == edits[k]);
                let i = names_of(before).index_of(name);
                assert(names_of(before).contains(name));
                assert(names_of(after)[i] == name);
            } else if names_of(before).contains(name) {
                assert(after == before);
            } else {
                assert(names_of(after)[before.len() as int] == name);
            }
        }
    }
}

// ---- what a run of edits does ---------------------------------------------------------------------------

/// Sheet `t` is the first of that name.
pub open spec fn first_named(sheets: Seq<SheetView>, name: Seq<char>, t: int) -> bool {
    &&& 0 <= t < sheets.len()
    &&& sheets[t].name == name
    &&& forall|i: int| 0 <= i < t ==> (#[trigger] sheets[i]).name != name
}

/// Every sheet but `t` is as it was or, where it was not there, blank, and no
/// sheet lost its name or its place.
pub open spec fn others_stay(before: Seq<SheetView>, now: Seq<SheetView>, t: int) -> bool {
    &&& now.len() >= before.len()
    &&& forall|i: int|
        0 <= i < now.len() && i != t ==> #[trigger] now[i] == if i < before.len() {
            before[i]
        } else {
            blank_sheet(now[i].name)
        }
    &&& forall|i: int| 0 <= i < before.len() ==> (#[trigger] now[i]).name == before[i].name
}

/// Of all sheets only the first one of that name may differ.
pub open spec fn only_first_named_differs(
    before: Seq<SheetView>,
    now: Seq<SheetView>,
    name: Seq<char>,
) -> bool {
    exists|t: int| #[trigger] first_named(now, name, t) && others_stay(before, now, t)
}

/// An edit creates a sheet of that name.
pub open spec fn creates(edit: SpreadsheetEdit, name: Seq<char>) -> bool {
    edit is CreateSheet && edit->name@ == name
}

proof fn lemma_name_index(names: Seq<Seq<char>>, name: Seq<char>, i: int)
    requires
        0 <= i <= names.len(),
    ensures
        match name_index(names, name, i) {
            Some(t) => i <= t < names.len() && names[t] == name && forall|j: int|
                i <= j < t ==> #[trigger] names[j] != name,
            None => forall|j: int| i <= j < names.len() ==> #[trigger] names[j] != name,
        },
    decreases names.len() - i,
{
    if i < names.len() && names[i] != name {
        lemma_name_index(names, name, i + 1);
    }
}

proof fn lemma_last_created(edits: Seq<SpreadsheetEdit>)
    ensures
        match last_created(edits) {
            Some(name) => exists|k: int|
                0 <= k < edits.len() && creates(#[trigger] edits[k], name) && forall|j: int|
                    k < j < edits.len() ==> !((#[trigger] edits[j]) is CreateSheet),
            None => forall|j: int| 0 <= j < edits.len() ==> !((#[trigger] edits[j]) is CreateSheet),
        },
    decreases edits.len(),
{
    if edits.len() > 0 {
        let rest = edits.drop_last();
        let n = edits.len() - 1;
        lemma_last_created(rest);
        if edits.last() is CreateSheet {
            assert(creates(edits[n], edits.last()->name@));
        } else if last_created(rest) is Some {
            let name = last_created(rest)->0;
            let k = choose|k: int|
                0 <= k < rest.len() && creates(#[trigger] rest[k], name) && forall|j: int|
                    k < j < rest.len() ==> !((#[trigger] rest[j]) is CreateSheet);
            assert(creates(edits[k], name));
            assert forall|j: int| k < j < edits.len() implies !(
            (#[trigger] edits[j]) is CreateSheet) by {
                if j < n {
                    assert(rest[j] == edits[j]);
                }
            }
        } else {
            assert forall|j: int| 0 <= j < edits.len() implies !(
            (#[trigger] edits[j]) is CreateSheet) by {
                if j < n {
                    assert(rest[j] == edits[j]);
                }
            }
        }
    }
}

/// Sheets that are created are blank, stand behind those that were there, and
/// are named as an edit asks; no name that was there is created again.
pub proof fn law_created_sheets_are_blank(
    sheets: Seq<SheetView>,
    edits: Seq<SpreadsheetEdit>,
    i: int,
)
    requires
        sheets.len() <= i < with_created(sheets, edits).len(),
    ensures
        with_created(sheets, edits)[i] == blank_sheet(with_created(sheets, edits)[i].name),
        exists|k: int|
            0 <= k < edits.len() && creates(
                #[trigger] edits[k],
                with_created(sheets, edits)[i].name,
            ),
        forall|j: int|
            0 <= j < i ==> (#[trigger] with_created(sheets, edits)[j]).name != with_created(
                sheets,
                edits,
            )[i].name,
    decreases edits.len(),
{
    if edits.len() > 0 {
        let rest = edits.drop_last();
        let before = with_created(sheets, rest);
        let after = with_created(sheets, edits);
        law_sheets_are_created(sheets, rest);
        if i < before.len() {
            law_created_sheets_are_blank(sheets, rest, i);
            let k = choose|k: int|
                0 <= k < rest.len() && creates(#[trigger] rest[k], before[i].name);
            assert(creates(edits[k], after[i].name));
            assert forall|j: int| 0 <= j < i implies (#[trigger] after[j]).name != after[i].name by {
                assert(after[j] == before[j]);
            }
        } else {
            assert(creates(edits[edits.len() - 1], after[i].name));
            assert forall|j: int| 0 <= j < i implies (#[trigger] after[j]).name != after[i].name by {
                assert(names_of(before)[j] == before[j].name);
            }
        }
    }
}

proof fn lemma_reached(
    before: Seq<SheetView>,
    edits: Seq<SpreadsheetEdit>,
    t: int,
    name: Seq<char>,
    now: Seq<SheetView>,
)
    requires
        name_index(names_of(with_created(before, edits)), name, 0) == Some(t),
        after_edits(with_created(before, edits), t, edits, edits.len() as int, now),
    ensures
        first_named(now, name, t),
        others_stay(before, now, t),
{
    let start = with_created(before, edits);
    lemma_name_index(names_of(start), name, 0);
    law_sheets_are_created(before, edits);
    law_run_keeps_the_rest(start, t, edits, edits.len() as int, now);
    assert(names_of(now).len() == now.len() && names_of(start).len() == start.len());
    assert forall|i: int| 0 <= i < now.len() implies (#[trigger] now[i]).name == start[i].name by {
        assert(names_of(now)[i] == names_of(start)[i]);
    }
    assert forall|i: int| 0 <= i < t implies (#[trigger] now[i]).name != name by {
        assert(names_of(start)[i] != name);
    }
    assert forall|i: int| 0 <= i < now.len() && i != t implies #[trigger] now[i] == if i
        < before.len() {
        before[i]
    } else {
        blank_sheet(now[i].name)
    } by {
        assert(now[i] == start[i]);
        if i >= before.len() {
            law_created_sheets_are_blank(before, edits, i);
        } else {
            assert(with_created(before, edits)[i] == before[i]);
        }
    }
    assert forall|i: int| 0 <= i < before.len() implies (#[trigger] now[i]).name
        == before[i].name by {
        assert(with_created(before, edits)[i] == before[i]);
    }
}

/// Edits reach the sheet that they are meant for and no other: the first one
/// of the name that was asked for; where none was, the one that an edit creates
/// last; where none does, the first sheet. Every other sheet is as it was, or
/// blank where an edit created it.
pub proof fn law_edits_reach_their_sheet(
    before: Seq<SheetView>,
    input: EditSpreadsheetToolInput,
    r: Result<(umya_spreadsheet::Spreadsheet, Vec<String>), EditFailure>,
    k: int,
)
    requires
        edits_outcome(before, input, r),
        r is Ok,
        input.edits@.len() > 0,
    ensures
        input.sheet matches Some(name) ==> only_first_named_differs(
            before,
            book_sheets(r->Ok_0.0),
            name@,
        ),
        input.sheet is None && 0 <= k < input.edits@.len() && input.edits@[k] is CreateSheet && (
        forall|j: int|
            k < j < input.edits@.len() ==> !((#[trigger] input.edits@[j]) is CreateSheet))
            ==> only_first_named_differs(
            before,
            book_sheets(r->Ok_0.0),
            input.edits@[k]->name@,
        ),
        input.sheet is None && before.len() > 0 && (forall|j: int|
            0 <= j < input.edits@.len() ==> !((#[trigger] input.edits@[j]) is CreateSheet))
            ==> only_first_named_differs(before, book_sheets(r->Ok_0.0), before[0].name)
            && first_named(book_sheets(r->Ok_0.0), before[0].name, 0) && others_stay(
            before,
            book_sheets(r->Ok_0.0),
            0,
        ),
{
    let edits = input.edits@;
    let start = with_created(before, edits);
    let target = target_name(text::opt_view(input.sheet), edits, start);
    let now = book_sheets(r->Ok_0.0);
    lemma_name_index(names_of(start), target, 0);
    let t = name_index(names_of(start), target, 0)->0;
    lemma_reached(before, edits, t, target, now);
    lemma_last_created(edits);
    law_sheets_are_created(before, edits);
    if input.sheet is None && before.len() > 0 && (forall|j: int|
        0 <= j < edits.len() ==> !((#[trigger] edits[j]) is CreateSheet)) {
        assert(with_created(before, edits)[0] == before[0]);
        assert(names_of(start)[0] == target);
        assert(t == 0);
    }
    if input.sheet is None && last_created(edits) is Some {
        let name = last_created(edits)->0;
        let m = choose|m: int|
            0 <= m < edits.len() && creates(#[trigger] edits[m], name) && forall|j: int|
                m < j < edits.len() ==> !((#[trigger] edits[j]) is CreateSheet);
        if 0 <= k < edits.len() && edits[k] is CreateSheet && (forall|j: int|
            k < j < edits.len() ==> !((#[trigger] edits[j]) is CreateSheet)) {
            assert(k == m);
        }
    }
}

/// Edits of a sheet that neither is there nor is created are refused, and the
/// error names the sheet; a sheet that is there or is created is found.
pub proof fn law_missing_sheet_is_refused(
    before: Seq<SheetView>,
    input: EditSpreadsheetToolInput,
    r: Result<(umya_spreadsheet::Spreadsheet, Vec<String>), EditFailure>,
)
    requires
        edits_outcome(before, input, r),
        input.sheet is Some,
        input.edits@.len() > 0,
    ensures
        ({
            let name = input.sheet->0@;
            let there = (exists|i: int| 0 <= i < before.len() && (#[trigger] before[i]).name == name)
                || (exists|k: int|
                0 <= k < input.edits@.len() && creates(#[trigger] input.edits@[k], name));
            &&& !there ==> r is Err && r->Err_0 is Failed && r->Err_0->Failed_0@ == "sheet `"@ + name
                + "` not found"@
            &&& there && r is Err && r->Err_0 is Failed ==> exists|k: int|
                0 <= k < input.edits@.len() && (#[trigger] input.edits@[k]) is SetBold
        }),
{
    let edits = input.edits@;
    let name = input.sheet->0@;
    let start = with_created(before, edits);
    lemma_name_index(names_of(start), name, 0);
    law_sheets_are_created(before, edits);
    assert(names_of(start).len() == start.len());
    if name_index(names_of(start), name, 0) is Some {
        let t = name_index(names_of(start), name, 0)->0;
        assert(start[t].name == name);
        if t < before.len() {
            assert(with_created(before, edits)[t] == before[t]);
            assert(before[t].name == name);
        } else {
            law_created_sheets_are_blank(before, edits, t);
        }
        if r is Err && r->Err_0 is Failed {
            let k = choose|k: int|
                stops_at(start, t, edits, k, Problem::InvalidRange) && r->Err_0->Failed_0@
                    == "invalid range `"@ + #[trigger] range_text(edits[k]) + "`"@;
            assert(stops_at(start, t, edits, k, Problem::InvalidRange));
            let mid = choose|mid: Seq<SheetView>|
                after_edits(start, t, edits, k, mid) && #[trigger] meets(
                    mid,
                    t,
                    edits[k],
                    Problem::InvalidRange,
                );
            assert(edits[k] is SetBold);
        }
    } else {
        assert forall|i: int| 0 <= i < before.len() implies (#[trigger] before[i]).name != name by {
            assert(with_created(before, edits)[i] == before[i]);
            assert(names_of(start)[i] != name);
        }
        assert forall|k: int| 0 <= k < edits.len() implies !creates(#[trigger] edits[k], name) by {
            if creates(edits[k], name) {
                assert(names_of(start).contains(name));
                let i = names_of(start).index_of(name);
                assert(names_of(start)[i] == name);
            }
        }
    }
}

/// The cell holds what an edit sets it to: what stands behind a "=" as its
/// formula, and another value as a value, without a formula.
pub open spec fn holds_set(value: Seq<char>, cell: CellView) -> bool {
    if value.len() > 0 && value[0] == '=' {
        cell.formula == value.skip(1)
    } else {
        &&& cell.formula.len() == 0
        &&& cell.value == stored_value(value)
        &&& cell.value.kind is Number <==> is_numeric(value)
        &&& cell.value.kind is Text ==> cell.value.text == value
    }
}

/// The cell that an edit sets is the one at the address that it names, and it
/// holds what the edit sets it to. A formula leaves its value as it was.
pub proof fn law_cell_is_set_at_its_address(
    a: SheetView,
    b: SheetView,
    cell: String,
    value: String,
    row: nat,
    col: nat,
)
    requires
        edit_done(a, b, SpreadsheetEdit::SetCell { cell, value }),
        addressable(row as int, col as int),
        cell@ == cell_address::cell_address(row, col),
    ensures
        ({
            let p = ((col + 1) as u32, (row + 1) as u32);
            &&& b.cells.contains_key(p)
            &&& holds_set(value@, b.cells[p])
            &&& value@.len() > 0 && value@[0] == '=' ==> b.cells[p].value == cell_at(a, p).value
            &&& forall|q: (u32, u32)|
                q != p ==> (#[trigger] b.cells.contains_key(q) <==> a.cells.contains_key(q))
            &&& forall|q: (u32, u32)|
                q != p && a.cells.contains_key(q) ==> #[trigger] b.cells[q] == a.cells[q]
        }),
{
    lemma_plain(row, col);
    lemma_set_holds(a, b, cell, value);
}

proof fn lemma_set_holds(a: SheetView, b: SheetView, cell: String, value: String)
    requires
        edit_done(a, b, SpreadsheetEdit::SetCell { cell, value }),
    ensures
        ({
            let (col, row) = cell_position(cell@);
            let p = (col->0, row->0);
            &&& b.cells.contains_key(p)
            &&& holds_set(value@, b.cells[p])
            &&& value@.len() > 0 && value@[0] == '=' ==> b.cells[p].value == cell_at(a, p).value
            &&& b.cells.dom() == a.cells.dom().insert(p)
        }),
{
    reveal_strlit("=");
    law_set_cell_is_stored(a, b, cell, value);
    if value@.len() > 0 && value@[0] == '=' {
        assert(value@.subrange(0, 1) =~= "="@);
    } else if value@.len() > 0 {
        assert(value@.subrange(0, 1)[0] == value@[0]);
    }
    let (col, row) = cell_position(cell@);
    let p = (col->0, row->0);
    assert(b.cells.dom() =~= a.cells.dom().insert(p));
}

proof fn lemma_set_lasts(
    start: Seq<SheetView>,
    t: int,
    edits: Seq<SpreadsheetEdit>,
    n: int,
    now: Seq<SheetView>,
    k: int,
    p: (u32, u32),
)
    requires
        0 <= k < n <= edits.len(),
        after_edits(start, t, edits, n, now),
        sets_cell(edits[k], p),
        forall|j: int| k < j < n ==> !sets_cell(#[trigger] edits[j], p),
    ensures
        now[t].cells.contains_key(p),
        holds_set(edits[k]->value@, now[t].cells[p]),
    decreases n,
{
    let mid = choose|mid: Seq<SheetView>|
        after_edits(start, t, edits, n - 1, mid) && #[trigger] edit_step(mid, now, t, edits[n - 1]);
    if k == n - 1 {
        if let SpreadsheetEdit::SetCell { cell, value } = edits[k] {
            lemma_set_holds(mid[t], now[t], cell, value);
        }
    } else {
        lemma_set_lasts(start, t, edits, n - 1, mid, k, p);
        assert(!sets_cell(edits[n - 1], p));
        law_edits_keep_other_values(mid[t], now[t], edits[n - 1], p);
    }
}

/// After all edits, a cell holds what the last edit that sets it sets it to.
pub proof fn law_last_setting_of_a_cell_holds(
    start: Seq<SheetView>,
    t: int,
    edits: Seq<SpreadsheetEdit>,
    now: Seq<SheetView>,
    k: int,
    row: nat,
    col: nat,
)
    requires
        after_edits(start, t, edits, edits.len() as int, now),
        addressable(row as int, col as int),
        0 <= k < edits.len(),
        edits[k] is SetCell,
        edits[k]->cell@ == cell_address::cell_address(row, col),
        forall|j: int|
            k < j < edits.len() && (#[trigger] edits[j]) is SetCell ==> cell_position(
                edits[j]->cell@,
            ) != (Some((col + 1) as u32), Some((row + 1) as u32)) && cell_position(
                edits[j]->cell@,
            ).0 is Some && cell_position(edits[j]->cell@).1 is Some,
    ensures
        ({
            let p = ((col + 1) as u32, (row + 1) as u32);
            now[t].cells.contains_key(p) && holds_set(edits[k]->value@, now[t].cells[p])
        }),
{
    let p = ((col + 1) as u32, (row + 1) as u32);
    lemma_plain(row, col);
    assert forall|j: int| k < j < edits.len() implies !sets_cell(#[trigger] edits[j], p) by {
        if edits[j] is SetCell {
            let c = cell_position(edits[j]->cell@);
            assert(c == (Some(c.0->0), Some(c.1->0)));
        }
    }
    lemma_set_lasts(start, t, edits, edits.len() as int, now, k, p);
}

/// Rows are appended right below the last row that holds a cell, each value in
/// its place, and no other cell comes or changes.
pub proof fn law_only_rows_are_appended(
    a: SheetView,
    b: SheetView,
    rows: Vec<Vec<String>>,
    p: (u32, u32),
)
    requires
        edit_done(a, b, SpreadsheetEdit::AppendRows { rows }),
    ensures
        forall|q: (u32, u32)| #[trigger] a.cells.contains_key(q) ==> q.1 <= top_row(a),
        top_row(a) > 0 ==> exists|q: (u32, u32)| #[trigger]
            a.cells.contains_key(q) && q.1 == top_row(a),
        a.cells.contains_key(p) ==> b.cells.contains_key(p) && b.cells[p] == a.cells[p],
        b.cells.contains_key(p) && !a.cells.contains_key(p) ==> {
            let i = p.1 - top_row(a) - 1;
            let j = p.0 - 1;
            &&& 0 <= i < rows@.len()
            &&& 0 <= j < rows@[i]@.len()
            &&& b.cells[p].value == stored_value(rows@[i]@[j]@)
            &&& b.cells[p].formula.len() == 0
        },
{
    lemma_has_top_row(a, u32::MAX as int);
    let start = top_row(a) as int;
    let views = row_values(rows@);
    assert(views.len() == rows@.len());
    assert forall|i: int| 0 <= i < rows@.len() implies #[trigger] views[i] == text::views(
        rows@[i]@,
    ) by {}
    if a.cells.contains_key(p) {
        assert(p.1 <= start);
        assert(!in_block(views, start, rows@.len() as int, 0, p));
    } else if b.cells.contains_key(p) {
        let i = p.1 - start - 1;
        let j = p.0 - 1;
        assert(in_block(views, start, rows@.len() as int, 0, p));
        assert(views[i] == text::views(rows@[i]@));
        assert(views[i][j] == rows@[i]@[j]@);
    }
}

/// Making a range between two cells bold makes every cell of the rectangle
/// that they span bold, and changes nothing else: their values, their formulas
/// and the rest of their styles stay, and so does every other cell.
pub proof fn law_bold_covers_the_rectangle(
    a: SheetView,
    b: SheetView,
    range: String,
    r1: nat,
    c1: nat,
    r2: nat,
    c2: nat,
    p: (u32, u32),
)
    requires
        edit_done(a, b, SpreadsheetEdit::SetBold { range }),
        addressable(r1 as int, c1 as int),
        addressable(r2 as int, c2 as int),
        range@ == cell_address::cell_address(r1, c1) + seq![':'] + cell_address::cell_address(
            r2,
            c2,
        ),
    ensures
        ({
            let row = p.1 - 1;
            let col = p.0 - 1;
            let inside = (r1 <= row <= r2 || r2 <= row <= r1) && (c1 <= col <= c2 || c2 <= col
                <= c1);
            &&& inside ==> b.cells.contains_key(p) && is_bold(b.cells[p].style) && b.cells[p].value
                == cell_at(a, p).value && b.cells[p].formula == cell_at(a, p).formula
                && b.cells[p].style.rest == cell_at(a, p).style.rest
            &&& !inside ==> (b.cells.contains_key(p) <==> a.cells.contains_key(p)) && (
            a.cells.contains_key(p) ==> b.cells[p] == a.cells[p])
        }),
{
    cell_address::law_range_spans_its_cells(r1, c1, r2, c2);
    let (s, e) = cell_address::range_of(range@)->0;
    let (d1, d2) = columns_of(s, e);
    let row = p.1 - 1;
    let col = p.0 - 1;
    let inside = (r1 <= row <= r2 || r2 <= row <= r1) && (c1 <= col <= c2 || c2 <= col <= c1);
    assert(in_rectangle(s.0, d1, d2, e.0 + 1, 0, p) == inside);
    assert(b.cells.contains_key(p) <==> a.cells.contains_key(p) || inside);
}

proof fn lemma_bold_lasts(
    t: int,
    edits: Seq<SpreadsheetEdit>,
    n: int,
    now: Seq<SheetView>,
    p: (u32, u32),
    k: int,
    mid: Seq<SheetView>,
)
    requires
        0 <= k <= n <= edits.len(),
        run_on(mid, t, edits, k, n, now),
        mid[t].cells.contains_key(p),
        is_bold(mid[t].cells[p].style),
    ensures
        now[t].cells.contains_key(p),
        is_bold(now[t].cells[p].style),
    decreases n - k,
{
    if k < n {
        let next = choose|next: Seq<SheetView>| #[trigger]
            edit_step(mid, next, t, edits[k]) && run_on(next, t, edits, k + 1, n, now);
        lemma_cells_stay(mid[t], next[t], edits[k], p);
        law_formatting_is_kept(mid[t], next[t], edits[k], p);
        lemma_bold_lasts(t, edits, n, now, p, k + 1, next);
    }
}

/// The edits from `k` up to `n` make `now` of the sheets `mid`.
spec fn run_on(
    mid: Seq<SheetView>,
    t: int,
    edits: Seq<SpreadsheetEdit>,
    k: int,
    n: int,
    now: Seq<SheetView>,
) -> bool
    decreases n - k,
{
    if k >= n {
        now == mid
    } else {
        exists|next: Seq<SheetView>| #[trigger]
            edit_step(mid, next, t, edits[k]) && run_on(next, t, edits, k + 1, n, now)
    }
}

proof fn lemma_run_splits(
    start: Seq<SheetView>,
    t: int,
    edits: Seq<SpreadsheetEdit>,
    k: int,
    n: int,
    now: Seq<SheetView>,
) -> (mid: Seq<SheetView>)
    requires
        0 <= k <= n <= edits.len(),
        after_edits(start, t, edits, n, now),
    ensures
        after_edits(start, t, edits, k, mid),
        run_on(mid, t, edits, k, n, now),
    decreases n - k,
{
    if k == n {
        now
    } else {
        let next = lemma_run_splits(start, t, edits, k + 1, n, now);
        let m = k + 1;
        let mid = choose|mid: Seq<SheetView>|
            after_edits(start, t, edits, m - 1, mid) && #[trigger] edit_step(
                mid,
                next,
                t,
                edits[m - 1],
            );
        assert(edit_step(mid, next, t, edits[k]));
        mid
    }
}

/// A cell that an edit makes bold is bold after all edits, whatever follows.
pub proof fn law_bold_lasts(
    start: Seq<SheetView>,
    t: int,
    edits: Seq<SpreadsheetEdit>,
    now: Seq<SheetView>,
    k: int,
    r1: nat,
    c1: nat,
    r2: nat,
    c2: nat,
    p: (u32, u32),
)
    requires
        after_edits(start, t, edits, edits.len() as int, now),
        0 <= k < edits.len(),
        edits[k] is SetBold,
        addressable(r1 as int, c1 as int),
        addressable(r2 as int, c2 as int),
        edits[k]->range@ == cell_address::cell_address(r1, c1) + seq![':']
            + cell_address::cell_address(r2, c2),
        r1 <= p.1 - 1 <= r2 || r2 <= p.1 - 1 <= r1,
        c1 <= p.0 - 1 <= c2 || c2 <= p.0 - 1 <= c1,
    ensures
        now[t].cells.contains_key(p),
        is_bold(now[t].cells[p].style),
{
    let n = edits.len() as int;
    let mid = lemma_run_splits(start, t, edits, k, n, now);
    let next = choose|next: Seq<SheetView>| #[trigger]
        edit_step(mid, next, t, edits[k]) && run_on(next, t, edits, k + 1, n, now);
    if let SpreadsheetEdit::SetBold { range } = edits[k] {
        law_bold_covers_the_rectangle(mid[t], next[t], range, r1, c1, r2, c2, p);
    }
    lemma_bold_lasts(t, edits, n, now, p, k + 1, next);
}

/// What is told of one edit.
pub open spec fn told_of(edit: SpreadsheetEdit) -> Seq<char> {
    match edit {
        SpreadsheetEdit::CreateSheet { name } => "created sheet `"@ + name@ + "`"@,
        SpreadsheetEdit::SetCell { cell, .. } => "set "@ + cell@,
        SpreadsheetEdit::AppendRows { rows } => "appended "@ + text::decimal(rows@.len())
            + " row(s)"@,
        SpreadsheetEdit::SetBold { range } => "bolded "@ + range@,
    }
}

/// The edits that create sheets.
pub open spec fn creating(edits: Seq<SpreadsheetEdit>) -> Seq<SpreadsheetEdit> {
    edits.filter(|e: SpreadsheetEdit| e is CreateSheet)
}

/// The edits that do not create sheets.
pub open spec fn changing(edits: Seq<SpreadsheetEdit>) -> Seq<SpreadsheetEdit> {
    edits.filter(|e: SpreadsheetEdit| !(e is CreateSheet))
}

proof fn lemma_notes(edits: Seq<SpreadsheetEdit>)
    ensures
        creation_notes(edits) == creating(edits).map_values(|e: SpreadsheetEdit| told_of(e)),
        edit_notes(edits) == changing(edits).map_values(|e: SpreadsheetEdit| told_of(e)),
        creating(edits).len() + changing(edits).len() == edits.len(),
    decreases edits.len(),
{
    reveal(Seq::filter);
    let f = |e: SpreadsheetEdit| told_of(e);
    if edits.len() > 0 {
        lemma_notes(edits.drop_last());
    }
    assert(creation_notes(edits) =~= creating(edits).map_values(f));
    assert(edit_notes(edits) =~= changing(edits).map_values(f));
}

/// Every edit that was applied is told of, each once: first the sheets that
/// were created, then the other edits, both in their order.
pub proof fn law_every_edit_is_told_of(
    before: Seq<SheetView>,
    input: EditSpreadsheetToolInput,
    r: Result<(umya_spreadsheet::Spreadsheet, Vec<String>), EditFailure>,
)
    requires
        edits_outcome(before, input, r),
        r is Ok,
    ensures
        r->Ok_0.1@.len() == input.edits@.len(),
        text::views(r->Ok_0.1@) == (creating(input.edits@) + changing(input.edits@)).map_values(
            |e: SpreadsheetEdit| told_of(e),
        ),
{
    let edits = input.edits@;
    let notes = r->Ok_0.1@;
    lemma_notes(edits);
    assert(text::views(notes).len() == notes.len());
    assert((creating(edits) + changing(edits)).map_values(|e: SpreadsheetEdit| told_of(e))
        =~= creating(edits).map_values(|e: SpreadsheetEdit| told_of(e)) + changing(
        edits,
    ).map_values(|e: SpreadsheetEdit| told_of(e)));
    if edits.len() == 0 {
        assert(creation_notes(edits) =~= Seq::empty() && edit_notes(edits) =~= Seq::empty());
        assert(text::views(notes) =~= Seq::empty());
    }
}

/// Making a style bold changes that and nothing else: the rest of the font and
/// the rest of the style are kept.
pub proof fn law_bold_keeps_the_rest(style: StyleView)
    ensures
        is_bold(with_bold(style)),
        with_bold(style).rest == style.rest,
        style.font matches Some(font) ==> with_bold(style).font->0.rest == font.rest,
        style.font is None ==> with_bold(style).font->0.rest is None,
        with_bold(with_bold(style)) == with_bold(style),
{
}

/// A cell that is made has the style of its row, failing that the one of its
/// column, and holds nothing; one that is there is taken as it is.
pub proof fn law_new_cell_takes_its_style(s: SheetView, p: (u32, u32))
    ensures
        s.cells.contains_key(p) ==> cell_at(s, p) == s.cells[p],
        !s.cells.contains_key(p) ==> {
            &&& cell_at(s, p).value.kind is Empty
            &&& cell_at(s, p).formula.len() == 0
            &&& s.rows.contains_key(p.1) ==> cell_at(s, p).style == s.rows[p.1]
            &&& !s.rows.contains_key(p.1) && s.columns.contains_key(p.0) ==> cell_at(s, p).style
                == s.columns[p.0]
            &&& !s.rows.contains_key(p.1) && !s.columns.contains_key(p.0) ==> {
                &&& cell_at(s, p).style.font is None
                &&& cell_at(s, p).style.rest is None
            }
        },
{
}

/// A sheet can always be created, a cell set wherever its address names a
/// column and a row, and a range made bold wherever it is one whose last cell
/// has an address. A text that is no range is told of as such.
pub proof fn law_edits_that_can_be_applied(s: SheetView, edit: SpreadsheetEdit)
    ensures
        edit is CreateSheet ==> edit_problem(s, edit) is None,
        edit matches SpreadsheetEdit::SetCell { cell, .. } ==> (edit_problem(s, edit) is None
            <==> cell_position(cell@).0 is Some && cell_position(cell@).1 is Some),
        edit matches SpreadsheetEdit::SetBold { range } ==> (cell_address::range_fits(range@) ==> {
            &&& cell_address::range_of(range@) is None <==> edit_problem(s, edit) == Some(
                Problem::InvalidRange,
            )
            &&& cell_address::range_of(range@) matches Some((a, b)) ==> (edit_problem(s, edit)
                is None <==> 0 <= b.0 < u32::MAX && 0 <= a.1 < 18278 && 0 <= b.1 < 18278)
        }),
{
}

/// An edit can be applied by what it says alone: its address or its range is
/// one.
spec fn says_a_place(edit: SpreadsheetEdit) -> bool {
    match edit {
        SpreadsheetEdit::SetCell { cell, .. } => cell_position(cell@).0 is Some && cell_position(
            cell@,
        ).1 is Some,
        SpreadsheetEdit::SetBold { range } => cell_address::range_of(range@) is Some,
        _ => true,
    }
}

proof fn lemma_applied_say_places(
    start: Seq<SheetView>,
    t: int,
    edits: Seq<SpreadsheetEdit>,
    n: int,
    now: Seq<SheetView>,
)
    requires
        n <= edits.len(),
        after_edits(start, t, edits, n, now),
    ensures
        forall|k: int| 0 <= k < n ==> says_a_place(#[trigger] edits[k]),
    decreases n,
{
    if n > 0 {
        let mid = choose|mid: Seq<SheetView>|
            after_edits(start, t, edits, n - 1, mid) && #[trigger] edit_step(
                mid,
                now,
                t,
                edits[n - 1],
            );
        lemma_applied_say_places(start, t, edits, n - 1, mid);
        assert(edit_problem(mid[t], edits[n - 1]) is None);
    }
}

/// Edits are applied only where every cell that is set has an address and every
/// range that is made bold is one. Where they fail on a sheet that is there,
/// the error tells a range that is none.
pub proof fn law_bad_range_is_reported(
    before: Seq<SheetView>,
    input: EditSpreadsheetToolInput,
    r: Result<(umya_spreadsheet::Spreadsheet, Vec<String>), EditFailure>,
    k: int,
)
    requires
        edits_outcome(before, input, r),
        input.sheet is Some,
        exists|i: int|
            0 <= i < before.len() && (#[trigger] before[i]).name == input.sheet->0@,
        0 <= k < input.edits@.len(),
    ensures
        r is Ok && input.edits@[k] is SetBold ==> cell_address::range_of(
            input.edits@[k]->range@,
        ) is Some,
        r is Ok && input.edits@[k] is SetCell ==> cell_position(input.edits@[k]->cell@).0 is Some
            && cell_position(input.edits@[k]->cell@).1 is Some,
        r is Err && r->Err_0 is Failed ==> exists|j: int|
            0 <= j < input.edits@.len() && (#[trigger] input.edits@[j]) is SetBold
                && cell_address::range_of(input.edits@[j]->range@) is None
                && r->Err_0->Failed_0@ == "invalid range `"@ + input.edits@[j]->range@ + "`"@,
{
    let edits = input.edits@;
    let name = input.sheet->0@;
    let start = with_created(before, edits);
    lemma_name_index(names_of(start), name, 0);
    law_sheets_are_created(before, edits);
    let i = choose|i: int| 0 <= i < before.len() && (#[trigger] before[i]).name == name;
    assert(start[i] == before[i]);
    assert(names_of(start)[i] == name);
    let t = name_index(names_of(start), name, 0)->0;
    match r {
        Ok((book, notes)) => {
            lemma_applied_say_places(start, t, edits, edits.len() as int, book_sheets(book));
            assert(says_a_place(edits[k]));
        },
        Err(EditFailure::Failed(e)) => {
            let j = choose|j: int|
                stops_at(start, t, edits, j, Problem::InvalidRange) && e@ == "invalid range `"@
                    + #[trigger] range_text(edits[j]) + "`"@;
            let mid = choose|mid: Seq<SheetView>|
                after_edits(start, t, edits, j, mid) && #[trigger] meets(
                    mid,
                    t,
                    edits[j],
                    Problem::InvalidRange,
                );
            assert(edits[j] is SetBold);
            assert(range_text(edits[j]) == edits[j]->range@);
        },
        _ => {},
    }
}

// ---- what callers see -------------------------------------------------------------------------

/// What the editing tool gives back tells every note and then where the
/// workbook was saved, or the error as it is.
pub proof fn law_edit_tool_tells(
    notes: Vec<String>,
    path: &str,
    error: String,
    done: EditSpreadsheetToolOutput,
    undone: EditSpreadsheetToolOutput,
    told: String,
    failed: String,
)
    requires
        call_ensures(edit_impl, (Ok(notes), path), done),
        call_ensures(edit_impl, (Err(error), path), undone),
        call_ensures(EditSpreadsheetToolOutput::content, (done,), told),
        call_ensures(EditSpreadsheetToolOutput::content, (undone,), failed),
    ensures
        told@ == text::join(text::views(notes@).push("saved "@ + path@), "; "@),
        failed@ == error@,
{
}

/// A workbook that is not there yet starts with one sheet, which has no cells.
/// Edits of a workbook come out as they are said to.
pub proof fn law_edits_come_out(
    fresh: umya_spreadsheet::Spreadsheet,
    book: umya_spreadsheet::Spreadsheet,
    input: &EditSpreadsheetToolInput,
    r: Result<(umya_spreadsheet::Spreadsheet, Vec<String>), EditFailure>,
)
    requires
        call_ensures(fresh_workbook, (), fresh),
        call_ensures(apply_edits, (book, input), r),
    ensures
        book_sheets(fresh).len() == 1,
        book_sheets(fresh)[0].name == "Sheet1"@,
        forall|p: (u32, u32)| !(#[trigger] book_sheets(fresh)[0].cells.contains_key(p)),
        edits_outcome(book_sheets(book), *input, r),
{
}

/// Rows can be appended wherever there is room below the last row of a cell,
/// for up to 18278 cells each.
pub proof fn law_rows_can_be_appended(s: SheetView, rows: Vec<Vec<String>>, top: u32)
    requires
        is_top_row(s, top),
        top + rows@.len() <= u32::MAX,
        forall|i: int| 0 <= i < rows@.len() ==> (#[trigger] rows@[i])@.len() <= 18278,
    ensures
        edit_problem(s, (SpreadsheetEdit::AppendRows { rows })) is None,
{
    lemma_has_top_row(s, u32::MAX as int);
    lemma_top_row(s, top, top_row(s));
    let values = row_values(rows@);
    assert forall|i: int| 0 <= i < values.len() && (#[trigger] values[i]).len() > 0 implies addressable(
        top + i,
        values[i].len() - 1,
    ) by {
        assert(values[i].len() == rows@[i]@.len());
    }
}

/// Whether an edit can be applied whatever the sheet holds: it creates a sheet,
/// it sets a cell that has a column and a row, or it makes a range bold whose
/// last cell has an address.
pub open spec fn always_applies(edit: SpreadsheetEdit) -> bool {
    match edit {
        SpreadsheetEdit::CreateSheet { .. } => true,
        SpreadsheetEdit::SetCell { cell, .. } => cell_position(cell@).0 is Some && cell_position(
            cell@,
        ).1 is Some,
        SpreadsheetEdit::AppendRows { .. } => false,
        SpreadsheetEdit::SetBold { range } => {
            &&& cell_address::range_fits(range@)
            &&& cell_address::range_of(range@) matches Some((a, b)) && 0 <= b.0 < u32::MAX && 0
                <= a.1 < 18278 && 0 <= b.1 < 18278
        },
    }
}

/// Edits of a sheet that is there succeed, where each of them can be applied
/// whatever the sheet holds.
pub proof fn law_edits_succeed(
    before: Seq<SheetView>,
    input: EditSpreadsheetToolInput,
    r: Result<(umya_spreadsheet::Spreadsheet, Vec<String>), EditFailure>,
)
    requires
        edits_outcome(before, input, r),
        input.sheet is Some,
        exists|i: int|
            0 <= i < before.len() && (#[trigger] before[i]).name == input.sheet->0@,
        forall|k: int| 0 <= k < input.edits@.len() ==> always_applies(#[trigger] input.edits@[k]),
    ensures
        r is Ok,
{
    let edits = input.edits@;
    let name = input.sheet->0@;
    let start = with_created(before, edits);
    lemma_name_index(names_of(start), name, 0);
    law_sheets_are_created(before, edits);
    let i = choose|i: int| 0 <= i < before.len() && (#[trigger] before[i]).name == name;
    assert(start[i] == before[i]);
    assert(names_of(start)[i] == name);
    let t = name_index(names_of(start), name, 0)->0;
    assert forall|k: int, p: Problem| !#[trigger] stops_at(start, t, edits, k, p) by {
        if stops_at(start, t, edits, k, p) {
            let mid = choose|mid: Seq<SheetView>|
                after_edits(start, t, edits, k, mid) && #[trigger] meets(mid, t, edits[k], p);
            assert(always_applies(edits[k]));
        }
    }
}

} // verus!
