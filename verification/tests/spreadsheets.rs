use umya_spreadsheet::Spreadsheet;
use zagent::cell_address::{
    cell_address_fits, cell_range_fits, col_letters_to_index, column_fits, coord_to_address,
    index_to_col_letters, parse_cell_address, parse_cell_range,
};
use zagent::spreadsheet_edit::{
    apply_edits, edit_impl, fresh_workbook, EditFailure, EditSpreadsheetToolInput,
    EditSpreadsheetToolOutput, SpreadsheetEdit,
};
use zagent::spreadsheet_read::{
    choose_sheet, choose_sheet_given, data_in_range, date_text, escape_pipes, format_data,
    markdown_row, read_content, read_impl, read_sheet, sheet_in_range,
    CellError, Data, ReadSpreadsheetToolInput,
    ReadSpreadsheetToolOutput, SheetData, SpreadsheetRead,
};

fn strings(items: &[&str]) -> Vec<String> {
    items.iter().map(|s| s.to_string()).collect()
}

#[test]
fn columns() {
    assert_eq!(col_letters_to_index("A"), Some(0));
    assert_eq!(col_letters_to_index("z"), Some(25));
    assert_eq!(col_letters_to_index("AA"), Some(26));
    assert_eq!(col_letters_to_index("xfd"), Some(16383));
    assert_eq!(col_letters_to_index(""), None);
    assert_eq!(col_letters_to_index("A1"), None);
    assert_eq!(col_letters_to_index("É"), None);
    for index in [0, 25, 26, 51, 52, 701, 702, 16383, 18277, 18278] {
        assert_eq!(col_letters_to_index(&index_to_col_letters(index)), Some(index));
    }
    assert_eq!(index_to_col_letters(0), "A");
    assert_eq!(index_to_col_letters(25), "Z");
    assert_eq!(index_to_col_letters(26), "AA");
    assert_eq!(index_to_col_letters(701), "ZZ");
    assert_eq!(index_to_col_letters(702), "AAA");
    assert!(column_fits("ABC"));
    assert!(column_fits(""));
    assert!(!column_fits(&"Z".repeat(20)));
    assert!(!column_fits(&format!("{}!", "Z".repeat(20))));
    assert!(column_fits(&format!("A!{}", "Z".repeat(20))));
}

#[test]
fn addresses() {
    assert_eq!(parse_cell_address("B7"), Some((6, 1)));
    assert_eq!(parse_cell_address("b007"), Some((6, 1)));
    assert_eq!(parse_cell_address("7"), None);
    assert_eq!(parse_cell_address("B"), None);
    assert_eq!(parse_cell_address("B7x"), None);
    assert_eq!(parse_cell_address("$B7"), None);
    assert_eq!(parse_cell_address("B99999999999999999999999"), None);
    assert!(!cell_address_fits("A0"));
    assert!(cell_address_fits("-0"));
    assert!(cell_address_fits("A1"));
    assert_eq!(coord_to_address(6, 1), "B7");
    assert_eq!(coord_to_address(0, 26), "AA1");
    assert_eq!(parse_cell_address(&coord_to_address(123, 456)), Some((123, 456)));
}

#[test]
fn ranges() {
    assert_eq!(parse_cell_range("A1:C3"), Some(((0, 0), (2, 2))));
    assert_eq!(parse_cell_range("C3:A1"), Some(((0, 0), (2, 2))));
    assert_eq!(parse_cell_range("B1:A2"), Some(((0, 1), (1, 0))));
    assert_eq!(parse_cell_range("A1"), None);
    assert_eq!(parse_cell_range("A1:B2:C3"), None);
    assert_eq!(parse_cell_range("A1:"), None);
    assert!(cell_range_fits("A1:B2"));
    assert!(!cell_range_fits("A0:B2"));
    assert!(!cell_range_fits("A1:B0"));
    assert!(cell_range_fits("x:B0"));
    assert!(cell_range_fits("none"));
}

#[test]
fn cell_texts() {
    let text = |s: &str| s.to_string();
    assert_eq!(format_data(&Data::Empty), "");
    assert_eq!(format_data(&Data::Text(text("t"))), "t");
    assert_eq!(format_data(&Data::Int(-12)), "-12");
    assert_eq!(format_data(&Data::Int(i64::MIN)), "-9223372036854775808");
    assert_eq!(format_data(&Data::Float { whole: Some(3), text: text("3.0") }), "3");
    assert_eq!(format_data(&Data::Float { whole: None, text: text("2.5") }), "2.5");
    assert_eq!(format_data(&Data::Bool(true)), "true");
    assert_eq!(format_data(&Data::Bool(false)), "false");
    assert_eq!(format_data(&Data::DateTimeIso(text("2020"))), "2020");
    assert_eq!(format_data(&Data::DurationIso(text("PT1S"))), "PT1S");
    assert_eq!(format_data(&Data::Error(CellError::Div0)), "#Div0");
    assert_eq!(format_data(&Data::Error(CellError::GettingData)), "#GettingData");
}

#[test]
fn dates() {
    let date = |days: i64, second: i64| Data::DateTime { days, second, text: "serial".to_string() };
    assert_eq!(format_data(&date(25569, 0)), "1970-01-01 00:00:00");
    assert_eq!(format_data(&date(45292, 45296)), "2024-01-01 12:34:56");
    assert_eq!(format_data(&date(25568, 86400)), "1970-01-01 00:00:00");
    assert_eq!(format_data(&date(1_000_000_000_000, 0)), "serial");
    assert!(data_in_range(&date(45292, 1)));
    assert!(!data_in_range(&date(i64::MAX, 0)));
    assert!(!data_in_range(&date(i64::MIN, 0)));
    assert_eq!(date_text(Some("d".to_string()), "s"), "d");
    assert_eq!(date_text(None, "s"), "s");
}

fn read_input(range: Option<&str>, max_rows: Option<usize>) -> ReadSpreadsheetToolInput {
    ReadSpreadsheetToolInput {
        path: "p".to_string(),
        sheet: None,
        range: range.map(|r| r.to_string()),
        max_rows,
    }
}

fn grid(start: Option<(u32, u32)>, rows: usize, cols: usize) -> SheetData {
    SheetData {
        start,
        rows: (0..rows)
            .map(|r| (0..cols).map(|c| Data::Text(format!("{r}.{c}"))).collect())
            .collect(),
    }
}

fn read(data: &SheetData, range: Option<&str>, max_rows: Option<usize>) -> SpreadsheetRead {
    read_sheet(
        &read_input(range, max_rows),
        "S".to_string(),
        strings(&["S", "T"]),
        data,
    )
    .unwrap()
}

#[test]
fn tables() {
    assert_eq!(escape_pipes("a|b||"), "a\\|b\\|\\|");
    let mut out = "x".to_string();
    markdown_row(&mut out, &strings(&["a", "b|c"]));
    assert_eq!(out, "x| a | b\\|c | \n");
    let r = read(&grid(None, 2, 2), None, None);
    assert_eq!(
        r.table_markdown,
        "| 0.0 | 0.1 | \n| --- | --- |\n| 1.0 | 1.1 | \n"
    );
    assert_eq!((r.rows_total, r.rows_returned, r.truncated), (2, 2, false));
    let r = read(&grid(None, 0, 0), None, None);
    assert_eq!(r.table_markdown, "");
}

#[test]
fn windows() {
    let data = grid(Some((2, 1)), 4, 3);
    let r = read(&data, Some("C4:D5"), None);
    assert_eq!(r.table_markdown, "| 1.1 | 1.2 | \n| --- | --- |\n| 2.1 | 2.2 | \n");
    let swapped = read(&data, Some("D4:C5"), None);
    assert_eq!(swapped.table_markdown, r.table_markdown);
    let r = read(&data, Some("A1:A2"), None);
    assert_eq!((r.rows_total, r.table_markdown.as_str()), (0, ""));
    let r = read(&data, Some("A1:A9"), None);
    assert_eq!(r.rows_total, 4);
    assert_eq!(r.table_markdown, "| \n|\n| \n| \n| \n");
}

#[test]
fn limits() {
    let r = read(&grid(None, 250, 1), None, None);
    assert_eq!((r.rows_total, r.rows_returned, r.truncated), (250, 200, true));
    let r = read(&grid(None, 2100, 1), None, Some(5000));
    assert_eq!((r.rows_total, r.rows_returned, r.truncated), (2100, 2000, true));
    let r = read(&grid(None, 3, 1), None, Some(0));
    assert_eq!((r.rows_total, r.rows_returned, r.truncated), (3, 0, true));
    let r = read(&grid(None, 1, 70), None, None);
    assert_eq!(r.table_markdown.matches("---").count(), 60);
}

#[test]
fn cells_outside_the_window_are_not_shown() {
    let far = Data::DateTime { days: i64::MAX, second: 0, text: "far".to_string() };
    let data = SheetData {
        start: Some((1, 1)),
        rows: vec![vec![Data::Bool(true), far], vec![Data::Int(7)]],
    };
    assert!(!sheet_in_range(&read_input(None, None), &data));
    assert!(sheet_in_range(&read_input(None, Some(0)), &data));
    assert!(sheet_in_range(&read_input(Some("no range"), None), &data));
    assert!(!sheet_in_range(&read_input(Some("C2:C2"), None), &data));
    assert!(sheet_in_range(&read_input(Some("B2:B3"), None), &data));
    assert_eq!(
        read(&data, Some("B2:B3"), None).table_markdown,
        "| true | \n| --- |\n| 7 | \n"
    );
}

#[test]
fn bad_ranges() {
    let e = read_sheet(
        &read_input(Some("oops"), None),
        "S".to_string(),
        vec![],
        &grid(None, 1, 1),
    )
    .unwrap_err();
    assert_eq!(e, "invalid range `oops`");
    match read_impl(Err(e)) {
        ReadSpreadsheetToolOutput::Error { error } => assert_eq!(error, "invalid range `oops`"),
        _ => panic!("read"),
    }
}

#[test]
fn sheets_to_read() {
    let names = strings(&["One", "T\"wo"]);
    assert_eq!(choose_sheet(&None, &names).unwrap(), "One");
    assert_eq!(choose_sheet(&Some("T\"wo".to_string()), &names).unwrap(), "T\"wo");
    assert_eq!(
        choose_sheet(&Some("x".to_string()), &names).unwrap_err(),
        "sheet `x` not found; available sheets: [\"One\", \"T\\\"wo\"]"
    );
    assert_eq!(
        choose_sheet(&None, &vec![]).unwrap_err(),
        "the workbook contains no sheets"
    );
    assert_eq!(
        choose_sheet_given(&Some("x".to_string()), &names, "L").unwrap_err(),
        "sheet `x` not found; available sheets: L"
    );
}

#[test]
fn read_results() {
    let r = read(&grid(None, 1, 1), None, None);
    assert_eq!(
        read_content(&r, "L"),
        "Sheets: L. Reading `S`: 1 of 1 rows.\n\n| 0.0 | \n| --- |\n"
    );
    assert_eq!(
        read_impl(Ok(r)).content(),
        "Sheets: [\"S\", \"T\"]. Reading `S`: 1 of 1 rows.\n\n| 0.0 | \n| --- |\n"
    );
    let r = read(&grid(None, 2, 1), None, Some(1));
    assert!(read_content(&r, "L")
        .contains("1 of 2 rows (truncated — call again with a `range` for the rest)."));
}

fn edit_input(sheet: Option<&str>, edits: Vec<SpreadsheetEdit>) -> EditSpreadsheetToolInput {
    EditSpreadsheetToolInput {
        path: "p".to_string(),
        sheet: sheet.map(|s| s.to_string()),
        edits,
    }
}

fn set(cell: &str, value: &str) -> SpreadsheetEdit {
    SpreadsheetEdit::SetCell { cell: cell.to_string(), value: value.to_string() }
}

fn create(name: &str) -> SpreadsheetEdit {
    SpreadsheetEdit::CreateSheet { name: name.to_string() }
}

fn bold(range: &str) -> SpreadsheetEdit {
    SpreadsheetEdit::SetBold { range: range.to_string() }
}

fn append(rows: &[&[&str]]) -> SpreadsheetEdit {
    SpreadsheetEdit::AppendRows { rows: rows.iter().map(|r| strings(r)).collect() }
}

fn applied(sheet: Option<&str>, edits: Vec<SpreadsheetEdit>) -> (Spreadsheet, Vec<String>) {
    match apply_edits(fresh_workbook(), &edit_input(sheet, edits)) {
        Ok(done) => done,
        Err(EditFailure::Failed(e)) => panic!("{}", e),
        Err(EditFailure::Unaddressable) => panic!("no address"),
    }
}

fn value(book: &Spreadsheet, sheet: &str, cell: &str) -> String {
    book.get_sheet_by_name(sheet).unwrap().get_value(cell)
}

fn is_bold(book: &Spreadsheet, cell: &str) -> bool {
    let sheet = book.get_sheet_by_name("Sheet1").unwrap();
    match sheet.get_cell(cell) {
        Some(c) => match c.get_style().get_font() {
            Some(font) => *font.get_bold(),
            None => false,
        },
        None => false,
    }
}

#[test]
fn cells_are_set() {
    let (book, notes) = applied(
        None,
        vec![set("B2", "text"), set("a1", "3.50"), set("C3", "=SUM(A1:B2)"), set("$D$4", "x")],
    );
    assert_eq!(notes, strings(&["set B2", "set a1", "set C3", "set $D$4"]));
    assert_eq!(value(&book, "Sheet1", "B2"), "text");
    assert_eq!(value(&book, "Sheet1", "A1"), "3.5");
    assert_eq!(value(&book, "Sheet1", "D4"), "x");
    let sheet = book.get_sheet_by_name("Sheet1").unwrap();
    assert_eq!(sheet.get_cell("A1").unwrap().get_value_number(), Some(3.5));
    assert_eq!(sheet.get_cell("C3").unwrap().get_formula(), "SUM(A1:B2)");
    assert_eq!(sheet.get_cell("C3").unwrap().get_value(), "");
}

#[test]
fn a_value_replaces_a_formula() {
    let (book, _) = applied(None, vec![set("A1", "=1+1"), set("A1", "2"), set("A1", "=B1")]);
    let cell = book.get_sheet_by_name("Sheet1").unwrap().get_cell("A1").unwrap();
    assert_eq!(cell.get_formula(), "B1");
    assert_eq!(cell.get_value(), "2");
}

#[test]
fn rows_are_appended() {
    let (book, notes) = applied(
        None,
        vec![set("C3", "x"), append(&[&["a", "=b"], &[], &["c"]]), append(&[&["d"]])],
    );
    assert_eq!(notes, strings(&["set C3", "appended 3 row(s)", "appended 1 row(s)"]));
    assert_eq!(value(&book, "Sheet1", "A4"), "a");
    assert_eq!(value(&book, "Sheet1", "B4"), "=b");
    assert_eq!(value(&book, "Sheet1", "A6"), "c");
    assert_eq!(value(&book, "Sheet1", "A7"), "d");
    assert_eq!(value(&book, "Sheet1", "C3"), "x");
    let (book, _) = applied(None, vec![append(&[&["first"]])]);
    assert_eq!(value(&book, "Sheet1", "A1"), "first");
}

#[test]
fn ranges_are_made_bold() {
    let (book, notes) = applied(None, vec![set("B2", "x"), bold("C1:B2")]);
    assert_eq!(notes, strings(&["set B2", "bolded C1:B2"]));
    for cell in ["B1", "C1", "B2", "C2"] {
        assert!(is_bold(&book, cell));
    }
    for cell in ["A1", "D1", "A2", "B3"] {
        assert!(!is_bold(&book, cell));
    }
    assert_eq!(value(&book, "Sheet1", "B2"), "x");
}

#[test]
fn sheets_are_created_first() {
    let (book, notes) = applied(
        None,
        vec![set("A1", "x"), create("Two"), create("Two"), create("Sheet1"), create("Three")],
    );
    assert_eq!(
        notes,
        strings(&[
            "created sheet `Two`",
            "created sheet `Two`",
            "created sheet `Sheet1`",
            "created sheet `Three`",
            "set A1"
        ])
    );
    let names: Vec<&str> = book.get_sheet_collection().iter().map(|s| s.get_name()).collect();
    assert_eq!(names, vec!["Sheet1", "Two", "Three"]);
    assert_eq!(value(&book, "Three", "A1"), "x");
    assert_eq!(value(&book, "Sheet1", "A1"), "");
    let (book, _) = applied(Some("Two"), vec![create("Two"), create("Three"), set("A1", "y")]);
    assert_eq!(value(&book, "Two", "A1"), "y");
}

#[test]
fn what_no_edit_sets_is_kept() {
    let (book, _) = applied(
        None,
        vec![set("B2", "kept"), set("C2", "=B2"), bold("B2:B2"), set("D2", "old")],
    );
    let edits = vec![create("Two"), set("A1", "x"), append(&[&["y"]]), bold("A1:A2")];
    let (book, _) = apply_edits(book, &edit_input(Some("Two"), edits)).unwrap();
    assert_eq!(value(&book, "Two", "A1"), "x");
    assert_eq!(value(&book, "Two", "A2"), "y");
    assert_eq!(value(&book, "Sheet1", "B2"), "kept");
    let (book, _) = apply_edits(
        book,
        &edit_input(None, vec![set("D2", "new"), append(&[&["z"]]), bold("C2:D2")]),
    )
    .unwrap();
    assert_eq!(value(&book, "Sheet1", "D2"), "new");
    assert_eq!(value(&book, "Sheet1", "A3"), "z");
    assert_eq!(value(&book, "Sheet1", "B2"), "kept");
    let sheet = book.get_sheet_by_name("Sheet1").unwrap();
    assert_eq!(sheet.get_cell("C2").unwrap().get_formula(), "B2");
    assert!(is_bold(&book, "B2") && is_bold(&book, "C2"));
    assert_eq!(value(&book, "Two", "A2"), "y");
}

#[test]
fn edits_that_fail() {
    let fails = |sheet: Option<&str>, edits: Vec<SpreadsheetEdit>| match apply_edits(
        fresh_workbook(),
        &edit_input(sheet, edits),
    ) {
        Err(EditFailure::Failed(e)) => e,
        Err(EditFailure::Unaddressable) => "unaddressable".to_string(),
        Ok(_) => panic!("applied"),
    };
    assert_eq!(fails(Some("None"), vec![set("A1", "x")]), "sheet `None` not found");
    assert_eq!(fails(None, vec![set("A1", "x"), bold("zz")]), "invalid range `zz`");
    assert_eq!(fails(None, vec![set("1", "x")]), "unaddressable");
    assert_eq!(fails(None, vec![set("AAAA1", "x")]), "unaddressable");
    assert_eq!(fails(None, vec![bold("A0:B1")]), "unaddressable");
    assert_eq!(fails(None, vec![bold("A1:AAAA1")]), "unaddressable");
    let wide = vec![String::new(); 18279];
    assert_eq!(
        fails(None, vec![SpreadsheetEdit::AppendRows { rows: vec![wide] }]),
        "unaddressable"
    );
    let (book, notes) = applied(Some("None"), vec![]);
    assert!(notes.is_empty());
    assert_eq!(book.get_sheet_collection().len(), 1);
}

#[test]
fn edit_results() {
    let ok = edit_impl(Ok(strings(&["set A1", "bolded A1:B1"])), "/p.xlsx");
    assert_eq!(ok.content(), "set A1; bolded A1:B1; saved /p.xlsx");
    assert_eq!(edit_impl(Ok(vec![]), "/p").content(), "saved /p");
    match edit_impl(Err("no".to_string()), "/p") {
        EditSpreadsheetToolOutput::Error { error } => assert_eq!(error, "no"),
        _ => panic!("done"),
    }
}

#[test]
fn numeric_texts_are_stored_as_numbers() {
    let (book, _) = applied(None, vec![set("A1", "=SUM(B1:B2)"), set("B1", "42")]);
    let sheet = book.get_sheet_by_name("Sheet1").unwrap();
    assert_eq!(sheet.get_cell("A1").unwrap().get_formula(), "SUM(B1:B2)");
    assert_eq!(sheet.get_cell("B1").unwrap().get_value_number(), Some(42.0));
    assert_eq!(sheet.get_cell("B1").unwrap().get_value(), "42");
    let kind = |t: &str| {
        let (book, _) = applied(None, vec![append(&[&[t]])]);
        let cell = book.get_sheet_by_name("Sheet1").unwrap().get_cell("A1").unwrap().clone();
        (cell.get_data_type().to_string(), cell.get_value().to_string())
    };
    for t in [
        "0", "007", "-7", "+7", "1.5", "1.", ".5", "1e5", "1.5E-3", "1.e+2", "-.5e1", "inf",
        "-Infinity", "INF", "+nan", "-NaN", "1e999999",
    ] {
        assert_eq!(kind(t).0, "n", "{}", t);
    }
    for t in [
        "nan", "NaN", ".", "+", "-", "e5", "1e", "1e+", "1 ", " 1", "1,5", "0x10", "1_000", "--1",
        "1.2.3", "infin", "text", "+.", ".e1",
    ] {
        assert_eq!(kind(t), ("s".to_string(), t.to_string()));
    }
    for t in ["0", "7", "120", "999999999999999", "100000000000000"] {
        assert_eq!(kind(t), ("n".to_string(), t.to_string()));
    }
    assert_eq!(kind("1.50").1, "1.5");
    assert_eq!(kind(""), (String::new(), String::new()));
    assert_eq!(kind("True"), ("b".to_string(), "TRUE".to_string()));
    assert_eq!(kind("#N/A").0, "e");
}

fn is_italic(style: &umya_spreadsheet::Style) -> bool {
    style.get_font().map_or(false, |font| *font.get_italic())
}

#[test]
fn formatting_is_kept() {
    let (mut book, _) = applied(None, vec![set("B2", "x"), set("C2", "y")]);
    let style = book.get_sheet_by_name_mut("Sheet1").unwrap().get_style_mut("B2");
    style.get_font_mut().set_italic(true).set_size(20.0);
    style.set_background_color("FFFF0000");
    let before = style.clone();
    let edits = vec![set("B2", "12"), set("B2", "=C2"), append(&[&["z"]])];
    let (book, _) = apply_edits(book, &edit_input(None, edits)).unwrap();
    let sheet = book.get_sheet_by_name("Sheet1").unwrap();
    assert!(*sheet.get_style("B2") == before);
    let (book, _) = apply_edits(book, &edit_input(None, vec![bold("A1:C3")])).unwrap();
    let sheet = book.get_sheet_by_name("Sheet1").unwrap();
    let mut expected = before;
    expected.get_font_mut().set_bold(true);
    assert!(*sheet.get_style("B2") == expected);
    assert!(is_italic(sheet.get_style("B2")) && !is_italic(sheet.get_style("C2")));
    let mut plain = umya_spreadsheet::Style::default();
    plain.get_font_mut().set_bold(true);
    assert!(*sheet.get_style("C2") == plain);
    assert_eq!(sheet.get_cell("B2").unwrap().get_formula(), "C2");
    assert_eq!(value(&book, "Sheet1", "B2"), "12");
}

#[test]
fn new_cells_take_the_style_of_their_row_or_column() {
    let mut book = fresh_workbook();
    let sheet = book.get_sheet_by_name_mut("Sheet1").unwrap();
    sheet.get_column_dimension_mut("B").get_style_mut().get_font_mut().set_italic(true);
    sheet.get_row_dimension_mut(&3).get_style_mut().get_font_mut().set_bold(true);
    let edits = vec![set("A1", "x"), set("B2", "=A1"), set("B3", "y"), set("C3", "1")];
    let (book, _) = apply_edits(book, &edit_input(None, edits)).unwrap();
    let sheet = book.get_sheet_by_name("Sheet1").unwrap();
    assert!(*sheet.get_style("A1") == umya_spreadsheet::Style::default());
    assert!(is_italic(sheet.get_style("B2")) && !is_bold(&book, "B2"));
    assert!(!is_italic(sheet.get_style("B3")) && is_bold(&book, "B3"));
    assert!(is_bold(&book, "C3"));
    let edits = vec![append(&[&["a", "b"]]), bold("B1:B1")];
    let (book, _) = apply_edits(book, &edit_input(None, edits)).unwrap();
    let sheet = book.get_sheet_by_name("Sheet1").unwrap();
    assert!(!is_italic(sheet.get_style("A4")) && is_italic(sheet.get_style("B4")));
    assert!(is_italic(sheet.get_style("B1")) && is_bold(&book, "B1"));
}

#[test]
fn a_workbook_that_was_read_is_edited() {
    let (book, _) = applied(None, vec![set("A1", "x"), bold("A1:A1")]);
    let mut bytes = std::io::Cursor::new(Vec::new());
    umya_spreadsheet::writer::xlsx::write_writer(&book, &mut bytes).unwrap();
    bytes.set_position(0);
    let book = umya_spreadsheet::reader::xlsx::read_reader(bytes, true).unwrap();
    let (book, _) = apply_edits(book, &edit_input(None, vec![set("B1", "7")])).unwrap();
    let (book, notes) = apply_edits(book, &edit_input(None, vec![append(&[&["y"]])])).unwrap();
    assert_eq!(notes, strings(&["appended 1 row(s)"]));
    assert_eq!(value(&book, "Sheet1", "A1"), "x");
    assert_eq!(value(&book, "Sheet1", "B1"), "7");
    assert_eq!(value(&book, "Sheet1", "A2"), "y");
    assert!(is_bold(&book, "A1"));
}
