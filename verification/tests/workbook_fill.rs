use work_logr::dates::{CalendarDate, WeekRange};
use work_logr::excel::error::ExcelError;
use work_logr::excel::layout::TemplateLayout;
use work_logr::excel::refs::{column_index_from_cell_ref, column_name, normalize_label, row_number_from_cell_ref};
use work_logr::excel::sheet::{clear_timesheet_row_values, set_cell};
use work_logr::excel::shared_strings::{parse_shared_string_values, SharedStrings};
use work_logr::excel::workbook::{fill_template, prepare_template};
use work_logr::excel::xml::{escape_xml, find_cell_range, unescape_xml, value_text};
use work_logr::model::TimesheetEntry;
use work_logr::text::{chars_of, string_of};

const SHARED: &str = r#"<sst count="11" uniqueCount="11"><si><t>Month:</t></si><si><t>Employee Name</t></si><si><t>Project Name</t></si><si><t>Weekly Period</t></si><si><t>Date</t></si><si><t>Type of Day</t></si><si><t>Performed Project Tasks</t></si><si><t>Task Status</t></si><si><t>Total Hours</t></si><si><t>Employee Comment</t></si><si><r><t>Old</t></r><r><t> text</t></r></si></sst>"#;

const SHEET: &str = r#"<worksheet><sheetData><row r="1"><c r="A1" s="1" t="s"><v>0</v></c><c r="B1" s="2" t="s"><v>10</v></c></row><row r="2"><c r="A2" s="1" t="s"><v>1</v></c></row><row r="3"><c r="A3" s="1" t="s"><v>2</v></c><c r="C3" s="3"><v>0</v></c></row><row r="4"><c r="A4" s="1" t="s"><v>3</v></c><c r="B4" s="2"><v>x</v></c></row><row r="6"><c r="A6" s="4" t="s"><v>4</v></c><c r="B6" s="4" t="s"><v>5</v></c><c r="C6" s="4" t="s"><v>6</v></c><c r="D6" s="4" t="s"><v>7</v></c><c r="E6" s="4" t="s"><v>8</v></c><c r="F6" s="4" t="s"><v>9</v></c></row><row r="7"><c r="A7" s="5"/><c r="C7" s="6" t="s"/></row><row r="8"><c r="A8" s="5"/><c r="B8" s="6" t="s"/><c r="E8" s="7"/></row><row r="9"><c r="A9" s="5"/></row></sheetData></worksheet>"#;

fn chars(s: &str) -> Vec<char> {
    chars_of(s)
}

fn cell_value(ws: &[char], cell_ref: &str) -> Option<String> {
    let (start, end) = find_cell_range(ws, &chars(cell_ref))?;
    value_text(&ws[start..end]).map(|v| string_of(&v))
}

#[test]
fn reads_rich_text_shared_strings() {
    let values = parse_shared_string_values(&chars(SHARED));
    assert_eq!(values.len(), 11);
    assert_eq!(values[5], "Type of Day");
    assert_eq!(values[10], "Old text");
}

#[test]
fn discovers_labels_columns_and_fill_rows() {
    let values = parse_shared_string_values(&chars(SHARED));
    let layout = TemplateLayout::discover(&chars(SHEET), &values).expect("layout should be found");

    assert_eq!(layout.data_rows, vec![7, 8, 9]);
    let reordered = SHEET.replace(r#"<row r="7">"#, r#"<row r="10">"#);
    let relaid = TemplateLayout::discover(&chars(&reordered), &values).expect("layout should be found");
    assert_eq!(relaid.data_rows, vec![8, 9, 10]);
    assert_eq!(layout.header_fields.len(), 4);
    assert_eq!(string_of(&layout.header_fields[0].cell_ref), "B1");
    assert_eq!(string_of(&layout.header_fields[0].style), "2");
    assert_eq!(string_of(&layout.header_fields[1].cell_ref), "B2");
    assert_eq!(string_of(&layout.header_fields[1].style), "1");
    assert_eq!(string_of(&layout.header_fields[2].cell_ref), "C3");
    assert_eq!(layout.columns.len(), 6);
    assert_eq!(string_of(&layout.columns[0].column), "A");
    assert_eq!(string_of(&layout.columns[0].style), "5");
    assert_eq!(string_of(&layout.columns[1].field), "typeofday");
    assert_eq!(string_of(&layout.columns[1].column), "B");
    assert_eq!(string_of(&layout.columns[1].style), "6");
    assert_eq!(layout.columns[1].cell_type.as_ref().map(|t| string_of(t)), Some("s".to_string()));
    assert_eq!(string_of(&layout.columns[3].style), "4");
    assert_eq!(string_of(&layout.columns[4].style), "7");
    assert_eq!(layout.columns[4].cell_type, None);
    assert_eq!(string_of(&layout.cell_ref(&chars("totalhours"), 9).expect("known column")), "E9");
    assert!(matches!(layout.cell_ref(&chars("overtime"), 9), Err(ExcelError::MissingColumn(ref f)) if f == "overtime"));
    assert!(matches!(layout.style(&chars("overtime")), Err(ExcelError::MissingColumnStyle(_))));
}

#[test]
fn a_long_type_of_day_label_takes_its_style_from_the_cell_below_it() {
    let shared = SHARED.replace("<t>Type of Day</t>", "<t>Type of Day (Work day, Weekend etc)</t>");
    let values = parse_shared_string_values(&chars(&shared));
    let layout = TemplateLayout::discover(&chars(SHEET), &values).expect("layout should be found");
    assert_eq!(string_of(&layout.columns[1].field), "typeofday");
    assert_eq!(string_of(&layout.columns[1].column), "B");
    assert_eq!(string_of(&layout.columns[1].style), "6");
    assert_eq!(layout.columns[1].cell_type.as_ref().map(|t| string_of(t)), Some("s".to_string()));
}

#[test]
fn discovery_reports_what_is_missing() {
    let values = parse_shared_string_values(&chars(SHARED));
    let no_table = SHEET.replace(r#"<c r="F6" s="4" t="s"><v>9</v></c>"#, "");
    assert!(matches!(
        TemplateLayout::discover(&chars(&no_table), &values),
        Err(ExcelError::MissingColumnHeader(ref f)) if f == "employeecomment"
    ));
    let no_rows = SHEET.replace(r#"<row r="8">"#, r#"<row r="5">"#).replace(r#"<row r="7">"#, r#"<row r="5">"#).replace(r#"<row r="9">"#, r#"<row r="5">"#);
    assert!(matches!(TemplateLayout::discover(&chars(&no_rows), &values), Err(ExcelError::NoDataRows)));
    let no_label = SHEET.replace(r#"<c r="A4" s="1" t="s"><v>3</v></c>"#, "");
    assert!(matches!(
        TemplateLayout::discover(&chars(&no_label), &values),
        Err(ExcelError::MissingHeaderLabel(ref f)) if f == "weeklyperiod"
    ));
}

#[test]
fn set_cell_replaces_inserts_in_column_order_and_reports_missing_rows() {
    let ws = chars(SHEET);
    let replaced = set_cell(&ws, &chars("A8"), &chars("5"), None, Some(&chars("46160"))).expect("cell exists");
    assert_eq!(cell_value(&replaced, "A8"), Some("46160".to_string()));

    let inserted = set_cell(&ws, &chars("D8"), &chars("9"), Some(&chars("s")), Some(&chars("3"))).expect("row exists");
    let text = string_of(&inserted);
    assert!(text.contains(r#"<c r="B8" s="6" t="s"/><c r="D8" s="9" t="s"><v>3</v></c><c r="E8" s="7"/>"#));

    let appended = set_cell(&ws, &chars("G7"), &chars("1"), None, Some(&chars("x"))).expect("row exists");
    assert!(string_of(&appended).contains(r#"<c r="C7" s="6" t="s"/><c r="G7" s="1"><v>x</v></c></row>"#));

    assert!(matches!(set_cell(&ws, &chars("A12"), &chars("1"), None, None), Err(ExcelError::MissingRow(12))));
    assert!(matches!(set_cell(&ws, &chars("A"), &chars("1"), None, None), Err(ExcelError::InvalidCellReference(_))));
}

#[test]
fn clearing_a_row_empties_only_cells_the_sheet_has() {
    let values = parse_shared_string_values(&chars(SHARED));
    let ws = chars(&SHEET.replace(r#"<c r="A9" s="5"/>"#, r#"<c r="A9" s="8" t="n"><v>old</v></c>"#));
    let layout = TemplateLayout::discover(&ws, &values).expect("layout should be found");

    let cleared = string_of(&clear_timesheet_row_values(&ws, &layout, 9));

    assert!(cleared.contains(r#"<row r="9"><c r="A9" s="5"/></row>"#));
    assert!(!cleared.contains("B9"));
    assert!(!cleared.contains("<v>old</v>"));
}

fn entry(entry_type: &str, number: &str, title: &str, date: &str) -> TimesheetEntry {
    TimesheetEntry {
        entry_type: entry_type.to_string(),
        number: number.to_string(),
        title: title.to_string(),
        status: "closed".to_string(),
        closed_at: String::new(),
        created_at: String::new(),
        updated_at: String::new(),
        assignees: String::new(),
        author: String::new(),
        url: String::new(),
        date: date.to_string(),
    }
}

fn short_week() -> WeekRange {
    WeekRange {
        start: CalendarDate::from_ymd(2026, 5, 22).expect("valid date"),
        end: CalendarDate::from_ymd(2026, 5, 23).expect("valid date"),
    }
}

#[test]
fn fills_a_template_with_header_values_and_rows() {
    let (strings, ws, layout) = prepare_template(SHARED.to_string(), SHEET.to_string()).expect("template should read");
    assert!(strings.can_take_items());
    let entries = vec![
        entry("Commit", "", "Populate Excel template", "2026-05-22T10:00:00Z"),
        entry("Pull Request", "42", "Verify separate activity rows", "2026-05-22T11:00:00Z"),
    ];

    let (shared, sheet) =
        fill_template(strings, &ws, &layout, &entries, "nsfas", "iamkabelomoobi", &short_week(), "8").expect("fill should succeed");

    let values = parse_shared_string_values(&chars(&shared));
    assert!(shared.starts_with(r#"<sst count="27" uniqueCount="27">"#));
    assert_eq!(values.len(), 27);
    assert_eq!(values[11], "May");
    assert_eq!(values[12], "iamkabelomoobi");
    assert_eq!(values[13], "NSFAS");
    assert_eq!(values[14], "2026-05-22 - 2026-05-23");
    let sheet = chars(&sheet);
    assert_eq!(cell_value(&sheet, "B1"), Some("11".to_string()));
    assert_eq!(cell_value(&sheet, "B2"), Some("12".to_string()));
    assert_eq!(cell_value(&sheet, "C3"), Some("13".to_string()));
    assert_eq!(cell_value(&sheet, "B4"), Some("14".to_string()));
    assert_eq!(cell_value(&sheet, "A7"), cell_value(&sheet, "A8"));
    assert_eq!(cell_value(&sheet, "A7"), Some("46164".to_string()));
    let task = |cell: &str| values[cell_value(&sheet, cell).expect("cell value").parse::<usize>().expect("index")].clone();
    assert_eq!(task("C7"), "Commit: Populate Excel template");
    assert_eq!(task("C8"), "Pull Request #42: Verify separate activity rows");
    assert_eq!(task("B9"), "Weekend");
    assert_eq!(cell_value(&sheet, "E7"), Some("8".to_string()));
    assert_eq!(cell_value(&sheet, "E9"), Some("0".to_string()));
}

#[test]
fn a_week_longer_than_the_table_is_refused() {
    let (strings, ws, layout) = prepare_template(SHARED.to_string(), SHEET.to_string()).expect("template should read");
    let week = WeekRange { start: short_week().start, end: CalendarDate::from_ymd(2026, 5, 25).expect("valid date") };

    let result = fill_template(strings, &ws, &layout, &[], "repo", "user", &week, "8");

    assert!(matches!(result, Err(ExcelError::TooFewRows { available: 3, needed: 4 })));
}

#[test]
fn template_parts_must_be_present_and_counted() {
    assert!(matches!(prepare_template(String::new(), SHEET.to_string()), Err(ExcelError::MissingSharedStrings)));
    assert!(matches!(prepare_template(SHARED.to_string(), String::new()), Err(ExcelError::MissingWorksheet)));
    assert!(matches!(
        prepare_template("<sst></sst>".to_string(), SHEET.to_string()),
        Err(ExcelError::MissingAttribute(ref a)) if a == "count"
    ));
    assert!(matches!(
        prepare_template(r#"<sst count="1" uniqueCount="x"></sst>"#.to_string(), SHEET.to_string()),
        Err(ExcelError::InvalidAttribute(ref a)) if a == "uniqueCount"
    ));
    assert!(matches!(
        prepare_template(r#"<sst count="1"#.to_string(), SHEET.to_string()),
        Err(ExcelError::MalformedAttribute(_))
    ));
}

#[test]
fn pushed_strings_are_escaped_and_counted() {
    let mut strings = SharedStrings::new(r#"<sst count="2" uniqueCount="1"><si><t>a</t></si></sst>"#.to_string()).expect("valid table");
    let index = strings.push("x < y & \"z\"");
    assert_eq!(index, 1);
    assert_eq!(strings.values()[1], "x < y & \"z\"");
    let xml = strings.into_xml();
    assert_eq!(
        xml,
        r#"<sst count="3" uniqueCount="2"><si><t>a</t></si><si><t>x &lt; y &amp; &quot;z&quot;</t></si></sst>"#
    );
}

#[test]
fn xml_escaping_round_trips() {
    let text = chars("Tom's <b> & \"co\"");
    let escaped = escape_xml(&text);
    assert_eq!(string_of(&escaped), "Tom&apos;s &lt;b&gt; &amp; &quot;co&quot;");
    assert_eq!(unescape_xml(&escaped), text);
}

#[test]
fn cell_references_and_column_names() {
    assert_eq!(string_of(&column_name(1)), "A");
    assert_eq!(string_of(&column_name(26)), "Z");
    assert_eq!(string_of(&column_name(27)), "AA");
    assert_eq!(string_of(&column_name(0)), "");
    for n in [1u32, 26, 27, 52, 703, 16384] {
        assert_eq!(column_index_from_cell_ref(&column_name(n)), Some(n));
    }
    assert_eq!(column_index_from_cell_ref(&chars("AB12")), Some(28));
    assert_eq!(column_index_from_cell_ref(&chars("12")), None);
    assert_eq!(row_number_from_cell_ref(&chars("AB12")).ok(), Some(12));
    assert_eq!(string_of(&normalize_label(&chars("Type of Day (Workday/Weekend/etc.)"))), "typeofdayworkdayweekendetc");
}

#[test]
fn a_self_closing_cell_ends_at_its_own_close() {
    let ws = chars(r#"<row r="8"><c r="A8" s="1"/><c r="B8" s="1"><v>3</v></c></row>"#);
    assert_eq!(find_cell_range(&ws, &chars("A8")), Some((11, 28)));
    let written = set_cell(&ws, &chars("A8"), &chars("1"), None, Some(&chars("5"))).expect("cell exists");
    assert_eq!(
        string_of(&written),
        r#"<row r="8"><c r="A8" s="1"><v>5</v></c><c r="B8" s="1"><v>3</v></c></row>"#
    );
    assert_eq!(cell_value(&written, "A8"), Some("5".to_string()));
    assert_eq!(cell_value(&written, "B8"), Some("3".to_string()));
    let alone = chars(r#"<c r="A8" s="1"/><c r="B8" s="1"><v>3</v></c>"#);
    assert_eq!(find_cell_range(&alone, &chars("A8")), Some((0, 17)));
}

#[test]
fn clearing_a_row_keeps_the_cells_after_a_self_closing_one() {
    let values = parse_shared_string_values(&chars(SHARED));
    let ws = chars(&SHEET.replace(
        r#"<c r="A8" s="5"/><c r="B8" s="6" t="s"/><c r="E8" s="7"/>"#,
        r#"<c r="A8" s="5"/><c r="B8" s="6" t="s"><v>2</v></c><c r="E8" s="7"><v>8</v></c><c r="G8" s="9"><v>keep</v></c>"#,
    ));
    let layout = TemplateLayout::discover(&ws, &values).expect("layout should be found");
    let cleared = clear_timesheet_row_values(&ws, &layout, 8);
    assert_eq!(cell_value(&cleared, "B8"), None);
    assert_eq!(cell_value(&cleared, "E8"), None);
    assert_eq!(cell_value(&cleared, "G8"), Some("keep".to_string()));
    assert!(string_of(&cleared).contains(r#"<c r="A8" s="5"/><c r="B8" s="6" t="s"/><c r="E8" s="7"/><c r="G8" s="9"><v>keep</v></c>"#));
}

#[test]
fn escaped_text_holds_only_entity_ampersands() {
    let escaped = string_of(&escape_xml(&chars("a<b & 'c'")));
    assert_eq!(escaped, "a&lt;b &amp; &apos;c&apos;");
    assert!(!escaped.contains(['<', '>', '"', '\'']));
}

#[test]
fn cell_references_read_their_column_in_either_case() {
    assert_eq!(column_index_from_cell_ref(&chars("ab12")), Some(28));
    for n in [1u32, 26, 27, 703] {
        let mut reference = column_name(n);
        reference.extend(chars("12"));
        assert_eq!(column_index_from_cell_ref(&reference), Some(n));
        let lower: Vec<char> = reference.iter().map(|c| c.to_ascii_lowercase()).collect();
        assert_eq!(column_index_from_cell_ref(&lower), Some(n));
    }
}
