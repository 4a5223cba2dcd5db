use birthday_list::address::AddressRules;
use birthday_list::columns::{col, column_of_keys, find_columns};
use birthday_list::date::{age, dob, Date};
use birthday_list::report::{default_output_name, make_report, skips_address_steps, ReportError, ReportOptions};
use birthday_list::sheets::{
    export_url, is_remote_source, not_sheets_link_message, prepare_text, sheet_export_link,
    LoadError, SheetLinkError,
};
use birthday_list::summary::summarize;
use birthday_list::text::push_decimal;
use birthday_list::workbook::{build_workbook, colored_workbook, column_width, row_fill, RowFill, WorkbookError};

fn strings(v: &[&str]) -> Vec<String> {
    v.iter().map(|s| s.to_string()).collect()
}

fn september() -> ReportOptions {
    ReportOptions { month: 9, all: false, no_sort: false, no_check: false, no_split: false }
}

fn today() -> Date {
    Date::from_ymd(2026, 9, 25).unwrap()
}

const CONTACTS: &str = "\u{feff}Name,DOB,Address,PLZ,City,Department\nOlder,25/09/2010,\"Hauptstraße 4, 01234 Dresden, Germany\",01234,Dresden,Music\nChild,02/09/2012,\"Parkweg 1\n01234 Dresden\nGermany\",01234,Dresden,\nOther,01/10/2000,,,,\nInvalid,31/09/2000\nFuture,01/09/2030,,,,\n";

#[test]
fn monthly_report_from_contacts() {
    let text = prepare_text(CONTACTS).unwrap();
    let rules = AddressRules::new().unwrap();
    let report = make_report(&text, &september(), today(), &rules).unwrap();
    let t = &report.table;
    assert_eq!(t.invalid, 2);
    assert_eq!(
        t.headers,
        strings(&["Notes", "Team", "Generation", "Name", "DOB", "Address", "PLZ", "City", "Department"])
    );
    assert_eq!(t.rows.len(), 2);
    assert_eq!(t.rows[0][3], "Child");
    assert_eq!(t.rows[0][2], "Yes");
    assert_eq!(t.rows[1][1], "Yes");
    assert_eq!(t.rows[1][2], "No");
    assert_eq!(t.rows[1][5], "Hauptstraße 4\n01234 Dresden\nGermany");
    assert!(!t.missing_address_column);
    let csv = String::from_utf8(report.csv.clone()).unwrap();
    assert!(csv.starts_with("Notes,Team,Generation,Name,DOB,Address,PLZ,City,Department\n"));
    assert!(csv.contains("\"Hauptstraße 4\n01234 Dresden\nGermany\""));
}

#[test]
fn empty_month_still_has_header() {
    let rules = AddressRules::new().unwrap();
    let mut opts = september();
    opts.month = 12;
    let report = make_report(&prepare_text(CONTACTS).unwrap(), &opts, today(), &rules).unwrap();
    assert_eq!(report.table.rows.len(), 0);
    assert_eq!(report.table.headers.len(), 9);
    let csv = String::from_utf8(report.csv).unwrap();
    assert_eq!(csv.lines().count(), 1);
}

#[test]
fn all_rows_put_invalid_dates_last() {
    let rules = AddressRules::new().unwrap();
    let mut opts = september();
    opts.all = true;
    let report = make_report(&prepare_text(CONTACTS).unwrap(), &opts, today(), &rules).unwrap();
    let names: Vec<&str> = report.table.rows.iter().map(|r| r[3].as_str()).collect();
    assert_eq!(names, vec!["Other", "Child", "Older", "Invalid", "Future"]);
    assert_eq!(report.table.rows[3][2], "Unknown");
    assert_eq!(report.table.rows[4][2], "Unknown");
}

#[test]
fn no_sort_keeps_table_order() {
    let rules = AddressRules::new().unwrap();
    let mut opts = september();
    opts.no_sort = true;
    let report = make_report(&prepare_text(CONTACTS).unwrap(), &opts, today(), &rules).unwrap();
    assert_eq!(report.table.rows[0][3], "Older");
    assert_eq!(report.table.rows[1][3], "Child");
}

#[test]
fn no_check_and_no_split_leave_addresses() {
    let rules = AddressRules::new().unwrap();
    let mut opts = september();
    opts.no_check = true;
    opts.no_split = true;
    let report = make_report(&prepare_text(CONTACTS).unwrap(), &opts, today(), &rules).unwrap();
    assert_eq!(report.table.headers[0], "Team");
    assert_eq!(report.table.headers[4], "Address");
    assert_eq!(report.table.rows[1][4], "Hauptstraße 4, 01234 Dresden, Germany");
    assert!(report.table.notes.is_empty());
}

#[test]
fn notes_are_counted_by_kind() {
    let rules = AddressRules::new().unwrap();
    let text = "Name,DOB,Address,Zip,City\nA,03/09/2000,\"Hauptstraße, Germany\",1234,Berlin\nB,04/09/2000,,,\nC,05/09/2000,Weg,,\n";
    let report = make_report(text, &september(), today(), &rules).unwrap();
    let summary: Vec<(String, usize)> = report.summary.clone();
    assert_eq!(
        summary,
        vec![
            ("Invalid postal code".to_string(), 1),
            ("Missing city".to_string(), 1),
            ("Missing house number".to_string(), 2),
            ("Missing postal code".to_string(), 1),
            ("No address".to_string(), 1),
        ]
    );
    assert_eq!(report.table.rows[0][0], "Missing house number; Invalid postal code (1234)");
}

#[test]
fn report_errors() {
    let rules = AddressRules::new().unwrap();
    match make_report("\n , \n", &september(), today(), &rules) {
        Err(e @ ReportError::NoData) => assert_eq!(e.message().unwrap(), "No data found"),
        _ => panic!("expected no data"),
    }
    match make_report("Name,City\nA,B\n", &september(), today(), &rules) {
        Err(e @ ReportError::NoDobColumn) => {
            assert_eq!(e.message().unwrap(), "No Date of Birth column found")
        }
        _ => panic!("expected no DOB column"),
    }
    let mut all = september();
    all.all = true;
    assert!(make_report("Name,City\nA,B\n", &all, today(), &rules).is_ok());
    match make_report("Name,DOB\nA,01/09/2000\nB,01/09/2000,extra\n", &september(), today(), &rules) {
        Err(e @ ReportError::TooManyFields(2)) => assert_eq!(
            e.message().unwrap(),
            "Data record 2 has more fields than the header"
        ),
        _ => panic!("expected too many fields"),
    }
}

#[test]
fn missing_address_column_is_reported() {
    let rules = AddressRules::new().unwrap();
    let report = make_report("Name,DOB\nA,01/09/2000\n", &september(), today(), &rules).unwrap();
    assert!(report.table.missing_address_column);
    assert_eq!(report.table.headers, strings(&["Generation", "Name", "DOB"]));
    assert_eq!(report.table.rows[0], strings(&["No", "A", "01/09/2000"]));
}

#[test]
fn columns_by_header_name() {
    let headers = strings(&["Name", "  Date of Birth ", "E-Mail", "PLZ", "Town"]);
    assert_eq!(col(&headers, &["date of birth", "dob"]), Some(1));
    assert_eq!(col(&headers, &["city", "town"]), Some(4));
    assert_eq!(col(&headers, &["address"]), None);
    let keys = strings(&["name", "dob"]);
    assert_eq!(column_of_keys(&keys, &["dob"]), Some(1));
    let c = find_columns(&headers);
    assert_eq!((c.dob, c.zip, c.city, c.address, c.department), (Some(1), Some(3), Some(4), None, None));
}

#[test]
fn dates_more() {
    assert_eq!(dob(" 01.10.2000 "), Some(Date { year: 2000, month: 10, day: 1 }));
    assert_eq!(dob("29-02-2000"), Some(Date { year: 2000, month: 2, day: 29 }));
    assert!(dob("29-02-1900").is_none());
    assert!(dob("1/2/2010/3").is_none());
    assert!(dob("/2/2010").is_none());
    assert!(dob("99999999999/2/2010").is_none());
    assert!(dob("1/13/2010").is_none());
    assert!(dob("").is_none());
    assert!(Date::from_ymd(2023, 4, 31).is_none());
    let born = Date { year: 2000, month: 2, day: 29 };
    assert_eq!(age(born, Date { year: 2001, month: 2, day: 28 }), 0);
    assert_eq!(age(born, Date { year: 2001, month: 3, day: 1 }), 1);
}

#[test]
fn output_names() {
    assert_eq!(default_output_name(false, 2026, 9), "birthdays-2026-09.csv");
    assert_eq!(default_output_name(false, 2026, 10), "birthdays-2026-10.csv");
    assert_eq!(default_output_name(true, 2026, 10), "contacts-processed.csv");
    assert_eq!(default_output_name(false, -5, 1), "birthdays--5-01.csv");
    let mut s = String::from("n=");
    push_decimal(&mut s, 1203);
    assert_eq!(s, "n=1203");
}

#[test]
fn sources_and_downloads() {
    assert!(is_remote_source("https://docs.google.com/x"));
    assert!(is_remote_source("http:x"));
    assert!(!is_remote_source("contacts.csv"));
    assert_eq!(prepare_text("\u{feff}\u{feff}a,b\n").unwrap(), "a,b\n");
    assert_eq!(prepare_text("  <html>").unwrap_err(), LoadError::Html);
    assert!(LoadError::Html.message().starts_with("Received HTML"));
    assert_eq!(
        sheet_export_link("abc", Some("7")),
        "https://docs.google.com/spreadsheets/d/abc/export?format=csv&gid=7"
    );
    assert!(matches!(export_url("http://docs.google.com/spreadsheets/d/abc"), Err(SheetLinkError::NotSheetsLink)));
    assert_eq!(
        export_url("https://docs.google.com/spreadsheets/d/x_y?a=1&gid=5").unwrap(),
        "https://docs.google.com/spreadsheets/d/x_y/export?format=csv&gid=5"
    );
    assert!(not_sheets_link_message().starts_with("Expected an https://"));
}

#[test]
fn address_checks() {
    let rules = AddressRules::new().unwrap();
    let (a, n) = rules.process("Dresden", "01234", "Dresden");
    assert_eq!(a, "01234 Dresden");
    assert_eq!(n, strings(&["No street (only city/postal code)"]));
    let (_, n) = rules.process("Street 1, 10115 Berlin, India", "10115", "Berlin");
    assert_eq!(n, strings(&["Country mismatch (Berlin postal code, non-German country)"]));
    let (_, n) = rules.process("Street 1, Gemany", "12345", "Bonn");
    assert_eq!(n, strings(&["City typo"]));
    let (a, n) = rules.process("Musterweg 3", "", "");
    assert_eq!(a, "Musterweg 3");
    assert_eq!(n, strings(&["Missing postal code", "Missing city"]));
}

#[test]
fn summary_orders_kinds() {
    let notes = strings(&["No street (only city/postal code)", "City typo", "Invalid postal code (1)", "City typo"]);
    assert_eq!(
        summarize(&notes),
        vec![
            ("City typo".to_string(), 2),
            ("Invalid postal code".to_string(), 1),
            ("No street".to_string(), 1),
        ]
    );
}

#[test]
fn workbook_fills_and_widths() {
    let headers = strings(&["Notes", "Team", "Generation", "Name", "Address"]);
    assert_eq!(row_fill(&headers, &strings(&["x", "Yes", "Yes", "n", ""])), RowFill::Invalid);
    assert_eq!(row_fill(&headers, &strings(&["", "Yes", "Yes", "n", ""])), RowFill::Generation);
    assert_eq!(row_fill(&headers, &strings(&["", "Yes", "No", "n", ""])), RowFill::Team);
    assert_eq!(row_fill(&headers, &strings(&["", "No", "No", "n", ""])), RowFill::Plain);
    assert_eq!(column_width(&"Notes".to_string()), 42);
    assert_eq!(column_width(&"Generation".to_string()), 13);
    assert_eq!(column_width(&"Name".to_string()), 22);
    let bytes = colored_workbook(&headers, &vec![strings(&["", "Yes", "No", "n", "a"])]).unwrap();
    assert_eq!(&bytes[..2], b"PK");
}

#[test]
fn written_dates_read_back() {
    assert_eq!(dob("05/03/0999"), Some(Date { year: 999, month: 3, day: 5 }));
    assert_eq!(dob("31.12.2024"), Some(Date { year: 2024, month: 12, day: 31 }));
    assert_eq!(dob("01-01-0000"), Some(Date { year: 0, month: 1, day: 1 }));
}

#[test]
fn no_country_means_no_country_notes() {
    let rules = AddressRules::new().unwrap();
    let (a, n) = rules.process("Street 1, 10115 Berlin, France", "10115", "Berlin");
    assert_eq!(a, "Street 1\n10115 Berlin");
    assert!(n.iter().all(|s| !s.starts_with("Invalid postal code") && !s.starts_with("Country mismatch")));
    let (_, n) = rules.process("Street 1", "12345", "Bonn");
    assert!(n.is_empty());
}

#[test]
fn summary_counts_add_up_to_notes() {
    let rules = AddressRules::new().unwrap();
    let text = "Name,DOB,Address,Zip,City\nA,03/09/2000,\"Hauptstraße, Germany\",1234,Berlin\nB,04/09/2000,,,\nC,05/09/2000,Weg,,\n";
    let report = make_report(text, &september(), today(), &rules).unwrap();
    let total: usize = report.summary.iter().map(|e| e.1).sum();
    assert_eq!(total, report.table.notes.len());
    assert_eq!(total, 6);
}

#[test]
fn generation_is_fifteen_and_younger() {
    let rules = AddressRules::new().unwrap();
    let text = "Name,DOB\nBaby,25/09/2026\nFifteen,26/09/2010\nSixteen,25/09/2010\n";
    let report = make_report(text, &september(), today(), &rules).unwrap();
    let gens: Vec<(&str, &str)> =
        report.table.rows.iter().map(|r| (r[1].as_str(), r[0].as_str())).collect();
    assert_eq!(gens, vec![("Sixteen", "No"), ("Baby", "Yes"), ("Fifteen", "Yes")]);
    assert_eq!(age(Date { year: 2026, month: 9, day: 25 }, today()), 0);
}

#[test]
fn equal_birthdays_keep_table_order() {
    let rules = AddressRules::new().unwrap();
    let text = "Name,DOB\nB,07/09/2001\nA,07/09/2001\nC,01/09/2003\n";
    let report = make_report(text, &september(), today(), &rules).unwrap();
    let names: Vec<&str> = report.table.rows.iter().map(|r| r[1].as_str()).collect();
    assert_eq!(names, vec!["C", "B", "A"]);
}

#[test]
fn workbook_refuses_an_overlong_cell() {
    let headers = strings(&["Name"]);
    let long = "x".repeat(40000);
    assert!(colored_workbook(&headers, &vec![vec![long]]).is_err());
    assert!(colored_workbook(&headers, &vec![vec!["x".repeat(16383)]]).is_ok());
    assert!(colored_workbook(&headers, &vec![vec!["x".repeat(32767)]]).is_ok());
    assert!(build_workbook(&headers, &vec![vec!["x".repeat(32767)]]).is_ok());
    assert!(colored_workbook(&headers, &vec![vec!["\u{1F600}".repeat(16384)]]).is_err());
    assert!(colored_workbook(&headers, &vec![vec!["\u{1F600}".repeat(16383)]]).is_ok());
}

#[test]
fn workbook_refuses_a_ragged_row() {
    let headers = strings(&["Notes", "Team", "Generation", "Name"]);
    let rows = vec![strings(&["", "Yes", "No", "A"]), strings(&["", "Yes"]), strings(&["x"])];
    assert!(matches!(colored_workbook(&headers, &rows), Err(WorkbookError::RowWidth(1))));
    assert!(matches!(build_workbook(&headers, &rows), Err(WorkbookError::RowWidth(1))));
}

#[test]
fn workbook_of_the_fill_example_is_built() {
    let headers = strings(&["Notes", "Team", "Generation", "Name"]);
    let rows = vec![
        strings(&["Bad zip", "Yes", "Yes", "A"]),
        strings(&["", "Yes", "Yes", "B"]),
        strings(&["", "Yes", "No", "C"]),
        strings(&["", "No", "No", "D"]),
    ];
    let fills: Vec<RowFill> = rows.iter().map(|r| row_fill(&headers, r)).collect();
    assert_eq!(fills, vec![RowFill::Invalid, RowFill::Generation, RowFill::Team, RowFill::Plain]);
    assert!(build_workbook(&headers, &rows).is_ok());
    let bytes = colored_workbook(&headers, &rows).unwrap();
    assert_eq!(&bytes[..2], b"PK");
}

#[test]
fn short_written_dates_read_back() {
    assert_eq!(dob("1/2/2010"), Some(Date { year: 2010, month: 2, day: 1 }));
    assert_eq!(dob("9.12.0999"), Some(Date { year: 999, month: 12, day: 9 }));
    assert_eq!(dob("25-7-2001"), Some(Date { year: 2001, month: 7, day: 25 }));
}

#[test]
fn columns_of_joined_headers_and_names() {
    let h1 = strings(&["Name", "City"]);
    let h2 = strings(&["DOB", "Town"]);
    let joined = [h1.clone(), h2.clone()].concat();
    assert_eq!(col(&joined, &["dob"]), Some(2));
    assert_eq!(col(&h2, &["dob"]), Some(0));
    assert_eq!(col(&joined, &["town", "city"]), Some(1));
    assert_eq!(col(&joined, &["town"]), Some(3));
    assert_eq!(col(&joined, &["city"]), Some(1));
    assert_eq!(col(&joined, &["zip"]), None);
}

#[test]
fn address_steps_skipped_is_told_before() {
    let rules = AddressRules::new().unwrap();
    let no_address = "Name,DOB\nA,01/09/2000\nB,01/09/2000,extra\n";
    assert!(skips_address_steps(no_address, &september()));
    assert!(make_report(no_address, &september(), today(), &rules).is_err());
    let ok = "Name,DOB\nA,01/09/2000\n";
    assert!(skips_address_steps(ok, &september()));
    assert!(make_report(ok, &september(), today(), &rules).unwrap().table.missing_address_column);
    assert!(!skips_address_steps("Name,DOB,Address\nA,01/09/2000,x\n", &september()));
    assert!(!skips_address_steps("Name,City\nA,B\n", &september()));
    let mut quiet = september();
    quiet.no_check = true;
    quiet.no_split = true;
    assert!(!skips_address_steps(ok, &quiet));
}
