use birthday_list::address::AddressRules;
use birthday_list::date::{age, dob};
use birthday_list::sheets::export_url;

#[test]
fn dates_and_ages() {
    assert!(dob("31/02/2010").is_none());
    assert!(dob("1/2/10").is_none());
    assert!(dob("1/2/2010 junk").is_none());
    assert!(dob("29.02.2012").is_some());
    assert_eq!(
        age(dob("26-09-2010").unwrap(), dob("25/09/2026").unwrap()),
        15
    );
    assert_eq!(
        age(dob("25/09/2010").unwrap(), dob("25/09/2026").unwrap()),
        16
    );
}

#[test]
fn sheets_links() {
    assert_eq!(
        export_url("https://docs.google.com/spreadsheets/d/abc/edit?usp=sharing").unwrap(),
        "https://docs.google.com/spreadsheets/d/abc/export?format=csv"
    );
    assert_eq!(
        export_url("https://docs.google.com/spreadsheets/d/abc-123/edit#gid=42").unwrap(),
        "https://docs.google.com/spreadsheets/d/abc-123/export?format=csv&gid=42"
    );
    assert!(export_url("https://evil.example/spreadsheets/d/abc").is_err());
}

#[test]
fn mailing_addresses() {
    let rules = AddressRules::new().unwrap();
    let (a, notes) = rules.process("Hauptstraße 4, 01234 Dresden, germany", "01234", "Dresden");
    assert_eq!(a, "Hauptstraße 4\n01234 Dresden\nGermany");
    assert!(notes.is_empty());
    assert!(rules
        .process("Hauptstraße, Germany", "1234", "Berlin")
        .1
        .iter()
        .any(|s| s.starts_with("Invalid postal code")));
    assert!(rules.process("", "", "").1.contains(&"No address".into()));
}
