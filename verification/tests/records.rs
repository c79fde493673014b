use crud_store::account::{parse_csv_line, Account};
use crud_store::cfg::Cfg;
use crud_store::id::AccountId;

#[test]
fn id_text_round_trip() {
    let text = "67e55044-10b1-426f-9247-bb680e5fe0c8";
    let id = AccountId::parse(text).expect("Failed to parse id");
    assert_eq!(id.to_text(), text);
}

#[test]
fn id_parse_accepts_upper_case() {
    let lower = AccountId::parse("67e55044-10b1-426f-9247-bb680e5fe0c8").unwrap();
    let upper = AccountId::parse("67E55044-10B1-426F-9247-BB680E5FE0C8").unwrap();
    assert_eq!(lower.bits(), upper.bits());
}

#[test]
fn id_text_of_zero() {
    let id = AccountId::from_bits(0);
    assert_eq!(id.to_text(), "00000000-0000-0000-0000-000000000000");
}

#[test]
fn id_text_of_max() {
    let id = AccountId::from_bits(u128::MAX);
    assert_eq!(id.to_text(), "ffffffff-ffff-ffff-ffff-ffffffffffff");
}

#[test]
fn id_parse_rejects_malformed_text() {
    assert!(AccountId::parse("").is_none());
    assert!(AccountId::parse("not an id").is_none());
    assert!(AccountId::parse("67e55044-10b1-426f-9247-bb680e5fe0c").is_none());
    assert!(AccountId::parse("67e55044-10b1-426f-9247-bb680e5fe0c8x").is_none());
    assert!(AccountId::parse("67e55044+10b1-426f-9247-bb680e5fe0c8").is_none());
    assert!(AccountId::parse("67e55044-10b1-426f-9247-bb680e5feg0c").is_none());
}

#[test]
fn serialized_line_is_exact() {
    let id = AccountId::parse("67e55044-10b1-426f-9247-bb680e5fe0c8").unwrap();
    let account = Account::with_id(id, "Test Account 1");
    assert_eq!(
        account.to_csv(),
        "67e55044-10b1-426f-9247-bb680e5fe0c8,Test Account 1"
    );
}

#[test]
fn line_round_trip_preserves_id_and_name() {
    let account = Account::new("Ada Lovelace");
    let line = account.to_csv();
    let parsed = parse_csv_line(line.as_str()).expect("Serialized line must parse");
    assert_eq!(parsed.id.bits(), account.id.bits());
    assert_eq!(parsed.fullname, account.fullname);
}

#[test]
fn line_round_trip_with_commas_in_name() {
    let account = Account::new("Lovelace, Ada, the first");
    let line = account.to_csv();
    let parsed = parse_csv_line(line.as_str()).expect("Serialized line must parse");
    assert_eq!(parsed.id.bits(), account.id.bits());
    assert_eq!(parsed.fullname, "Lovelace, Ada, the first");
}

#[test]
fn line_round_trip_with_empty_name() {
    let account = Account::new("");
    let line = account.to_csv();
    let parsed = parse_csv_line(line.as_str()).expect("Serialized line must parse");
    assert_eq!(parsed.id.bits(), account.id.bits());
    assert_eq!(parsed.fullname, "");
}

#[test]
fn parse_rejects_line_without_comma() {
    assert!(parse_csv_line("no comma here").is_none());
    assert!(parse_csv_line("67e55044-10b1-426f-9247-bb680e5fe0c8").is_none());
    assert!(parse_csv_line("67e55044-10b1-426f-9247-bb680e5fe0c8;Name").is_none());
}

#[test]
fn fresh_identifiers_differ() {
    let a = Account::new("Test Account");
    let b = Account::new("Test Account");
    assert_ne!(a.id.bits(), b.id.bits());
}

#[test]
fn account_display_text() {
    let account = Account::new("Ada Lovelace");
    assert_eq!(account.display_text(), "Full name: Ada Lovelace");
}

#[test]
fn cfg_default_values() {
    let cfg = Cfg::default();
    assert_eq!(cfg.verbose, "info");
    assert_eq!(cfg.address, "0.0.0.0");
    assert_eq!(cfg.port, 8080);
    assert_eq!(cfg.template_glob, "templates/**/*");
    assert!(cfg.storage_path.is_none());
}

#[test]
fn create_store_uses_configured_or_default_path() {
    let mut cfg = Cfg::default();
    let csv_store = crud_store::csv::create_store(&cfg);
    assert_eq!(csv_store.path(), "accounts.csv");
    let sqlite_store = crud_store::sqlite::create_store(&cfg);
    assert_eq!(sqlite_store.path(), "accounts.sqlite");
    cfg.storage_path = Some("data/records.db".to_string());
    let csv_store = crud_store::csv::create_store(&cfg);
    assert_eq!(csv_store.path(), "data/records.db");
    let sqlite_store = crud_store::sqlite::create_store(&cfg);
    assert_eq!(sqlite_store.path(), "data/records.db");
}
