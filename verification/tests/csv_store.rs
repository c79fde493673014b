use crud_store::account::Account;
use crud_store::crud::{Crud, CrudError};
use crud_store::csv::CsvAccountStore;
use crud_store::id::AccountId;

fn id_of(text: &str) -> AccountId {
    AccountId::parse(text).expect("Failed to parse id")
}

fn count_lines(store: &CsvAccountStore) -> usize {
    match store.file_lines() {
        Some(lines) => lines.len(),
        None => panic!("File does not exist"),
    }
}

fn read_line(store: &CsvAccountStore, line_no: usize) -> String {
    match store.file_lines() {
        Some(lines) => lines[line_no].clone(),
        None => panic!("File does not exist"),
    }
}

#[test]
fn csv_create_creates_file_when_not_exist() {
    let mut store = CsvAccountStore::new("accounts.csv");
    store
        .create(&Account::new("Test Account"))
        .expect("Failed to create new Account");
    assert!(store.file_exists());
}

#[test]
fn read_all_does_not_create_file_when_not_exist() {
    let store = CsvAccountStore::new("accounts.csv");
    store.read_all().expect("Failed to read Users");
    assert!(!store.file_exists());
}

#[test]
fn csv_read_all_returns_none_when_file_not_exist() {
    let store = CsvAccountStore::new("accounts.csv");
    let accounts = store.read_all().expect("Failed to read Users");
    assert_eq!(accounts.len(), 0);
}

#[test]
fn csv_read_all_returns_one_of_one() {
    let lines = vec!["67e55044-10b1-426f-9247-bb680e5fe0c8,Test Account".to_string()];
    let store = CsvAccountStore::with_file("accounts.csv", lines);
    let accounts = store.read_all().expect("Failed to read Users");
    assert_eq!(accounts.len(), 1);
    assert_eq!(accounts.get(0).unwrap().fullname, "Test Account");
}

#[test]
fn csv_update_one_of_one() {
    let lines = vec!["67e55044-10b1-426f-9247-bb680e5fe0c8,Test Account".to_string()];
    let mut store = CsvAccountStore::with_file("accounts.csv", lines);
    let user_updated = Account::with_id(
        id_of("67e55044-10b1-426f-9247-bb680e5fe0c8"),
        "Modified Account",
    );
    store.update(&user_updated).expect("Failed to update Account");
    let actual_line = read_line(&store, 0);
    assert_eq!(
        actual_line,
        "67e55044-10b1-426f-9247-bb680e5fe0c8,Modified Account"
    );
}

#[test]
fn csv_update_one_of_two() {
    let lines = vec![
        "67e55044-10b1-426f-9247-bb680e5fe0c8,Test Account 1".to_string(),
        "67e55044-10b1-426f-9247-bb680e5fe0c9,Test Account 2".to_string(),
    ];
    let mut store = CsvAccountStore::with_file("accounts.csv", lines);
    let user_updated = Account::with_id(
        id_of("67e55044-10b1-426f-9247-bb680e5fe0c8"),
        "Modified Account 1",
    );
    store.update(&user_updated).expect("Failed to update Account");
    let actual_line = read_line(&store, 0);
    assert_eq!(
        actual_line,
        "67e55044-10b1-426f-9247-bb680e5fe0c8,Modified Account 1"
    );
}

#[test]
fn csv_delete_one_of_one() {
    let lines = vec!["67e55044-10b1-426f-9247-bb680e5fe0c8,Test Account".to_string()];
    let mut store = CsvAccountStore::with_file("accounts.csv", lines);
    let account = Account::with_id(
        id_of("67e55044-10b1-426f-9247-bb680e5fe0c8"),
        "Test Account",
    );
    store.delete(&account).expect("Failed to delete Account");
    assert_eq!(count_lines(&store), 0);
}

#[test]
fn csv_delete_one_of_two() {
    let lines = vec![
        "67e55044-10b1-426f-9247-bb680e5fe0c8,Test Account 1".to_string(),
        "67e55044-10b1-426f-9247-bb680e5fe0c9,Test Account 2".to_string(),
    ];
    let mut store = CsvAccountStore::with_file("accounts.csv", lines);
    let account = Account::with_id(
        id_of("67e55044-10b1-426f-9247-bb680e5fe0c8"),
        "Test Account 1",
    );
    store.delete(&account).expect("Failed to delete Account");
    assert_eq!(count_lines(&store), 1);
}

#[test]
fn csv_create_then_read_returns_exactly_created() {
    let mut store = CsvAccountStore::new("accounts.csv");
    let account = Account::new("Ada Lovelace");
    store.create(&account).expect("Failed to create new Account");
    let accounts = store.read_all().expect("Failed to read Users");
    assert_eq!(accounts.len(), 1);
    assert_eq!(accounts[0].id.bits(), account.id.bits());
    assert_eq!(accounts[0].fullname, account.fullname);
}

#[test]
fn csv_create_appends_without_clobbering() {
    let lines = vec!["67e55044-10b1-426f-9247-bb680e5fe0c8,Test Account 1".to_string()];
    let mut store = CsvAccountStore::with_file("accounts.csv", lines);
    let account = Account::with_id(
        id_of("67e55044-10b1-426f-9247-bb680e5fe0c9"),
        "Test Account 2",
    );
    store.create(&account).expect("Failed to create new Account");
    assert_eq!(count_lines(&store), 2);
    assert_eq!(
        read_line(&store, 0),
        "67e55044-10b1-426f-9247-bb680e5fe0c8,Test Account 1"
    );
    assert_eq!(
        read_line(&store, 1),
        "67e55044-10b1-426f-9247-bb680e5fe0c9,Test Account 2"
    );
}

#[test]
fn csv_update_scenario_leaves_other_line_unchanged() {
    let lines = vec![
        "67e55044-10b1-426f-9247-bb680e5fe0c8,Test Account 1".to_string(),
        "67e55044-10b1-426f-9247-bb680e5fe0c9,Test Account 2".to_string(),
    ];
    let mut store = CsvAccountStore::with_file("accounts.csv", lines);
    let user_updated = Account::with_id(
        id_of("67e55044-10b1-426f-9247-bb680e5fe0c8"),
        "Modified Account 1",
    );
    store.update(&user_updated).expect("Failed to update Account");
    assert_eq!(count_lines(&store), 2);
    assert_eq!(
        read_line(&store, 0),
        "67e55044-10b1-426f-9247-bb680e5fe0c8,Modified Account 1"
    );
    assert_eq!(
        read_line(&store, 1),
        "67e55044-10b1-426f-9247-bb680e5fe0c9,Test Account 2"
    );
}

#[test]
fn csv_delete_leaves_exactly_the_other() {
    let lines = vec![
        "67e55044-10b1-426f-9247-bb680e5fe0c8,Test Account 1".to_string(),
        "67e55044-10b1-426f-9247-bb680e5fe0c9,Test Account 2".to_string(),
    ];
    let mut store = CsvAccountStore::with_file("accounts.csv", lines);
    let account = Account::with_id(
        id_of("67e55044-10b1-426f-9247-bb680e5fe0c8"),
        "Test Account 1",
    );
    store.delete(&account).expect("Failed to delete Account");
    let accounts = store.read_all().expect("Failed to read Users");
    assert_eq!(accounts.len(), 1);
    assert_eq!(
        accounts[0].id.bits(),
        id_of("67e55044-10b1-426f-9247-bb680e5fe0c9").bits()
    );
    assert_eq!(accounts[0].fullname, "Test Account 2");
}

#[test]
fn csv_update_unknown_id_is_noop() {
    let lines = vec![
        "67e55044-10b1-426f-9247-bb680e5fe0c8,Test Account 1".to_string(),
        "67e55044-10b1-426f-9247-bb680e5fe0c9,Test Account 2".to_string(),
    ];
    let mut store = CsvAccountStore::with_file("accounts.csv", lines);
    let absent = Account::with_id(
        id_of("00000000-0000-0000-0000-000000000000"),
        "Nobody",
    );
    store.update(&absent).expect("Failed to update Account");
    assert_eq!(count_lines(&store), 2);
    assert_eq!(
        read_line(&store, 0),
        "67e55044-10b1-426f-9247-bb680e5fe0c8,Test Account 1"
    );
    assert_eq!(
        read_line(&store, 1),
        "67e55044-10b1-426f-9247-bb680e5fe0c9,Test Account 2"
    );
}

#[test]
fn csv_delete_unknown_id_is_noop() {
    let lines = vec![
        "67e55044-10b1-426f-9247-bb680e5fe0c8,Test Account 1".to_string(),
        "67e55044-10b1-426f-9247-bb680e5fe0c9,Test Account 2".to_string(),
    ];
    let mut store = CsvAccountStore::with_file("accounts.csv", lines);
    let absent = Account::with_id(
        id_of("00000000-0000-0000-0000-000000000000"),
        "Nobody",
    );
    store.delete(&absent).expect("Failed to delete Account");
    assert_eq!(count_lines(&store), 2);
}

#[test]
fn csv_update_missing_file_is_io_error() {
    let mut store = CsvAccountStore::new("accounts.csv");
    let account = Account::new("Test Account");
    let err = store.update(&account).expect_err("Update without a file must fail");
    assert!(matches!(err, CrudError::IO(_)));
    assert!(!store.file_exists());
}

#[test]
fn csv_delete_missing_file_is_io_error() {
    let mut store = CsvAccountStore::new("accounts.csv");
    let account = Account::new("Test Account");
    let err = store.delete(&account).expect_err("Delete without a file must fail");
    assert!(matches!(err, CrudError::IO(_)));
    assert!(!store.file_exists());
}

#[test]
fn csv_read_all_skips_unparseable_lines() {
    let lines = vec![
        "not a serialized record".to_string(),
        "67e55044-10b1-426f-9247-bb680e5fe0c8,Test Account".to_string(),
    ];
    let store = CsvAccountStore::with_file("accounts.csv", lines);
    let accounts = store.read_all().expect("Failed to read Users");
    assert_eq!(accounts.len(), 1);
    assert_eq!(accounts[0].fullname, "Test Account");
}

#[test]
fn csv_rewrite_carries_unparseable_lines_unchanged() {
    let lines = vec![
        "not a serialized record".to_string(),
        "67e55044-10b1-426f-9247-bb680e5fe0c8,Test Account".to_string(),
    ];
    let mut store = CsvAccountStore::with_file("accounts.csv", lines);
    let user_updated = Account::with_id(
        id_of("67e55044-10b1-426f-9247-bb680e5fe0c8"),
        "Modified Account",
    );
    store.update(&user_updated).expect("Failed to update Account");
    assert_eq!(read_line(&store, 0), "not a serialized record");
    assert_eq!(
        read_line(&store, 1),
        "67e55044-10b1-426f-9247-bb680e5fe0c8,Modified Account"
    );
}

#[test]
fn csv_name_containing_another_id_is_not_corrupted() {
    // A name that contains the other record's identifier text must not
    // make the rewrite touch that record's line: matching goes by the
    // parsed identifier field, not by substring search.
    let tricky = "67e55044-10b1-426f-9247-bb680e5fe0c8,see 67e55044-10b1-426f-9247-bb680e5fe0c9"
        .to_string();
    let lines = vec![
        tricky,
        "67e55044-10b1-426f-9247-bb680e5fe0c9,Test Account 2".to_string(),
    ];
    let mut store = CsvAccountStore::with_file("accounts.csv", lines);
    let absent = Account::with_id(
        id_of("67e55044-10b1-426f-9247-bb680e5fe0c9"),
        "Modified Account 2",
    );
    store.update(&absent).expect("Failed to update Account");
    assert_eq!(
        read_line(&store, 0),
        "67e55044-10b1-426f-9247-bb680e5fe0c8,see 67e55044-10b1-426f-9247-bb680e5fe0c9"
    );
    assert_eq!(
        read_line(&store, 1),
        "67e55044-10b1-426f-9247-bb680e5fe0c9,Modified Account 2"
    );
}
