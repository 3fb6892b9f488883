use fail2banmonitoring::date::Date;
use fail2banmonitoring::extract::BanRecord;
use fail2banmonitoring::storage::{
    apply_write_outcome, BatchDecision, DriverKind, MysqlDriver, PersistReport, PostgresDriver,
    StoreModel, WriteOutcome,
};

fn date(y: u16, m: u8, d: u8) -> Date {
    Date { year: y, month: m, day: d }
}

fn record(d: Date, addr: &str) -> BanRecord {
    BanRecord { date: d, address: addr.to_string() }
}

#[test]
fn driver_names_select_variants() {
    assert_eq!(DriverKind::from_name(&"sqlite".to_string()), Some(DriverKind::Sqlite));
    assert_eq!(DriverKind::from_name(&"mysql".to_string()), Some(DriverKind::Mysql));
    assert_eq!(DriverKind::from_name(&"postgres".to_string()), Some(DriverKind::Postgres));
    assert_eq!(DriverKind::from_name(&"oracle".to_string()), None);
    assert_eq!(DriverKind::from_name(&"".to_string()), None);
}

#[test]
fn driver_selectors_construct() {
    let _m = MysqlDriver::new();
    let _p = PostgresDriver::new();
}

#[test]
fn schema_creation_is_idempotent() {
    let mut store = StoreModel::new();
    assert!(!store.schema_ready);
    store.ensure_schema();
    assert!(store.schema_ready);
    assert_eq!(store.rows.len(), 0);
    store.ensure_schema();
    assert!(store.schema_ready);
    assert_eq!(store.rows.len(), 0);
}

#[test]
fn schema_creation_keeps_rows() {
    let mut store = StoreModel::new();
    store.ensure_schema();
    let d = date(2024, 3, 5);
    store.persist(&vec![record(d, "203.0.113.7")]);
    store.ensure_schema();
    assert_eq!(store.rows.len(), 1);
    assert_eq!(store.rows[0].address, "203.0.113.7");
}

#[test]
fn persisting_the_same_record_twice_stores_one_row() {
    let mut store = StoreModel::new();
    store.ensure_schema();
    let d = date(2024, 3, 5);
    let first = store.persist(&vec![record(d, "203.0.113.7")]);
    assert_eq!((first.inserted, first.skipped, first.failed), (1, 0, 0));
    let second = store.persist(&vec![record(d, "203.0.113.7")]);
    assert_eq!((second.inserted, second.skipped, second.failed), (0, 1, 0));
    assert_eq!(store.rows.len(), 1);
    assert_eq!(store.count_rows(&d, &"203.0.113.7".to_string()), 1);
}

#[test]
fn duplicates_within_one_batch_are_skipped() {
    let mut store = StoreModel::new();
    store.ensure_schema();
    let d = date(2024, 3, 5);
    let batch = vec![
        record(d, "203.0.113.7"),
        record(d, "203.0.113.8"),
        record(d, "203.0.113.7"),
    ];
    let rep = store.persist(&batch);
    assert_eq!((rep.inserted, rep.skipped, rep.failed), (2, 1, 0));
    assert_eq!(store.rows.len(), 2);
}

#[test]
fn same_address_on_two_dates_is_two_rows() {
    let mut store = StoreModel::new();
    store.ensure_schema();
    let rep = store.persist(&vec![
        record(date(2024, 3, 5), "203.0.113.7"),
        record(date(2024, 3, 6), "203.0.113.7"),
    ]);
    assert_eq!((rep.inserted, rep.skipped, rep.failed), (2, 0, 0));
    assert_eq!(store.rows.len(), 2);
}

#[test]
fn lookup_sees_only_stored_keys() {
    let mut store = StoreModel::new();
    store.ensure_schema();
    let d = date(2024, 3, 5);
    store.persist(&vec![record(d, "203.0.113.7")]);
    assert!(store.lookup(&d, &"203.0.113.7".to_string()));
    assert!(!store.lookup(&d, &"203.0.113.8".to_string()));
    assert!(!store.lookup(&date(2024, 3, 6), &"203.0.113.7".to_string()));
}

#[test]
fn write_outcomes_update_the_report_and_only_a_lost_connection_aborts() {
    let mut report = PersistReport { inserted: 0, skipped: 0, failed: 0 };
    assert_eq!(apply_write_outcome(&mut report, WriteOutcome::Inserted), BatchDecision::Continue);
    assert_eq!(
        apply_write_outcome(&mut report, WriteOutcome::AlreadyStored),
        BatchDecision::Continue
    );
    assert_eq!(
        apply_write_outcome(&mut report, WriteOutcome::WriteFailed),
        BatchDecision::Continue
    );
    assert_eq!((report.inserted, report.skipped, report.failed), (1, 1, 1));
    assert_eq!(
        apply_write_outcome(&mut report, WriteOutcome::ConnectionLost),
        BatchDecision::Abort
    );
    assert_eq!((report.inserted, report.skipped, report.failed), (1, 1, 1));
}

#[test]
fn empty_batch_persists_nothing() {
    let mut store = StoreModel::new();
    store.ensure_schema();
    let rep = store.persist(&Vec::new());
    assert_eq!((rep.inserted, rep.skipped, rep.failed), (0, 0, 0));
    assert_eq!(store.rows.len(), 0);
}
