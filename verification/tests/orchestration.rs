use fail2banmonitoring::config::{Config, Violation};
use fail2banmonitoring::date::Date;
use fail2banmonitoring::orchestrator::{
    run_on_store, FailReason, Orchestrator, RunEvent, RunState,
};
use fail2banmonitoring::storage::StoreModel;

fn config(driver: &str, host: &str, port: u32) -> Config {
    Config {
        driver: driver.to_string(),
        username: "monitor".to_string(),
        password: "secret".to_string(),
        host: host.to_string(),
        port,
        database: "bans".to_string(),
    }
}

fn date(y: u16, m: u8, d: u8) -> Date {
    Date { year: y, month: m, day: d }
}

#[test]
fn happy_path_reaches_done() {
    let mut o = Orchestrator::new();
    assert_eq!(o.state, RunState::Idle);
    for (e, s) in [
        (RunEvent::ConfigParseOk, RunState::ConfigLoaded),
        (RunEvent::ValidationOk, RunState::ConfigValidated),
        (RunEvent::ConnectOk, RunState::Connected),
        (RunEvent::SchemaOk, RunState::SchemaReady),
        (RunEvent::ExtractionOk, RunState::Extracted),
        (RunEvent::PersistOk, RunState::Persisted),
        (RunEvent::Finish, RunState::Done),
    ] {
        o.step(e);
        assert_eq!(o.state, s);
    }
}

#[test]
fn validation_failure_is_terminal() {
    let mut o = Orchestrator::new();
    o.step(RunEvent::ConfigParseOk);
    o.step(RunEvent::ValidationFailed);
    assert_eq!(o.state, RunState::Failed { reason: FailReason::ConfigValidation });
    o.step(RunEvent::ConnectOk);
    assert_eq!(o.state, RunState::Failed { reason: FailReason::ConfigValidation });
    o.step(RunEvent::Finish);
    assert_eq!(o.state, RunState::Failed { reason: FailReason::ConfigValidation });
}

#[test]
fn schema_failure_retries_exactly_once() {
    let mut o = Orchestrator::new();
    o.step(RunEvent::ConfigParseOk);
    o.step(RunEvent::ValidationOk);
    o.step(RunEvent::ConnectOk);
    o.step(RunEvent::SchemaFailed);
    assert_eq!(o.state, RunState::Connected);
    assert!(o.schema_retried);
    o.step(RunEvent::SchemaFailed);
    assert_eq!(o.state, RunState::Failed { reason: FailReason::Schema });
}

#[test]
fn schema_retry_can_still_succeed() {
    let mut o = Orchestrator::new();
    o.step(RunEvent::ConfigParseOk);
    o.step(RunEvent::ValidationOk);
    o.step(RunEvent::ConnectOk);
    o.step(RunEvent::SchemaFailed);
    o.step(RunEvent::SchemaOk);
    assert_eq!(o.state, RunState::SchemaReady);
}

#[test]
fn connect_failure_keeps_retryable_flag() {
    let mut o = Orchestrator::new();
    o.step(RunEvent::ConfigParseOk);
    o.step(RunEvent::ValidationOk);
    o.step(RunEvent::ConnectFailed { retryable: true });
    assert_eq!(
        o.state,
        RunState::Failed { reason: FailReason::Connection { retryable: true } }
    );
}

#[test]
fn run_fails_closed_on_invalid_config() {
    let mut store = StoreModel::new();
    let c = config("oracle", "localhost", 0);
    let out = run_on_store(&c, Some(&Vec::new()), &date(2024, 3, 5), &mut store);
    assert_eq!(out.state, RunState::Failed { reason: FailReason::ConfigValidation });
    assert_eq!(out.violations, vec![Violation::InvalidDriver, Violation::InvalidPort]);
    assert!(out.report.is_none());
    assert!(!store.schema_ready);
    assert_eq!(store.rows.len(), 0);
}

#[test]
fn run_fails_on_missing_log() {
    let mut store = StoreModel::new();
    let c = config("sqlite", "localhost", 1);
    let out = run_on_store(&c, None, &date(2024, 3, 5), &mut store);
    assert_eq!(out.state, RunState::Failed { reason: FailReason::LogUnavailable });
    assert!(out.report.is_none());
    assert!(!store.schema_ready);
}

#[test]
fn empty_log_is_a_successful_empty_run() {
    let mut store = StoreModel::new();
    let c = config("sqlite", "localhost", 1);
    let log: Vec<String> = Vec::new();
    let out = run_on_store(&c, Some(&log), &date(2024, 3, 5), &mut store);
    assert_eq!(out.state, RunState::Done);
    assert_eq!(out.records.len(), 0);
    assert_eq!(out.malformed, 0);
    let rep = out.report.expect("a successful run reports counts");
    assert_eq!((rep.inserted, rep.skipped, rep.failed), (0, 0, 0));
    assert!(store.schema_ready);
    assert_eq!(store.rows.len(), 0);
}

#[test]
fn full_run_persists_the_extracted_record_once() {
    let mut store = StoreModel::new();
    let c = config("sqlite", "localhost", 1);
    let log = vec![
        "2024-03-05 10:00:00 fail2ban.actions [123]: NOTICE [sshd] Ban 2024-03-05 10:00:00 203.0.113.7"
            .to_string(),
    ];
    let d = date(2024, 3, 5);
    let out = run_on_store(&c, Some(&log), &d, &mut store);
    assert_eq!(out.state, RunState::Done);
    let rep = out.report.unwrap();
    assert_eq!((rep.inserted, rep.skipped, rep.failed), (1, 0, 0));
    assert_eq!(store.count_rows(&d, &"203.0.113.7".to_string()), 1);
    // a re-run over the same unmodified log inserts nothing new
    let again = run_on_store(&c, Some(&log), &d, &mut store);
    assert_eq!(again.state, RunState::Done);
    let rep = again.report.unwrap();
    assert_eq!((rep.inserted, rep.skipped, rep.failed), (0, 1, 0));
    assert_eq!(store.count_rows(&d, &"203.0.113.7".to_string()), 1);
}
