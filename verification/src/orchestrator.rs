//! Run sequencing: the state machine a run moves through, and the pipeline
//! over the modelled store. The embedding application performs the real
//! connection and file reads and feeds the outcomes back as events.

use vstd::prelude::*;
use crate::config::{Config, Violation};
use crate::date::Date;
use crate::extract::{extract_addrs, extract_bans, malformed_count, BanRecord};
use crate::storage::{inserted_count, persist_rows, PersistReport, StoreModel};

verus! {

/// Why a run ended in the failed state.
#[derive(Clone, Copy, PartialEq, Eq, Structural, Debug)]
pub enum FailReason {
    ConfigParse,
    ConfigValidation,
    LogUnavailable,
    Connection { retryable: bool },
    Schema,
    Persist,
}

/// The states one run moves through, in order, with a terminal failure.
#[derive(Clone, Copy, PartialEq, Eq, Structural, Debug)]
pub enum RunState {
    Idle,
    ConfigLoaded,
    ConfigValidated,
    Connected,
    SchemaReady,
    Extracted,
    Persisted,
    Done,
    Failed { reason: FailReason },
}

/// The outcome of one stage, reported back to the state machine.
#[derive(Clone, Copy, PartialEq, Eq, Structural, Debug)]
pub enum RunEvent {
    ConfigParseOk,
    ConfigParseFailed,
    ValidationOk,
    ValidationFailed,
    ConnectOk,
    ConnectFailed { retryable: bool },
    SchemaOk,
    SchemaFailed,
    ExtractionOk,
    LogMissing,
    PersistOk,
    PersistFailed,
    Finish,
}

/// The state machine of one run: the current state, and whether the one
/// permitted schema retry has been spent.
#[derive(Clone, Copy, PartialEq, Eq, Structural, Debug)]
pub struct Orchestrator {
    pub state: RunState,
    pub schema_retried: bool,
}

/// The transition relation: what each event does in each state. An event
/// that does not belong to the current state changes nothing, and the done
/// and failed states absorb every event.
pub open spec fn spec_step(o: Orchestrator, e: RunEvent) -> Orchestrator {
    match o.state {
        RunState::Idle => match e {
            RunEvent::ConfigParseOk => Orchestrator { state: RunState::ConfigLoaded, ..o },
            RunEvent::ConfigParseFailed => Orchestrator {
                state: RunState::Failed { reason: FailReason::ConfigParse },
                ..o
            },
            _ => o,
        },
        RunState::ConfigLoaded => match e {
            RunEvent::ValidationOk => Orchestrator { state: RunState::ConfigValidated, ..o },
            RunEvent::ValidationFailed => Orchestrator {
                state: RunState::Failed { reason: FailReason::ConfigValidation },
                ..o
            },
            _ => o,
        },
        RunState::ConfigValidated => match e {
            RunEvent::ConnectOk => Orchestrator { state: RunState::Connected, ..o },
            RunEvent::ConnectFailed { retryable } => Orchestrator {
                state: RunState::Failed { reason: FailReason::Connection { retryable } },
                ..o
            },
            _ => o,
        },
        RunState::Connected => match e {
            RunEvent::SchemaOk => Orchestrator { state: RunState::SchemaReady, ..o },
            RunEvent::SchemaFailed => if o.schema_retried {
                Orchestrator { state: RunState::Failed { reason: FailReason::Schema }, ..o }
            } else {
                Orchestrator { state: RunState::Connected, schema_retried: true }
            },
            _ => o,
        },
        RunState::SchemaReady => match e {
            RunEvent::ExtractionOk => Orchestrator { state: RunState::Extracted, ..o },
            RunEvent::LogMissing => Orchestrator {
                state: RunState::Failed { reason: FailReason::LogUnavailable },
                ..o
            },
            _ => o,
        },
        RunState::Extracted => match e {
            RunEvent::PersistOk => Orchestrator { state: RunState::Persisted, ..o },
            RunEvent::PersistFailed => Orchestrator {
                state: RunState::Failed { reason: FailReason::Persist },
                ..o
            },
            _ => o,
        },
        RunState::Persisted => match e {
            RunEvent::Finish => Orchestrator { state: RunState::Done, ..o },
            _ => o,
        },
        RunState::Done => o,
        RunState::Failed { .. } => o,
    }
}

impl Orchestrator {
    /// A run that has not started.
    pub fn new() -> (o: Orchestrator)
        ensures
            o.state == RunState::Idle,
            !o.schema_retried,
    {
        Orchestrator { state: RunState::Idle, schema_retried: false }
    }

    /// Applies one event to the machine.
    pub fn step(&mut self, e: RunEvent)
        ensures
            *final(self) == spec_step(*old(self), e),
    {
        let next = match self.state {
            RunState::Idle => match e {
                RunEvent::ConfigParseOk => Orchestrator { state: RunState::ConfigLoaded, ..*self },
                RunEvent::ConfigParseFailed => Orchestrator {
                    state: RunState::Failed { reason: FailReason::ConfigParse },
                    ..*self
                },
                _ => *self,
            },
            RunState::ConfigLoaded => match e {
                RunEvent::ValidationOk => Orchestrator {
                    state: RunState::ConfigValidated,
                    ..*self
                },
                RunEvent::ValidationFailed => Orchestrator {
                    state: RunState::Failed { reason: FailReason::ConfigValidation },
                    ..*self
                },
                _ => *self,
            },
            RunState::ConfigValidated => match e {
                RunEvent::ConnectOk => Orchestrator { state: RunState::Connected, ..*self },
                RunEvent::ConnectFailed { retryable } => Orchestrator {
                    state: RunState::Failed { reason: FailReason::Connection { retryable } },
                    ..*self
                },
                _ => *self,
            },
            RunState::Connected => match e {
                RunEvent::SchemaOk => Orchestrator { state: RunState::SchemaReady, ..*self },
                RunEvent::SchemaFailed => if self.schema_retried {
                    Orchestrator { state: RunState::Failed { reason: FailReason::Schema }, ..*self }
                } else {
                    Orchestrator { state: RunState::Connected, schema_retried: true }
                },
                _ => *self,
            },
            RunState::SchemaReady => match e {
                RunEvent::ExtractionOk => Orchestrator { state: RunState::Extracted, ..*self },
                RunEvent::LogMissing => Orchestrator {
                    state: RunState::Failed { reason: FailReason::LogUnavailable },
                    ..*self
                },
                _ => *self,
            },
            RunState::Extracted => match e {
                RunEvent::PersistOk => Orchestrator { state: RunState::Persisted, ..*self },
                RunEvent::PersistFailed => Orchestrator {
                    state: RunState::Failed { reason: FailReason::Persist },
                    ..*self
                },
                _ => *self,
            },
            RunState::Persisted => match e {
                RunEvent::Finish => Orchestrator { state: RunState::Done, ..*self },
                _ => *self,
            },
            RunState::Done => *self,
            RunState::Failed { .. } => *self,
        };
        *self = next;
    }
}

/// Validation fails closed: a validation failure moves the run to the failed
/// state, and no later event ever leaves it, so a run with known-bad
/// parameters never reaches a connection attempt.
pub proof fn lemma_validation_fails_closed(o: Orchestrator, e: RunEvent)
    requires
        o.state == RunState::ConfigLoaded,
    ensures
        spec_step(o, RunEvent::ValidationFailed).state == (RunState::Failed {
            reason: FailReason::ConfigValidation,
        }),
        spec_step(spec_step(o, RunEvent::ValidationFailed), e) == spec_step(
            o,
            RunEvent::ValidationFailed,
        ),
{
}

/// The done and failed states are terminal: no event changes them.
pub proof fn lemma_terminal_states(o: Orchestrator, e: RunEvent)
    requires
        o.state == RunState::Done || o.state matches RunState::Failed { .. },
    ensures
        spec_step(o, e) == o,
{
}

/// A schema failure is retried exactly once: the first failure keeps the run
/// connected with the retry spent, the second fails the run.
pub proof fn lemma_schema_single_retry(o: Orchestrator)
    requires
        o.state == RunState::Connected,
        !o.schema_retried,
    ensures
        spec_step(o, RunEvent::SchemaFailed).state == RunState::Connected,
        spec_step(o, RunEvent::SchemaFailed).schema_retried,
        spec_step(spec_step(o, RunEvent::SchemaFailed), RunEvent::SchemaFailed).state
            == (RunState::Failed { reason: FailReason::Schema }),
{
}

/// What one pipeline run reports.
pub struct RunOutcome {
    pub state: RunState,
    pub violations: Vec<Violation>,
    pub records: Vec<BanRecord>,
    pub malformed: usize,
    pub report: Option<PersistReport>,
}

/// Runs the pipeline against a store: validate the configuration, ensure the
/// schema, extract the target date's records, persist them. Fails closed on
/// validation violations and on a missing log; an empty log is a successful
/// run that persists nothing.
pub fn run_on_store(
    config: &Config,
    log: Option<&Vec<String>>,
    date: &Date,
    store: &mut StoreModel,
) -> (r: RunOutcome)
    requires
        old(store).wf(),
        date.valid(),
    ensures
        final(store).wf(),
        !config.valid() ==> r.state == (RunState::Failed { reason: FailReason::ConfigValidation })
            && *final(store) == *old(store) && r.violations@ == config.expected_violations()
            && r.report is None && r.records@.len() == 0,
        config.valid() ==> match log {
            Option::Some(lines) => {
                &&& r.state == RunState::Done
                &&& final(store).schema_ready
                &&& r.records@.map_values(|b: BanRecord| b.address@) == extract_addrs(
                    lines@.map_values(|l: String| l@),
                    *date,
                )
                &&& forall|i: int|
                    0 <= i < r.records@.len() ==> (#[trigger] r.records@[i]).date == *date
                &&& r.malformed as int == malformed_count(
                    lines@.map_values(|l: String| l@),
                    *date,
                )
                &&& final(store).rows@ == persist_rows(old(store).rows@, r.records@)
                &&& match r.report {
                    Option::Some(rep) => {
                        &&& rep.inserted as int == inserted_count(old(store).rows@, r.records@)
                        &&& rep.inserted + rep.skipped == r.records@.len()
                        &&& rep.failed == 0
                    },
                    Option::None => false,
                }
                &&& r.violations@.len() == 0
            },
            Option::None => r.state == (RunState::Failed { reason: FailReason::LogUnavailable })
                && *final(store) == *old(store) && r.report is None && r.records@.len() == 0,
        },
{
    match config.validate() {
        Result::Err(v) => {
            return RunOutcome {
                state: RunState::Failed { reason: FailReason::ConfigValidation },
                violations: v,
                records: Vec::new(),
                malformed: 0,
                report: Option::None,
            };
        },
        Result::Ok(_) => {},
    }
    match log {
        Option::None => RunOutcome {
            state: RunState::Failed { reason: FailReason::LogUnavailable },
            violations: Vec::new(),
            records: Vec::new(),
            malformed: 0,
            report: Option::None,
        },
        Option::Some(lines) => {
            store.ensure_schema();
            let ex = extract_bans(lines, date);
            let rep = store.persist(&ex.records);
            RunOutcome {
                state: RunState::Done,
                violations: Vec::new(),
                records: ex.records,
                malformed: ex.malformed,
                report: Option::Some(rep),
            }
        },
    }
}

/// An empty log is a successful, empty run: nothing is extracted, nothing is
/// inserted, and the store keeps exactly its rows.
pub proof fn lemma_empty_log_run(rows: Seq<BanRecord>, d: Date)
    ensures
        extract_addrs(Seq::<Seq<char>>::empty(), d) == Seq::<Seq<char>>::empty(),
        malformed_count(Seq::<Seq<char>>::empty(), d) == 0,
        persist_rows(rows, Seq::<BanRecord>::empty()) == rows,
        inserted_count(rows, Seq::<BanRecord>::empty()) == 0,
{
}

} // verus!
