//! Storage modelling: the closed set of driver variants, and the stored-state
//! model whose schema creation is idempotent and whose persistence never
//! duplicates a (date, address) pair.

use vstd::prelude::*;
use crate::config::driver_ok;
use crate::date::Date;
use crate::extract::BanRecord;

verus! {

/// The closed set of storage backends.
#[derive(Clone, Copy, PartialEq, Eq, Structural, Debug)]
pub enum DriverKind {
    Sqlite,
    Mysql,
    Postgres,
}

/// The driver variant a recognized driver name selects.
pub open spec fn driver_of(t: Seq<char>) -> DriverKind {
    if t == "sqlite"@ {
        DriverKind::Sqlite
    } else if t == "mysql"@ {
        DriverKind::Mysql
    } else {
        DriverKind::Postgres
    }
}

impl DriverKind {
    /// Selects the driver variant for a driver name; unrecognized names
    /// select nothing.
    pub fn from_name(name: &String) -> (r: Option<DriverKind>)
        ensures
            r is Some <==> driver_ok(name@),
            match r {
                Option::Some(k) => k == driver_of(name@),
                Option::None => !driver_ok(name@),
            },
    {
        if *name == "sqlite".to_owned() {
            Option::Some(DriverKind::Sqlite)
        } else if *name == "mysql".to_owned() {
            Option::Some(DriverKind::Mysql)
        } else if *name == "postgres".to_owned() {
            Option::Some(DriverKind::Postgres)
        } else {
            Option::None
        }
    }
}

/// Driver selector for the MySQL backend; connection handling lives with the
/// embedding application.
pub struct MysqlDriver {}

impl MysqlDriver {
    /// A fresh MySQL driver selector.
    pub fn new() -> (d: MysqlDriver)
        ensures
            d.kind() == DriverKind::Mysql,
    {
        MysqlDriver {  }
    }

    /// The variant this selector stands for.
    pub open spec fn kind(&self) -> DriverKind {
        DriverKind::Mysql
    }
}

/// Driver selector for the Postgres backend; connection handling lives with
/// the embedding application.
pub struct PostgresDriver {}

impl PostgresDriver {
    /// A fresh Postgres driver selector.
    pub fn new() -> (d: PostgresDriver)
        ensures
            d.kind() == DriverKind::Postgres,
    {
        PostgresDriver {  }
    }

    /// The variant this selector stands for.
    pub open spec fn kind(&self) -> DriverKind {
        DriverKind::Postgres
    }
}

/// The stored row with the given date and address.
pub open spec fn row_matches(x: BanRecord, d: Date, a: Seq<char>) -> bool {
    x.date == d && x.address@ == a
}

/// Some stored row carries the given (date, address) key.
pub open spec fn has_key(rows: Seq<BanRecord>, d: Date, a: Seq<char>) -> bool {
    exists|i: int| 0 <= i < rows.len() && row_matches(#[trigger] rows[i], d, a)
}

/// No two stored rows share a (date, address) key.
pub open spec fn unique_keys(rows: Seq<BanRecord>) -> bool {
    forall|i: int, j: int|
        0 <= i < j < rows.len() ==> !row_matches(
            #[trigger] rows[j],
            (#[trigger] rows[i]).date,
            rows[i].address@,
        )
}

/// Upsert-or-ignore of one record: a duplicate key changes nothing.
pub open spec fn insert_one(rows: Seq<BanRecord>, r: BanRecord) -> Seq<BanRecord> {
    if has_key(rows, r.date, r.address@) {
        rows
    } else {
        rows.push(r)
    }
}

/// The stored rows after persisting `recs` in order.
pub open spec fn persist_rows(rows: Seq<BanRecord>, recs: Seq<BanRecord>) -> Seq<BanRecord>
    decreases recs.len(),
{
    if recs.len() == 0 {
        rows
    } else {
        insert_one(persist_rows(rows, recs.drop_last()), recs.last())
    }
}

/// How many of `recs` are new keys over `rows`, in order.
pub open spec fn inserted_count(rows: Seq<BanRecord>, recs: Seq<BanRecord>) -> int
    decreases recs.len(),
{
    if recs.len() == 0 {
        0
    } else {
        inserted_count(rows, recs.drop_last()) + (if has_key(
            persist_rows(rows, recs.drop_last()),
            recs.last().date,
            recs.last().address@,
        ) {
            0int
        } else {
            1int
        })
    }
}

/// How many stored rows carry the given key.
pub open spec fn count_key(rows: Seq<BanRecord>, d: Date, a: Seq<char>) -> int
    decreases rows.len(),
{
    if rows.len() == 0 {
        0
    } else {
        count_key(rows.drop_last(), d, a) + (if row_matches(rows.last(), d, a) {
            1int
        } else {
            0int
        })
    }
}

/// The counts one persistence pass reports.
#[derive(Clone, Copy, PartialEq, Eq, Structural, Debug)]
pub struct PersistReport {
    pub inserted: usize,
    pub skipped: usize,
    pub failed: usize,
}

/// What one backend write attempt reported back, as a plain value.
#[derive(Clone, Copy, PartialEq, Eq, Structural, Debug)]
pub enum WriteOutcome {
    Inserted,
    AlreadyStored,
    WriteFailed,
    ConnectionLost,
}

/// Whether a batch goes on after one write attempt.
#[derive(Clone, Copy, PartialEq, Eq, Structural, Debug)]
pub enum BatchDecision {
    Continue,
    Abort,
}

/// The per-record failure policy of one persistence pass over a real
/// backend: an inserted or already-stored row is counted and the batch goes
/// on; a failed write is counted in `failed` and does not abort the
/// remaining records; only a lost connection aborts the batch.
pub fn apply_write_outcome(report: &mut PersistReport, outcome: WriteOutcome) -> (d: BatchDecision)
    requires
        old(report).inserted < usize::MAX,
        old(report).skipped < usize::MAX,
        old(report).failed < usize::MAX,
    ensures
        d == BatchDecision::Abort <==> outcome == WriteOutcome::ConnectionLost,
        *final(report) == (match outcome {
            WriteOutcome::Inserted => PersistReport {
                inserted: (old(report).inserted + 1) as usize,
                ..*old(report)
            },
            WriteOutcome::AlreadyStored => PersistReport {
                skipped: (old(report).skipped + 1) as usize,
                ..*old(report)
            },
            WriteOutcome::WriteFailed => PersistReport {
                failed: (old(report).failed + 1) as usize,
                ..*old(report)
            },
            WriteOutcome::ConnectionLost => *old(report),
        }),
{
    match outcome {
        WriteOutcome::Inserted => {
            report.inserted += 1;
            BatchDecision::Continue
        },
        WriteOutcome::AlreadyStored => {
            report.skipped += 1;
            BatchDecision::Continue
        },
        WriteOutcome::WriteFailed => {
            report.failed += 1;
            BatchDecision::Continue
        },
        WriteOutcome::ConnectionLost => BatchDecision::Abort,
    }
}

/// The modelled state of a storage backend: whether the ban-records table
/// exists, and the stored rows, unique per (date, address).
pub struct StoreModel {
    pub schema_ready: bool,
    pub rows: Vec<BanRecord>,
}

/// The state after an idempotent schema check-then-create.
pub open spec fn after_ensure_schema(s: StoreModel) -> StoreModel {
    StoreModel { schema_ready: true, ..s }
}

impl StoreModel {
    /// The stored rows never repeat a (date, address) key.
    pub open spec fn wf(&self) -> bool {
        unique_keys(self.rows@)
    }

    /// A fresh store: no schema, no rows.
    pub fn new() -> (s: StoreModel)
        ensures
            s.wf(),
            !s.schema_ready,
            s.rows@ == Seq::<BanRecord>::empty(),
    {
        StoreModel { schema_ready: false, rows: Vec::new() }
    }

    /// Check-then-create of the ban-records table: after the call the schema
    /// exists; the stored rows are untouched. Safe to repeat.
    pub fn ensure_schema(&mut self)
        ensures
            *final(self) == after_ensure_schema(*old(self)),
            final(self).schema_ready,
            final(self).rows == old(self).rows,
            old(self).wf() ==> final(self).wf(),
    {
        self.schema_ready = true;
    }

    /// Whether a row with the given key is stored.
    pub fn lookup(&self, d: &Date, a: &String) -> (b: bool)
        ensures
            b == has_key(self.rows@, *d, a@),
    {
        let mut i: usize = 0;
        while i < self.rows.len()
            invariant
                i <= self.rows@.len(),
                forall|k: int| 0 <= k < i ==> !row_matches(#[trigger] self.rows@[k], *d, a@),
            decreases self.rows@.len() - i,
        {
            let row = &self.rows[i];
            if row.date == *d && row.address == *a {
                return true;
            }
            i += 1;
        }
        false
    }

    /// How many stored rows carry the given key.
    pub fn count_rows(&self, d: &Date, a: &String) -> (c: usize)
        ensures
            c as int == count_key(self.rows@, *d, a@),
    {
        let mut c: usize = 0;
        let mut i: usize = 0;
        while i < self.rows.len()
            invariant
                i <= self.rows@.len(),
                c <= i,
                c as int == count_key(self.rows@.subrange(0, i as int), *d, a@),
            decreases self.rows@.len() - i,
        {
            proof {
                assert(self.rows@.subrange(0, i + 1).drop_last() =~= self.rows@.subrange(
                    0,
                    i as int,
                ));
                assert(self.rows@.subrange(0, i + 1).last() == self.rows@[i as int]);
            }
            let row = &self.rows[i];
            if row.date == *d && row.address == *a {
                c += 1;
            }
            i += 1;
        }
        proof {
            assert(self.rows@.subrange(0, self.rows@.len() as int) =~= self.rows@);
        }
        c
    }

    /// Persists the records in order with upsert-or-ignore semantics:
    /// a record whose (date, address) key is already stored is skipped, every
    /// other one is inserted; nothing fails, and no key is ever duplicated.
    pub fn persist(&mut self, records: &Vec<BanRecord>) -> (rep: PersistReport)
        requires
            old(self).wf(),
            old(self).schema_ready,
        ensures
            final(self).wf(),
            final(self).schema_ready,
            final(self).rows@ == persist_rows(old(self).rows@, records@),
            rep.inserted as int == inserted_count(old(self).rows@, records@),
            rep.inserted + rep.skipped == records@.len(),
            rep.failed == 0,
    {
        let mut inserted: usize = 0;
        let mut skipped: usize = 0;
        let mut j: usize = 0;
        while j < records.len()
            invariant
                old(self).wf(),
                self.wf(),
                self.schema_ready,
                j <= records@.len(),
                inserted + skipped == j,
                self.rows@ == persist_rows(old(self).rows@, records@.subrange(0, j as int)),
                inserted as int == inserted_count(old(self).rows@, records@.subrange(0, j as int)),
            decreases records@.len() - j,
        {
            proof {
                assert(records@.subrange(0, j + 1).drop_last() =~= records@.subrange(0, j as int));
                assert(records@.subrange(0, j + 1).last() == records@[j as int]);
            }
            let rec = &records[j];
            if self.lookup(&rec.date, &rec.address) {
                skipped += 1;
            } else {
                let ghost before = self.rows@;
                self.rows.push(BanRecord { date: rec.date, address: rec.address.clone() });
                inserted += 1;
                proof {
                    assert(self.rows@.last() == records@[j as int]);
                    assert(self.rows@ =~= before.push(records@[j as int]));
                    assert forall|i: int, k: int| 0 <= i < k < self.rows@.len() implies
                        !row_matches(
                        #[trigger] self.rows@[k],
                        (#[trigger] self.rows@[i]).date,
                        self.rows@[i].address@,
                    ) by {
                        if k < self.rows@.len() - 1 {
                            assert(!row_matches(before[k], before[i].date, before[i].address@));
                        } else {
                            assert(!has_key(before, records@[j as int].date, records@[j as int].address@));
                            assert(!row_matches(before[i], records@[j as int].date, records@[j as int].address@));
                            assert(self.rows@[i] == before[i]);
                        }
                    }
                }
            }
            j += 1;
        }
        proof {
            assert(records@.subrange(0, records@.len() as int) =~= records@);
        }
        PersistReport { inserted, skipped, failed: 0 }
    }
}

/// Ensuring the schema twice in succession leaves exactly the state that
/// ensuring it once leaves, with the stored rows untouched.
pub proof fn lemma_schema_idempotent(s: StoreModel)
    ensures
        after_ensure_schema(after_ensure_schema(s)) == after_ensure_schema(s),
        after_ensure_schema(s).rows == s.rows,
        after_ensure_schema(s).schema_ready,
{
}

/// Under unique keys, a key is stored once or not at all.
pub proof fn lemma_count_unique(rows: Seq<BanRecord>, d: Date, a: Seq<char>)
    requires
        unique_keys(rows),
    ensures
        count_key(rows, d, a) == if has_key(rows, d, a) {
            1int
        } else {
            0int
        },
    decreases rows.len(),
{
    if rows.len() > 0 {
        let prev = rows.drop_last();
        assert(forall|i: int| 0 <= i < prev.len() ==> prev[i] == #[trigger] rows[i]);
        lemma_count_unique(prev, d, a);
        if row_matches(rows.last(), d, a) {
            if has_key(prev, d, a) {
                let i = choose|i: int| 0 <= i < prev.len() && row_matches(#[trigger] prev[i], d, a);
                assert(!row_matches(rows[rows.len() - 1], rows[i].date, rows[i].address@));
                assert(false);
            }
            assert(has_key(rows, d, a));
        } else {
            if has_key(rows, d, a) {
                let i = choose|i: int| 0 <= i < rows.len() && row_matches(#[trigger] rows[i], d, a);
                assert(i < prev.len() && prev[i] == rows[i]);
                assert(has_key(prev, d, a));
            }
            if has_key(prev, d, a) {
                let i = choose|i: int| 0 <= i < prev.len() && row_matches(#[trigger] prev[i], d, a);
                assert(row_matches(rows[i], d, a));
                assert(has_key(rows, d, a));
            }
        }
    }
}

/// A key present in the rows stays present through an upsert.
proof fn lemma_has_key_insert_one(rows: Seq<BanRecord>, r: BanRecord, d: Date, a: Seq<char>)
    requires
        has_key(rows, d, a),
    ensures
        has_key(insert_one(rows, r), d, a),
{
    let i = choose|i: int| 0 <= i < rows.len() && row_matches(#[trigger] rows[i], d, a);
    if !has_key(rows, r.date, r.address@) {
        assert(insert_one(rows, r)[i] == rows[i]);
    }
}

/// Every persisted record's key is stored afterwards.
pub proof fn lemma_persist_covers(rows: Seq<BanRecord>, recs: Seq<BanRecord>)
    ensures
        forall|k: int|
            0 <= k < recs.len() ==> has_key(
                persist_rows(rows, recs),
                (#[trigger] recs[k]).date,
                recs[k].address@,
            ),
    decreases recs.len(),
{
    if recs.len() > 0 {
        let prev = recs.drop_last();
        lemma_persist_covers(rows, prev);
        let sp = persist_rows(rows, prev);
        let s = persist_rows(rows, recs);
        let last = recs.last();
        assert(s == insert_one(sp, last));
        assert forall|k: int| 0 <= k < recs.len() implies has_key(
            s,
            (#[trigger] recs[k]).date,
            recs[k].address@,
        ) by {
            if k < recs.len() - 1 {
                assert(prev[k] == recs[k]);
                assert(has_key(sp, recs[k].date, recs[k].address@));
                lemma_has_key_insert_one(sp, last, recs[k].date, recs[k].address@);
            } else {
                if has_key(sp, last.date, last.address@) {
                    lemma_has_key_insert_one(sp, last, last.date, last.address@);
                } else {
                    assert(s == sp.push(last));
                    assert(row_matches(s[s.len() - 1], last.date, last.address@));
                }
            }
        }
    }
}

/// Records whose keys are all stored already are absorbed: persisting them
/// changes nothing and inserts nothing.
pub proof fn lemma_persist_absorbed(base: Seq<BanRecord>, recs: Seq<BanRecord>)
    requires
        forall|k: int|
            0 <= k < recs.len() ==> has_key(base, (#[trigger] recs[k]).date, recs[k].address@),
    ensures
        persist_rows(base, recs) == base,
        inserted_count(base, recs) == 0,
    decreases recs.len(),
{
    if recs.len() > 0 {
        let prev = recs.drop_last();
        assert(forall|k: int| 0 <= k < prev.len() ==> prev[k] == #[trigger] recs[k]);
        lemma_persist_absorbed(base, prev);
        assert(has_key(base, recs.last().date, recs.last().address@));
    }
}

/// Re-running a persistence pass over the same unmodified record set changes
/// nothing and inserts nothing: persistence is idempotent per logical entry.
pub proof fn lemma_persist_idempotent(rows: Seq<BanRecord>, recs: Seq<BanRecord>)
    ensures
        persist_rows(persist_rows(rows, recs), recs) == persist_rows(rows, recs),
        inserted_count(persist_rows(rows, recs), recs) == 0,
{
    lemma_persist_covers(rows, recs);
    lemma_persist_absorbed(persist_rows(rows, recs), recs);
}

/// Persisting the same record twice stores it exactly once: the second pass
/// changes nothing, inserts nothing, and the key is stored as one row.
pub proof fn lemma_persist_duplicate(rows: Seq<BanRecord>, r: BanRecord)
    requires
        unique_keys(rows),
    ensures
        persist_rows(persist_rows(rows, seq![r]), seq![r]) == persist_rows(rows, seq![r]),
        count_key(persist_rows(rows, seq![r]), r.date, r.address@) == 1,
        inserted_count(persist_rows(rows, seq![r]), seq![r]) == 0,
{
    let one = seq![r];
    assert(one.drop_last() =~= Seq::<BanRecord>::empty());
    assert(one.last() == r);
    assert(persist_rows(rows, one.drop_last()) == rows);
    let s1 = persist_rows(rows, one);
    assert(s1 == insert_one(rows, r));
    if has_key(rows, r.date, r.address@) {
        assert(s1 == rows);
        lemma_count_unique(rows, r.date, r.address@);
    } else {
        assert(s1 == rows.push(r));
        assert(row_matches(s1[s1.len() - 1], r.date, r.address@));
        assert(has_key(s1, r.date, r.address@));
        assert(forall|i: int| 0 <= i < rows.len() ==> rows[i] == #[trigger] s1[i]);
        assert forall|i: int, k: int| 0 <= i < k < s1.len() implies !row_matches(
            #[trigger] s1[k],
            (#[trigger] s1[i]).date,
            s1[i].address@,
        ) by {
            if k < s1.len() - 1 {
                assert(!row_matches(rows[k], rows[i].date, rows[i].address@));
            } else {
                assert(!row_matches(rows[i], r.date, r.address@));
                assert(s1[i] == rows[i]);
            }
        }
        lemma_count_unique(s1, r.date, r.address@);
    }
    assert(has_key(s1, r.date, r.address@));
    assert(persist_rows(s1, one.drop_last()) == s1);
    assert(persist_rows(s1, one) == insert_one(s1, r));
    assert(inserted_count(s1, one.drop_last()) == 0);
    assert(inserted_count(s1, one) == 0);
}

} // verus!
