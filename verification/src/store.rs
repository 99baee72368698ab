//! An in-memory model of the backing store: the five entity collections, the
//! identifier supply, and the atomic write operations of the persistence
//! protocol — supplier upsert-as-lookup, daily-metric upsert-as-accumulate,
//! and the append-only entity and audit inserts.

use crate::aggregate::{
    has_date, lemma_sum_for_date_absent, lemma_sum_for_date_bound, lemma_take_step, lemma_wf_take,
    sum_cents_for_date, sum_daily, DailyTotal,
};
use crate::date::Date;
use crate::normalize::{row_views, wf_rows, NormalizedRow, RowView};
use vstd::prelude::*;

verus! {

/// A supplier identity: one row per distinct name.
pub struct Supplier {
    pub id: u64,
    pub name: Vec<u8>,
}

/// One accepted upload.
pub struct ImportRec {
    pub id: u64,
    pub store_id: i64,
    pub imported_by: Vec<u8>,
    pub source_filename: Vec<u8>,
    pub source_sha256: Vec<u8>,
    pub raw_payload: Vec<u8>,
    pub imported_at: i64,
}

/// One validated row, as persisted under its import.
#[derive(Clone, Copy, Debug)]
pub struct NormalizedRowRec {
    pub id: u64,
    pub import_id: u64,
    pub store_id: i64,
    pub supplier_id: u64,
    pub date: Date,
    pub amount_cents: i64,
}

/// One (store, date, import) accumulator.
#[derive(Clone, Copy, Debug)]
pub struct DailyMetricRec {
    pub id: u64,
    pub store_id: i64,
    pub date: Date,
    pub total_cents: i128,
    pub source_import_id: u64,
}

/// The point-in-time summary captured by a report.
pub struct ReportSnapshot {
    pub store_id: i64,
    pub generated_from_import_id: u64,
    pub daily_totals: Vec<DailyTotal>,
    pub total_cents: i128,
}

/// One generated report.
pub struct ReportRec {
    pub id: u64,
    pub store_id: i64,
    pub generated_from_import_id: u64,
    pub generated_by: Vec<u8>,
    pub snapshot: ReportSnapshot,
}

#[derive(Clone, Copy, Debug, PartialEq, Eq, Structural)]
pub enum AuditAction {
    ImportCreated,
    ReportGenerated,
}

#[derive(Clone, Copy, Debug, PartialEq, Eq, Structural)]
pub enum TargetKind {
    Imports,
    Reports,
}

/// The structured payload carried by an audit entry.
pub enum AuditMetadata {
    ImportCreated { store_id: i64, filename: Vec<u8>, sha256: Vec<u8> },
    ReportGenerated { generated_from_import_id: u64, total_cents: i128 },
}

/// One append-only audit entry.
pub struct AuditLogRec {
    pub id: u64,
    pub actor: Vec<u8>,
    pub action: AuditAction,
    pub target_kind: TargetKind,
    pub target_id: u64,
    pub metadata: AuditMetadata,
    pub created_at: i64,
}

/// The identity a name resolves to: the first supplier row carrying it.
pub open spec fn supplier_id_in(s: Seq<Supplier>, name: Seq<u8>) -> Option<u64>
    decreases s.len(),
{
    if s.len() == 0 {
        None
    } else if s[0].name@ == name {
        Some(s[0].id)
    } else {
        supplier_id_in(s.skip(1), name)
    }
}

pub struct Store {
    pub next_id: u64,
    pub suppliers: Vec<Supplier>,
    pub imports: Vec<ImportRec>,
    pub rows: Vec<NormalizedRowRec>,
    pub metrics: Vec<DailyMetricRec>,
    pub reports: Vec<ReportRec>,
    pub audit: Vec<AuditLogRec>,
}

impl Store {
    pub open spec fn supplier_id(self, name: Seq<u8>) -> Option<u64> {
        supplier_id_in(self.suppliers@, name)
    }

    /// The store's invariant: supplier names are unique, every identifier was
    /// drawn from the supply, import references point below the supply,
    /// metric keys are unique, and every report's grand total is the sum of
    /// its per-day totals.
    pub open spec fn wf(self) -> bool {
        &&& forall|i: int, j: int|
            0 <= i < j < self.suppliers@.len() ==> (#[trigger] self.suppliers@[i]).name@ != (
            #[trigger] self.suppliers@[j]).name@
        &&& forall|i: int|
            0 <= i < self.suppliers@.len() ==> (#[trigger] self.suppliers@[i]).id < self.next_id
        &&& forall|i: int|
            0 <= i < self.imports@.len() ==> (#[trigger] self.imports@[i]).id < self.next_id
        &&& forall|i: int|
            0 <= i < self.rows@.len() ==> (#[trigger] self.rows@[i]).id < self.next_id
                && self.rows@[i].import_id < self.next_id
        &&& forall|i: int|
            0 <= i < self.metrics@.len() ==> (#[trigger] self.metrics@[i]).id < self.next_id
                && self.metrics@[i].source_import_id < self.next_id
        &&& forall|i: int, j: int|
            0 <= i < j < self.metrics@.len() ==> !((#[trigger] self.metrics@[i]).store_id == (
            #[trigger] self.metrics@[j]).store_id && self.metrics@[i].date == self.metrics@[j].date
                && self.metrics@[i].source_import_id == self.metrics@[j].source_import_id)
        &&& forall|i: int|
            0 <= i < self.reports@.len() ==> (#[trigger] self.reports@[i]).id < self.next_id
        &&& forall|i: int|
            0 <= i < self.reports@.len() ==> (#[trigger] self.reports@[i]).snapshot.total_cents
                == sum_daily(self.reports@[i].snapshot.daily_totals@)
        &&& forall|i: int|
            0 <= i < self.audit@.len() ==> (#[trigger] self.audit@[i]).id < self.next_id
    }

    /// An empty store: no entities, no identifiers handed out yet.
    pub fn new() -> (s: Store)
        ensures
            s.wf(),
            s.next_id == 0,
            s.suppliers@.len() == 0,
            s.imports@.len() == 0,
            s.rows@.len() == 0,
            s.metrics@.len() == 0,
            s.reports@.len() == 0,
            s.audit@.len() == 0,
    {
        Store {
            next_id: 0,
            suppliers: Vec::new(),
            imports: Vec::new(),
            rows: Vec::new(),
            metrics: Vec::new(),
            reports: Vec::new(),
            audit: Vec::new(),
        }
    }
}

proof fn lemma_supplier_id_found(s: Seq<Supplier>, name: Seq<u8>, k: int)
    requires
        0 <= k < s.len(),
        s[k].name@ == name,
        forall|j: int| 0 <= j < k ==> (#[trigger] s[j]).name@ != name,
    ensures
        supplier_id_in(s, name) == Some(s[k].id),
    decreases k,
{
    if k > 0 {
        assert(forall|j: int| 0 <= j < k - 1 ==> #[trigger] s.skip(1)[j] == s[j + 1]);
        assert(s.skip(1)[k - 1] == s[k]);
        lemma_supplier_id_found(s.skip(1), name, k - 1);
    }
}

proof fn lemma_supplier_id_absent(s: Seq<Supplier>, name: Seq<u8>)
    requires
        forall|j: int| 0 <= j < s.len() ==> (#[trigger] s[j]).name@ != name,
    ensures
        supplier_id_in(s, name) is None,
    decreases s.len(),
{
    if s.len() > 0 {
        assert(forall|j: int| 0 <= j < s.len() - 1 ==> #[trigger] s.skip(1)[j] == s[j + 1]);
        lemma_supplier_id_absent(s.skip(1), name);
    }
}

/// Appending a supplier leaves every other name's resolution unchanged, and
/// resolves the appended name if it was absent.
proof fn lemma_supplier_id_push(s: Seq<Supplier>, sup: Supplier, name: Seq<u8>)
    ensures
        sup.name@ != name ==> supplier_id_in(s.push(sup), name) == supplier_id_in(s, name),
        sup.name@ == name && supplier_id_in(s, name) is None ==> supplier_id_in(s.push(sup), name)
            == Some(sup.id),
        supplier_id_in(s, name) is Some ==> supplier_id_in(s.push(sup), name) == supplier_id_in(
            s,
            name,
        ),
    decreases s.len(),
{
    if s.len() == 0 {
        assert(s.push(sup)[0] == sup);
        if sup.name@ != name {
            assert(s.push(sup).skip(1) =~= Seq::<Supplier>::empty());
            assert(supplier_id_in(Seq::<Supplier>::empty(), name) is None);
            assert(supplier_id_in(s.push(sup), name) is None);
        }
    } else {
        let sp = s.push(sup);
        assert(sp[0] == s[0]);
        assert(sp.skip(1) =~= s.skip(1).push(sup));
        lemma_supplier_id_push(s.skip(1), sup, name);
        if s[0].name@ == name {
            assert(supplier_id_in(sp, name) == Some(sp[0].id));
            assert(supplier_id_in(s, name) == Some(s[0].id));
        } else {
            assert(supplier_id_in(sp, name) == supplier_id_in(sp.skip(1), name));
            assert(supplier_id_in(s, name) == supplier_id_in(s.skip(1), name));
        }
    }
}

/// Byte-for-byte equality of two byte strings.
fn bytes_eq(a: &Vec<u8>, b: &Vec<u8>) -> (r: bool)
    ensures
        r == (a@ == b@),
{
    if a.len() != b.len() {
        assert(a@ != b@);
        return false;
    }
    let n = a.len();
    let mut i: usize = 0;
    while i < n
        invariant
            i <= n,
            n == a@.len(),
            n == b@.len(),
            forall|j: int| 0 <= j < i ==> a@[j] == b@[j],
        decreases n - i,
    {
        if a[i] != b[i] {
            return false;
        }
        i += 1;
    }
    proof {
        assert(a@ =~= b@);
    }
    true
}

/// A copy of a byte string.
pub(crate) fn clone_bytes(a: &Vec<u8>) -> (r: Vec<u8>)
    ensures
        r@ == a@,
{
    let n = a.len();
    let mut r: Vec<u8> = Vec::new();
    let mut i: usize = 0;
    while i < n
        invariant
            i <= n,
            n == a@.len(),
            r@ == a@.take(i as int),
        decreases n - i,
    {
        r.push(a[i]);
        proof {
            assert(a@.take(i as int + 1) =~= a@.take(i as int).push(a@[i as int]));
        }
        i += 1;
    }
    proof {
        assert(a@.take(n as int) =~= a@);
    }
    r
}

/// A copy of a totals list.
fn clone_totals(a: &Vec<DailyTotal>) -> (r: Vec<DailyTotal>)
    ensures
        r@ == a@,
{
    let n = a.len();
    let mut r: Vec<DailyTotal> = Vec::new();
    let mut i: usize = 0;
    while i < n
        invariant
            i <= n,
            n == a@.len(),
            r@ == a@.take(i as int),
        decreases n - i,
    {
        r.push(a[i]);
        proof {
            assert(a@.take(i as int + 1) =~= a@.take(i as int).push(a@[i as int]));
        }
        i += 1;
    }
    proof {
        assert(a@.take(n as int) =~= a@);
    }
    r
}

impl Store {
    /// Upsert-as-lookup: the stable identity for a supplier name, a new row
    /// created exactly when the name has never been seen.
    pub fn resolve_supplier(&mut self, name: &Vec<u8>) -> (id: u64)
        requires
            old(self).wf(),
            old(self).next_id < u64::MAX,
        ensures
            final(self).wf(),
            final(self).supplier_id(name@) == Some(id),
            final(self).imports == old(self).imports,
            final(self).rows == old(self).rows,
            final(self).metrics == old(self).metrics,
            final(self).reports == old(self).reports,
            final(self).audit == old(self).audit,
            forall|nm: Seq<u8>|
                nm != name@ ==> final(self).supplier_id(nm) == old(self).supplier_id(nm),
            match old(self).supplier_id(name@) {
                Some(i) => id == i && *final(self) == *old(self),
                None => {
                    &&& id == old(self).next_id
                    &&& final(self).next_id == old(self).next_id + 1
                    &&& final(self).suppliers@.len() == old(self).suppliers@.len() + 1
                    &&& forall|k: int|
                        0 <= k < old(self).suppliers@.len() ==> #[trigger] final(self).suppliers@[k]
                            == old(self).suppliers@[k]
                    &&& final(self).suppliers@.last().id == id
                    &&& final(self).suppliers@.last().name@ == name@
                },
            },
    {
        let n = self.suppliers.len();
        let mut i: usize = 0;
        while i < n
            invariant
                i <= n,
                n == self.suppliers@.len(),
                *self == *old(self),
                self.wf(),
                forall|j: int| 0 <= j < i ==> (#[trigger] self.suppliers@[j]).name@ != name@,
            decreases n - i,
        {
            if bytes_eq(&self.suppliers[i].name, name) {
                proof {
                    lemma_supplier_id_found(self.suppliers@, name@, i as int);
                }
                return self.suppliers[i].id;
            }
            i += 1;
        }
        proof {
            lemma_supplier_id_absent(self.suppliers@, name@);
        }
        let id = self.next_id;
        let sup = Supplier { id, name: clone_bytes(name) };
        proof {
            lemma_supplier_id_push(self.suppliers@, sup, name@);
        }
        self.suppliers.push(sup);
        self.next_id = id + 1;
        proof {
            assert forall|nm: Seq<u8>|
                nm != name@ implies #[trigger] self.supplier_id(nm) == old(self).supplier_id(
                nm,
            ) by {
                lemma_supplier_id_push(old(self).suppliers@, self.suppliers@.last(), nm);
            }
            assert forall|p: int, q: int|
                0 <= p < q < self.suppliers@.len() implies (#[trigger] self.suppliers@[p]).name@
                != (#[trigger] self.suppliers@[q]).name@ by {
                if q < self.suppliers@.len() - 1 {
                    assert(self.suppliers@[p] == old(self).suppliers@[p]);
                    assert(self.suppliers@[q] == old(self).suppliers@[q]);
                } else {
                    assert(self.suppliers@[p] == old(self).suppliers@[p]);
                }
            }
        }
        id
    }

    /// Step one of the transaction: the import record and its
    /// `IMPORT_CREATED` audit entry, appended together.
    pub fn persist_import(
        &mut self,
        store_id: i64,
        imported_by: &Vec<u8>,
        file_name: &Vec<u8>,
        file_sha256: &Vec<u8>,
        raw_payload: &Vec<u8>,
        imported_at: i64,
    ) -> (import_id: u64)
        requires
            old(self).wf(),
            old(self).next_id as int + 2 <= u64::MAX as int,
        ensures
            final(self).wf(),
            import_id == old(self).next_id,
            final(self).next_id == old(self).next_id + 2,
            final(self).suppliers == old(self).suppliers,
            final(self).rows == old(self).rows,
            final(self).metrics == old(self).metrics,
            final(self).reports == old(self).reports,
            final(self).imports@.len() == old(self).imports@.len() + 1,
            forall|k: int|
                0 <= k < old(self).imports@.len() ==> #[trigger] final(self).imports@[k] == old(self).imports@[k],
            final(self).imports@.last().id == import_id,
            final(self).imports@.last().store_id == store_id,
            final(self).imports@.last().imported_by@ == imported_by@,
            final(self).imports@.last().source_filename@ == file_name@,
            final(self).imports@.last().source_sha256@ == file_sha256@,
            final(self).imports@.last().raw_payload@ == raw_payload@,
            final(self).imports@.last().imported_at == imported_at,
            final(self).audit@.len() == old(self).audit@.len() + 1,
            forall|k: int|
                0 <= k < old(self).audit@.len() ==> #[trigger] final(self).audit@[k] == old(self).audit@[k],
            final(self).audit@.last().actor@ == imported_by@,
            final(self).audit@.last().action == AuditAction::ImportCreated,
            final(self).audit@.last().target_kind == TargetKind::Imports,
            final(self).audit@.last().target_id == import_id,
            final(self).audit@.last().created_at == imported_at,
            (match final(self).audit@.last().metadata {
                AuditMetadata::ImportCreated { store_id: s, filename, sha256 } => s == store_id
                    && filename@ == file_name@ && sha256@ == file_sha256@,
                _ => false,
            }),
    {
        let import_id = self.next_id;
        let audit_id = import_id + 1;
        self.imports.push(
            ImportRec {
                id: import_id,
                store_id,
                imported_by: clone_bytes(imported_by),
                source_filename: clone_bytes(file_name),
                source_sha256: clone_bytes(file_sha256),
                raw_payload: clone_bytes(raw_payload),
                imported_at,
            },
        );
        self.audit.push(
            AuditLogRec {
                id: audit_id,
                actor: clone_bytes(imported_by),
                action: AuditAction::ImportCreated,
                target_kind: TargetKind::Imports,
                target_id: import_id,
                metadata: AuditMetadata::ImportCreated {
                    store_id,
                    filename: clone_bytes(file_name),
                    sha256: clone_bytes(file_sha256),
                },
                created_at: imported_at,
            },
        );
        self.next_id = audit_id + 1;
        import_id
    }

    /// Steps four and five of the transaction: the report snapshot and its
    /// `REPORT_GENERATED` audit entry, appended together.
    pub fn persist_report(
        &mut self,
        import_id: u64,
        store_id: i64,
        imported_by: &Vec<u8>,
        daily_totals: &Vec<DailyTotal>,
        total_cents: i128,
        created_at: i64,
    ) -> (report_id: u64)
        requires
            old(self).wf(),
            old(self).next_id as int + 2 <= u64::MAX as int,
            total_cents == sum_daily(daily_totals@),
        ensures
            final(self).wf(),
            report_id == old(self).next_id,
            final(self).next_id == old(self).next_id + 2,
            final(self).suppliers == old(self).suppliers,
            final(self).rows == old(self).rows,
            final(self).metrics == old(self).metrics,
            final(self).imports == old(self).imports,
            final(self).reports@.len() == old(self).reports@.len() + 1,
            forall|k: int|
                0 <= k < old(self).reports@.len() ==> #[trigger] final(self).reports@[k] == old(self).reports@[k],
            final(self).reports@.last().id == report_id,
            final(self).reports@.last().store_id == store_id,
            final(self).reports@.last().generated_from_import_id == import_id,
            final(self).reports@.last().generated_by@ == imported_by@,
            final(self).reports@.last().snapshot.store_id == store_id,
            final(self).reports@.last().snapshot.generated_from_import_id == import_id,
            final(self).reports@.last().snapshot.daily_totals@ == daily_totals@,
            final(self).reports@.last().snapshot.total_cents == total_cents,
            final(self).audit@.len() == old(self).audit@.len() + 1,
            forall|k: int|
                0 <= k < old(self).audit@.len() ==> #[trigger] final(self).audit@[k] == old(self).audit@[k],
            final(self).audit@.last().actor@ == imported_by@,
            final(self).audit@.last().action == AuditAction::ReportGenerated,
            final(self).audit@.last().target_kind == TargetKind::Reports,
            final(self).audit@.last().target_id == report_id,
            final(self).audit@.last().created_at == created_at,
            (match final(self).audit@.last().metadata {
                AuditMetadata::ReportGenerated { generated_from_import_id: gi, total_cents: tc } =>
                    gi == import_id && tc == total_cents,
                _ => false,
            }),
    {
        let report_id = self.next_id;
        let audit_id = report_id + 1;
        self.reports.push(
            ReportRec {
                id: report_id,
                store_id,
                generated_from_import_id: import_id,
                generated_by: clone_bytes(imported_by),
                snapshot: ReportSnapshot {
                    store_id,
                    generated_from_import_id: import_id,
                    daily_totals: clone_totals(daily_totals),
                    total_cents,
                },
            },
        );
        self.audit.push(
            AuditLogRec {
                id: audit_id,
                actor: clone_bytes(imported_by),
                action: AuditAction::ReportGenerated,
                target_kind: TargetKind::Reports,
                target_id: report_id,
                metadata: AuditMetadata::ReportGenerated {
                    generated_from_import_id: import_id,
                    total_cents,
                },
                created_at,
            },
        );
        self.next_id = audit_id + 1;
        report_id
    }

    /// The index of the accumulator for a (store, date, import) key, if any.
    fn find_metric(&self, store_id: i64, date: Date, import_id: u64) -> (o: Option<usize>)
        ensures
            match o {
                Some(ix) => ix < self.metrics@.len() && self.metrics@[ix as int].store_id
                    == store_id && self.metrics@[ix as int].date == date && self.metrics@[
                    ix as int].source_import_id == import_id,
                None => forall|k: int|
                    0 <= k < self.metrics@.len() ==> !((#[trigger] self.metrics@[k]).store_id
                        == store_id && self.metrics@[k].date == date
                        && self.metrics@[k].source_import_id == import_id),
            },
    {
        let n = self.metrics.len();
        let mut i: usize = 0;
        while i < n
            invariant
                i <= n,
                n == self.metrics@.len(),
                forall|k: int|
                    0 <= k < i ==> !((#[trigger] self.metrics@[k]).store_id == store_id
                        && self.metrics@[k].date == date && self.metrics@[k].source_import_id
                        == import_id),
            decreases n - i,
        {
            let m = self.metrics[i];
            if m.store_id == store_id && m.date == date && m.source_import_id == import_id {
                return Some(i);
            }
            i += 1;
        }
        None
    }

    /// Step three of the transaction: for each row in input order, resolve
    /// its supplier, append the normalized row, and accumulate its amount
    /// into the (store, date, import) metric — opening the accumulator on the
    /// date's first row.
    pub fn persist_normalized_and_metrics(
        &mut self,
        import_id: u64,
        store_id: i64,
        rows: &Vec<NormalizedRow>,
    )
        requires
            old(self).wf(),
            wf_rows(row_views(rows@)),
            import_id < old(self).next_id,
            old(self).next_id as int + 3 * rows@.len() <= u64::MAX as int,
            forall|k: int|
                0 <= k < old(self).rows@.len() ==> (#[trigger] old(self).rows@[k]).import_id
                    != import_id,
            forall|k: int|
                0 <= k < old(self).metrics@.len() ==> (#[trigger] old(self).metrics@[k]).source_import_id != import_id,
        ensures
            final(self).wf(),
            final(self).imports == old(self).imports,
            final(self).reports == old(self).reports,
            final(self).audit == old(self).audit,
            old(self).next_id <= final(self).next_id,
            final(self).next_id as int <= old(self).next_id as int + 3 * rows@.len(),
            old(self).suppliers@.len() <= final(self).suppliers@.len(),
            forall|k: int|
                0 <= k < old(self).suppliers@.len() ==> #[trigger] final(self).suppliers@[k] == old(self).suppliers@[k],
            forall|k: int|
                old(self).suppliers@.len() <= k < final(self).suppliers@.len() ==> (supplier_id_in(
                    old(self).suppliers@,
                    (#[trigger] final(self).suppliers@[k]).name@,
                ) is None && exists|r: int|
                    0 <= r < rows@.len() && row_views(rows@)[r].supplier_name == final(self).suppliers@[k].name@),
            forall|nm: Seq<u8>|
                (#[trigger] old(self).supplier_id(nm)) is Some ==> final(self).supplier_id(nm)
                    == old(self).supplier_id(nm),
            final(self).rows@.len() == old(self).rows@.len() + rows@.len(),
            forall|k: int|
                0 <= k < old(self).rows@.len() ==> #[trigger] final(self).rows@[k] == old(self).rows@[k],
            forall|r: int|
                0 <= r < rows@.len() ==> (#[trigger] final(self).rows@[old(self).rows@.len()
                    + r]).import_id == import_id && final(self).rows@[old(self).rows@.len()
                    + r].store_id == store_id && final(self).rows@[old(self).rows@.len() + r].date
                    == row_views(rows@)[r].date && final(self).rows@[old(self).rows@.len()
                    + r].amount_cents == row_views(rows@)[r].cents && final(self).supplier_id(
                    row_views(rows@)[r].supplier_name,
                ) == Some(final(self).rows@[old(self).rows@.len() + r].supplier_id),
            old(self).metrics@.len() <= final(self).metrics@.len(),
            final(self).metrics@.len() as int <= old(self).metrics@.len() as int + rows@.len(),
            forall|k: int|
                0 <= k < old(self).metrics@.len() ==> #[trigger] final(self).metrics@[k] == old(self).metrics@[k],
            forall|k: int|
                old(self).metrics@.len() <= k < final(self).metrics@.len() ==> (#[trigger] final(self).metrics@[k]).store_id == store_id && final(self).metrics@[k].source_import_id
                    == import_id && has_date(row_views(rows@), final(self).metrics@[k].date)
                    && final(self).metrics@[k].total_cents == sum_cents_for_date(
                    row_views(rows@),
                    final(self).metrics@[k].date,
                ),
            forall|d: Date| #[trigger]
                has_date(row_views(rows@), d) ==> exists|k: int|
                    old(self).metrics@.len() <= k < final(self).metrics@.len() && (#[trigger] final(self).metrics@[k]).date == d,
    {
        let ghost s0 = *self;
        let ghost v = row_views(rows@);
        let n = rows.len();
        let mut r: usize = 0;
        proof {
            assert(v.take(0) =~= Seq::<RowView>::empty());
        }
        while r < n
            invariant
                r <= n,
                n == rows@.len(),
                v == row_views(rows@),
                wf_rows(v),
                self.wf(),
                import_id < self.next_id,
                s0.next_id as int + 3 * n <= u64::MAX as int,
                s0.next_id <= self.next_id,
                self.next_id as int <= s0.next_id as int + 3 * r,
                self.imports == s0.imports,
                self.reports == s0.reports,
                self.audit == s0.audit,
                s0.suppliers@.len() <= self.suppliers@.len(),
                forall|k: int|
                    0 <= k < s0.suppliers@.len() ==> #[trigger] self.suppliers@[k]
                        == s0.suppliers@[k],
                forall|k: int|
                    s0.suppliers@.len() <= k < self.suppliers@.len() ==> (supplier_id_in(
                        s0.suppliers@,
                        (#[trigger] self.suppliers@[k]).name@,
                    ) is None && exists|q: int|
                        0 <= q < r && v[q].supplier_name == self.suppliers@[k].name@),
                forall|nm: Seq<u8>|
                    (#[trigger] supplier_id_in(s0.suppliers@, nm)) is Some ==> self.supplier_id(nm)
                        == supplier_id_in(s0.suppliers@, nm),
                self.rows@.len() == s0.rows@.len() + r,
                forall|k: int|
                    0 <= k < s0.rows@.len() ==> #[trigger] self.rows@[k] == s0.rows@[k],
                forall|k: int|
                    0 <= k < s0.rows@.len() ==> (#[trigger] self.rows@[k]).import_id != import_id,
                forall|q: int|
                    0 <= q < r ==> (#[trigger] self.rows@[s0.rows@.len() + q]).import_id
                        == import_id && self.rows@[s0.rows@.len() + q].store_id == store_id
                        && self.rows@[s0.rows@.len() + q].date == v[q].date && self.rows@[
                    s0.rows@.len() + q].amount_cents == v[q].cents && self.supplier_id(
                        v[q].supplier_name,
                    ) == Some(self.rows@[s0.rows@.len() + q].supplier_id),
                s0.metrics@.len() <= self.metrics@.len(),
                self.metrics@.len() as int <= s0.metrics@.len() as int + r,
                forall|k: int|
                    0 <= k < s0.metrics@.len() ==> #[trigger] self.metrics@[k] == s0.metrics@[k],
                forall|k: int|
                    0 <= k < s0.metrics@.len() ==> (#[trigger] self.metrics@[k]).source_import_id
                        != import_id,
                forall|k: int|
                    s0.metrics@.len() <= k < self.metrics@.len() ==> (#[trigger] self.metrics@[
                    k]).store_id == store_id && self.metrics@[k].source_import_id == import_id
                        && has_date(v.take(r as int), self.metrics@[k].date) && self.metrics@[
                    k].total_cents == sum_cents_for_date(v.take(r as int), self.metrics@[k].date),
                forall|d: Date| #[trigger]
                    has_date(v.take(r as int), d) ==> exists|k: int|
                        s0.metrics@.len() <= k < self.metrics@.len() && (#[trigger] self.metrics@[
                        k]).date == d,
            decreases n - r,
        {
            let ghost pre = *self;
            let row = &rows[r];
            proof {
                assert(v[r as int] == rows@[r as int]@);
            }
            let sid = self.resolve_supplier(&row.supplier_name);
            proof {
                let ghost mid = *self;
                // Earlier rows keep resolving to the same supplier identity.
                assert forall|q: int| 0 <= q < r implies #[trigger] self.supplier_id(
                    v[q].supplier_name,
                ) == pre.supplier_id(v[q].supplier_name) by {
                    assert((pre.rows@[s0.rows@.len() + q]).import_id == import_id);
                    assert(pre.supplier_id(v[q].supplier_name) == Some(
                        pre.rows@[s0.rows@.len() + q].supplier_id,
                    ));
                    if v[q].supplier_name != v[r as int].supplier_name {
                    } else {
                        assert(pre.supplier_id(v[q].supplier_name) is Some);
                    }
                }
                // Names that the store already resolved keep their identity.
                assert forall|nm: Seq<u8>|
                    (#[trigger] supplier_id_in(s0.suppliers@, nm)) is Some implies supplier_id_in(
                    self.suppliers@,
                    nm,
                ) == supplier_id_in(s0.suppliers@, nm) by {
                    assert(pre.supplier_id(nm) == supplier_id_in(s0.suppliers@, nm));
                    if nm == v[r as int].supplier_name {
                        assert(pre.supplier_id(nm) is Some);
                    } else {
                        assert(self.supplier_id(nm) == pre.supplier_id(nm));
                    }
                }
                // A supplier created now carries this row's name.
                assert forall|k: int|
                    s0.suppliers@.len() <= k < self.suppliers@.len() implies (supplier_id_in(
                    s0.suppliers@,
                    (#[trigger] self.suppliers@[k]).name@,
                ) is None && exists|q: int|
                    0 <= q < r + 1 && v[q].supplier_name == self.suppliers@[k].name@) by {
                    if k < pre.suppliers@.len() {
                        assert(self.suppliers@[k] == pre.suppliers@[k]);
                        let q = choose|q: int|
                            0 <= q < r && v[q].supplier_name == pre.suppliers@[k].name@;
                        assert(v[q].supplier_name == self.suppliers@[k].name@);
                    } else {
                        assert(self.suppliers@[k].name@ == v[r as int].supplier_name);
                        if supplier_id_in(s0.suppliers@, self.suppliers@[k].name@) is Some {
                            assert(pre.supplier_id(self.suppliers@[k].name@) == supplier_id_in(
                                s0.suppliers@,
                                self.suppliers@[k].name@,
                            ));
                        }
                    }
                }
            }
            let row_id = self.next_id;
            self.next_id = row_id + 1;
            self.rows.push(
                NormalizedRowRec {
                    id: row_id,
                    import_id,
                    store_id,
                    supplier_id: sid,
                    date: row.date,
                    amount_cents: row.amount.cents,
                },
            );
            proof {
                lemma_take_step(v, r as int);
                lemma_wf_take(v, r as int);
                lemma_sum_for_date_bound(v.take(r as int), v[r as int].date);
                assert((r as int) * 1000000000000000000 <= 18446744073709551615int
                    * 1000000000000000000);
            }
            let found = self.find_metric(store_id, row.date, import_id);
            let ghost mets = self.metrics@;
            match found {
                Some(ix) => {
                    proof {
                        // The match lies in this import's region, so its total
                        // is this import's accumulation so far.
                        assert(ix as int >= s0.metrics@.len());
                    }
                    let mold = self.metrics[ix];
                    let newm = DailyMetricRec {
                        id: mold.id,
                        store_id: mold.store_id,
                        date: mold.date,
                        total_cents: mold.total_cents + (row.amount.cents as i128),
                        source_import_id: mold.source_import_id,
                    };
                    self.metrics.remove(ix);
                    self.metrics.insert(ix, newm);
                    proof {
                        assert(self.metrics@ =~= mets.update(ix as int, newm));
                        // No other accumulator of this import carries this date.
                        assert forall|k: int|
                            s0.metrics@.len() <= k < mets.len() && k != ix implies (
                        #[trigger] mets[k]).date != v[r as int].date by {
                            if mets[k].date == v[r as int].date {
                                assert(mets[ix as int].store_id == mets[k].store_id
                                    && mets[ix as int].date == mets[k].date && mets[
                                ix as int].source_import_id == mets[k].source_import_id);
                            }
                        }
                        assert forall|k: int|
                            s0.metrics@.len() <= k < self.metrics@.len() implies (
                        #[trigger] self.metrics@[k]).store_id == store_id && self.metrics@[
                        k].source_import_id == import_id && has_date(
                            v.take(r as int + 1),
                            self.metrics@[k].date,
                        ) && self.metrics@[k].total_cents == sum_cents_for_date(
                            v.take(r as int + 1),
                            self.metrics@[k].date,
                        ) by {
                            if k == ix {
                                assert(self.metrics@[k] == newm);
                            } else {
                                assert(self.metrics@[k] == mets[k]);
                                assert(mets[k].date != v[r as int].date);
                            }
                        }
                        assert forall|d: Date| #[trigger]
                            has_date(v.take(r as int + 1), d) implies exists|k: int|
                            s0.metrics@.len() <= k < self.metrics@.len() && (
                            #[trigger] self.metrics@[k]).date == d by {
                            if has_date(v.take(r as int), d) {
                                let k = choose|k: int|
                                    s0.metrics@.len() <= k < mets.len() && (#[trigger] mets[k]).date
                                        == d;
                                assert(self.metrics@[k].date == d);
                            } else {
                                assert(v[r as int].date == d);
                                assert(self.metrics@[ix as int].date == d);
                            }
                        }
                        // Keys are untouched, so uniqueness carries over.
                        assert forall|p: int, q: int|
                            0 <= p < q < self.metrics@.len() implies !((#[trigger] self.metrics@[
                        p]).store_id == (#[trigger] self.metrics@[q]).store_id && self.metrics@[
                        p].date == self.metrics@[q].date && self.metrics@[p].source_import_id
                            == self.metrics@[q].source_import_id) by {
                            assert(self.metrics@[p].store_id == mets[p].store_id
                                && self.metrics@[p].date == mets[p].date
                                && self.metrics@[p].source_import_id == mets[p].source_import_id);
                            assert(self.metrics@[q].store_id == mets[q].store_id
                                && self.metrics@[q].date == mets[q].date
                                && self.metrics@[q].source_import_id == mets[q].source_import_id);
                        }
                    }
                },
                None => {
                    proof {
                        // A date never seen in this import: its accumulation
                        // so far is zero.
                        if has_date(v.take(r as int), v[r as int].date) {
                            let k = choose|k: int|
                                s0.metrics@.len() <= k < mets.len() && (#[trigger] mets[k]).date
                                    == v[r as int].date;
                            assert(mets[k].store_id == store_id && mets[k].date == v[r as int].date
                                && mets[k].source_import_id == import_id);
                        }
                        assert(!has_date(v.take(r as int), v[r as int].date));
                        lemma_sum_for_date_absent(v.take(r as int), v[r as int].date);
                    }
                    let mid = self.next_id;
                    self.next_id = mid + 1;
                    self.metrics.push(
                        DailyMetricRec {
                            id: mid,
                            store_id,
                            date: row.date,
                            total_cents: row.amount.cents as i128,
                            source_import_id: import_id,
                        },
                    );
                    proof {
                        assert forall|k: int|
                            s0.metrics@.len() <= k < self.metrics@.len() implies (
                        #[trigger] self.metrics@[k]).store_id == store_id && self.metrics@[
                        k].source_import_id == import_id && has_date(
                            v.take(r as int + 1),
                            self.metrics@[k].date,
                        ) && self.metrics@[k].total_cents == sum_cents_for_date(
                            v.take(r as int + 1),
                            self.metrics@[k].date,
                        ) by {
                            if k < mets.len() {
                                assert(self.metrics@[k] == mets[k]);
                                assert(mets[k].date != v[r as int].date);
                            } else {
                                assert(self.metrics@[k] == self.metrics@.last());
                            }
                        }
                        assert forall|d: Date| #[trigger]
                            has_date(v.take(r as int + 1), d) implies exists|k: int|
                            s0.metrics@.len() <= k < self.metrics@.len() && (
                            #[trigger] self.metrics@[k]).date == d by {
                            if has_date(v.take(r as int), d) {
                                let k = choose|k: int|
                                    s0.metrics@.len() <= k < mets.len() && (#[trigger] mets[k]).date
                                        == d;
                                assert(self.metrics@[k].date == d);
                            } else {
                                assert(v[r as int].date == d);
                                assert(self.metrics@[mets.len() as int].date == d);
                            }
                        }
                        assert forall|p: int, q: int|
                            0 <= p < q < self.metrics@.len() implies !((#[trigger] self.metrics@[
                        p]).store_id == (#[trigger] self.metrics@[q]).store_id && self.metrics@[
                        p].date == self.metrics@[q].date && self.metrics@[p].source_import_id
                            == self.metrics@[q].source_import_id) by {
                            if q == self.metrics@.len() - 1 {
                                assert(self.metrics@[p] == mets[p]);
                            } else {
                                assert(self.metrics@[p] == mets[p]);
                                assert(self.metrics@[q] == mets[q]);
                            }
                        }
                    }
                },
            }
            r += 1;
        }
        proof {
            assert(v.take(n as int) =~= v);
        }
    }
}

} // verus!
