//! The request-level driver: normalize, aggregate, then persist the import,
//! its rows, its metrics, its report and its audit trail as one atomic unit
//! against the store model, shaping the response on success and surfacing the
//! first failure with no partial effect.

use crate::date::Date;
use crate::aggregate::{
    aggregate_daily, has_date, lemma_sum_cents_bound, lemma_wf_take, sum_cents,
    sum_cents_for_date, sum_daily, totals_match, DailyTotal,
};
use crate::hash::{sha256_hex, sha256_hex_of};
use crate::normalize::{
    lemma_rows_from_props, normalize_csv, row_views, spec_normalize, wf_rows, ImportError,
    ParseIssue, RowView,
};
use crate::store::{clone_bytes, supplier_id_in, AuditAction, AuditMetadata, Store, TargetKind};
use crate::textparse::spec_split_lines;
use vstd::prelude::*;

verus! {

/// What the request layer hands the pipeline, already extracted from the
/// transport envelope.
#[derive(Debug)]
pub struct ImportRequest {
    pub store_id: i64,
    pub imported_by: Vec<u8>,
    pub file_name: Vec<u8>,
    pub file_bytes: Vec<u8>,
    pub imported_at: i64,
}

/// The response payload of a successful import.
#[derive(Debug)]
pub struct ImportOutcome {
    pub import_id: u64,
    pub report_id: u64,
    pub store_id: i64,
    pub imported_by: Vec<u8>,
    pub imported_at: i64,
    pub file_sha256: Vec<u8>,
    pub rows_count: usize,
    pub total_cents: i128,
    pub daily_totals: Vec<DailyTotal>,
}

/// The success contract of one import over the store model: relative to the
/// state `s0` before the request, the state `s1` after it holds exactly one
/// new import carrying the payload and its hash, one new normalized row per
/// accepted input row in order, one new metric per distinct date carrying
/// that date's sum, one new report whose snapshot repeats the response
/// totals, and two new audit entries — and nothing else.
pub open spec fn import_committed(
    s0: Store,
    s1: Store,
    req: ImportRequest,
    rows: Seq<RowView>,
    out: ImportOutcome,
) -> bool {
    &&& s1.imports@.len() == s0.imports@.len() + 1
    &&& forall|k: int| 0 <= k < s0.imports@.len() ==> #[trigger] s1.imports@[k] == s0.imports@[k]
    &&& s1.imports@.last().id == out.import_id
    &&& s1.imports@.last().store_id == req.store_id
    &&& s1.imports@.last().imported_by@ == req.imported_by@
    &&& s1.imports@.last().source_filename@ == req.file_name@
    &&& s1.imports@.last().source_sha256@ == sha256_hex_of(req.file_bytes@)
    &&& s1.imports@.last().raw_payload@ == req.file_bytes@
    &&& s1.imports@.last().imported_at == req.imported_at
    &&& s1.rows@.len() == s0.rows@.len() + rows.len()
    &&& forall|k: int| 0 <= k < s0.rows@.len() ==> #[trigger] s1.rows@[k] == s0.rows@[k]
    &&& forall|q: int|
        0 <= q < rows.len() ==> (#[trigger] s1.rows@[s0.rows@.len() + q]).import_id
            == out.import_id && s1.rows@[s0.rows@.len() + q].store_id == req.store_id
            && s1.rows@[s0.rows@.len() + q].date == rows[q].date && s1.rows@[s0.rows@.len()
            + q].amount_cents == rows[q].cents && s1.supplier_id(rows[q].supplier_name) == Some(
            s1.rows@[s0.rows@.len() + q].supplier_id,
        )
    &&& s0.metrics@.len() <= s1.metrics@.len()
    &&& s1.metrics@.len() as int <= s0.metrics@.len() as int + rows.len()
    &&& forall|k: int| 0 <= k < s0.metrics@.len() ==> #[trigger] s1.metrics@[k] == s0.metrics@[k]
    &&& forall|k: int|
        s0.metrics@.len() <= k < s1.metrics@.len() ==> (#[trigger] s1.metrics@[k]).store_id
            == req.store_id && s1.metrics@[k].source_import_id == out.import_id && has_date(
            rows,
            s1.metrics@[k].date,
        ) && s1.metrics@[k].total_cents == sum_cents_for_date(rows, s1.metrics@[k].date)
    &&& forall|d: Date| #[trigger]
        has_date(rows, d) ==> exists|k: int|
            s0.metrics@.len() <= k < s1.metrics@.len() && (#[trigger] s1.metrics@[k]).date == d
    &&& s1.reports@.len() == s0.reports@.len() + 1
    &&& forall|k: int| 0 <= k < s0.reports@.len() ==> #[trigger] s1.reports@[k] == s0.reports@[k]
    &&& s1.reports@.last().id == out.report_id
    &&& s1.reports@.last().store_id == req.store_id
    &&& s1.reports@.last().generated_from_import_id == out.import_id
    &&& s1.reports@.last().generated_by@ == req.imported_by@
    &&& s1.reports@.last().snapshot.daily_totals@ == out.daily_totals@
    &&& s1.reports@.last().snapshot.total_cents == out.total_cents
    &&& s1.audit@.len() == s0.audit@.len() + 2
    &&& forall|k: int| 0 <= k < s0.audit@.len() ==> #[trigger] s1.audit@[k] == s0.audit@[k]
    &&& s1.audit@[s0.audit@.len() as int].action == AuditAction::ImportCreated
    &&& s1.audit@[s0.audit@.len() as int].actor@ == req.imported_by@
    &&& s1.audit@[s0.audit@.len() as int].target_kind == TargetKind::Imports
    &&& s1.audit@[s0.audit@.len() as int].target_id == out.import_id
    &&& (match s1.audit@[s0.audit@.len() as int].metadata {
        AuditMetadata::ImportCreated { store_id, filename, sha256 } => store_id == req.store_id
            && filename@ == req.file_name@ && sha256@ == sha256_hex_of(req.file_bytes@),
        _ => false,
    })
    &&& s1.audit@.last().action == AuditAction::ReportGenerated
    &&& s1.audit@.last().actor@ == req.imported_by@
    &&& s1.audit@.last().target_kind == TargetKind::Reports
    &&& s1.audit@.last().target_id == out.report_id
    &&& (match s1.audit@.last().metadata {
        AuditMetadata::ReportGenerated { generated_from_import_id, total_cents } =>
            generated_from_import_id == out.import_id && total_cents == out.total_cents,
        _ => false,
    })
    &&& s0.suppliers@.len() <= s1.suppliers@.len()
    &&& forall|k: int|
        0 <= k < s0.suppliers@.len() ==> #[trigger] s1.suppliers@[k] == s0.suppliers@[k]
    &&& forall|k: int|
        s0.suppliers@.len() <= k < s1.suppliers@.len() ==> (supplier_id_in(
            s0.suppliers@,
            (#[trigger] s1.suppliers@[k]).name@,
        ) is None && exists|q: int|
            0 <= q < rows.len() && rows[q].supplier_name == s1.suppliers@[k].name@)
    &&& forall|nm: Seq<u8>|
        (#[trigger] supplier_id_in(s0.suppliers@, nm)) is Some ==> s1.supplier_id(nm)
            == supplier_id_in(s0.suppliers@, nm)
}

pub fn run_import(store: &mut Store, req: &ImportRequest) -> (r: Result<
    ImportOutcome,
    ImportError,
>)
    requires
        old(store).wf(),
    ensures
        final(store).wf(),
        (match r {
            Ok(out) => {
                &&& spec_normalize(req.file_bytes@) is Ok
                &&& out.rows_count == spec_normalize(req.file_bytes@)->Ok_0.len()
                &&& out.total_cents == sum_cents(spec_normalize(req.file_bytes@)->Ok_0)
                &&& totals_match(out.daily_totals@, spec_normalize(req.file_bytes@)->Ok_0)
                &&& sum_daily(out.daily_totals@) == out.total_cents
                &&& out.file_sha256@ == sha256_hex_of(req.file_bytes@)
                &&& out.store_id == req.store_id
                &&& out.imported_by@ == req.imported_by@
                &&& out.imported_at == req.imported_at
                &&& out.import_id == old(store).next_id
                &&& out.report_id != out.import_id
                &&& final(store).next_id > out.import_id
                &&& import_committed(
                    *old(store),
                    *final(store),
                    *req,
                    spec_normalize(req.file_bytes@)->Ok_0,
                    out,
                )
            },
            Err(e) => *final(store) == *old(store) && (match e {
                ImportError::ParseFailure { line, kind } => spec_normalize(req.file_bytes@)
                    == Err::<Seq<RowView>, ParseIssue>(ParseIssue { line: line as int, kind }),
                ImportError::PersistenceFailure => spec_normalize(req.file_bytes@) is Ok && old(
                    store,
                ).next_id as int + 3 * spec_normalize(req.file_bytes@)->Ok_0.len() + 4 > u64::MAX
                    as int,
            }),
        }),
{
    let rows = match normalize_csv(&req.file_bytes) {
        Ok(rows) => rows,
        Err(e) => {
            return Err(e);
        },
    };
    let ghost v = row_views(rows@);
    proof {
        lemma_rows_from_props(spec_split_lines(req.file_bytes@), 1);
        assert(wf_rows(v));
    }
    // Refuse the request up front if the identifier supply cannot cover the
    // whole transaction; nothing has been written yet.
    let n_rows = rows.len();
    let needed: u128 = 3u128 * (n_rows as u128) + 4u128;
    if (store.next_id as u128) + needed > (u64::MAX as u128) {
        return Err(ImportError::PersistenceFailure);
    }
    let totals = aggregate_daily(&rows);
    let mut total: i128 = 0;
    let mut k: usize = 0;
    proof {
        assert(v.take(0) =~= Seq::<RowView>::empty());
    }
    while k < n_rows
        invariant
            k <= n_rows,
            n_rows == rows@.len(),
            v == row_views(rows@),
            wf_rows(v),
            total == sum_cents(v.take(k as int)),
        decreases n_rows - k,
    {
        proof {
            lemma_wf_take(v, k as int + 1);
            lemma_sum_cents_bound(v.take(k as int + 1));
            assert(v.take(k as int + 1) =~= v.take(k as int).push(v[k as int]));
            assert(v.take(k as int + 1).drop_last() =~= v.take(k as int));
            assert(v[k as int] == rows@[k as int]@);
            assert((k as int + 1) * 1000000000000000000 <= 18446744073709551615int
                * 1000000000000000000);
        }
        total = total + (rows[k].amount.cents as i128);
        k += 1;
    }
    proof {
        assert(v.take(n_rows as int) =~= v);
    }
    let sha = sha256_hex(&req.file_bytes);
    let ghost s0 = *store;
    let import_id = store.persist_import(
        req.store_id,
        &req.imported_by,
        &req.file_name,
        &sha,
        &req.file_bytes,
        req.imported_at,
    );
    let ghost s1 = *store;
    proof {
        assert forall|j: int| 0 <= j < store.rows@.len() implies (#[trigger] store.rows@[
        j]).import_id != import_id by {
            assert(store.rows@[j] == s0.rows@[j]);
        }
        assert forall|j: int| 0 <= j < store.metrics@.len() implies (#[trigger] store.metrics@[
        j]).source_import_id != import_id by {
            assert(store.metrics@[j] == s0.metrics@[j]);
        }
    }
    store.persist_normalized_and_metrics(import_id, req.store_id, &rows);
    let ghost s2 = *store;
    let report_id = store.persist_report(
        import_id,
        req.store_id,
        &req.imported_by,
        &totals,
        total,
        req.imported_at,
    );
    let out = ImportOutcome {
        import_id,
        report_id,
        store_id: req.store_id,
        imported_by: clone_bytes(&req.imported_by),
        imported_at: req.imported_at,
        file_sha256: sha,
        rows_count: n_rows,
        total_cents: total,
        daily_totals: totals,
    };
    proof {
        let srows = spec_normalize(req.file_bytes@)->Ok_0;
        assert(srows == v);
        // The report step left suppliers, rows and metrics untouched, so the
        // middle step's guarantees carry to the final state.
        assert(store.suppliers == s2.suppliers);
        assert(store.rows == s2.rows);
        assert(store.metrics == s2.metrics);
        assert forall|q: int|
            0 <= q < srows.len() implies (#[trigger] store.rows@[s0.rows@.len() + q]).import_id
            == import_id && store.rows@[s0.rows@.len() + q].store_id == req.store_id
            && store.rows@[s0.rows@.len() + q].date == srows[q].date && store.rows@[s0.rows@.len()
            + q].amount_cents == srows[q].cents && store.supplier_id(srows[q].supplier_name)
            == Some(store.rows@[s0.rows@.len() + q].supplier_id) by {
            assert(s1.rows@.len() == s0.rows@.len());
            assert((s2.rows@[s1.rows@.len() + q]).import_id == import_id);
        }
        assert(store.audit@.len() == s0.audit@.len() + 2);
        assert(store.audit@[s0.audit@.len() as int] == s1.audit@.last());
        assert(s1.suppliers@ == s0.suppliers@ && s1.rows@ == s0.rows@ && s1.metrics@
            == s0.metrics@);
        assert forall|j: int| 0 <= j < s0.imports@.len() implies #[trigger] store.imports@[j]
            == s0.imports@[j] by {
            assert(s1.imports@[j] == s0.imports@[j]);
        }
        assert forall|j: int| 0 <= j < s0.reports@.len() implies #[trigger] store.reports@[j]
            == s0.reports@[j] by {
            assert(store.reports@[j] == s2.reports@[j]);
        }
        assert forall|j: int| 0 <= j < s0.audit@.len() implies #[trigger] store.audit@[j]
            == s0.audit@[j] by {
            assert(s1.audit@[j] == s0.audit@[j]);
            assert(s2.audit@[j] == s1.audit@[j]);
            assert(store.audit@[j] == s2.audit@[j]);
        }
        assert forall|j: int| 0 <= j < s0.metrics@.len() implies #[trigger] store.metrics@[j]
            == s0.metrics@[j] by {
            assert(s2.metrics@[j] == s1.metrics@[j]);
        }
        assert forall|j: int|
            s0.metrics@.len() <= j < store.metrics@.len() implies (#[trigger] store.metrics@[
        j]).store_id == req.store_id && store.metrics@[j].source_import_id == import_id
            && has_date(srows, store.metrics@[j].date) && store.metrics@[j].total_cents
            == sum_cents_for_date(srows, store.metrics@[j].date) by {
            assert((s2.metrics@[j]).store_id == req.store_id);
        }
        assert forall|d: Date| #[trigger] has_date(srows, d) implies exists|j: int|
            s0.metrics@.len() <= j < store.metrics@.len() && (#[trigger] store.metrics@[j]).date
                == d by {
            assert(has_date(v, d));
            let j = choose|j: int|
                s1.metrics@.len() <= j < s2.metrics@.len() && (#[trigger] s2.metrics@[j]).date
                    == d;
            assert(store.metrics@[j].date == d);
        }
        assert forall|j: int| 0 <= j < s0.suppliers@.len() implies #[trigger] store.suppliers@[j]
            == s0.suppliers@[j] by {
            assert(s2.suppliers@[j] == s1.suppliers@[j]);
        }
        assert forall|j: int|
            s0.suppliers@.len() <= j < store.suppliers@.len() implies (supplier_id_in(
            s0.suppliers@,
            (#[trigger] store.suppliers@[j]).name@,
        ) is None && exists|q: int|
            0 <= q < srows.len() && srows[q].supplier_name == store.suppliers@[j].name@) by {
            assert((s2.suppliers@[j]).name@ == store.suppliers@[j].name@);
            assert(supplier_id_in(s1.suppliers@, s2.suppliers@[j].name@) is None);
        }
        assert forall|nm: Seq<u8>|
            (#[trigger] supplier_id_in(s0.suppliers@, nm)) is Some implies store.supplier_id(nm)
            == supplier_id_in(s0.suppliers@, nm) by {
            assert(s1.supplier_id(nm) == supplier_id_in(s0.suppliers@, nm));
            assert(s1.supplier_id(nm) is Some);
            assert(s2.supplier_id(nm) == s1.supplier_id(nm));
        }
        assert(import_committed(s0, *store, *req, srows, out));
    }
    Ok(out)
}

} // verus!
