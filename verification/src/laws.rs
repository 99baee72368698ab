//! Cross-cutting guarantees of the pipeline, stated and proved once over the
//! specifications that the executable functions are verified against.

use crate::hash::sha256_hex_of;
use crate::normalize::{
    count_data_lines, lemma_rows_from_props, spec_normalize, RowView,
};
use crate::pipeline::{import_committed, ImportOutcome, ImportRequest};
use crate::store::Store;
use crate::textparse::spec_split_lines;
use vstd::prelude::*;

verus! {

/// Every accepted upload denotes exactly one normalized row per non-blank
/// line after the header.
pub proof fn lemma_accepted_rows_count(bytes: Seq<u8>)
    ensures
        spec_normalize(bytes) matches Ok(rows) ==> rows.len() == count_data_lines(
            spec_split_lines(bytes),
            1,
        ),
{
    lemma_rows_from_props(spec_split_lines(bytes), 1);
}

/// A well-formed store never holds two supplier rows with the same name.
pub proof fn lemma_supplier_identity_unique(s: Store)
    requires
        s.wf(),
    ensures
        forall|i: int, j: int|
            0 <= i < j < s.suppliers@.len() ==> (#[trigger] s.suppliers@[i]).name@ != (
            #[trigger] s.suppliers@[j]).name@,
{
}

/// Within one committed import, rows carrying the same supplier name
/// reference the same supplier identity.
pub proof fn lemma_rows_share_supplier(
    s0: Store,
    s1: Store,
    req: ImportRequest,
    rows: Seq<RowView>,
    out: ImportOutcome,
    q1: int,
    q2: int,
)
    requires
        import_committed(s0, s1, req, rows, out),
        0 <= q1 < rows.len(),
        0 <= q2 < rows.len(),
        rows[q1].supplier_name == rows[q2].supplier_name,
    ensures
        s1.rows@[s0.rows@.len() + q1].supplier_id == s1.rows@[s0.rows@.len() + q2].supplier_id,
{
    assert((s1.rows@[s0.rows@.len() + q1]).import_id == out.import_id);
    assert((s1.rows@[s0.rows@.len() + q2]).import_id == out.import_id);
}

/// A committed import's accumulator for a date and the report's entry for
/// that date carry the same sum: each equals the sum of exactly that date's
/// row amounts.
pub proof fn lemma_metric_agrees_with_report(
    s0: Store,
    s1: Store,
    req: ImportRequest,
    rows: Seq<RowView>,
    out: ImportOutcome,
    k: int,
    t: int,
)
    requires
        import_committed(s0, s1, req, rows, out),
        crate::aggregate::totals_match(out.daily_totals@, rows),
        s0.metrics@.len() <= k < s1.metrics@.len(),
        0 <= t < out.daily_totals@.len(),
        out.daily_totals@[t].date == s1.metrics@[k].date,
    ensures
        out.daily_totals@[t].total_cents == s1.metrics@[k].total_cents,
{
    assert((s1.metrics@[k]).store_id == req.store_id);
    assert(out.daily_totals@[t].total_cents == crate::aggregate::sum_cents_for_date(
        rows,
        out.daily_totals@[t].date,
    ));
}

/// Hashing the same byte sequence always yields the same hash.
pub proof fn lemma_content_hash_deterministic(a: Seq<u8>, b: Seq<u8>)
    requires
        a == b,
    ensures
        sha256_hex_of(a) == sha256_hex_of(b),
{
}

/// Re-importing content — byte-identical or not — yields a fresh import
/// identity: each import takes the identifier supply's value at its start,
/// and the supply only grows across a committed import.
pub proof fn lemma_reimport_distinct_ids(
    first: ImportOutcome,
    next_between: u64,
    second: ImportOutcome,
)
    requires
        first.import_id < next_between,
        next_between <= second.import_id,
    ensures
        first.import_id != second.import_id,
{
}

} // verus!
