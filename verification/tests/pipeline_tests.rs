use imports_api::aggregate::aggregate_daily;
use imports_api::date::Date;
use imports_api::normalize::{normalize_csv, ImportError, ParseErrorKind};
use imports_api::pipeline::{run_import, ImportRequest};
use imports_api::store::{AuditAction, AuditMetadata, Store, TargetKind};

fn request(bytes: &str) -> ImportRequest {
    ImportRequest {
        store_id: 7,
        imported_by: b"alice".to_vec(),
        file_name: b"upload.csv".to_vec(),
        file_bytes: bytes.as_bytes().to_vec(),
        imported_at: 1_767_000_000_000,
    }
}

#[test]
fn normalize_and_aggregate() {
    let csv = "date,supplier,amount\n2026-02-01,ACME,100\n2026-02-01,ACME,50\n2026-02-02,Beta,25";
    let rows = normalize_csv(&csv.as_bytes().to_vec()).expect("csv should parse");
    assert_eq!(rows.len(), 3);
    let daily = aggregate_daily(&rows);
    assert_eq!(daily.len(), 2);
    assert_eq!(daily[0].date, Date { year: 2026, month: 2, day: 1 });
    assert_eq!(daily[0].total_cents, 15000);
    assert_eq!(daily[1].date, Date { year: 2026, month: 2, day: 2 });
    assert_eq!(daily[1].total_cents, 2500);
}

#[test]
fn import_scenario_three_rows() {
    let mut store = Store::new();
    let csv = "date,supplier,amount\n2026-02-01,ACME,100\n2026-02-01,ACME,50\n2026-02-02,Beta,25";
    let out = run_import(&mut store, &request(csv)).expect("import should commit");
    assert_eq!(out.rows_count, 3);
    assert_eq!(out.total_cents, 17500);
    assert_eq!(out.daily_totals.len(), 2);
    assert_eq!(out.daily_totals[0].date, Date { year: 2026, month: 2, day: 1 });
    assert_eq!(out.daily_totals[0].total_cents, 15000);
    assert_eq!(out.daily_totals[1].date, Date { year: 2026, month: 2, day: 2 });
    assert_eq!(out.daily_totals[1].total_cents, 2500);
    assert_eq!(out.store_id, 7);
    assert_eq!(out.imported_by, b"alice".to_vec());
    // Exactly one import, three rows, two metrics, one report, two audit
    // entries; the snapshot repeats the response totals.
    assert_eq!(store.imports.len(), 1);
    assert_eq!(store.imports[0].raw_payload, csv.as_bytes().to_vec());
    assert_eq!(store.rows.len(), 3);
    assert_eq!(store.metrics.len(), 2);
    assert_eq!(store.reports.len(), 1);
    assert_eq!(store.reports[0].snapshot.total_cents, 17500);
    assert_eq!(store.reports[0].snapshot.daily_totals.len(), 2);
    assert_eq!(store.audit.len(), 2);
    // Two suppliers, and the duplicate name was absorbed.
    assert_eq!(store.suppliers.len(), 2);
    assert_eq!(store.suppliers[0].name, b"ACME".to_vec());
    assert_eq!(store.suppliers[1].name, b"Beta".to_vec());
    // The two same-date rows share one accumulator carrying their sum.
    let m: Vec<_> = store
        .metrics
        .iter()
        .filter(|m| m.date == Date { year: 2026, month: 2, day: 1 })
        .collect();
    assert_eq!(m.len(), 1);
    assert_eq!(m[0].total_cents, 15000);
    assert_eq!(m[0].source_import_id, out.import_id);
}

#[test]
fn wrong_column_count_fails_whole_import() {
    let mut store = Store::new();
    let csv = "date,supplier,amount\n2026-02-01,ACME,100\n2026-02-02,Beta";
    let err = run_import(&mut store, &request(csv)).expect_err("two columns must fail");
    assert_eq!(
        err,
        ImportError::ParseFailure { line: 3, kind: ParseErrorKind::WrongColumnCount }
    );
    // Nothing of any kind was persisted.
    assert_eq!(store.imports.len(), 0);
    assert_eq!(store.rows.len(), 0);
    assert_eq!(store.metrics.len(), 0);
    assert_eq!(store.reports.len(), 0);
    assert_eq!(store.audit.len(), 0);
    assert_eq!(store.suppliers.len(), 0);
    assert_eq!(store.next_id, 0);
}

#[test]
fn bad_date_and_bad_amount_name_their_line() {
    let bad_date = "date,supplier,amount\n2026-13-01,ACME,100";
    let err = normalize_csv(&bad_date.as_bytes().to_vec()).expect_err("month 13");
    assert_eq!(err, ImportError::ParseFailure { line: 2, kind: ParseErrorKind::BadDate });

    let bad_amount = "date,supplier,amount\n2026-02-01,ACME,100\n2026-02-02,Beta,1.234";
    let err = normalize_csv(&bad_amount.as_bytes().to_vec()).expect_err("three fraction digits");
    assert_eq!(err, ImportError::ParseFailure { line: 3, kind: ParseErrorKind::BadAmount });
}

#[test]
fn reimport_same_bytes_same_hash_fresh_id() {
    let mut store = Store::new();
    let csv = "date,supplier,amount\n2026-02-01,ACME,100";
    let first = run_import(&mut store, &request(csv)).expect("first import");
    let second = run_import(&mut store, &request(csv)).expect("second import");
    assert_eq!(first.file_sha256, second.file_sha256);
    assert_eq!(first.file_sha256.len(), 64);
    assert!(first.file_sha256.iter().all(|b| b.is_ascii_hexdigit()));
    assert_ne!(first.file_sha256, csv.as_bytes().to_vec());
    assert_ne!(first.import_id, second.import_id);
    assert_ne!(first.report_id, second.report_id);
    assert_eq!(store.imports.len(), 2);
    assert_eq!(store.imports[0].source_sha256, store.imports[1].source_sha256);
}

#[test]
fn concurrentlike_imports_share_one_supplier() {
    let mut store = Store::new();
    let a = "date,supplier,amount\n2026-03-01,ACME,10";
    let b = "date,supplier,amount\n2026-03-02,ACME,20";
    let out_a = run_import(&mut store, &request(a)).expect("first");
    let out_b = run_import(&mut store, &request(b)).expect("second");
    let acme: Vec<_> = store
        .suppliers
        .iter()
        .filter(|s| s.name == b"ACME".to_vec())
        .collect();
    assert_eq!(acme.len(), 1);
    let sid = acme[0].id;
    for rec in store.rows.iter() {
        assert_eq!(rec.supplier_id, sid);
    }
    assert_ne!(out_a.import_id, out_b.import_id);
}

#[test]
fn id_supply_exhaustion_is_a_persistence_failure() {
    let mut store = Store::new();
    store.next_id = u64::MAX - 3;
    let csv = "date,supplier,amount\n2026-02-01,ACME,100";
    let err = run_import(&mut store, &request(csv)).expect_err("no id headroom");
    assert_eq!(err, ImportError::PersistenceFailure);
    assert_eq!(store.next_id, u64::MAX - 3);
    assert_eq!(store.imports.len(), 0);
    assert_eq!(store.audit.len(), 0);
}

#[test]
fn header_only_import_commits_empty_report() {
    let mut store = Store::new();
    let out = run_import(&mut store, &request("date,supplier,amount")).expect("empty import");
    assert_eq!(out.rows_count, 0);
    assert_eq!(out.total_cents, 0);
    assert_eq!(out.daily_totals.len(), 0);
    assert_eq!(store.imports.len(), 1);
    assert_eq!(store.rows.len(), 0);
    assert_eq!(store.metrics.len(), 0);
    assert_eq!(store.reports.len(), 1);
    assert_eq!(store.reports[0].snapshot.total_cents, 0);
    assert_eq!(store.audit.len(), 2);
}

#[test]
fn empty_supplier_name_is_a_name_like_any_other() {
    let mut store = Store::new();
    let csv = "date,supplier,amount\n2026-02-01,,5\n2026-02-02,,5";
    let out = run_import(&mut store, &request(csv)).expect("empty names are absorbed");
    assert_eq!(out.rows_count, 2);
    assert_eq!(store.suppliers.len(), 1);
    assert_eq!(store.suppliers[0].name, Vec::<u8>::new());
    assert_eq!(store.rows[0].supplier_id, store.rows[1].supplier_id);
}

#[test]
fn audit_trail_records_both_actions() {
    let mut store = Store::new();
    let csv = "date,supplier,amount\n2026-02-01,ACME,100";
    let out = run_import(&mut store, &request(csv)).expect("import");
    assert_eq!(store.audit.len(), 2);
    assert_eq!(store.audit[0].action, AuditAction::ImportCreated);
    assert_eq!(store.audit[0].target_kind, TargetKind::Imports);
    assert_eq!(store.audit[0].target_id, out.import_id);
    assert_eq!(store.audit[0].actor, b"alice".to_vec());
    match &store.audit[0].metadata {
        AuditMetadata::ImportCreated { store_id, filename, sha256 } => {
            assert_eq!(*store_id, 7);
            assert_eq!(filename, &b"upload.csv".to_vec());
            assert_eq!(sha256, &out.file_sha256);
        },
        _ => panic!("wrong metadata on first audit entry"),
    }
    assert_eq!(store.audit[1].action, AuditAction::ReportGenerated);
    assert_eq!(store.audit[1].target_kind, TargetKind::Reports);
    assert_eq!(store.audit[1].target_id, out.report_id);
    match &store.audit[1].metadata {
        AuditMetadata::ReportGenerated { generated_from_import_id, total_cents } => {
            assert_eq!(*generated_from_import_id, out.import_id);
            assert_eq!(*total_cents, 10000);
        },
        _ => panic!("wrong metadata on second audit entry"),
    }
}
