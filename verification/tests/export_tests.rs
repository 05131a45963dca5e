use csvops::errors::OpError;
use csvops::export::export_begin;
use csvops::export::export_step;
use csvops::export::ExportAction;
use csvops::export::ExportPhase;
use csvops::export::PAGE_WINDOW;

fn contains(hay: &[u8], needle: &[u8]) -> bool {
    if needle.is_empty() {
        return true;
    }
    hay.windows(needle.len()).any(|w| w == needle)
}

fn one_row(cell: &[u8]) -> Vec<Vec<Vec<u8>>> {
    vec![vec![cell.to_vec()]]
}

#[test]
fn resolution_query_names_the_entity() {
    let (_, action) = export_begin(b"acme_ledger_main".to_vec(), PAGE_WINDOW);
    match action {
        ExportAction::Query { sql } => {
            assert_eq!(
                sql,
                b"SELECT schema_code FROM entity_registry WHERE entity_name = 'acme_ledger_main'"
                    .to_vec()
            );
        }
        ExportAction::Write { .. } => panic!("expected a query"),
    }
}

#[test]
fn resolution_without_rows_is_no_code_found() {
    let (phase, _) = export_begin(b"acme".to_vec(), PAGE_WINDOW);
    let empty: Vec<Vec<Vec<u8>>> = vec![];
    let err = export_step(phase, &empty).unwrap_err();
    assert_eq!(err, OpError::NoCodeFound);
}

#[test]
fn count_query_targets_the_resolved_schema() {
    let (phase, _) = export_begin(b"acme".to_vec(), PAGE_WINDOW);
    let (_, actions) = export_step(phase, &one_row(b"SCH9")).unwrap();
    assert_eq!(actions.len(), 1);
    match &actions[0] {
        ExportAction::Query { sql } => {
            assert_eq!(sql, &b"SELECT COUNT(*) FROM SCH9.journal_lines".to_vec());
        }
        ExportAction::Write { .. } => panic!("expected a query"),
    }
}

#[test]
fn zero_count_writes_one_header_only_shard() {
    let (phase, _) = export_begin(b"acme_ledger_main".to_vec(), PAGE_WINDOW);
    let (phase, _) = export_step(phase, &one_row(b"SCH1")).unwrap();
    let (phase, actions) = export_step(phase, &one_row(b"0")).unwrap();
    assert_eq!(actions.len(), 2);
    match &actions[0] {
        ExportAction::Write { name, data } => {
            assert_eq!(name, &b"main_GL.csv".to_vec());
            assert_eq!(data.iter().filter(|&&b| b == b'|').count(), 53);
            assert!(data.starts_with(b"company_code|fiscal_year|"));
            assert!(contains(data, b"|memo_30"));
            assert!(data.ends_with(b"\n"));
            assert!(!contains(data, b"CAST("));
        }
        ExportAction::Query { .. } => panic!("expected the header-only shard first"),
    }
    match &actions[1] {
        ExportAction::Query { sql } => {
            assert!(sql.starts_with(b"SELECT company_code, fiscal_year, period, account_code"));
            assert!(sql.ends_with(b" FROM SCH1.balances"));
            assert!(contains(sql, b"CAST(opening_balance AS CHAR)"));
        }
        ExportAction::Write { .. } => panic!("expected the balance query"),
    }
    // The balance rows become the single summary shard, and the export is done.
    let balance_rows = vec![vec![b"C1".to_vec(); 20]];
    let (phase, actions) = export_step(phase, &balance_rows).unwrap();
    assert_eq!(actions.len(), 1);
    match &actions[0] {
        ExportAction::Write { name, data } => {
            assert_eq!(name, &b"main_TB.csv".to_vec());
            assert!(data.starts_with(b"company_code|fiscal_year|"));
            assert!(contains(data, b"closing_balance"));
        }
        ExportAction::Query { .. } => panic!("expected the summary shard"),
    }
    let (_, actions) = export_step(phase, &one_row(b"ignored")).unwrap();
    assert!(actions.is_empty());
}

#[test]
fn small_tables_use_the_plain_shard_name() {
    let (phase, _) = export_begin(b"acme".to_vec(), PAGE_WINDOW);
    let (phase, _) = export_step(phase, &one_row(b"SCH1")).unwrap();
    let (phase, actions) = export_step(phase, &one_row(b"5")).unwrap();
    assert_eq!(actions.len(), 1);
    match &actions[0] {
        ExportAction::Query { sql } => {
            assert!(sql.starts_with(b"SELECT company_code, fiscal_year"));
            assert!(contains(sql, b"CAST(debit_amount AS CHAR)"));
            assert!(contains(sql, b"memo_1, memo_2,"));
            assert!(sql.ends_with(b" FROM SCH1.journal_lines LIMIT 0, 3000000"));
        }
        ExportAction::Write { .. } => panic!("expected the first page query"),
    }
    let page = vec![vec![b"v".to_vec(); 54]];
    let (_, actions) = export_step(phase, &page).unwrap();
    assert_eq!(actions.len(), 2);
    match &actions[0] {
        ExportAction::Write { name, data } => {
            assert_eq!(name, &b"acme_GL.csv".to_vec());
            assert!(data.starts_with(b"company_code|"));
            assert!(contains(data, b"v|v|v"));
        }
        ExportAction::Query { .. } => panic!("expected the shard"),
    }
}

#[test]
fn large_tables_page_with_numbered_shards() {
    // A window of 2 over 5 rows: three pages, then the balance table.
    let (phase, _) = export_begin(b"acme_gl_north".to_vec(), 2);
    let (phase, _) = export_step(phase, &one_row(b"SCH2")).unwrap();
    let (phase, actions) = export_step(phase, &one_row(b"5")).unwrap();
    assert_eq!(actions.len(), 1);
    match &actions[0] {
        ExportAction::Query { sql } => {
            assert!(sql.ends_with(b" FROM SCH2.journal_lines LIMIT 0, 2"));
        }
        ExportAction::Write { .. } => panic!("expected the first page query"),
    }
    let page = vec![vec![b"r".to_vec(); 54], vec![b"s".to_vec(); 54]];
    let (phase, actions) = export_step(phase, &page).unwrap();
    match (&actions[0], &actions[1]) {
        (ExportAction::Write { name, .. }, ExportAction::Query { sql }) => {
            assert_eq!(name, &b"north_GL_1.csv".to_vec());
            assert!(sql.ends_with(b" FROM SCH2.journal_lines LIMIT 2, 2"));
        }
        _ => panic!("expected a shard then the next page query"),
    }
    let (phase, actions) = export_step(phase, &page).unwrap();
    match (&actions[0], &actions[1]) {
        (ExportAction::Write { name, .. }, ExportAction::Query { sql }) => {
            assert_eq!(name, &b"north_GL_2.csv".to_vec());
            assert!(sql.ends_with(b" FROM SCH2.journal_lines LIMIT 4, 2"));
        }
        _ => panic!("expected a shard then the next page query"),
    }
    let last_page = vec![vec![b"t".to_vec(); 54]];
    let (phase, actions) = export_step(phase, &last_page).unwrap();
    match (&actions[0], &actions[1]) {
        (ExportAction::Write { name, .. }, ExportAction::Query { sql }) => {
            assert_eq!(name, &b"north_GL_3.csv".to_vec());
            assert!(sql.ends_with(b" FROM SCH2.balances"));
        }
        _ => panic!("expected the last shard then the balance query"),
    }
    match phase {
        ExportPhase::Balance { .. } => {}
        _ => panic!("expected the balance phase"),
    }
}

#[test]
fn short_entity_names_are_used_whole() {
    let (phase, _) = export_begin(b"acme_gl".to_vec(), PAGE_WINDOW);
    let (phase, _) = export_step(phase, &one_row(b"S")).unwrap();
    let (_, actions) = export_step(phase, &one_row(b"0")).unwrap();
    match &actions[0] {
        ExportAction::Write { name, .. } => {
            assert_eq!(name, &b"acme_gl_GL.csv".to_vec());
        }
        ExportAction::Query { .. } => panic!("expected the shard"),
    }
}

#[test]
fn malformed_count_is_a_format_error() {
    let (phase, _) = export_begin(b"acme".to_vec(), PAGE_WINDOW);
    let (phase, _) = export_step(phase, &one_row(b"SCH1")).unwrap();
    let err = export_step(phase, &one_row(b"not-a-number")).unwrap_err();
    assert_eq!(err, OpError::Format);
}
