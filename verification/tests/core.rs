use token_sweep::batch::{build_batches, unit_operations, BatchUnit, LedgerOp};
use token_sweep::controller::Session;
use token_sweep::directory::Directory;
use token_sweep::errors::SweepError;
use token_sweep::pipeline::{Pipeline, UnitOutcome};
use token_sweep::record::AccountRecord;
use token_sweep::text::{contains_ci_exec, lower_vec, parse_u64};
use token_sweep::BATCH_SIZE;

fn record(addr: &str, mint: &str, balance: u64, selected: bool) -> AccountRecord {
    AccountRecord {
        address: addr.as_bytes().to_vec(),
        address_raw: vec![*addr.as_bytes().last().unwrap(); 32],
        mint: mint.as_bytes().to_vec(),
        mint_raw: vec![*mint.as_bytes().last().unwrap(); 32],
        raw_balance: balance,
        display_balance: b"0.0".to_vec(),
        selected,
    }
}

fn directory(records: Vec<AccountRecord>) -> Directory {
    Directory { records }
}

#[test]
fn parse_u64_plain_values() {
    assert_eq!(parse_u64(&b"123".to_vec()), Some(123));
    assert_eq!(parse_u64(&b"0".to_vec()), Some(0));
    assert_eq!(parse_u64(&b"007".to_vec()), Some(7));
    assert_eq!(parse_u64(&b"+7".to_vec()), Some(7));
}

#[test]
fn parse_u64_rejects_bad_text() {
    assert_eq!(parse_u64(&b"".to_vec()), None);
    assert_eq!(parse_u64(&b"+".to_vec()), None);
    assert_eq!(parse_u64(&b"12a".to_vec()), None);
    assert_eq!(parse_u64(&b"-3".to_vec()), None);
    assert_eq!(parse_u64(&b"1 2".to_vec()), None);
}

#[test]
fn parse_u64_at_the_largest_size() {
    assert_eq!(parse_u64(&b"18446744073709551615".to_vec()), Some(u64::MAX));
    assert_eq!(parse_u64(&b"18446744073709551616".to_vec()), None);
    assert_eq!(parse_u64(&b"99999999999999999999999".to_vec()), None);
}

#[test]
fn lowercase_folds_ascii_only() {
    assert_eq!(lower_vec(&b"AbZ09_".to_vec()), b"abz09_".to_vec());
}

#[test]
fn contains_is_case_insensitive() {
    assert!(contains_ci_exec(&b"AbCdEf".to_vec(), &b"cDe".to_vec()));
    assert!(!contains_ci_exec(&b"abc".to_vec(), &b"zz".to_vec()));
    assert!(contains_ci_exec(&b"anything".to_vec(), &b"".to_vec()));
    assert!(!contains_ci_exec(&b"".to_vec(), &b"a".to_vec()));
}

#[test]
fn toggle_flips_by_address_and_ignores_absent() {
    let mut dir = directory(vec![
        record("addr1", "mintA", 5, false),
        record("addr2", "mintB", 6, false),
    ]);
    assert!(dir.toggle(&b"addr2".to_vec()));
    assert!(!dir.records[0].selected);
    assert!(dir.records[1].selected);
    assert!(!dir.toggle(&b"addr2".to_vec()));
    assert!(!dir.records[1].selected);
    assert!(!dir.toggle(&b"missing".to_vec()));
    assert!(!dir.records[0].selected);
    assert!(!dir.records[1].selected);
}

#[test]
fn set_all_and_snapshot_keep_order() {
    let mut dir = directory(vec![
        record("a1", "m1", 1, false),
        record("a2", "m2", 2, false),
        record("a3", "m3", 3, false),
    ]);
    dir.set_all(true);
    let snap = dir.selected_records();
    assert_eq!(snap.len(), 3);
    assert_eq!(snap[0].address, b"a1".to_vec());
    assert_eq!(snap[1].address, b"a2".to_vec());
    assert_eq!(snap[2].address, b"a3".to_vec());
    dir.set_all(false);
    assert_eq!(dir.selected_records().len(), 0);
}

#[test]
fn filter_lists_matching_records_in_order() {
    let dir = directory(vec![
        record("a1", "USDCoin", 1, false),
        record("a2", "other", 2, false),
        record("a3", "usdc2", 3, false),
    ]);
    let mut session = Session::new(dir);
    session.apply_predicate(b"USDC".to_vec());
    assert_eq!(session.view.indices, vec![0usize, 2usize]);
    assert_eq!(session.view.cursor, Some(0));
}

#[test]
fn empty_predicate_lists_the_full_directory() {
    let dir = directory(vec![
        record("a1", "m1", 1, false),
        record("a2", "m2", 2, false),
    ]);
    let mut session = Session::new(dir);
    assert_eq!(session.view.indices, vec![0usize, 1usize]);
    session.apply_predicate(b"m2".to_vec());
    assert_eq!(session.view.indices, vec![1usize]);
    session.clear_predicate();
    assert_eq!(session.view.indices, vec![0usize, 1usize]);
    assert_eq!(session.view.cursor, Some(0));
}

#[test]
fn refilter_is_idempotent() {
    let dir = directory(vec![
        record("a1", "alpha", 1, false),
        record("a2", "beta", 2, false),
        record("a3", "alphabet", 3, false),
    ]);
    let mut session = Session::new(dir);
    session.apply_predicate(b"alpha".to_vec());
    let once_indices = session.view.indices.clone();
    let once_cursor = session.view.cursor;
    session.apply_predicate(b"alpha".to_vec());
    assert_eq!(session.view.indices, once_indices);
    assert_eq!(session.view.cursor, once_cursor);
}

#[test]
fn cursor_wraps_both_ways() {
    let dir = directory(vec![
        record("a1", "m", 1, false),
        record("a2", "m", 2, false),
        record("a3", "m", 3, false),
    ]);
    let mut session = Session::new(dir);
    assert_eq!(session.current(), Some(0));
    session.cursor_next();
    session.cursor_next();
    assert_eq!(session.current(), Some(2));
    session.cursor_next();
    assert_eq!(session.current(), Some(0));
    session.cursor_prev();
    assert_eq!(session.current(), Some(2));
    session.cursor_prev();
    assert_eq!(session.current(), Some(1));
}

#[test]
fn cursor_is_a_no_op_on_an_empty_view() {
    let dir = directory(vec![record("a1", "m", 1, false)]);
    let mut session = Session::new(dir);
    session.apply_predicate(b"nothing-matches".to_vec());
    assert_eq!(session.current(), None);
    session.cursor_next();
    assert_eq!(session.current(), None);
    session.cursor_prev();
    assert_eq!(session.current(), None);
}

#[test]
fn toggle_current_syncs_view_and_directory() {
    let dir = directory(vec![
        record("a1", "usdc", 1, false),
        record("a2", "other", 2, false),
        record("a3", "usdc", 3, false),
    ]);
    let mut session = Session::new(dir);
    session.apply_predicate(b"usdc".to_vec());
    session.cursor_next();
    session.toggle_current();
    // Cursor row 1 of the view is directory record 2.
    assert!(!session.directory.records[0].selected);
    assert!(!session.directory.records[1].selected);
    assert!(session.directory.records[2].selected);
    // The flag the view shows equals the directory's flag for that address.
    for &i in session.view.indices.iter() {
        assert_eq!(
            session.directory.records[i].selected,
            session
                .directory
                .records
                .iter()
                .find(|r| r.address == session.directory.records[i].address)
                .unwrap()
                .selected
        );
    }
}

#[test]
fn select_all_and_clear_all_cover_every_record() {
    let dir = directory(vec![
        record("a1", "m1", 1, false),
        record("a2", "m2", 2, true),
    ]);
    let mut session = Session::new(dir);
    session.select_all();
    assert!(session.directory.records.iter().all(|r| r.selected));
    session.clear_all();
    assert!(session.directory.records.iter().all(|r| !r.selected));
}

#[test]
fn batches_partition_thirteen_records_into_twelve_and_one() {
    let selected: Vec<AccountRecord> = (0..13)
        .map(|i| record(&format!("addr{i}"), "mint", i as u64, true))
        .collect();
    let units = build_batches(selected).unwrap();
    assert_eq!(units.len(), 2);
    assert_eq!(units[0].records.len(), 12);
    assert_eq!(units[1].records.len(), 1);
    // Concatenation preserves the input order.
    let mut all: Vec<Vec<u8>> = Vec::new();
    for u in units.iter() {
        for r in u.records.iter() {
            all.push(r.address.clone());
        }
    }
    let expect: Vec<Vec<u8>> = (0..13).map(|i| format!("addr{i}").into_bytes()).collect();
    assert_eq!(all, expect);
}

#[test]
fn batches_of_exact_multiples_have_no_short_unit() {
    let selected: Vec<AccountRecord> = (0..BATCH_SIZE * 2)
        .map(|i| record(&format!("r{i}"), "mint", 1, true))
        .collect();
    let units = build_batches(selected).unwrap();
    assert_eq!(units.len(), 2);
    assert!(units.iter().all(|u| u.records.len() == BATCH_SIZE));
}

#[test]
fn empty_selection_is_rejected() {
    assert_eq!(
        build_batches(Vec::new()).unwrap_err(),
        SweepError::EmptySelection
    );
    let dir = directory(vec![record("a1", "m1", 1, false)]);
    let session = Session::new(dir);
    let r = session.request_processing();
    assert_eq!(r.unwrap_err(), SweepError::EmptySelection);
}

#[test]
fn burn_precedes_close_for_every_record() {
    let unit = BatchUnit {
        records: vec![record("a1", "m1", 10, true), record("a2", "m2", 20, true)],
    };
    let authority = vec![7u8; 32];
    let ops = unit_operations(&unit, &authority);
    assert_eq!(ops.len(), 4);
    match (&ops[0], &ops[1], &ops[2], &ops[3]) {
        (
            LedgerOp::Burn { account: b0, amount: a0, .. },
            LedgerOp::Close { account: c0, destination: d0, .. },
            LedgerOp::Burn { account: b1, amount: a1, .. },
            LedgerOp::Close { account: c1, .. },
        ) => {
            assert_eq!(b0, c0);
            assert_eq!(*a0, 10);
            assert_eq!(b1, c1);
            assert_eq!(*a1, 20);
            assert_eq!(d0, &authority);
            assert_ne!(b0, b1);
        }
        _ => panic!("operations out of order"),
    }
}

#[test]
fn pipeline_attempts_every_unit_and_tags_results_in_order() {
    let dir = directory(
        (0..13)
            .map(|i| record(&format!("addr{i}"), "mint", i as u64, true))
            .collect(),
    );
    let session = Session::new(dir);
    let mut pipeline = session.request_processing().unwrap();
    assert_eq!(pipeline.units.len(), 2);
    assert_eq!(pipeline.units[0].records.len(), 12);
    assert_eq!(pipeline.units[1].records.len(), 1);

    // Unit 0 fails; with the continue-on-failure policy unit 1 is still
    // attempted, and its result does not depend on unit 0's outcome.
    assert_eq!(pipeline.next_index(), Some(0));
    pipeline.record_outcome(UnitOutcome::Failed { cause: b"timeout".to_vec() });
    assert_eq!(pipeline.next_index(), Some(1));
    assert!(!pipeline.done());
    pipeline.record_outcome(UnitOutcome::Confirmed { signature: b"sig".to_vec() });
    assert!(pipeline.done());
    assert_eq!(pipeline.next_index(), None);

    assert_eq!(pipeline.results.len(), 2);
    assert_eq!(pipeline.results[0].unit_index, 0);
    assert!(matches!(pipeline.results[0].outcome, UnitOutcome::Failed { .. }));
    assert_eq!(pipeline.results[1].unit_index, 1);
    assert!(matches!(pipeline.results[1].outcome, UnitOutcome::Confirmed { .. }));

    // A second run whose first unit succeeds records the same result for
    // unit 1.
    let mut other = Pipeline::start(vec![
        BatchUnit { records: vec![record("x", "m", 1, true)] },
        BatchUnit { records: vec![record("y", "m", 1, true)] },
    ]);
    other.record_outcome(UnitOutcome::Confirmed { signature: b"ok".to_vec() });
    other.record_outcome(UnitOutcome::Confirmed { signature: b"sig".to_vec() });
    match (&pipeline.results[1].outcome, &other.results[1].outcome) {
        (
            UnitOutcome::Confirmed { signature: s1 },
            UnitOutcome::Confirmed { signature: s2 },
        ) => assert_eq!(s1, s2),
        _ => panic!("outcomes differ"),
    }
}

#[test]
fn failed_results_surface_a_submission_error() {
    let mut pipeline = Pipeline::start(vec![
        BatchUnit { records: vec![record("x", "m", 1, true)] },
        BatchUnit { records: vec![record("y", "m", 1, true)] },
    ]);
    pipeline.record_outcome(UnitOutcome::Confirmed { signature: b"sig".to_vec() });
    pipeline.record_outcome(UnitOutcome::Failed { cause: b"node down".to_vec() });
    assert_eq!(pipeline.results[0].to_error(), None);
    assert_eq!(
        pipeline.results[1].to_error(),
        Some(SweepError::Submission { unit_index: 1, cause: b"node down".to_vec() })
    );
}
