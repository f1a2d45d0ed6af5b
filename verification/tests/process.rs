use memory_viewer::console::Console;
use memory_viewer::process::{bytes_equal, OpenedProcess, WatchError, WatchedRefresh};
use memory_viewer::scan::{ResultRow, ScanMessage};
use memory_viewer::types::EValueType;

fn opened() -> OpenedProcess {
    OpenedProcess::new(1234, 99).unwrap()
}

fn watched(address: usize, value: &str) -> ResultRow {
    ResultRow::found(address, EValueType::I32, value.to_string())
}

#[test]
fn null_handle_is_not_opened() {
    assert!(OpenedProcess::new(5, 0).is_none());
    let p = opened();
    assert_eq!(p.pid, 1234);
    assert_eq!(p.handle(), 99);
    assert_eq!(p.scan.scan_results_count, 10_000);
    assert_eq!(p.scan.scan_results_count_input, "10000");
    assert_eq!(p.scan.selected_value_type, EValueType::I32);
    assert!(!p.async_scan_state().is_running);
}

#[test]
fn full_scan_starts_once() {
    let mut p = opened();
    let mut console = Console::default();
    p.scan.input_value = "  17 ".to_string();
    p.scan.results.push(watched(1, "1"));
    let req = p.full_scan(&mut console).unwrap();
    assert_eq!((req.pid, req.input.as_str(), req.value_type), (1234, "17", EValueType::I32));
    assert!(p.scan.results.is_empty());
    assert!(p.async_scan_state().is_running);
    assert_eq!(console.get_messages().len(), 1);
    assert!(console.get_messages()[0].get_message().ends_with("]: Full scan started"));
    assert!(p.full_scan(&mut console).is_none());
    assert_eq!(console.get_messages().len(), 1);
}

#[test]
fn scan_messages_update_state() {
    let mut p = opened();
    let mut console = Console::default();
    p.full_scan(&mut console);
    p.apply_scan_message(ScanMessage::Started { total_regions: 9 }, &mut console);
    assert_eq!(p.async_scan_state().total_regions, 9);
    p.apply_scan_message(ScanMessage::Found(watched(0x10, "3")), &mut console);
    p.apply_scan_message(ScanMessage::Progress { scanned_regions: 2, found: 1 }, &mut console);
    assert_eq!(p.async_scan_state().scanned_regions, 2);
    assert_eq!(p.async_scan_state().total_found, 1);
    assert!(!p.scan.has_scan_session);
    p.apply_scan_message(ScanMessage::Done { found: 1 }, &mut console);
    assert!(!p.async_scan_state().is_running);
    assert!(p.scan.has_scan_session);
    assert_eq!(p.scan.results.len(), 1);
    assert!(console.get_messages().last().unwrap().get_message().ends_with("]: Scan finished. Found 1 matches"));
    p.full_scan(&mut console);
    p.apply_scan_message(ScanMessage::Error("boom".to_string()), &mut console);
    assert!(!p.async_scan_state().is_running);
    assert!(console.get_messages().last().unwrap().get_message().ends_with("]: boom"));
}

#[test]
fn next_scan_keeps_matching_rows() {
    let mut p = opened();
    assert!(p.next_scan_request().is_none());
    p.scan.has_scan_session = true;
    p.scan.input_value = " 5 ".to_string();
    p.scan.results = vec![watched(0, "5"), watched(4, "5"), watched(8, "5")];
    let (t, input) = p.next_scan_request().unwrap();
    assert_eq!((t, input.as_str()), (EValueType::I32, "5"));
    let reads = vec![Some(vec![5, 0, 0, 0]), Some(vec![6, 0, 0, 0]), None];
    let texts = vec![Some("5".to_string()), Some("6".to_string()), None];
    p.next_scan(&[5, 0, 0, 0], &reads, &texts);
    assert_eq!(p.scan.results.len(), 1);
    assert_eq!(p.scan.results[0].address, 0);
}

#[test]
fn next_scan_without_session_changes_nothing() {
    let mut p = opened();
    p.scan.results = vec![watched(0, "5")];
    p.next_scan(&[1, 0, 0, 0], &vec![None], &vec![None]);
    assert_eq!(p.scan.results.len(), 1);
}

#[test]
fn reset_scan_clears() {
    let mut p = opened();
    p.scan.input_value = "x".to_string();
    p.scan.results = vec![watched(0, "5")];
    p.scan.has_scan_session = true;
    p.reset_scan();
    assert!(p.scan.input_value.is_empty() && p.scan.results.is_empty() && !p.scan.has_scan_session);
}

#[test]
fn refresh_skips_frozen_rows() {
    let mut p = opened();
    let mut frozen = watched(4, "1");
    frozen.is_frozen = true;
    p.watched_rows = vec![watched(0, "1"), frozen, watched(8, "1")];
    p.refresh_watched(&vec![Some("2".to_string()), Some("3".to_string()), None]);
    let values: Vec<&str> = p.watched_rows.iter().map(|r| r.cached_value.as_str()).collect();
    assert_eq!(values, vec!["2", "1", "1"]);
    assert!(p.needs_repaint());
}

#[test]
fn write_verification_cycle() {
    let mut p = opened();
    p.watched_rows = vec![watched(0, "1"), watched(4, "2")];
    assert!(!p.needs_repaint());
    assert_eq!(p.watched_update_request(5).err(), Some(WatchError::InvalidIndex));
    let (address, t, v) = p.watched_update_request(1).ok().unwrap();
    assert_eq!((address, t, v.as_str()), (4, EValueType::I32, "2"));
    assert_eq!(p.record_watched_update(1, &[2, 0, 0, 0], &[2, 0, 0, 0], "2".to_string(), 1000), Ok(()));
    let row = &p.watched_rows[1];
    assert_eq!(row.write_ok, Some(true));
    assert_eq!(row.verify_after_at, Some(1100));
    assert_eq!(row.value_after_write.as_deref(), Some("2"));
    assert!(p.needs_repaint());
    assert!(p.due_verifications(1099).is_empty());
    assert_eq!(p.due_verifications(1100), vec![1]);
    p.record_verification(1, Err("denied".to_string()));
    assert_eq!(p.watched_rows[1].value_after_100ms.as_deref(), Some("ERR: denied"));
    assert!(p.watched_rows[1].verify_after_at.is_none());
    assert_eq!(p.record_watched_update(0, &[9, 0, 0, 0], &[7, 0, 0, 0], "7".to_string(), 0), Err(WatchError::VerificationFailed));
    assert_eq!(p.watched_rows[0].cached_value, "7");
    p.record_verification(0, Ok("8".to_string()));
    assert_eq!(p.watched_rows[0].value_after_100ms.as_deref(), Some("8"));
    assert_eq!(WatchError::InvalidIndex.message(), "Invalid watched row index");
    assert_eq!(WatchError::VerificationFailed.message(), "Write verification failed: value changed immediately");
}

#[test]
fn byte_comparison() {
    assert!(bytes_equal(&[1, 2], &[1, 2]));
    assert!(!bytes_equal(&[1, 2], &[1, 3]));
    assert!(!bytes_equal(&[1], &[1, 2]));
}

#[test]
fn refresh_plan_rewrites_frozen_rows() {
    let mut p = opened();
    let mut frozen = watched(4, "12");
    frozen.is_frozen = true;
    p.watched_rows = vec![watched(0, "1"), frozen];
    let plan = p.refresh_plan();
    assert_eq!(plan.len(), 2);
    match &plan[0] {
        WatchedRefresh::Read { address, value_type } => assert_eq!((*address, *value_type), (0, EValueType::I32)),
        _ => panic!("expected a read"),
    }
    match &plan[1] {
        WatchedRefresh::Rewrite { address, value_type, value } => {
            assert_eq!((*address, *value_type, value.as_str()), (4, EValueType::I32, "12"))
        }
        _ => panic!("expected a rewrite"),
    }
}
