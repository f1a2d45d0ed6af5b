use memory_viewer::scan::{
    failure_message, find_hits, is_region_readable, region_in_address_space, is_scannable_region, next_query_address,
    MemoryRegion, RegionScan, ResultRow, ScanFailure, ScanMessage, ScanWorker, CHUNK_SIZE,
};
use memory_viewer::types::EValueType;

fn region(base: usize, size: usize, state: u32, protect: u32, region_type: u32) -> MemoryRegion {
    MemoryRegion { base_address: base, allocation_base: base, region_size: size, state, protect, region_type }
}

#[test]
fn readable_regions() {
    assert!(is_region_readable(&region(0x1000, 0x1000, 0x1000, 0x04, 0x20000)));
    assert!(!is_region_readable(&region(0x1000, 0x1000, 0x2000, 0x04, 0x20000)));
    assert!(!is_region_readable(&region(0x1000, 0x1000, 0x1000, 0x104, 0x20000)));
    assert!(!is_region_readable(&region(0x1000, 0x1000, 0x1000, 0x01, 0x20000)));
}

#[test]
fn scannable_regions_are_private() {
    assert!(is_scannable_region(&region(0, 16, 0x1000, 0x04, 0x20000)));
    assert!(!is_scannable_region(&region(0, 16, 0x1000, 0x04, 0x1000000)));
    assert!(!is_scannable_region(&region(0, 16, 0x10000, 0x04, 0x20000)));
}

#[test]
fn regions_within_the_address_space() {
    assert!(region_in_address_space(&region(usize::MAX, 1, 0, 0, 0)));
    assert!(!region_in_address_space(&region(usize::MAX, 2, 0, 0, 0)));
    assert!(region_in_address_space(&region(usize::MAX, 0, 0, 0, 0)));
    assert!(region_in_address_space(&region(0, usize::MAX, 0, 0, 0)));
}

#[test]
fn query_walk_stops_when_not_advancing() {
    assert_eq!(next_query_address(0, 0, 0x1000), Some(0x1000));
    assert_eq!(next_query_address(0x1000, 0x1000, 0), None);
    assert_eq!(next_query_address(usize::MAX - 1, usize::MAX - 1, 10), Some(usize::MAX));
    assert_eq!(next_query_address(usize::MAX, usize::MAX, 10), None);
}

#[test]
fn hits_at_aligned_offsets_only() {
    let scan = vec![1, 0, 0, 0, 0, 1, 0, 0, 0, 1, 0, 0, 0];
    let wanted = [1u8, 0, 0, 0];
    assert_eq!(find_hits(&scan, &wanted, 4, 100), vec![100]);
    assert_eq!(find_hits(&scan, &wanted, 1, 100), vec![100, 105, 109]);
}

#[test]
fn overlapping_text_hits() {
    let scan = b"aaaa".to_vec();
    assert_eq!(find_hits(&scan, b"aa", 1, 0), vec![0, 1, 2]);
    assert_eq!(find_hits(&scan, b"aaaaa", 1, 0), Vec::<usize>::new());
}

#[test]
fn region_is_read_in_chunks() {
    let r = region(0x10000, CHUNK_SIZE + 10, 0x1000, 0x04, 0x20000);
    let mut scan = RegionScan::new(&r, EValueType::I32);
    assert_eq!(scan.next_chunk(), Some((0x10000, CHUNK_SIZE)));
    let hits = scan.feed(&[7, 0, 0, 0], None);
    assert!(hits.is_empty());
    assert_eq!(scan.next_chunk(), Some((0x10000 + CHUNK_SIZE, 10)));
    let mut bytes = vec![0u8; 10];
    bytes[4] = 7;
    let hits = scan.feed(&[7, 0, 0, 0], Some(bytes));
    assert_eq!(hits, vec![0x10000 + CHUNK_SIZE + 4]);
    assert_eq!(scan.next_chunk(), None);
}

#[test]
fn text_straddling_two_chunks_is_found() {
    let size = CHUNK_SIZE + 4;
    let r = region(0x20000, size, 0x1000, 0x04, 0x20000);
    let mut memory = vec![b'.'; size];
    memory[CHUNK_SIZE - 2] = b'a';
    memory[CHUNK_SIZE - 1] = b'b';
    memory[CHUNK_SIZE] = b'c';
    let mut scan = RegionScan::new(&r, EValueType::Utf8String);
    let mut found = Vec::new();
    while let Some((address, len)) = scan.next_chunk() {
        let start = address - 0x20000;
        found.extend(scan.feed(b"abc", Some(memory[start..start + len].to_vec())));
    }
    assert_eq!(found, vec![0x20000 + CHUNK_SIZE - 2]);
}

#[test]
fn failed_read_drops_the_carried_bytes() {
    let size = CHUNK_SIZE * 2 + 4;
    let r = region(0, size, 0x1000, 0x04, 0x20000);
    let mut scan = RegionScan::new(&r, EValueType::Utf8String);
    let (_, len) = scan.next_chunk().unwrap();
    let mut first = vec![b'.'; len];
    first[len - 1] = b'a';
    assert!(scan.feed(b"ab", Some(first)).is_empty());
    assert!(scan.feed(b"ab", None).is_empty());
    let (address, len) = scan.next_chunk().unwrap();
    assert_eq!(address, CHUNK_SIZE * 2);
    let mut third = vec![b'.'; len];
    third[0] = b'b';
    assert!(scan.feed(b"ab", Some(third)).is_empty());
}

#[test]
fn empty_input_is_refused() {
    match ScanWorker::new(EValueType::Utf8String, Vec::new()) {
        Err(ScanMessage::Error(s)) => assert_eq!(s, "Input value cannot be empty"),
        _ => panic!("expected an error"),
    }
}

#[test]
fn worker_reports_rows_and_counts() {
    let mut w = ScanWorker::new(EValueType::I32, vec![5, 0, 0, 0]).ok().unwrap();
    assert_eq!(w.wanted(), &vec![5, 0, 0, 0]);
    w.set_display("5".to_string());
    match w.started(3) {
        ScanMessage::Started { total_regions } => assert_eq!(total_regions, 3),
        _ => panic!(),
    }
    assert!(!w.enter_region(&region(0, 16, 0x1000, 0x104, 0x20000)));
    assert!(w.enter_region(&region(0x4000, 16, 0x1000, 0x04, 0x20000)));
    let (address, len) = w.next_read().unwrap();
    assert_eq!((address, len), (0x4000, 16));
    assert!(w.next_feed_fits());
    assert_eq!(w.scanned_regions(), 1);
    let msgs = w.feed(Some(vec![5, 0, 0, 0, 1, 1, 1, 1, 5, 0, 0, 0, 0, 0, 0, 0]));
    let rows: Vec<(usize, String)> = msgs
        .into_iter()
        .map(|m| match m {
            ScanMessage::Found(row) => (row.address, row.cached_value),
            _ => panic!(),
        })
        .collect();
    assert_eq!(rows, vec![(0x4000, "5".to_string()), (0x4008, "5".to_string())]);
    assert!(w.next_read().is_none());
    match w.region_done() {
        ScanMessage::Progress { scanned_regions, found } => assert_eq!((scanned_regions, found), (1, 2)),
        _ => panic!(),
    }
    match w.done() {
        ScanMessage::Done { found } => assert_eq!(found, 2),
        _ => panic!(),
    }
}

#[test]
fn failure_messages() {
    let cases = [
        (ScanFailure::ParseInput, "Failed to parse input value: x"),
        (ScanFailure::PrepareValue, "Failed to prepare scan value: x"),
        (ScanFailure::OpenProcess, "OpenProcess failed: x"),
        (ScanFailure::EnumerateRegions, "enumerate_regions failed: x"),
    ];
    for (stage, text) in cases {
        match failure_message(stage, "x") {
            ScanMessage::Error(s) => assert_eq!(s, text),
            _ => panic!(),
        }
    }
}

#[test]
fn found_row_defaults() {
    let row = ResultRow::found(16, EValueType::I64, "9".to_string());
    assert_eq!(row.address, 16);
    assert_eq!(row.value_type, EValueType::I64);
    assert_eq!(row.cached_value, "9");
    assert!(row.description.is_none() && !row.is_frozen && row.write_ok.is_none());
    assert!(row.value_after_write.is_none() && row.value_after_100ms.is_none() && row.verify_after_at.is_none());
}

#[test]
fn number_scan_across_chunks_finds_aligned_values_once() {
    let size = CHUNK_SIZE * 2;
    let r = region(0x30000, size, 0x1000, 0x04, 0x20000);
    let mut memory = vec![0u8; size];
    memory[CHUNK_SIZE - 4] = 9;
    memory[CHUNK_SIZE] = 9;
    memory[CHUNK_SIZE + 6] = 9;
    let mut scan = RegionScan::new(&r, EValueType::I32);
    let mut found = Vec::new();
    while let Some((address, len)) = scan.next_chunk() {
        let start = address - 0x30000;
        found.extend(scan.feed(&[9, 0, 0, 0], Some(memory[start..start + len].to_vec())));
    }
    assert_eq!(found, vec![0x30000 + CHUNK_SIZE - 4, 0x30000 + CHUNK_SIZE]);
}

#[test]
fn worker_messages_come_in_order_with_counts() {
    let mut w = ScanWorker::new(EValueType::I32, vec![1, 0, 0, 0]).ok().unwrap();
    let mut msgs = vec![w.started(2)];
    for base in [0x1000usize, 0x2000] {
        assert!(w.enter_region(&region(base, 8, 0x1000, 0x04, 0x20000)));
        while let Some(_) = w.next_read() {
            msgs.extend(w.feed(Some(vec![1, 0, 0, 0, 2, 0, 0, 0])));
        }
        msgs.push(w.region_done());
    }
    msgs.push(w.done());
    let kinds: Vec<String> = msgs
        .iter()
        .map(|m| match m {
            ScanMessage::Started { total_regions } => format!("S{}", total_regions),
            ScanMessage::Found(row) => format!("F{:x}", row.address),
            ScanMessage::Progress { scanned_regions, found } => format!("P{}/{}", scanned_regions, found),
            ScanMessage::Done { found } => format!("D{}", found),
            ScanMessage::Error(e) => e.clone(),
        })
        .collect();
    assert_eq!(kinds, vec!["S2", "F1000", "P1/1", "F2000", "P2/2", "D2"]);
}
