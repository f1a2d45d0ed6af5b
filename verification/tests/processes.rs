use memory_viewer::processes::{sort_by_name, ProcessRow, Processes};
use memory_viewer::selector::{format_address, parse_display_count, process_label};

fn row(pid: u32, name: &str, exe: &str, parent: Option<u32>) -> ProcessRow {
    ProcessRow { pid, name: name.to_string(), exe: exe.to_string(), parent_pid: parent }
}

#[test]
fn sort_is_stable_by_name() {
    let rows = vec![
        row(3, "b", "", None),
        row(1, "a", "", None),
        row(4, "b", "", None),
        row(2, "a", "", None),
        row(5, "\u{e9}", "", None),
        row(6, "Z", "", None),
    ];
    let sorted = sort_by_name(rows);
    let pids: Vec<u32> = sorted.iter().map(|r| r.pid).collect();
    assert_eq!(pids, vec![6, 1, 2, 3, 4, 5]);
}

#[test]
fn sort_matches_std_stable_sort() {
    let names = ["svchost", "a", "svchost", "Explorer", "explorer", "", "svc", "a"];
    let rows: Vec<ProcessRow> = names.iter().enumerate().map(|(i, n)| row(i as u32, n, "", None)).collect();
    let mut expected = rows.clone();
    expected.sort_by(|a, b| a.name.cmp(&b.name));
    let ours = sort_by_name(rows);
    let a: Vec<u32> = ours.iter().map(|r| r.pid).collect();
    let b: Vec<u32> = expected.iter().map(|r| r.pid).collect();
    assert_eq!(a, b);
}

#[test]
fn refresh_timing() {
    let mut p = Processes::default();
    assert!(p.should_refresh(0));
    p.refresh_processes(vec![row(1, "x", "", None)]);
    p.get_processes(10);
    assert!(!p.should_refresh(12));
    assert!(p.should_refresh(13));
    assert_eq!(p.get_processes(13).len(), 1);
    assert_eq!(p.last_update_time, 13);
}

#[test]
fn parent_must_be_listed() {
    let mut p = Processes::default();
    p.refresh_processes(vec![row(1, "init", "", None), row(2, "child", "", Some(1)), row(3, "orphan", "", Some(99))]);
    assert!(p.is_process_has_parent(Some(2)));
    assert!(!p.is_process_has_parent(Some(3)));
    assert!(!p.is_process_has_parent(Some(1)));
    assert!(!p.is_process_has_parent(Some(42)));
    assert!(!p.is_process_has_parent(None));
}

#[test]
fn first_row_of_a_pid_decides() {
    let mut p = Processes::default();
    p.refresh_processes(vec![row(7, "a", "", None), row(7, "b", "", Some(8)), row(8, "c", "", None)]);
    assert!(!p.is_process_has_parent(Some(7)));
}

#[test]
fn search_groups_by_name() {
    let mut p = Processes::default();
    p.refresh_processes(vec![
        row(10, "svchost.exe", "C:\\Windows\\svchost.exe", Some(1)),
        row(11, "svchost.exe", "C:\\Windows\\svchost.exe", Some(10)),
        row(12, "Notepad.exe", "C:\\Windows\\notepad.exe", None),
        row(123, "other", "", None),
    ]);
    let groups = p.search_groups();
    let names: Vec<&str> = groups.iter().map(|g| g.name.as_str()).collect();
    assert_eq!(names, vec!["Notepad.exe", "other", "svchost.exe"]);
    assert_eq!(groups[2].members.iter().map(|r| r.pid).collect::<Vec<_>>(), vec![10, 11]);
    assert!(groups[2].is_root(&groups[2].members[0]));
    assert!(!groups[2].is_root(&groups[2].members[1]));

    p.search = "  NOTEPAD ".to_string();
    let groups = p.search_groups();
    assert_eq!(groups.len(), 1);
    assert_eq!(groups[0].name, "Notepad.exe");

    p.search = "WINDOWS".to_string();
    assert_eq!(p.search_groups().len(), 2);

    p.search = "23".to_string();
    let groups = p.search_groups();
    assert_eq!(groups.len(), 1);
    assert_eq!(groups[0].members[0].pid, 123);

    p.search = "nothing".to_string();
    assert!(p.search_groups().is_empty());
}

#[test]
fn labels_and_addresses() {
    assert_eq!(process_label(42, "app.exe", false), "[42] app.exe");
    assert_eq!(process_label(7, "x", true), "[7] x  \u{1F511}");
    assert_eq!(format_address(0), "0x0");
    assert_eq!(format_address(0x7ffe_1234_abcd), "0x7FFE1234ABCD");
    assert_eq!(format_address(usize::MAX), format!("0x{:X}", usize::MAX));
}

#[test]
fn display_count_input() {
    assert_eq!(parse_display_count(" 250 "), Some(250));
    assert_eq!(parse_display_count("0"), Some(1));
    assert_eq!(parse_display_count("+5"), Some(5));
    assert_eq!(parse_display_count("-5"), None);
    assert_eq!(parse_display_count("-0"), None);
    assert_eq!(parse_display_count("ten"), None);
    assert_eq!(parse_display_count(""), None);
}
