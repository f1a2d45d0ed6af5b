use memory_viewer::process::OpenedProcess;
use memory_viewer::selection::{App, SelectProcessWindow};
use memory_viewer::types::AppState;

#[test]
fn window_requests() {
    let mut w = SelectProcessWindow::default();
    w.open(Some(3));
    assert!(w.show_process_selector);
    assert_eq!(w.pending_process_selection, Some(3));
    w.request_change(Some(4), true);
    assert!(w.show_reset_warning && w.close_selector_on_apply);
    assert_eq!(w.requested_process_selection, Some(4));
    w.clear_request();
    assert!(!w.show_reset_warning && !w.close_selector_on_apply);
    assert_eq!(w.requested_process_selection, None);
    w.close();
    assert!(!w.show_process_selector);
}

#[test]
fn selection_without_opened_process_applies_at_once() {
    let mut app = App::default();
    assert_eq!(app.app_state, AppState::ProcessSelection);
    app.select_process_window.open(None);
    assert!(app.request_process_selection(Some(10), true));
    assert_eq!(app.processes.selected(), Some(10));
    assert!(!app.select_process_window.show_process_selector);
}

#[test]
fn change_with_opened_process_waits_for_confirmation() {
    let mut app = App::default();
    app.request_process_selection(Some(1), false);
    app.process_opened(1, 77, "unused");
    assert!(app.opened_process.is_some());
    assert!(app.console.get_messages()[0].get_message().ends_with("]: Process [1] is opened"));
    app.select_process_window.open(Some(1));
    assert!(!app.request_process_selection(Some(2), true));
    assert_eq!(app.processes.selected(), Some(1));
    assert!(app.select_process_window.show_reset_warning);
    assert!(app.opened_process.is_some());
    app.resolve_reset_warning(true, false);
    assert_eq!(app.processes.selected(), Some(2));
    assert!(app.opened_process.is_none());
    assert!(!app.select_process_window.show_reset_warning);
    assert!(!app.select_process_window.show_process_selector);
}

#[test]
fn cancelled_change_keeps_the_process() {
    let mut app = App::default();
    app.request_process_selection(Some(1), false);
    app.opened_process = OpenedProcess::new(1, 5);
    assert!(!app.request_process_selection(Some(2), false));
    app.resolve_reset_warning(false, true);
    assert_eq!(app.processes.selected(), Some(1));
    assert!(app.opened_process.is_some());
    assert!(!app.select_process_window.show_reset_warning);
    assert_eq!(app.select_process_window.requested_process_selection, None);
}

#[test]
fn selecting_the_same_process_keeps_it_open() {
    let mut app = App::default();
    app.request_process_selection(Some(1), false);
    app.opened_process = OpenedProcess::new(1, 5);
    assert!(app.request_process_selection(Some(1), false));
    assert!(app.opened_process.is_some());
    app.apply_process_selection(Some(3));
    assert!(app.opened_process.is_none());
}

#[test]
fn failed_open_is_logged() {
    let mut app = App::default();
    app.process_opened(9, 0, "Access is denied. (os error 5)");
    assert!(app.opened_process.is_none());
    assert!(app.console.get_messages()[0].get_message().ends_with("]: Access is denied. (os error 5)"));
}
