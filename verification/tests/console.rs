use memory_viewer::console::{Console, ConsoleColor, ConsoleRow, MESSAGE_COUNT_LIMIT};
use memory_viewer::types::EMessageType;

fn is_time_of_day(t: &str) -> bool {
    let b = t.as_bytes();
    b.len() == 8
        && b[2] == b':'
        && b[5] == b':'
        && [0, 1, 3, 4, 6, 7].iter().all(|&i| b[i].is_ascii_digit())
        && t[0..2].parse::<u32>().unwrap() <= 23
        && t[3..5].parse::<u32>().unwrap() <= 59
        && t[6..8].parse::<u32>().unwrap() <= 60
}

#[test]
fn row_text_has_time_and_message() {
    let row = ConsoleRow::new("hello".to_string(), EMessageType::Log);
    let text = row.get_message();
    assert!(text.starts_with('['));
    assert_eq!(&text[9..], "]: hello");
    assert!(is_time_of_day(&text[1..9]), "{}", text);
}

#[test]
fn colors_by_message_type() {
    let c = |t| ConsoleRow::new(String::new(), t).get_color();
    assert_eq!(c(EMessageType::Log), ConsoleColor::LightGray);
    assert_eq!(c(EMessageType::Warning), ConsoleColor::Yellow);
    assert_eq!(c(EMessageType::Error), ConsoleColor::Red);
    assert_eq!(c(EMessageType::Success), ConsoleColor::Green);
}

#[test]
fn console_defaults() {
    let c = Console::default();
    assert!(c.get_messages().is_empty());
    assert!(!c.is_active());
    assert!(c.is_pinned_to_bottom());
    assert!(c.jump_to_bottom_once);
}

#[test]
fn log_keeps_fewer_than_the_limit() {
    let mut c = Console::default();
    for i in 0..(MESSAGE_COUNT_LIMIT + 5) {
        c.add_message(ConsoleRow::new(format!("m{}", i), EMessageType::Log));
        assert!(c.get_messages().len() < MESSAGE_COUNT_LIMIT);
        assert!(c.get_messages().last().unwrap().get_message().ends_with(&format!("]: m{}", i)));
    }
    assert_eq!(c.get_messages().len(), MESSAGE_COUNT_LIMIT - 1);
    assert!(c.get_messages()[0].get_message().ends_with("]: m6"));
}

#[test]
fn flags_and_clear() {
    let mut c = Console::default();
    c.set_active(true);
    assert!(c.is_active());
    c.set_pinned_to_bottom(false);
    assert!(!c.is_pinned_to_bottom());
    c.clear_jump_request();
    assert!(!c.jump_to_bottom_once);
    c.jump_to_bottom();
    assert!(c.jump_to_bottom_once && c.is_pinned_to_bottom());
    c.add_message(ConsoleRow::new("x".to_string(), EMessageType::Warning));
    c.clear();
    assert!(c.get_messages().is_empty());
    assert!(c.is_active());
}

#[test]
fn adds_from_empty_keep_the_newest_in_order() {
    let mut c = Console::default();
    let n = MESSAGE_COUNT_LIMIT + 100;
    for i in 0..n {
        c.add_message(ConsoleRow::new(format!("m{}", i), EMessageType::Log));
    }
    let kept = MESSAGE_COUNT_LIMIT - 1;
    assert_eq!(c.get_messages().len(), kept);
    for (j, row) in c.get_messages().iter().enumerate() {
        assert!(row.get_message().ends_with(&format!("]: m{}", n - kept + j)));
    }
    let mut d = Console::default();
    d.add_message(ConsoleRow::new("only".to_string(), EMessageType::Log));
    assert_eq!(d.get_messages().len(), 1);
}

#[test]
fn only_set_active_changes_the_panel() {
    let mut c = Console::default();
    c.set_active(true);
    c.add_message(ConsoleRow::new("a".to_string(), EMessageType::Log));
    c.set_pinned_to_bottom(false);
    c.jump_to_bottom();
    c.clear_jump_request();
    c.clear();
    assert!(c.is_active());
    c.set_active(false);
    c.jump_to_bottom();
    assert!(!c.is_active());
}
