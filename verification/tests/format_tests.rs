//! The record line format: exact column layout, glyphs, and the concrete
//! day-file scenario.

use rustask::Entry;
use rustask::Todo;

fn args(xs: &[&str]) -> Vec<String> {
    xs.iter().map(|x| x.to_string()).collect()
}

fn fresh_todo() -> Todo {
    let mut todo = Todo::new(Vec::new(), Vec::new());
    todo.init_files(&"2024-01-01".to_string());
    todo
}

#[test]
fn entry_new_is_not_done() {
    let e = Entry::new("a".to_string(), "b".to_string(), "c".to_string());
    assert_eq!(e.task, "a");
    assert_eq!(e.start, "b");
    assert_eq!(e.end, "c");
    assert!(!e.done);
}

#[test]
fn init_files_writes_header_once() {
    let mut todo = Todo::new(Vec::new(), Vec::new());
    todo.init_files(&"2024-01-01".to_string());
    assert_eq!(todo.main_lines(), &vec!["2024-01-01".to_string()]);
    assert_eq!(todo.backup_lines(), &vec!["2024-01-01".to_string()]);
    todo.init_files(&"2024-01-02".to_string());
    assert_eq!(todo.main_lines(), &vec!["2024-01-01".to_string()]);
}

#[test]
fn scenario_day_file() {
    let mut todo = fresh_todo();
    todo.add(&args(&["Write report", "09:00", "10:00"])).unwrap();
    assert_eq!(
        todo.main_lines()[1],
        "1   Write report                           09:00 - 10:00 | ✕"
    );
    todo.add(&args(&["Call Bob", "11:00", "11:30"])).unwrap();
    assert_eq!(
        todo.main_lines()[2],
        "2   Call Bob                               11:00 - 11:30 | ✕"
    );
    todo.remove(&args(&["1"])).unwrap();
    assert_eq!(todo.main_lines().len(), 2);
    assert_eq!(
        todo.main_lines()[1],
        "1   Call Bob                               11:00 - 11:30 | ✕"
    );
}

#[test]
fn scenario_sort_puts_not_done_first() {
    // Done task first on disk; sort still puts the not-done one on top.
    let mut todo = fresh_todo();
    todo.add(&args(&["Write report", "09:00", "10:00"])).unwrap();
    todo.add(&args(&["Call Bob", "11:00", "11:30"])).unwrap();
    todo.mark_done(&args(&["1"])).unwrap();
    todo.sort().unwrap();
    assert_eq!(
        todo.main_lines()[1],
        "1   Call Bob                               11:00 - 11:30 | ✕"
    );
    assert_eq!(
        todo.main_lines()[2],
        "2   Write report                           09:00 - 10:00 | ✓"
    );

    // The other order on disk gives the same arrangement.
    let mut other = fresh_todo();
    other.add(&args(&["Call Bob", "11:00", "11:30"])).unwrap();
    other.add(&args(&["Write report", "09:00", "10:00"])).unwrap();
    other.mark_done(&args(&["2"])).unwrap();
    other.sort().unwrap();
    assert_eq!(
        other.main_lines()[1],
        "1   Call Bob                               11:00 - 11:30 | ✕"
    );
    assert_eq!(
        other.main_lines()[2],
        "2   Write report                           09:00 - 10:00 | ✓"
    );
}

#[test]
fn long_description_is_kept_whole() {
    // A description longer than its field widens the line; nothing is cut.
    let mut todo = fresh_todo();
    todo.add(&args(&["Fix the widget frobnicator assembly line", "1:00", "2:00"])).unwrap();
    assert_eq!(
        todo.main_lines()[1],
        "1   Fix the widget frobnicator assembly line           1:00 - 2:00 | ✕"
    );
}

#[test]
fn mark_done_rewrites_only_the_glyph() {
    let mut todo = fresh_todo();
    todo.add(&args(&["Draft", "08:00", "09:30"])).unwrap();
    let before = todo.main_lines()[1].clone();
    todo.mark_done(&args(&["1"])).unwrap();
    let after = todo.main_lines()[1].clone();
    let before_chars: Vec<char> = before.chars().collect();
    let after_chars: Vec<char> = after.chars().collect();
    assert_eq!(before_chars.len(), after_chars.len());
    assert_eq!(&before_chars[..before_chars.len() - 1], &after_chars[..after_chars.len() - 1]);
    assert_eq!(*before_chars.last().unwrap(), '✕');
    assert_eq!(*after_chars.last().unwrap(), '✓');
}

#[test]
fn add_numbers_records_by_line_count() {
    let mut todo = fresh_todo();
    for k in 1..=11 {
        todo.add(&args(&[&format!("task{}", k), "1:00", "2:00"])).unwrap();
    }
    assert!(todo.main_lines()[10].starts_with("10  task10"));
    assert!(todo.main_lines()[11].starts_with("11  task11"));
}
