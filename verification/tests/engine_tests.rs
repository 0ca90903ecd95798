//! The mutation engine: dual-file balance, dense renumbering, sorting,
//! toggling, backup synchronization, and the errors each operation reports.

use rustask::Todo;
use rustask::TodoError;

fn args(xs: &[&str]) -> Vec<String> {
    xs.iter().map(|x| x.to_string()).collect()
}

fn fresh_todo() -> Todo {
    let mut todo = Todo::new(Vec::new(), Vec::new());
    todo.init_files(&"2024-01-01".to_string());
    todo
}

fn body_count(lines: &Vec<String>) -> usize {
    if lines.is_empty() { 0 } else { lines.len() - 1 }
}

#[test]
fn add_keeps_main_and_backup_balanced() {
    let mut todo = fresh_todo();
    for k in 0..5 {
        todo.add(&args(&[&format!("t{}", k), "1:00", "2:00"])).unwrap();
        assert_eq!(body_count(todo.main_lines()), body_count(todo.backup_lines()));
        assert_eq!(todo.main_lines(), todo.backup_lines());
    }
}

#[test]
fn add_with_too_few_arguments_is_usage_error() {
    let mut todo = fresh_todo();
    let before = todo.main_lines().clone();
    assert_eq!(todo.add(&args(&["only", "two"])), Err(TodoError::Usage));
    assert_eq!(todo.main_lines(), &before);
}

#[test]
fn remove_renumbers_densely() {
    let mut todo = fresh_todo();
    for k in 1..=5 {
        todo.add(&args(&[&format!("t{}", k), "1:00", "2:00"])).unwrap();
    }
    todo.remove(&args(&["3"])).unwrap();
    let lines = todo.main_lines();
    assert_eq!(lines.len(), 5);
    for j in 1..lines.len() {
        assert!(lines[j].starts_with(&j.to_string()));
    }
    assert!(lines[3].contains("t4"));
    assert!(lines[4].contains("t5"));
    assert!(!lines.iter().any(|l| l.contains("t3")));
}

#[test]
fn remove_missing_index_changes_nothing() {
    let mut todo = fresh_todo();
    todo.add(&args(&["t1", "1:00", "2:00"])).unwrap();
    let before = todo.main_lines().clone();
    assert_eq!(todo.remove(&args(&["7"])), Err(TodoError::NotFound));
    assert_eq!(todo.main_lines(), &before);
}

#[test]
fn remove_matches_by_decimal_prefix() {
    // Index 1 also answers for 10, 11 and 12: prefix matching is the
    // documented resolution policy.
    let mut todo = fresh_todo();
    for k in 1..=12 {
        todo.add(&args(&[&format!("t{}", k), "1:00", "2:00"])).unwrap();
    }
    todo.remove(&args(&["1"])).unwrap();
    let lines = todo.main_lines();
    assert_eq!(lines.len(), 9);
    for j in 1..lines.len() {
        assert!(lines[j].starts_with(&j.to_string()));
    }
    for gone in ["t1 ", "t10", "t11", "t12"] {
        assert!(!lines.iter().any(|l| l.contains(gone)));
    }
}

#[test]
fn sort_is_idempotent() {
    let mut todo = fresh_todo();
    for k in 1..=4 {
        todo.add(&args(&[&format!("t{}", k), "1:00", "2:00"])).unwrap();
    }
    todo.mark_done(&args(&["2"])).unwrap();
    todo.mark_done(&args(&["4"])).unwrap();
    todo.sort().unwrap();
    let once = todo.main_lines().clone();
    todo.sort().unwrap();
    assert_eq!(todo.main_lines(), &once);
}

#[test]
fn sort_on_empty_file_reports_no_tasks() {
    let mut todo = Todo::new(Vec::new(), Vec::new());
    assert_eq!(todo.sort(), Err(TodoError::NoTasks));
}

#[test]
fn sort_syncs_backup() {
    let mut todo = fresh_todo();
    todo.add(&args(&["t1", "1:00", "2:00"])).unwrap();
    todo.add(&args(&["t2", "3:00", "4:00"])).unwrap();
    todo.mark_done(&args(&["1"])).unwrap();
    todo.sort().unwrap();
    assert_eq!(todo.main_lines(), todo.backup_lines());
}

#[test]
fn mark_roundtrip_restores_the_file() {
    let mut todo = fresh_todo();
    todo.add(&args(&["t1", "1:00", "2:00"])).unwrap();
    todo.add(&args(&["t2", "3:00", "4:00"])).unwrap();
    let before = todo.main_lines().clone();
    todo.mark_done(&args(&["2"])).unwrap();
    todo.mark_undone(&args(&["2"])).unwrap();
    assert_eq!(todo.main_lines(), &before);
}

#[test]
fn mark_done_missing_index_is_not_found() {
    let mut todo = fresh_todo();
    todo.add(&args(&["t1", "1:00", "2:00"])).unwrap();
    let before = todo.main_lines().clone();
    assert_eq!(todo.mark_done(&args(&["9"])), Err(TodoError::NotFound));
    assert_eq!(todo.main_lines(), &before);
}

#[test]
fn mark_done_on_empty_file_reports_no_tasks() {
    let mut todo = Todo::new(Vec::new(), Vec::new());
    assert_eq!(todo.mark_done(&args(&["1"])), Err(TodoError::NoTasks));
}

#[test]
fn edit_replaces_fields_and_resets_glyph() {
    let mut todo = fresh_todo();
    todo.add(&args(&["t1", "1:00", "2:00"])).unwrap();
    todo.mark_done(&args(&["1"])).unwrap();
    todo.edit(&args(&["1"]), &"walk 08:00 08:30".to_string()).unwrap();
    assert_eq!(
        todo.main_lines()[1],
        "1   walk                                   08:00 - 08:30 | ✕"
    );
    assert_eq!(todo.main_lines(), todo.backup_lines());
}

#[test]
fn edit_wants_exactly_three_words() {
    let mut todo = fresh_todo();
    todo.add(&args(&["t1", "1:00", "2:00"])).unwrap();
    let before = todo.main_lines().clone();
    assert_eq!(
        todo.edit(&args(&["1"]), &"only two".to_string()),
        Err(TodoError::InvalidInput)
    );
    assert_eq!(
        todo.edit(&args(&["1"]), &"one two three four".to_string()),
        Err(TodoError::InvalidInput)
    );
    assert_eq!(todo.main_lines(), &before);
}

#[test]
fn edit_missing_index_is_not_found() {
    let mut todo = fresh_todo();
    todo.add(&args(&["t1", "1:00", "2:00"])).unwrap();
    let before = todo.main_lines().clone();
    assert_eq!(
        todo.edit(&args(&["4"]), &"walk 08:00 08:30".to_string()),
        Err(TodoError::NotFound)
    );
    assert_eq!(todo.main_lines(), &before);
}

#[test]
fn remove_all_wants_exact_confirmation() {
    let mut todo = fresh_todo();
    todo.add(&args(&["t1", "1:00", "2:00"])).unwrap();
    let before = todo.main_lines().clone();
    assert!(!todo.remove_all(&"no".to_string()));
    assert!(!todo.remove_all(&"yes".to_string()));
    assert!(!todo.remove_all(&"YES".to_string()));
    assert_eq!(todo.main_lines(), &before);
    assert!(todo.remove_all(&"Yes\n".to_string()));
    assert!(todo.main_lines().is_empty());
    // The backup still holds everything, header included.
    assert_eq!(todo.backup_lines(), &before);
}

#[test]
fn restore_makes_main_equal_backup() {
    let mut todo = fresh_todo();
    todo.add(&args(&["t1", "1:00", "2:00"])).unwrap();
    let full = todo.main_lines().clone();
    assert!(todo.remove_all(&"Yes".to_string()));
    assert!(todo.main_lines().is_empty());
    assert!(todo.restore_backup(&"Yes".to_string()));
    assert_eq!(todo.main_lines(), todo.backup_lines());
    assert_eq!(todo.main_lines(), &full);
}

#[test]
fn restore_without_confirmation_changes_nothing() {
    let mut todo = fresh_todo();
    todo.add(&args(&["t1", "1:00", "2:00"])).unwrap();
    assert!(todo.remove_all(&"Yes".to_string()));
    assert!(!todo.restore_backup(&"nope".to_string()));
    assert!(todo.main_lines().is_empty());
}

#[test]
fn journal_appends_marker_and_text() {
    let mut todo = fresh_todo();
    let before = todo.main_lines().clone();
    todo.journal("a quiet day".to_string());
    let lines = todo.main_lines();
    assert_eq!(lines.len(), before.len() + 3);
    assert_eq!(lines[before.len()], "");
    assert_eq!(lines[before.len() + 1], "Thoughts:");
    assert_eq!(lines[before.len() + 2], "a quiet day");
    assert_eq!(todo.main_lines(), todo.backup_lines());
}

#[test]
fn add_without_header_numbers_from_zero() {
    // A file never initialized has no header, so the first record gets the
    // current line count: zero.
    let mut todo = Todo::new(Vec::new(), Vec::new());
    todo.add(&args(&["t", "1:00", "2:00"])).unwrap();
    assert_eq!(todo.main_lines().len(), 1);
    assert!(todo.main_lines()[0].starts_with("0   t"));
}

#[test]
fn remove_leaves_an_empty_backup_alone() {
    let header = "2024-01-01".to_string();
    let line = "1   t                                        1:00 - 2:00 | ✕".to_string();
    let mut todo = Todo::new(vec![header, line], Vec::new());
    todo.remove(&args(&["1"])).unwrap();
    assert_eq!(todo.main_lines().len(), 1);
    assert!(todo.backup_lines().is_empty());
}

#[test]
fn remove_renumbers_backup_even_without_a_match_there() {
    // The backup is asked to remove the same index on a best-effort basis;
    // its own lines are renumbered even when none of them matched.
    let header = "2024-01-01".to_string();
    let main_line = "1   t                                        1:00 - 2:00 | ✕".to_string();
    let backup_line = "9   u                                        1:00 - 2:00 | ✕".to_string();
    let mut todo = Todo::new(vec![header.clone(), main_line], vec![header, backup_line]);
    todo.remove(&args(&["1"])).unwrap();
    assert_eq!(todo.main_lines().len(), 1);
    assert_eq!(todo.backup_lines().len(), 2);
    assert!(todo.backup_lines()[1].starts_with("1   u"));
}

#[test]
fn negative_index_parses_but_matches_nothing() {
    let mut todo = fresh_todo();
    todo.add(&args(&["t1", "1:00", "2:00"])).unwrap();
    assert_eq!(todo.remove(&args(&["-1"])), Err(TodoError::NotFound));
}

#[test]
fn mark_done_twice_keeps_the_done_glyph() {
    let mut todo = fresh_todo();
    todo.add(&args(&["t1", "1:00", "2:00"])).unwrap();
    todo.mark_done(&args(&["1"])).unwrap();
    let once = todo.main_lines().clone();
    todo.mark_done(&args(&["1"])).unwrap();
    assert_eq!(todo.main_lines(), &once);
}

#[test]
fn add_after_journal_counts_every_line() {
    // A record's index is the file's whole line count, journal lines
    // included.
    let mut todo = fresh_todo();
    todo.journal("note".to_string());
    todo.add(&args(&["t", "1:00", "2:00"])).unwrap();
    assert_eq!(todo.main_lines().len(), 5);
    assert!(todo.main_lines()[4].starts_with("4   t"));
}

#[test]
fn lines_all_blank_decides_display() {
    assert!(rustask::lines_all_blank(&Vec::new()));
    assert!(rustask::lines_all_blank(&args(&["", "  ", "\t"])));
    assert!(!rustask::lines_all_blank(&args(&["", "x"])));
}
