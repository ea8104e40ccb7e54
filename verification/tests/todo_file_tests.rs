use logfine::todo_file::{remaining_tasks, temp_file_name, with_rewrites, without_completed};

fn lines(content: &str) -> Vec<String> {
    content.lines().map(|l| l.to_string()).collect()
}

#[test]
fn test_count_remaining_tasks() {
    let content = "(A) Active task 1\nx 2026-09-05 Completed task\n\nActive task 2\nx Completed task 2\n";
    let count = remaining_tasks(&lines(content));
    assert_eq!(count, 2);
}

#[test]
fn remaining_tasks_trims_before_looking_for_the_mark() {
    assert_eq!(remaining_tasks(&lines("  x done\n   \nxylophone\nx\n")), 2);
}

#[test]
fn deleting_completed_tasks_keeps_the_rest_in_order() {
    let content = "(A) one\nx done\n  x indented stays\n\ntwo\n";
    assert_eq!(without_completed(&lines(content)), "(A) one\n  x indented stays\n\ntwo\n");
    assert_eq!(without_completed(&lines("x a\nx b\n")), "");
    assert_eq!(without_completed(&Vec::new()), "");
}

#[test]
fn rewrites_replace_whole_lines_only() {
    let rewrites = vec![("x task".to_string(), "x 2026-01-02 task".to_string())];
    let out = with_rewrites(&lines("x task\nx task two\nx task\n"), &rewrites);
    assert_eq!(out, "x 2026-01-02 task\nx task two\nx 2026-01-02 task\n");
}

#[test]
fn temporary_file_is_hidden_beside_the_target() {
    assert_eq!(temp_file_name(Some("todo.txt")), ".todo.txt.tmp");
    assert_eq!(temp_file_name(None), ".todo.tmp");
}

#[test]
fn deleting_completed_tasks_twice_changes_nothing() {
    for content in ["(A) one\nx done\n\ntwo\n", "\nx done\n", "x a\n", ""] {
        let once = without_completed(&lines(content));
        let twice = without_completed(&lines(&once));
        assert_eq!(twice, once);
    }
}
