use std::path::PathBuf;

use logfine::config::{
    config_for, default_config, initial_config, initial_config_for, resolve_template_path, settle_config, Config,
};

#[test]
fn default_config_keeps_data_under_logfine() {
    let c = default_config();
    assert!(c.logbook_path.ends_with("logfine"));
    assert!(c.todo_path.ends_with("logfine/todo.txt"));
    assert!(c.todo_path.starts_with(&c.logbook_path));
    assert!(c.mvos.is_empty());
    assert!(!c.delete_tasks);
    assert!(!c.automatic_completion_date);
    assert!(c.template_path.is_none());
    let d = Config::default();
    assert_eq!(d.logbook_path, c.logbook_path);
    assert_eq!(d.todo_path, c.todo_path);
}

#[test]
fn initial_config_lists_three_sample_outputs() {
    let c = initial_config();
    assert_eq!(
        c.mvos,
        vec![
            "Read one chapter of a book".to_string(),
            "Do some exercise".to_string(),
            "One push commit to GitHub".to_string(),
        ]
    );
    assert!(!c.delete_tasks);
    assert!(!c.automatic_completion_date);
    assert!(c.template_path.is_none());
}

#[test]
fn config_for_puts_data_under_logfine_in_the_data_directory() {
    let c = config_for(Some(PathBuf::from("/data")));
    assert_eq!(c.logbook_path, PathBuf::from("/data/logfine"));
    assert_eq!(c.todo_path, PathBuf::from("/data/logfine/todo.txt"));
    let here = config_for(None);
    assert_eq!(here.logbook_path, PathBuf::from("./logfine"));
    assert_eq!(here.todo_path, PathBuf::from("./logfine/todo.txt"));
    assert!(here.mvos.is_empty());
}

#[test]
fn initial_config_for_adds_the_sample_outputs() {
    let c = initial_config_for(Some(PathBuf::from("/data")));
    assert_eq!(c.logbook_path, PathBuf::from("/data/logfine"));
    assert_eq!(c.todo_path, PathBuf::from("/data/logfine/todo.txt"));
    assert_eq!(c.mvos.len(), 3);
    assert_eq!(c.mvos[0], "Read one chapter of a book");
}

#[test]
fn a_missing_file_gives_the_initial_config_to_write_and_a_read_one_is_kept() {
    let (first, write) = settle_config(None, Some(PathBuf::from("/data")));
    assert!(write);
    assert_eq!(first.logbook_path, PathBuf::from("/data/logfine"));
    assert_eq!(first.todo_path, PathBuf::from("/data/logfine/todo.txt"));
    assert_eq!(first.mvos.len(), 3);
    let mvos = first.mvos.clone();
    let (second, write_again) = settle_config(Some(first), Some(PathBuf::from("/elsewhere")));
    assert!(!write_again);
    assert_eq!(second.logbook_path, PathBuf::from("/data/logfine"));
    assert_eq!(second.mvos, mvos);
}

#[test]
fn a_template_path_under_home_is_resolved() {
    let home = Some(PathBuf::from("/home/me"));
    assert_eq!(
        resolve_template_path(PathBuf::from("~/notes/t.md"), home.clone()),
        PathBuf::from("/home/me/notes/t.md")
    );
    assert_eq!(resolve_template_path(PathBuf::from("/etc/t.md"), home.clone()), PathBuf::from("/etc/t.md"));
    assert_eq!(resolve_template_path(PathBuf::from("~notes"), home), PathBuf::from("~notes"));
    assert_eq!(resolve_template_path(PathBuf::from("~/t.md"), None), PathBuf::from("~/t.md"));
}
