use indexmap::IndexMap;
use logfine::daily::{collect_log, is_valid_energy, log_template, logged_columns, mvo_default_indices, prefilled_log};

#[test]
fn mvo_defaults_are_the_items_already_logged() {
    let items = vec!["Read".to_string(), "Exercise".to_string(), "Commit".to_string()];
    let existing = vec!["Commit".to_string(), "Read".to_string(), "Other".to_string()];
    assert_eq!(mvo_default_indices(&items, &existing), vec![0, 2]);
    assert!(mvo_default_indices(&Vec::new(), &existing).is_empty());
}

#[test]
fn energy_is_one_to_three() {
    assert!(!is_valid_energy(0));
    assert!(is_valid_energy(1));
    assert!(is_valid_energy(3));
    assert!(!is_valid_energy(4));
}

#[test]
fn template_lists_existing_items_per_section() {
    let sections = vec!["What worked".to_string(), "What failed".to_string()];
    let mut existing = IndexMap::new();
    existing.insert("What worked".to_string(), vec!["A".to_string(), "B".to_string()]);
    existing.insert("What failed".to_string(), Vec::new());
    assert_eq!(log_template(&sections, &existing), "[What worked]\n- A\n- B\n\n[What failed]\n\n");
}

#[test]
fn collected_log_keeps_configured_and_added_sections() {
    let sections = vec!["What worked".to_string(), "Output".to_string()];
    let content = "[What worked]\n- A\n\n## Extra\n- X\n[Output]\n- C\n";
    let log = collect_log(&sections, content);
    let keys: Vec<&String> = log.keys().collect();
    assert_eq!(keys, vec!["What worked", "Output", "Extra"]);
    assert_eq!(log["What worked"], vec!["A".to_string()]);
    assert_eq!(log["Output"], vec!["C".to_string()]);
    assert_eq!(log["Extra"], vec!["X".to_string()]);
}

#[test]
fn unedited_template_reads_back_the_logged_items() {
    let sections = vec!["What worked".to_string(), "What failed".to_string(), "Output".to_string()];
    let mut existing = IndexMap::new();
    existing.insert("What failed".to_string(), vec!["Late start".to_string()]);
    existing.insert("What worked".to_string(), vec!["Deep work".to_string(), "  indented".to_string()]);
    existing.insert("Unused".to_string(), vec!["dropped".to_string()]);
    let log = collect_log(&sections, &log_template(&sections, &existing));
    let keys: Vec<&String> = log.keys().collect();
    assert_eq!(keys, vec!["What worked", "What failed", "Output"]);
    assert_eq!(log["What worked"], vec!["Deep work".to_string(), "  indented".to_string()]);
    assert_eq!(log["What failed"], vec!["Late start".to_string()]);
    assert!(log["Output"].is_empty());
}

fn strings(items: &[&str]) -> Vec<String> {
    items.iter().map(|s| s.to_string()).collect()
}

#[test]
fn stored_lists_fill_the_first_three_sections_and_come_back() {
    let sections = strings(&["Logros", "Errores"]);
    let worked = strings(&["A"]);
    let failed = strings(&["B"]);
    let output = strings(&["C"]);
    let pre = prefilled_log(&sections, &worked, &failed, &output);
    let keys: Vec<&String> = pre.keys().collect();
    assert_eq!(keys, vec!["Logros", "Errores"]);
    assert_eq!(pre["Logros"], worked);
    assert_eq!(pre["Errores"], failed);
    let mut logged = IndexMap::new();
    logged.insert("Logros".to_string(), strings(&["A", "A2"]));
    logged.insert("Extra".to_string(), strings(&["X"]));
    let (w, f, o) = logged_columns(&sections, &logged, &worked, &failed, &output);
    assert_eq!(w, strings(&["A", "A2"]));
    assert_eq!(f, failed);
    assert_eq!(o, output);
}
