use logfine::sections::{template_section_names, template_sections};

#[test]
fn test_load_template_sections_none() {
    let (sections, fell_back) = template_sections(None);
    assert_eq!(sections, vec!["What worked", "What failed", "Output"]);
    assert!(fell_back);
}

#[test]
fn test_load_template_sections_missing_file() {
    // A template file that cannot be read gives no content.
    let (sections, _) = template_sections(None);
    assert_eq!(sections, vec!["What worked", "What failed", "Output"]);
}

#[test]
fn test_load_template_sections_bracket_format() {
    let content = "[Logros]\nDetalles...\n\n[Errores]\nDetalles...\n\n[Ideas]\n";
    let (sections, fell_back) = template_sections(Some(content));
    assert_eq!(sections, vec!["Logros", "Errores", "Ideas"]);
    assert!(!fell_back);
}

#[test]
fn test_load_template_sections_markdown_heading_format() {
    let content = "## Logros\nDetalles...\n\n## Errores\nDetalles...\n\n## Aprendizajes\n";
    let (sections, _) = template_sections(Some(content));
    assert_eq!(sections, vec!["Logros", "Errores", "Aprendizajes"]);
}

#[test]
fn test_load_template_sections_mixed_format() {
    let content = "[Logros]\n- Algo\n\n## Errores\n- Otro\n\n[Siguientes pasos]\n";
    let (sections, _) = template_sections(Some(content));
    assert_eq!(sections, vec!["Logros", "Errores", "Siguientes pasos"]);
}

#[test]
fn test_load_template_sections_empty_file_falls_back() {
    let content = "Just some plain text without sections\n";
    let (sections, fell_back) = template_sections(Some(content));
    assert_eq!(sections, vec!["What worked", "What failed", "Output"]);
    assert!(fell_back);
}

#[test]
fn empty_headers_declare_nothing() {
    let names = template_section_names("[]\n#\n##   \n  [ Spaced ]  \r\n### Trailing ##\n");
    assert_eq!(names, vec![" Spaced ", "Trailing ##"]);
}
