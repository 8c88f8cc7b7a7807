use nexq::context_commands::{
    is_hidden_name, is_markdown_file, is_supported_context_file, mistake_bank_entry,
    profile_folder_name, review_file, safe_path_component,
};

#[test]
fn safe_components_replace_reserved_characters() {
    assert_eq!(safe_path_component("a/b:c*d?", "x"), "a_b_c_d_");
    assert_eq!(safe_path_component("  ..notes..  ", "x"), "notes");
    assert_eq!(safe_path_component("tab\there", "x"), "tab_here");
}

#[test]
fn safe_components_fall_back_when_empty() {
    assert_eq!(safe_path_component("   ", "fallback"), "fallback");
    assert_eq!(safe_path_component("...", "fallback"), "fallback");
    assert_eq!(safe_path_component("", "fallback"), "fallback");
}

#[test]
fn safe_components_keep_at_most_80_characters() {
    let long = "é".repeat(100);
    let safe = safe_path_component(&long, "x");
    assert_eq!(safe.chars().count(), 80);
    assert_eq!(safe, "é".repeat(80));
}

#[test]
fn profile_folders_use_the_first_non_blank_line() {
    assert_eq!(profile_folder_name(None), "Unassigned Profile");
    assert_eq!(profile_folder_name(Some("\n   \n  Prof. Ada / ML Lab \nmore")), "Prof. Ada _ ML Lab");
    assert_eq!(profile_folder_name(Some("  \n \n")), "Unassigned Profile");
}

#[test]
fn supported_extensions_ignore_case() {
    assert!(is_supported_context_file(Some("PDF")));
    assert!(is_supported_context_file(Some("md")));
    assert!(is_supported_context_file(Some("Docx")));
    assert!(!is_supported_context_file(Some("png")));
    assert!(!is_supported_context_file(None));
    assert!(is_markdown_file(Some("MD")));
    assert!(!is_markdown_file(Some("txt")));
    assert!(!is_markdown_file(None));
}

#[test]
fn hidden_directories_start_with_a_dot() {
    assert!(is_hidden_name(".obsidian"));
    assert!(is_hidden_name(".trash"));
    assert!(!is_hidden_name("interview"));
    assert!(!is_hidden_name(""));
}

#[test]
fn mistake_bank_entries_need_content() {
    assert_eq!(
        mistake_bank_entry(true, "Prof", "2024-01-01", "Mock", "   ").unwrap_err(),
        "Mistake Bank content is empty"
    );
}

#[test]
fn mistake_bank_entries_add_a_heading_to_new_notes() {
    assert_eq!(
        mistake_bank_entry(true, "Prof", "2024-01-01", "Mock: 1", "  Fix this  ").unwrap(),
        "# Interview Mistake Bank\n\nProfile: Prof\n\n## 2024-01-01 — Mock_ 1\n\nFix this\n"
    );
    assert_eq!(
        mistake_bank_entry(false, "Prof", "", "", "Again").unwrap(),
        "\n## undated — Interview\n\nAgain\n"
    );
}

#[test]
fn review_files_get_a_suffix_when_taken() {
    assert_eq!(review_file("Mock / Round 1", None), "Mock _ Round 1.md");
    assert_eq!(review_file("", Some("101500")), "interview-101500.md");
}

#[test]
fn safe_components_are_short_and_clean() {
    for value in ["a<b>c", "..\\..//x", "\u{7}bell", "   ", &"z".repeat(300)] {
        let safe = safe_path_component(value, "fallback");
        if safe != "fallback" {
            assert!(!safe.is_empty() && safe.chars().count() <= 80);
            assert!(!safe.starts_with('.'));
            assert!(!safe.chars().any(|c| "<>:\"/\\|?*".contains(c) || c.is_control()));
        }
    }
}
