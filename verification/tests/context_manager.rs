use nexq::context::{make_preview, supported_file_type, ContextManager, ContextResource, PendingLoad};

fn load(manager: &mut ContextManager, name: &str, ext: &str, text: &str, folder: &str) -> ContextResource {
    let pending = manager.begin_load(name, ext).expect("supported type");
    let path = format!("{}/{}", manager.context_dir_path(), pending.managed_name);
    manager.load_file(pending, path, text.len() as u64, text.to_string(), folder.to_string())
}

#[test]
fn imports_and_removes_resources_by_source_folder_without_deleting_source() {
    let mut manager = ContextManager::new("/managed-context".to_string());

    let resource = load(
        &mut manager,
        "notes.txt",
        "txt",
        "A question about the project.",
        "/knowledge-base",
    );

    assert_eq!(resource.source_folder, "/knowledge-base");
    assert_eq!(manager.remove_folder("/knowledge-base").unwrap().len(), 1);
    assert!(manager.list_resources().is_empty());
}

#[test]
fn begin_load_accepts_known_types_case_insensitively() {
    let manager = ContextManager::new("ctx".to_string());
    let pending = manager.begin_load("Paper.PDF", "PDF").unwrap();
    assert_eq!(pending.file_type, "pdf");
    assert_eq!(pending.name, "Paper.PDF");
    assert_eq!(pending.id.len(), 36);
    assert_eq!(pending.managed_name, format!("{}_Paper.PDF", pending.id));
    assert!(pending.id.chars().enumerate().all(|(i, c)| if [8, 13, 18, 23].contains(&i) {
        c == '-'
    } else {
        c.is_ascii_hexdigit() && !c.is_ascii_uppercase()
    }));
}

#[test]
fn begin_load_rejects_unsupported_types() {
    let manager = ContextManager::new("ctx".to_string());
    let err = manager.begin_load("photo.PNG", "PNG").unwrap_err();
    assert_eq!(err, "Unsupported file type: .png. Supported: .pdf, .txt, .md, .docx");
}

#[test]
fn load_file_counts_tokens_and_previews() {
    let mut manager = ContextManager::new("ctx".to_string());
    let text = "x".repeat(150);
    let r = load(&mut manager, "big.md", "md", &text, "/src");
    assert_eq!(r.token_count, 38);
    assert_eq!(r.preview, format!("{}...", "x".repeat(100)));
    assert_eq!(r.size_bytes, 150);
    assert_eq!(r.file_type, "md");
    assert_eq!(manager.list_resources().len(), 1);
}

#[test]
fn previews_count_bytes_but_cut_at_characters() {
    assert_eq!(make_preview("short"), "short");
    // 40 characters of three bytes each: 120 bytes, so it is marked.
    let text = "研".repeat(40);
    assert_eq!(make_preview(&text), format!("{}...", text));
}

#[test]
fn removing_an_unknown_resource_reports_it() {
    let mut manager = ContextManager::new("ctx".to_string());
    load(&mut manager, "a.txt", "txt", "alpha", "/f");
    let err = manager.remove_file("missing").unwrap_err();
    assert_eq!(err, "Resource not found: missing");
    assert_eq!(manager.list_resources().len(), 1);
}

#[test]
fn remove_files_validates_before_removing_and_ignores_repeats() {
    let mut manager = ContextManager::new("ctx".to_string());
    let a = load(&mut manager, "a.txt", "txt", "alpha", "/f");
    let b = load(&mut manager, "b.txt", "txt", "beta", "/g");

    let err = manager.remove_files(&[a.id.clone(), "nope".to_string()]).unwrap_err();
    assert_eq!(err, "Resource not found: nope");
    assert_eq!(manager.list_resources().len(), 2);

    let removed = manager.remove_files(&[b.id.clone(), b.id.clone(), a.id.clone()]).unwrap();
    let names: Vec<&str> = removed.iter().map(|r| r.name.as_str()).collect();
    assert_eq!(names, vec!["b.txt", "a.txt"]);
    assert!(manager.list_resources().is_empty());
    assert_eq!(manager.get_assembled_context(), "");
}

#[test]
fn remove_folder_keeps_other_folders() {
    let mut manager = ContextManager::new("ctx".to_string());
    load(&mut manager, "a.txt", "txt", "alpha", "/f");
    load(&mut manager, "b.txt", "txt", "beta", "/g");
    load(&mut manager, "c.txt", "txt", "gamma", "/f");
    let ids = manager.resource_ids_for_folder("/f");
    assert_eq!(ids.len(), 2);
    let removed = manager.remove_folder("/f").unwrap();
    assert_eq!(removed.len(), 2);
    let left: Vec<String> = manager.list_resources().into_iter().map(|r| r.name).collect();
    assert_eq!(left, vec!["b.txt".to_string()]);
}

#[test]
fn remove_all_files_empties_the_manager() {
    let mut manager = ContextManager::new("ctx".to_string());
    load(&mut manager, "a.txt", "txt", "alpha", "/f");
    load(&mut manager, "b.txt", "txt", "beta", "/g");
    let removed = manager.remove_all_files().unwrap();
    assert_eq!(removed.len(), 2);
    assert!(manager.list_resources().is_empty());
    assert_eq!(manager.get_hot_context(1000, false), "");
}

#[test]
fn restoring_twice_keeps_one_resource() {
    let mut source = ContextManager::new("ctx".to_string());
    let r = load(&mut source, "cv.md", "md", "Experience", "/f");
    let mut manager = ContextManager::new("ctx".to_string());
    manager.restore_resource(r.duplicate(), "Experience".to_string());
    manager.restore_resource(r.duplicate(), "Experience again".to_string());
    assert_eq!(manager.list_resources().len(), 1);
    assert_eq!(manager.get_assembled_context(), "## cv.md (md)\nExperience again\n");
}

#[test]
fn assembled_context_puts_instructions_first() {
    let mut manager = ContextManager::new("ctx".to_string());
    load(&mut manager, "a.txt", "txt", "alpha", "/f");
    load(&mut manager, "empty.txt", "txt", "", "/f");
    load(&mut manager, "b.md", "md", "beta", "/f");
    manager.set_custom_instructions("Be brief");
    assert_eq!(manager.get_custom_instructions(), "Be brief");
    assert_eq!(
        manager.get_assembled_context(),
        "## Custom Instructions\nBe brief\n\n## a.txt (txt)\nalpha\n\n## b.md (md)\nbeta\n"
    );
}

#[test]
fn hot_context_prefers_profile_files_and_respects_the_budget() {
    let mut manager = ContextManager::new("ctx".to_string());
    load(&mut manager, "paper.pdf", "pdf", "long paper text", "/f");
    load(&mut manager, "My_Resume.md", "md", "abcdefghij", "/f");
    manager.set_custom_instructions("Hi");
    assert_eq!(
        manager.get_hot_context(1000, true),
        "## Interview Instructions\nHi\n\n## My_Resume.md (md)\nabcdefghij"
    );
    assert_eq!(manager.get_hot_context(1000, false), "## My_Resume.md (md)\nabcdefghij");
    // The header takes 21 characters; 4 are left for the body.
    assert_eq!(manager.get_hot_context(25, false), "## My_Resume.md (md)\nabcd");
    assert_eq!(manager.get_hot_context(21, false), "");
    assert_eq!(manager.get_hot_context(0, true), "");
}

#[test]
fn hot_context_falls_back_to_the_first_resource() {
    let mut manager = ContextManager::new("ctx".to_string());
    load(&mut manager, "paper.pdf", "pdf", "first", "/f");
    load(&mut manager, "notes.md", "md", "second", "/f");
    assert_eq!(manager.get_hot_context(100, false), "## paper.pdf (pdf)\nfirst");
}

#[test]
fn token_budget_counts_instructions_not_resources() {
    let mut manager = ContextManager::new("ctx".to_string());
    load(&mut manager, "notes.md", "md", &"y".repeat(400), "/f");
    manager.set_custom_instructions("abcdefgh");
    let budget = manager.get_token_budget(1000, 10);
    assert_eq!(budget.indexed_total, 100);
    assert_eq!(budget.total, 2 + 200 + 10);
    assert_eq!(budget.limit, 1000);
}

#[test]
fn removing_a_fresh_load_restores_the_list() {
    let mut manager = ContextManager::new("ctx".to_string());
    load(&mut manager, "a.txt", "txt", "alpha", "/f");
    let before = manager.get_assembled_context();
    let r = load(&mut manager, "b.txt", "txt", "beta", "/g");
    let removed = manager.remove_file(&r.id).unwrap();
    assert_eq!(removed.name, "b.txt");
    assert_eq!(manager.get_assembled_context(), before);
    let left: Vec<String> = manager.list_resources().into_iter().map(|r| r.name).collect();
    assert_eq!(left, vec!["a.txt".to_string()]);
}

#[test]
fn check_ids_reports_the_first_unknown_id_and_changes_nothing() {
    let mut manager = ContextManager::new("ctx".to_string());
    let a = load(&mut manager, "a.txt", "txt", "alpha", "/f");
    assert!(manager.check_ids(&[a.id.clone(), a.id.clone()]).is_ok());
    assert!(manager.check_ids(&[]).is_ok());
    assert_eq!(
        manager.check_ids(&[a.id.clone(), "x".to_string(), "y".to_string()]).unwrap_err(),
        "Resource not found: x"
    );
    assert_eq!(manager.list_resources().len(), 1);
}

#[test]
fn file_types_are_decided_from_lower_case_extensions() {
    assert_eq!(supported_file_type("docx").unwrap(), "docx");
    assert_eq!(
        supported_file_type("DOCX").unwrap_err(),
        "Unsupported file type: .DOCX. Supported: .pdf, .txt, .md, .docx"
    );
    assert_eq!(
        supported_file_type("").unwrap_err(),
        "Unsupported file type: .. Supported: .pdf, .txt, .md, .docx"
    );
}

#[test]
fn pending_loads_name_their_copies_after_the_id() {
    let p = PendingLoad::new("abc".to_string(), "notes.md", "md".to_string());
    assert_eq!(p.managed_name, "abc_notes.md");
    assert_eq!(p.name, "notes.md");
    assert_eq!(p.file_type, "md");
}

#[test]
fn load_file_at_records_the_given_time() {
    let mut manager = ContextManager::new("ctx".to_string());
    let p = PendingLoad::new("id-1".to_string(), "cv.txt", "txt".to_string());
    let r = manager.load_file_at(
        p,
        "ctx/id-1_cv.txt".to_string(),
        3,
        "abc".to_string(),
        "/f".to_string(),
        "2026-01-01T00:00:00+00:00".to_string(),
    );
    assert_eq!(r.loaded_at, "2026-01-01T00:00:00+00:00");
    assert_eq!(r.id, "id-1");
    assert_eq!(r.token_count, 1);
    assert_eq!(manager.get_hot_context(100, false), "## cv.txt (txt)\nabc");
}

#[test]
fn load_file_stamps_an_rfc3339_time() {
    let mut manager = ContextManager::new("ctx".to_string());
    let r = load(&mut manager, "a.txt", "txt", "alpha", "/f");
    assert!(r.loaded_at.len() >= 20);
    assert_eq!(&r.loaded_at[4..5], "-");
    assert_eq!(&r.loaded_at[10..11], "T");
}

#[test]
fn hot_context_sections_stay_within_the_budget() {
    let mut manager = ContextManager::new("ctx".to_string());
    load(&mut manager, "cv.md", "md", &"a".repeat(50), "/f");
    load(&mut manager, "research.md", "md", &"b".repeat(50), "/f");
    manager.set_custom_instructions("Keep it short");
    for max in [1usize, 30, 40, 60, 90, 200] {
        let hot = manager.get_hot_context(max, true);
        let chars: usize = hot.split("\n\n").map(|s| s.chars().count()).sum();
        let instructions = "## Interview Instructions\nKeep it short".chars().count();
        if instructions <= max {
            assert!(chars <= max, "max {} gave {} characters", max, chars);
        } else {
            assert_eq!(hot, "## Interview Instructions\nKeep it short");
        }
    }
}
