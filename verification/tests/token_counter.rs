use nexq::token_counter::{category_for, compute_budget, count_tokens, BudgetResource};

#[test]
fn test_count_tokens_empty() {
    assert_eq!(count_tokens(""), 0);
}

#[test]
fn test_count_tokens_basic() {
    // "hello" = 5 chars => (5+3)/4 = 2 tokens
    assert_eq!(count_tokens("hello"), 2);
}

#[test]
fn test_count_tokens_longer() {
    // 100 chars => 25 tokens
    let text = "a".repeat(100);
    assert_eq!(count_tokens(&text), 25);
}

#[test]
fn indexed_resources_do_not_consume_the_active_prompt_budget() {
    let resources = vec![BudgetResource {
        name: "large-notes.md".to_string(),
        file_type: "md".to_string(),
        token_count: 200_000,
    }];

    let budget = compute_budget(&resources, "", 0, 128_000);

    assert!(
        budget.total <= budget.limit as usize,
        "indexed library content must not make the active prompt exceed its limit"
    );
}

#[test]
fn counts_characters_not_bytes() {
    // Four Chinese characters are twelve bytes but one token.
    assert_eq!(count_tokens("研究项目"), 1);
    assert_eq!(count_tokens("abcde"), 2);
}

#[test]
fn budget_reports_indexed_total_and_overhead() {
    let resources = vec![
        BudgetResource {
            name: "My Resume.pdf".to_string(),
            file_type: "pdf".to_string(),
            token_count: 300,
        },
        BudgetResource {
            name: "notes.md".to_string(),
            file_type: "md".to_string(),
            token_count: 700,
        },
    ];
    let budget = compute_budget(&resources, "abcd", 50, 1000);
    assert_eq!(budget.indexed_total, 1000);
    assert_eq!(budget.limit, 1000);
    // instructions (1) + system prompt (200) + transcript (50)
    assert_eq!(budget.total, 251);
    let labels: Vec<(&str, usize, &str, &str)> = budget
        .segments
        .iter()
        .map(|s| (s.label.as_str(), s.tokens, s.color.as_str(), s.category.as_str()))
        .collect();
    assert_eq!(
        labels,
        vec![
            ("Resume", 300, "#3b82f6", "indexed"),
            ("Notes (MD)", 700, "#a855f7", "indexed"),
            ("Custom Instructions", 1, "#6b7280", "system"),
            ("System Prompt", 200, "#6b7280", "system"),
            ("Transcript", 50, "#f97316", "transcript"),
            ("Available", 749, "#1f2937", "headroom"),
        ]
    );
}

#[test]
fn budget_without_headroom_omits_available() {
    let resources = vec![BudgetResource {
        name: "Job Description.txt".to_string(),
        file_type: "txt".to_string(),
        token_count: 10,
    }];
    let budget = compute_budget(&resources, "", 0, 100);
    assert_eq!(budget.total, 200);
    let labels: Vec<&str> = budget.segments.iter().map(|s| s.label.as_str()).collect();
    assert_eq!(labels, vec!["JD", "System Prompt"]);
}

#[test]
fn categories_follow_the_lower_case_name_then_the_type() {
    assert_eq!(category_for("my cv.pdf", "pdf"), ("Resume", "#3b82f6", "resume"));
    assert_eq!(category_for("job posting", "txt"), ("JD", "#22c55e", "jd"));
    assert_eq!(category_for("paper", "pdf"), ("Notes (PDF)", "#a855f7", "notes"));
    assert_eq!(category_for("notes", "md"), ("Notes (MD)", "#a855f7", "notes"));
    assert_eq!(category_for("notes", "docx"), ("Notes", "#a855f7", "notes"));
    // Only the lower-case form is searched.
    assert_eq!(category_for("RESUME", "txt"), ("Notes", "#a855f7", "notes"));
}

#[test]
fn active_segments_fill_the_window() {
    let resources = vec![BudgetResource {
        name: "paper.pdf".to_string(),
        file_type: "pdf".to_string(),
        token_count: 90_000,
    }];
    for (instructions, transcript, limit) in [("abcdefgh", 300usize, 1000u64), ("", 0, 150), ("x", 5, 206)] {
        let budget = compute_budget(&resources, instructions, transcript, limit);
        let active: usize = budget
            .segments
            .iter()
            .filter(|s| s.category != "indexed")
            .map(|s| s.tokens)
            .sum();
        assert_eq!(active, budget.total.max(limit as usize));
    }
}
