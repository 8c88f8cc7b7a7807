use nexq::question_detector::{confidence_for, QuestionDetector};

#[test]
fn detects_simplified_chinese_question_with_full_width_punctuation() {
    let questions = QuestionDetector::new().detect_questions("这个方案为什么更适合当前项目？", 100, "Them");

    assert_eq!(questions.len(), 1);
    assert_eq!(questions[0].text, "这个方案为什么更适合当前项目？");
}

#[test]
fn detects_simplified_chinese_question_without_punctuation() {
    let questions = QuestionDetector::new().detect_questions("你会如何验证这个方案", 100, "Them");

    assert_eq!(questions.len(), 1);
    assert_eq!(questions[0].text, "你会如何验证这个方案");
}

#[test]
fn detects_chinese_interrogative_in_a_natural_sentence() {
    let questions = QuestionDetector::new().detect_questions("这个方案为什么更适合当前项目", 100, "Them");

    assert_eq!(questions.len(), 1);
}

#[test]
fn question_marks_give_the_highest_confidence() {
    let questions = QuestionDetector::new().detect_questions("Really? Sure.", 7, "Them");
    assert_eq!(questions.len(), 1);
    assert_eq!(questions[0].text, "Really?");
    assert_eq!(questions[0].confidence, 95);
    assert_eq!(questions[0].timestamp_ms, 7);
    assert_eq!(questions[0].source, "Them");
}

#[test]
fn confidence_levels_follow_the_layers() {
    let detector = QuestionDetector::new();
    let starter = detector.detect_questions("What time works for you", 0, "Me");
    assert_eq!(starter.len(), 1);
    assert_eq!(starter[0].confidence, 60);

    let pattern = detector.detect_questions("Walk me through your design.", 0, "Me");
    assert_eq!(pattern.len(), 1);
    assert_eq!(pattern[0].confidence, 85);

    let chinese = detector.detect_questions("这个可以吗", 0, "Me");
    assert_eq!(chinese.len(), 1);
    assert_eq!(chinese[0].confidence, 75);
}

#[test]
fn ignores_statements_and_short_fragments() {
    let detector = QuestionDetector::new();
    assert!(detector.detect_questions("I like this design.", 0, "Me").is_empty());
    // Four bytes once trimmed: too short to count.
    assert!(detector.detect_questions("Why?", 0, "Me").is_empty());
    assert!(detector.detect_questions("   ", 0, "Me").is_empty());
}

#[test]
fn splits_on_every_terminator() {
    let questions = QuestionDetector::new().detect_questions(
        "We shipped it. How did you test it? 你为什么这样做！Thanks",
        1,
        "Them",
    );
    let texts: Vec<&str> = questions.iter().map(|q| q.text.as_str()).collect();
    assert_eq!(texts, vec!["How did you test it?", "你为什么这样做！"]);
}

#[test]
fn reported_questions_use_the_four_levels() {
    let text = "Is it ready? Tell me about the plan. 你们的项目为什么延期。How so. Fine.";
    for q in QuestionDetector::new().detect_questions(text, 0, "Them") {
        assert!([60, 75, 85, 95].contains(&q.confidence));
        assert_eq!(q.text.trim(), q.text);
        assert!(q.text.len() >= 5);
    }
}

#[test]
fn confidence_is_computed_from_the_lower_case_form() {
    assert_eq!(confidence_for("What now", "what now"), 60);
    // The interrogative word is looked for in the lower-case form only.
    assert_eq!(confidence_for("What now", "What now"), 0);
    assert_eq!(confidence_for("Ready?", "ready?"), 95);
    assert_eq!(confidence_for("Tell me about it", "tell me about it"), 85);
    assert_eq!(confidence_for("好吗", "好吗"), 75);
}
