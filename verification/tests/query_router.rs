use nexq::query_router::{classify_question, resolve_route, QueryRoute, QuestionType};

#[test]
fn routes_personal_questions_to_files() {
    let decision = resolve_route(None, "Assist", "Tell me about my research project");
    assert_eq!(decision.route, QueryRoute::SearchFiles);
    assert_eq!(decision.question_type, QuestionType::Personal);
}

#[test]
fn routes_latest_questions_to_web() {
    let decision = resolve_route(None, "AskQuestion", "What is the latest policy?");
    assert_eq!(decision.route, QueryRoute::SearchWeb);
    assert_eq!(decision.question_type, QuestionType::Latest);
}

#[test]
fn routes_generic_questions_directly() {
    let decision = resolve_route(None, "Assist", "What is a hash map?");
    assert_eq!(decision.route, QueryRoute::QuickAnswer);
    assert_eq!(decision.question_type, QuestionType::Unknown);
}

#[test]
fn explicit_route_wins() {
    let decision = resolve_route(Some("search_web"), "Assist", "Tell me about my resume");
    assert_eq!(decision.route, QueryRoute::SearchWeb);
    assert_eq!(decision.question_type, QuestionType::Personal);
}

#[test]
fn routes_likely_unknown_proper_nouns_to_web() {
    let decision = resolve_route(None, "AskQuestion", "What is Amdahl's law?");
    assert_eq!(decision.route, QueryRoute::SearchWeb);
    assert_eq!(decision.question_type, QuestionType::UnknownTerm);
}

#[test]
fn keeps_generic_lowercase_concepts_on_fast_path() {
    let decision = resolve_route(None, "Assist", "What is a hash map?");
    assert_eq!(decision.route, QueryRoute::QuickAnswer);
    assert_eq!(decision.question_type, QuestionType::Unknown);
}

#[test]
fn parses_route_aliases_after_trimming_and_lowercasing() {
    assert_eq!(QueryRoute::parse(None), QueryRoute::Auto);
    assert_eq!(QueryRoute::parse(Some("  QUICK ")), QueryRoute::QuickAnswer);
    assert_eq!(QueryRoute::parse(Some("direct")), QueryRoute::QuickAnswer);
    assert_eq!(QueryRoute::parse(Some("RAG")), QueryRoute::SearchFiles);
    assert_eq!(QueryRoute::parse(Some("local_rag")), QueryRoute::SearchFiles);
    assert_eq!(QueryRoute::parse(Some("Latest")), QueryRoute::SearchWeb);
    assert_eq!(QueryRoute::parse(Some("ask")), QueryRoute::AskCodex);
    assert_eq!(QueryRoute::parse(Some("whatever")), QueryRoute::Auto);
}

#[test]
fn route_names_parse_back_to_the_same_route() {
    for route in [
        QueryRoute::Auto,
        QueryRoute::QuickAnswer,
        QueryRoute::SearchFiles,
        QueryRoute::SearchWeb,
        QueryRoute::AskCodex,
    ] {
        assert_eq!(QueryRoute::parse(Some(route.as_str())), route);
    }
    assert_eq!(QueryRoute::SearchWeb.as_str(), "search_web");
    assert_eq!(QuestionType::UnknownTerm.as_str(), "unknown_term");
    assert_eq!(QuestionType::FollowUp.as_str(), "follow_up");
}

#[test]
fn follow_up_mode_takes_the_fast_path() {
    let decision = resolve_route(None, "FollowUp", "Tell me about my resume");
    assert_eq!(decision.question_type, QuestionType::FollowUp);
    assert_eq!(decision.route, QueryRoute::QuickAnswer);
    assert_eq!(decision.answer_source, "codex");
    assert_eq!(decision.confidence, "medium");
}

#[test]
fn unknown_questions_in_ask_mode_go_to_codex() {
    let decision = resolve_route(None, "AskQuestion", "Why would anyone do that?");
    assert_eq!(decision.question_type, QuestionType::Unknown);
    assert_eq!(decision.route, QueryRoute::AskCodex);
}

#[test]
fn decisions_carry_source_and_confidence() {
    let files = resolve_route(None, "Assist", "讲讲你的项目经历");
    assert_eq!(files.question_type, QuestionType::Personal);
    assert_eq!(files.route, QueryRoute::SearchFiles);
    assert_eq!(files.answer_source, "local_rag");
    assert_eq!(files.confidence, "high");

    let web = resolve_route(None, "Assist", "Who is the professor of this lab?");
    assert_eq!(web.question_type, QuestionType::Professor);
    assert_eq!(web.answer_source, "web_search");
    assert_eq!(web.confidence, "web");
}

#[test]
fn classifies_by_term_lists_in_order() {
    assert_eq!(classify_question("Assist", "Explain binary search"), QuestionType::Algorithm);
    assert_eq!(classify_question("Assist", "Compute the derivative"), QuestionType::Math);
    assert_eq!(classify_question("Assist", "Which dataset did you use?"), QuestionType::Research);
    assert_eq!(classify_question("Assist", "What is a database index"), QuestionType::Course);
    assert_eq!(classify_question("Assist", "How is the repo organised"), QuestionType::Project);
}

#[test]
fn acronyms_and_quotes_in_definitions_need_the_web() {
    assert_eq!(classify_question("Assist", "What is RLHF"), QuestionType::UnknownTerm);
    assert_eq!(classify_question("Assist", "What does \"zero-copy\" mean"), QuestionType::UnknownTerm);
    assert_eq!(classify_question("Assist", "what is a linked list"), QuestionType::Unknown);
    assert_eq!(classify_question("Assist", "Tell me the story of Rome"), QuestionType::Unknown);
}

#[test]
fn parsing_ignores_case_and_surrounding_spaces() {
    for value in ["  Search_Web ", "LOCAL_RAG", " ask", "nothing", "\tquick\n"] {
        let normalized = value.trim().to_ascii_lowercase();
        assert_eq!(QueryRoute::parse(Some(value)), QueryRoute::parse(Some(&normalized)));
    }
}
