use nexq::codex::{
    cached_reply, turn_reply, StreamEvent,
    initialize_outcome, reply_step, thread_outcome, ReplyStep,
    answer_chunks, models_from_list, next_request_id, normalized_model, requested_effort,
    turn_prompt, web_cache_key, LLMMessage, ModelEntry, TurnFailure, TurnMessage, TurnStep,
    TurnStream,
};

fn message(role: &str, content: &str) -> LLMMessage {
    LLMMessage { role: role.to_string(), content: content.to_string() }
}

fn empty_message() -> TurnMessage {
    TurnMessage {
        id: None,
        error: None,
        method: None,
        thread_id: None,
        delta: None,
        status: None,
        failure: None,
    }
}

#[test]
fn blank_or_default_models_use_the_server_default() {
    assert_eq!(normalized_model("  "), None);
    assert_eq!(normalized_model(" codex-default "), None);
    assert_eq!(normalized_model(" gpt-5 "), Some("gpt-5".to_string()));
}

#[test]
fn efforts_are_trimmed_and_blank_ones_dropped() {
    assert_eq!(requested_effort(None), None);
    assert_eq!(requested_effort(Some("   ")), None);
    assert_eq!(requested_effort(Some(" high ")), Some("high".to_string()));
}

#[test]
fn cache_keys_name_model_effort_and_query() {
    assert_eq!(
        web_cache_key(None, Some("low"), "paper"),
        "model=default;effort=low;query=paper"
    );
    assert_eq!(
        web_cache_key(Some("gpt-5"), None, "q"),
        "model=gpt-5;effort=default;query=q"
    );
}

#[test]
fn turn_prompt_separates_instructions_and_context() {
    let messages = vec![
        message("system", "Be concise."),
        message("user", "First"),
        message("system", "ignored"),
        message("assistant", "Second"),
    ];
    let prompt = turn_prompt(&messages, false);
    assert!(prompt.starts_with("For this interview-assistant turn"));
    assert!(prompt.contains("<instructions>\nBe concise.\n</instructions>"));
    assert!(prompt.contains("<meeting_context>\nFirst\n\nSecond\n</meeting_context>"));
    assert!(prompt.contains("Web search is disabled for this turn."));
    assert!(!prompt.contains("ignored"));
    let web = turn_prompt(&messages, true);
    assert!(web.contains("Web search is enabled when needed for this turn."));
}

#[test]
fn cached_answers_replay_in_64_character_pieces() {
    assert!(answer_chunks("").is_empty());
    let answer = "a".repeat(130);
    let chunks = answer_chunks(&answer);
    let lens: Vec<usize> = chunks.iter().map(|c| c.chars().count()).collect();
    assert_eq!(lens, vec![64, 64, 2]);
    assert_eq!(chunks.concat(), answer);
}

#[test]
fn request_ids_saturate() {
    assert_eq!(next_request_id(5), (5, 6));
    assert_eq!(next_request_id(u64::MAX), (u64::MAX, u64::MAX));
}

#[test]
fn a_turn_streams_tokens_until_completion() {
    let mut stream = TurnStream::new(3, "t1".to_string());
    let mut ack = empty_message();
    ack.id = Some(3);
    assert!(matches!(stream.on_message(&ack), TurnStep::Continue));
    assert!(stream.request_seen);

    match stream.on_message(&delta_message("t1", "Hel")) {
        TurnStep::Token(t) => assert_eq!(t, "Hel"),
        other => panic!("unexpected step {:?}", other),
    }
    assert!(matches!(stream.on_message(&delta_message("t1", "lo")), TurnStep::Token(_)));
    assert!(matches!(stream.on_message(&delta_message("t2", "x")), TurnStep::Continue));
    assert!(matches!(stream.on_message(&delta_message("t1", "")), TurnStep::Continue));

    let mut done = empty_message();
    done.method = Some("turn/completed".to_string());
    done.thread_id = Some("t1".to_string());
    assert!(matches!(stream.on_message(&done), TurnStep::Completed));
    assert_eq!(stream.response_text, "Hello");
    assert_eq!(stream.token_count, 2);
}

fn delta_message(thread: &str, text: &str) -> TurnMessage {
    let mut m = empty_message();
    m.method = Some("item/agentMessage/delta".to_string());
    m.thread_id = Some(thread.to_string());
    m.delta = Some(text.to_string());
    m
}

#[test]
fn turn_failures_are_reported() {
    let mut stream = TurnStream::new(1, "t".to_string());
    let mut done = empty_message();
    done.method = Some("turn/completed".to_string());
    done.thread_id = Some("t".to_string());
    match stream.on_message(&done) {
        TurnStep::Failed(TurnFailure::InvalidResponse(m)) => {
            assert_eq!(m, "Codex completed a turn without acknowledging turn/start")
        }
        other => panic!("unexpected step {:?}", other),
    }

    done.status = Some("failed".to_string());
    match stream.on_message(&done) {
        TurnStep::Failed(TurnFailure::Provider(m)) => assert_eq!(m, "Codex turn failed"),
        other => panic!("unexpected step {:?}", other),
    }

    let mut ack = empty_message();
    ack.id = Some(1);
    ack.error = Some("{\"code\":-1}".to_string());
    match stream.on_message(&ack) {
        TurnStep::Failed(TurnFailure::Provider(m)) => {
            assert_eq!(m, "Codex turn/start failed: {\"code\":-1}")
        }
        other => panic!("unexpected step {:?}", other),
    }
}

#[test]
fn model_lists_fall_back_to_the_default() {
    let fallback = models_from_list(None);
    assert_eq!(fallback.len(), 1);
    assert_eq!(fallback[0].id, "codex-default");
    assert_eq!(fallback[0].name, "Codex local app-server default");

    let listed = models_from_list(Some(vec![
        ModelEntry { id: Some("a".to_string()), model: None, display_name: Some("Model A".to_string()) },
        ModelEntry { id: None, model: Some("b".to_string()), display_name: None },
        ModelEntry { id: None, model: None, display_name: Some("nameless".to_string()) },
    ]));
    let views: Vec<(&str, &str, &str)> =
        listed.iter().map(|m| (m.id.as_str(), m.name.as_str(), m.provider.as_str())).collect();
    assert_eq!(views, vec![("a", "Model A", "codex"), ("b", "b", "codex")]);
    assert!(listed.iter().all(|m| m.context_window.is_none()));
}

#[test]
fn replies_are_matched_by_request_id() {
    let mut msg = empty_message();
    msg.id = Some(7);
    assert!(matches!(reply_step(8, "initialize", &msg), ReplyStep::Skip));
    assert!(matches!(reply_step(7, "initialize", &msg), ReplyStep::Reply));
    msg.error = Some("\"boom\"".to_string());
    match reply_step(7, "model/list", &msg) {
        ReplyStep::Failed(TurnFailure::Provider(m)) => assert_eq!(m, "Codex model/list failed: \"boom\""),
        other => panic!("unexpected step {:?}", other),
    }
    assert!(matches!(reply_step(7, "x", &empty_message()), ReplyStep::Skip));

    assert!(initialize_outcome(Some("/home/me/.codex")).is_ok());
    match initialize_outcome(None) {
        Err(TurnFailure::InvalidResponse(m)) => {
            assert_eq!(m, "Codex initialize response did not include codexHome")
        }
        other => panic!("unexpected outcome {:?}", other),
    }
    assert_eq!(thread_outcome(Some("thr".to_string())).unwrap(), "thr");
    assert!(matches!(thread_outcome(None), Err(TurnFailure::InvalidResponse(_))));
}

#[test]
fn cached_replies_replay_tokens_then_sources_then_the_end() {
    let answer = "x".repeat(70);
    let sources = vec![nexq::provider::StreamSource {
        title: "Rust".to_string(),
        url: "https://www.rust-lang.org/".to_string(),
    }];
    let (events, stats) = cached_reply(&answer, sources);
    assert_eq!(events.len(), 4);
    assert!(matches!(&events[0], StreamEvent::Token(t) if t.len() == 64));
    assert!(matches!(&events[1], StreamEvent::Token(t) if t.len() == 6));
    assert!(matches!(&events[2], StreamEvent::Sources(s) if s.len() == 1 && s[0].title == "Rust"));
    assert!(matches!(events[3], StreamEvent::End { total_tokens: 2, latency_ms: 0 }));
    assert_eq!((stats.prompt_tokens, stats.completion_tokens, stats.total_tokens, stats.latency_ms), (0, 2, 2, 0));

    let (empty, stats) = cached_reply("", vec![]);
    assert_eq!(empty.len(), 1);
    assert!(matches!(empty[0], StreamEvent::End { total_tokens: 0, latency_ms: 0 }));
    assert_eq!(stats.total_tokens, 0);
}

#[test]
fn turn_replies_end_with_the_turn_statistics() {
    let (events, stats) = turn_reply(12, 340, vec![]);
    assert_eq!(events.len(), 1);
    assert!(matches!(events[0], StreamEvent::End { total_tokens: 12, latency_ms: 340 }));
    assert_eq!((stats.completion_tokens, stats.total_tokens, stats.latency_ms), (12, 12, 340));
}
