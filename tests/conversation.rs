use chat_expediente::gateway::{
    error_status, high_input_usage, very_high_usage, is_throttling, reply_from, InvokeOutcome, ModelError, ModelReply, ModelResponse, RetryPolicy,
    RetryStep,
};
use chat_expediente::message::{ContentBlock, DocumentSource, Message, MessageContent};
use chat_expediente::prompt::system_prompt;
use chat_expediente::store::ConversationStore;
use chat_expediente::turn::{
    begin_local_turn, begin_turn, conversation_id_or_new, end_local_turn, finish_turn,
};

fn text_of(m: &Message) -> String {
    match &m.content {
        MessageContent::Text(t) => t.clone(),
        MessageContent::Multimodal(_) => String::from("<blocks>"),
    }
}

fn texts(turns: &[Message]) -> Vec<String> {
    turns.iter().map(text_of).collect()
}

fn response(texts: &[&str]) -> ModelResponse {
    ModelResponse {
        texts: texts.iter().map(|t| t.to_string()).collect(),
        input_tokens: 12,
        output_tokens: 34,
    }
}

#[test]
fn append_creates_and_extends_conversations() {
    let mut store = ConversationStore::new();
    assert_eq!(store.turn_count("a"), 0);
    store.append("a", Message::user("one".to_string()));
    store.append("b", Message::user("other".to_string()));
    store.append("a", Message::assistant("two".to_string()));
    let a = store.snapshot("a");
    assert_eq!(texts(&a), vec!["one", "two"]);
    assert_eq!(a[0].role, "user");
    assert_eq!(a[1].role, "assistant");
    assert_eq!(texts(&store.snapshot("b")), vec!["other"]);
    assert!(store.snapshot("missing").is_empty());
}

#[test]
fn rollback_after_append_restores_the_conversation() {
    let mut store = ConversationStore::new();
    store.append("c", Message::user("hello".to_string()));
    store.append("c", Message::assistant("hi".to_string()));
    let before = texts(&store.snapshot("c"));
    store.append("c", Message::user("doomed".to_string()));
    let removed = store.rollback_last("c");
    assert_eq!(removed.map(|m| text_of(&m)), Some("doomed".to_string()));
    assert_eq!(texts(&store.snapshot("c")), before);
    assert_eq!(store.turn_count("c"), 2);
}

#[test]
fn rollback_of_empty_conversation_does_nothing() {
    let mut store = ConversationStore::new();
    assert!(store.rollback_last("none").is_none());
    assert_eq!(store.turn_count("none"), 0);
}

#[test]
fn trim_keeps_the_latest_ten_turns() {
    let mut store = ConversationStore::new();
    for i in 0..15 {
        store.append("w", Message::user(format!("m{}", i)));
    }
    store.trim_to_window("w", 10);
    let expected: Vec<String> = (5..15).map(|i| format!("m{}", i)).collect();
    assert_eq!(texts(&store.snapshot("w")), expected);
    store.trim_to_window("w", 10);
    assert_eq!(store.turn_count("w"), 10);
}

#[test]
fn trim_leaves_short_conversations_alone() {
    let mut store = ConversationStore::new();
    for i in 0..3 {
        store.append("s", Message::user(format!("m{}", i)));
    }
    store.trim_to_window("s", 10);
    assert_eq!(texts(&store.snapshot("s")), vec!["m0", "m1", "m2"]);
    store.trim_to_window("s", 0);
    assert_eq!(store.turn_count("s"), 0);
}

#[test]
fn snapshot_copies_multimodal_content() {
    let mut store = ConversationStore::new();
    let blocks = vec![
        ContentBlock::Text { text: "look".to_string() },
        ContentBlock::Document {
            source: DocumentSource {
                source_type: "base64".to_string(),
                media_type: "application/pdf".to_string(),
                data: "QUJD".to_string(),
            },
        },
    ];
    store.append(
        "m",
        Message { role: "user".to_string(), content: MessageContent::Multimodal(blocks) },
    );
    let copy = store.snapshot("m");
    match &copy[0].content {
        MessageContent::Multimodal(b) => {
            assert_eq!(b.len(), 2);
            match &b[1] {
                ContentBlock::Document { source } => assert_eq!(source.data, "QUJD"),
                ContentBlock::Text { .. } => panic!("block kind changed"),
            }
        }
        MessageContent::Text(_) => panic!("content kind changed"),
    }
}

fn drive(outcomes: Vec<InvokeOutcome>) -> (usize, Vec<u64>, Option<Result<ModelReply, ModelError>>) {
    let mut policy = RetryPolicy::new();
    let mut waits = Vec::new();
    let mut attempts = 0;
    for outcome in outcomes {
        attempts += 1;
        match policy.after_attempt(outcome) {
            RetryStep::Wait { millis } => waits.push(millis),
            RetryStep::Finish(r) => return (attempts, waits, Some(r)),
        }
    }
    (attempts, waits, None)
}

#[test]
fn throttling_every_time_gives_up_after_three_retries() {
    let outcomes = (0..6).map(|_| InvokeOutcome::Throttled).collect();
    let (attempts, waits, result) = drive(outcomes);
    assert_eq!(attempts, 4);
    assert_eq!(waits, vec![2000, 4000, 8000]);
    assert!(matches!(result, Some(Err(ModelError::RateLimited { retries: 3 }))));
}

#[test]
fn success_on_second_attempt_retries_once() {
    let outcomes = vec![InvokeOutcome::Throttled, InvokeOutcome::Response(response(&["done"]))];
    let (attempts, waits, result) = drive(outcomes);
    assert_eq!(attempts, 2);
    assert_eq!(waits, vec![2000]);
    match result {
        Some(Ok(reply)) => {
            assert_eq!(reply.text, "done");
            assert_eq!(reply.input_tokens, 12);
            assert_eq!(reply.output_tokens, 34);
        }
        _ => panic!("expected a reply"),
    }
}

#[test]
fn other_failures_are_not_retried() {
    let outcomes = vec![InvokeOutcome::Failed("boom".to_string()), InvokeOutcome::Throttled];
    let (attempts, waits, result) = drive(outcomes);
    assert_eq!(attempts, 1);
    assert!(waits.is_empty());
    match result {
        Some(Err(ModelError::InvocationFailed { message })) => assert_eq!(message, "boom"),
        _ => panic!("expected InvocationFailed"),
    }
}

#[test]
fn empty_reply_is_an_error() {
    assert!(matches!(reply_from(response(&[])), Err(ModelError::EmptyReply)));
    match reply_from(response(&["first", "second"])) {
        Ok(r) => assert_eq!(r.text, "first"),
        Err(_) => panic!("expected the first block"),
    }
}

#[test]
fn throttling_is_recognised_in_descriptions() {
    assert!(is_throttling("ServiceError { ThrottlingException: slow down }"));
    assert!(is_throttling("Too many tokens, please wait"));
    assert!(!is_throttling("ValidationException: bad input"));
    assert!(!is_throttling(""));
    assert!(!is_throttling("too many tokens"));
}

#[test]
fn failed_turn_rolls_back_the_user_message() {
    let mut store = ConversationStore::new();
    store.append("t", Message::user("earlier".to_string()));
    let sent = begin_turn(&mut store, "t", "question".to_string());
    assert_eq!(texts(&sent), vec!["earlier", "question"]);
    let r = finish_turn(&mut store, "t", Err(ModelError::EmptyReply));
    assert!(matches!(r, Err(ModelError::EmptyReply)));
    assert_eq!(texts(&store.snapshot("t")), vec!["earlier"]);
}

#[test]
fn committed_turn_keeps_both_messages_and_extracts_references() {
    let mut store = ConversationStore::new();
    begin_turn(&mut store, "t", "question".to_string());
    let reply = ModelReply {
        text: "[Document ID: 6835eb99f6f46cd38ee2c311, Document Version ID: 6835eb99f6f46cd38ee2c312]"
            .to_string(),
        input_tokens: 5,
        output_tokens: 7,
    };
    let result = match finish_turn(&mut store, "t", Ok(reply)) {
        Ok(t) => t,
        Err(_) => panic!("expected a committed turn"),
    };
    assert_eq!(result.references.len(), 1);
    assert_eq!(result.references[0].document_id, "6835eb99f6f46cd38ee2c311");
    assert_eq!(result.references[0].version_id, "6835eb99f6f46cd38ee2c312");
    assert_eq!((result.input_tokens, result.output_tokens), (5, 7));
    let turns = store.snapshot("t");
    assert_eq!(turns.len(), 2);
    assert_eq!(turns[1].role, "assistant");
    assert_eq!(text_of(&turns[1]), result.reply);
}

#[test]
fn conversation_ids_are_kept_or_minted() {
    assert_eq!(conversation_id_or_new(Some("abc".to_string())), "abc");
    let a = conversation_id_or_new(None);
    let b = conversation_id_or_new(None);
    assert_eq!(a.chars().count(), 36);
    assert_ne!(a, b);
    let c: Vec<char> = a.chars().collect();
    assert_eq!((c[8], c[13], c[14], c[18], c[23]), ('-', '-', '4', '-', '-'));
    assert!("89ab".contains(c[19]));
    assert!(a.chars().all(|x| x == '-' || x.is_ascii_digit() || ('a'..='f').contains(&x)));
}

#[test]
fn system_prompt_wraps_the_context() {
    let p = system_prompt(Some("CTX"));
    assert!(p.starts_with("You are an AI assistant specialized in analyzing financial and legal documents. You have access"));
    assert!(p.contains("client's file:\n\nCTX\n\nIMPORTANT INSTRUCTIONS:\n- When referencing"));
    assert!(p.ends_with("Please respond in the same language as the question or inquiry."));
    let plain = system_prompt(None);
    assert!(plain.contains("exact format: Document ID: [24-character hex ID] Document Version ID:"));
}

#[test]
fn usage_alerts_and_error_statuses() {
    assert!(!high_input_usage(30000));
    assert!(high_input_usage(30001));
    assert!(!very_high_usage(20000, 20000));
    assert!(very_high_usage(u32::MAX, u32::MAX));
    assert_eq!(error_status(&ModelError::RateLimited { retries: 3 }), 429);
    assert_eq!(error_status(&ModelError::EmptyReply), 502);
    assert_eq!(error_status(&ModelError::InvocationFailed { message: "x".to_string() }), 500);
}

#[test]
fn local_turns_commit_or_roll_back() {
    let mut conversation = vec![Message::user("a".to_string())];
    let sent = begin_local_turn(&mut conversation, Message::user("b".to_string()));
    assert_eq!(texts(&sent), vec!["a", "b"]);
    let r = end_local_turn(&mut conversation, Err(ModelError::EmptyReply));
    assert!(matches!(r, Err(ModelError::EmptyReply)));
    assert_eq!(texts(&conversation), vec!["a"]);
    begin_local_turn(&mut conversation, Message::user("c".to_string()));
    let reply = ModelReply { text: "d".to_string(), input_tokens: 1, output_tokens: 1 };
    match end_local_turn(&mut conversation, Ok(reply)) {
        Ok(t) => assert_eq!(t, "d"),
        Err(_) => panic!("expected the reply"),
    }
    assert_eq!(texts(&conversation), vec!["a", "c", "d"]);
    assert_eq!(conversation[2].role, "assistant");
}
