use chat_expediente::api::{http_error_message, Args, DocumentQuery, DocumentResponse};
use chat_expediente::document::{
    compose_document_message, decode_pdf_payload, document_context_message, finish_pdf_text,
    inject_document, pdf_payloads, pdf_section_text, pdf_text_or_notice,
};
use chat_expediente::json::{find_binaries, get_field, metadata_of, strings_among, JsonValue};
use chat_expediente::message::{Message, MessageContent};
use chat_expediente::store::ConversationStore;
use chat_expediente::text::{blank, clip, has_prefix};

fn s(x: &str) -> String {
    x.to_string()
}

fn obj(entries: Vec<(&str, JsonValue)>) -> JsonValue {
    JsonValue::Object(entries.into_iter().map(|(k, v)| (k.to_string(), v)).collect())
}

#[test]
fn clip_cuts_and_marks_long_text() {
    assert_eq!(clip("abcdef", 3, "[cut]"), "abc[cut]");
    assert_eq!(clip("abc", 3, "[cut]"), "abc");
    assert_eq!(clip("ééééé", 2, "…"), "éé…");
    assert_eq!(clip("", 0, "x"), "");
}

#[test]
fn prefix_and_blank_checks() {
    assert!(has_prefix("data:application/pdf;base64,AAA", "data:"));
    assert!(!has_prefix("dat", "data:"));
    assert!(blank(" \t\n\u{a0}"));
    assert!(blank(""));
    assert!(!blank("  x "));
}

#[test]
fn bad_base64_is_reported() {
    match decode_pdf_payload("data:application/pdf;base64,@@not base64@@") {
        Err(e) => assert!(e.starts_with("Failed to decode base64: "), "{}", e),
        Ok(_) => panic!("expected a decoding error"),
    }
}

#[test]
fn payload_is_decoded_with_or_without_prefix() {
    assert_eq!(decode_pdf_payload("data:application/pdf;base64,aGVsbG8="), Ok(b"hello".to_vec()));
    assert_eq!(decode_pdf_payload("aGVsbG8gd29ybGQ="), Ok(b"hello world".to_vec()));
}

#[test]
fn extraction_failures_are_described() {
    // "hello world" is no PDF: the extractor reports an error.
    let raw = match pdf_extract::extract_text_from_mem(b"hello world") {
        Ok(t) => Ok(t),
        Err(e) => Err(e.to_string()),
    };
    match finish_pdf_text(raw) {
        Err(e) => assert!(e.starts_with("Failed to extract text from PDF: "), "{}", e),
        Ok(_) => panic!("expected an extraction error"),
    }
    assert_eq!(finish_pdf_text(Err(s("bad"))), Err(s("Failed to extract text from PDF: bad")));
    assert_eq!(finish_pdf_text(Ok(s("text"))), Ok(s("text")));
    assert!(finish_pdf_text(Ok(s(" \n"))).unwrap().starts_with("📄 PDF document processed"));
}

#[test]
fn only_pdf_payloads_are_taken() {
    let bs = Some(vec![s("plain"), s("data:application/pdf;base64,QQ=="), s("data:")]);
    assert_eq!(pdf_payloads(&bs), vec![s("data:application/pdf;base64,QQ==")]);
    assert!(pdf_payloads(&None).is_empty());
}

#[test]
fn blank_pdf_text_becomes_a_notice() {
    assert!(pdf_text_or_notice(s("  \n ")).starts_with("📄 PDF document processed but no extractable text"));
    assert_eq!(pdf_text_or_notice(s("body")), "body");
}

#[test]
fn pdf_sections_are_framed_and_cut() {
    assert_eq!(pdf_section_text(&Ok(s("text"))), "📄 PDF Content:\ntext\n\n");
    assert_eq!(
        pdf_section_text(&Err(s("bad"))),
        "📄 PDF document detected but failed to extract text: bad\n\n"
    );
    let long = "a".repeat(50001);
    let section = pdf_section_text(&Ok(long));
    let expected = format!(
        "📄 PDF Content:\n{}...\n\n[Content truncated - PDF is very long. Showing first 50,000 characters]\n\n",
        "a".repeat(50000)
    );
    assert_eq!(section, expected);
}

#[test]
fn document_message_layout() {
    let m = compose_document_message("d1", "v1", "", &Some(s("{meta}")));
    assert_eq!(
        m,
        "Document fetched and added to context:\n\nDocument ID: d1\nDocument Version ID: v1\n\n📋 Document Metadata:\n{meta}\n\n"
    );
    let without = compose_document_message("d1", "v1", "PDF\n\n", &None);
    assert_eq!(without, "Document fetched and added to context:\n\nDocument ID: d1\nDocument Version ID: v1\n\nPDF\n\n");
}

#[test]
fn metadata_is_cut_shorter_after_pdf_text() {
    let meta = "m".repeat(6000);
    let alone = compose_document_message("d", "v", "", &Some(meta.clone()));
    assert!(alone.contains(&meta));
    let after = compose_document_message("d", "v", "PDF", &Some(meta.clone()));
    let kept = format!("{}...\n\n[Metadata truncated]", "m".repeat(5000));
    assert!(after.contains(&kept));
    assert!(!after.contains(&"m".repeat(5001)));
}

#[test]
fn whole_message_is_cut_to_its_ceiling() {
    let meta = "z".repeat(120000);
    let sections = "p".repeat(120000);
    let m = compose_document_message("d", "v", &sections, &Some(meta));
    let notice = "...\n\n[Message truncated to prevent token limit exceeded]";
    assert!(m.ends_with(notice));
    assert_eq!(m.chars().count(), 100000 + notice.chars().count());
}

#[test]
fn no_pdf_results_leave_only_the_header() {
    let m = document_context_message("d", "v", &vec![], &None);
    assert_eq!(m, "Document fetched and added to context:\n\nDocument ID: d\nDocument Version ID: v\n\n");
}

#[test]
fn failing_pdf_binary_is_described() {
    let m = document_context_message(
        "d",
        "v",
        &vec![Err(s("Failed to extract text from PDF: broken")), Ok(s("page"))],
        &Some(s("meta")),
    );
    assert_eq!(
        m,
        "Document fetched and added to context:\n\nDocument ID: d\nDocument Version ID: v\n\n\
         📄 PDF document detected but failed to extract text: Failed to extract text from PDF: broken\n\n\
         📄 PDF Content:\npage\n\n📋 Document Metadata:\nmeta\n\n"
    );
}

#[test]
fn injecting_a_document_trims_then_appends() {
    let mut store = ConversationStore::new();
    for i in 0..12 {
        store.append("c", Message::user(format!("m{}", i)));
    }
    inject_document(&mut store, "c", s("doc"));
    let turns = store.snapshot("c");
    assert_eq!(turns.len(), 11);
    match (&turns[0].content, &turns[10].content) {
        (MessageContent::Text(first), MessageContent::Text(last)) => {
            assert_eq!(first, "m2");
            assert_eq!(last, "doc");
        }
        _ => panic!("text turns expected"),
    }
}

#[test]
fn top_level_binaries_are_taken_first() {
    let v = obj(vec![
        ("binaries", JsonValue::Array(vec![JsonValue::Str(s("a")), JsonValue::Null, JsonValue::Str(s("b"))])),
        ("document", obj(vec![("data", JsonValue::Str(s("application/pdf;base64,QQ==")))])),
    ]);
    assert_eq!(find_binaries(&v), Some(vec![s("a"), s("b")]));
}

#[test]
fn nested_pdf_data_gets_its_prefix() {
    let v = obj(vec![
        ("binaries", JsonValue::Null),
        ("document", obj(vec![("data", JsonValue::Str(s("application/pdf;base64,QQ==")))])),
    ]);
    assert_eq!(find_binaries(&v), Some(vec![s("data:application/pdf;base64,QQ==")]));
    let w = obj(vec![("document", obj(vec![("data", JsonValue::Str(s("data:application/pdf;base64,QQ==")))]))]);
    assert_eq!(find_binaries(&w), Some(vec![s("data:application/pdf;base64,QQ==")]));
}

#[test]
fn nested_binaries_only_when_not_empty() {
    let v = obj(vec![(
        "document",
        obj(vec![("data", JsonValue::Str(s("plain"))), ("binaries", JsonValue::Array(vec![JsonValue::Str(s("x"))]))]),
    )]);
    assert_eq!(find_binaries(&v), Some(vec![s("x")]));
    let empty = obj(vec![("document", obj(vec![("binaries", JsonValue::Array(vec![]))]))]);
    assert_eq!(find_binaries(&empty), None);
    assert_eq!(find_binaries(&JsonValue::Str(s("x"))), None);
}

#[test]
fn metadata_prefers_the_data_object() {
    let v = obj(vec![("data", obj(vec![("k", JsonValue::Bool(true))])), ("other", JsonValue::Null)]);
    match metadata_of(&v) {
        JsonValue::Object(entries) => assert_eq!(entries[0].0, "k"),
        _ => panic!("object expected"),
    }
    let w = obj(vec![("data", JsonValue::Str(s("x")))]);
    match metadata_of(&w) {
        JsonValue::Object(entries) => assert_eq!(entries[0].0, "data"),
        _ => panic!("object expected"),
    }
    assert!(get_field(&w, "missing").is_none());
    assert_eq!(strings_among(&vec![JsonValue::Number(s("1")), JsonValue::Str(s("q"))]), vec![s("q")]);
}

#[test]
fn status_errors_are_distinguished() {
    assert_eq!(
        http_error_message(401, "401 Unauthorized", Some("Unauthorized")),
        "Authentication failed - please check your PRODOCTIVITY_TOKEN"
    );
    assert_eq!(http_error_message(403, "403 Forbidden", Some("Forbidden")), "Access forbidden - insufficient permissions");
    assert_eq!(http_error_message(404, "404 Not Found", Some("Not Found")), "Document not found");
    assert_eq!(
        http_error_message(500, "500 Internal Server Error", Some("Internal Server Error")),
        "HTTP error: 500 Internal Server Error - Internal Server Error"
    );
    assert_eq!(http_error_message(599, "599 <unknown status code>", None), "HTTP error: 599 <unknown status code> - Unknown error");
}

#[test]
fn document_responses_are_built_from_the_query() {
    let q = DocumentQuery { document_id: s("d"), version_id: s("v"), conversation_id: None };
    let r = DocumentResponse::failure(q, s("Network error: x"));
    assert!(!r.success);
    assert_eq!(r.conversation_id, "");
    assert_eq!(r.error, Some(s("Network error: x")));
    let q = DocumentQuery { document_id: s("d"), version_id: s("v"), conversation_id: Some(s("c")) };
    let ok = DocumentResponse::fetched(q, Some(s("meta")), None, s("c"));
    assert!(ok.success && ok.error.is_none());
    assert_eq!((ok.document_id.as_str(), ok.conversation_id.as_str()), ("d", "c"));
    let args = Args::default();
    assert_eq!((args.region.as_str(), args.web, args.port), ("us-east-1", false, 3000));
}
