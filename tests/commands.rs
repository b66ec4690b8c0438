use chat_expediente::command::{
    binary_file_summary, decimal_text, docx_failure_text,
    command_for, content_preview, file_kind, message_with_documents, parse_command, split_words,
    trim, ChatCommand, FileKind, LoadedDocument,
};
use chat_expediente::message::{ContentBlock, DocumentSource, MessageContent};

#[test]
fn quit_words_in_any_case() {
    assert!(matches!(parse_command("  QUIT \n"), ChatCommand::Quit));
    assert!(matches!(parse_command("Exit"), ChatCommand::Quit));
    assert!(matches!(parse_command("bye"), ChatCommand::Quit));
    assert!(matches!(parse_command("Clear"), ChatCommand::Clear));
    assert!(matches!(parse_command("HISTORY"), ChatCommand::History));
    assert!(matches!(parse_command(" \t "), ChatCommand::Skip));
}

#[test]
fn file_commands_take_paths() {
    match parse_command("file   report.pdf  ") {
        ChatCommand::AttachFile(p) => assert_eq!(p, "report.pdf"),
        _ => panic!("expected a file"),
    }
    match parse_command("files a.txt  b.md\tc.docx") {
        ChatCommand::AttachFiles(ps) => assert_eq!(ps, vec!["a.txt", "b.md", "c.docx"]),
        _ => panic!("expected files"),
    }
    // The prefixes are matched as typed.
    match parse_command("FILE x") {
        ChatCommand::Send(t) => assert_eq!(t, "FILE x"),
        _ => panic!("expected a message"),
    }
}

#[test]
fn other_lines_are_sent_trimmed() {
    match parse_command("  What is in document 7?  ") {
        ChatCommand::Send(t) => assert_eq!(t, "What is in document 7?"),
        _ => panic!("expected a message"),
    }
    match command_for("Quitting time", "quitting time") {
        ChatCommand::Send(t) => assert_eq!(t, "Quitting time"),
        _ => panic!("expected a message"),
    }
}

#[test]
fn trim_and_words() {
    assert_eq!(trim("\u{a0} a b \n"), "a b");
    assert_eq!(trim("   "), "");
    assert_eq!(split_words("  one two\n three "), vec!["one", "two", "three"]);
    assert!(split_words(" \t").is_empty());
}

#[test]
fn user_message_with_documents() {
    let docs = vec![
        LoadedDocument { file_name: "a.txt".to_string(), text: "alpha".to_string() },
        LoadedDocument { file_name: "b.md".to_string(), text: "beta".to_string() },
    ];
    let m = message_with_documents("why?", true, &docs);
    assert_eq!(m.role, "user");
    match m.content {
        MessageContent::Text(t) => assert_eq!(
            t,
            "User question: why?\n\n--- Document: a.txt ---\nalpha\n--- End of Document ---\n\n\n--- Document: b.md ---\nbeta\n--- End of Document ---\n"
        ),
        _ => panic!("text expected"),
    }
    match message_with_documents("why?", false, &vec![]).content {
        MessageContent::Text(t) => assert_eq!(t, "why?"),
        _ => panic!("text expected"),
    }
    match message_with_documents("why?", true, &vec![]).content {
        MessageContent::Text(t) => assert_eq!(t, "User question: why?"),
        _ => panic!("text expected"),
    }
}

#[test]
fn file_kinds_by_extension() {
    assert!(matches!(file_kind("TXT"), FileKind::Text));
    assert!(matches!(file_kind("htm"), FileKind::Text));
    assert!(matches!(file_kind("Docx"), FileKind::Docx));
    assert!(matches!(file_kind("pdf"), FileKind::Binary));
    assert!(matches!(file_kind(""), FileKind::Binary));
}

#[test]
fn previews_join_text_blocks() {
    let content = MessageContent::Multimodal(vec![
        ContentBlock::Text { text: "one".to_string() },
        ContentBlock::Document {
            source: DocumentSource {
                source_type: "base64".to_string(),
                media_type: "application/pdf".to_string(),
                data: "QQ==".to_string(),
            },
        },
        ContentBlock::Text { text: "two".to_string() },
    ]);
    assert_eq!(content_preview(&content), "one two");
    assert_eq!(content_preview(&MessageContent::Text("plain".to_string())), "plain");
    assert_eq!(content_preview(&MessageContent::Multimodal(vec![])), "");
}

#[test]
fn file_summaries_give_name_size_and_detail() {
    assert_eq!(decimal_text(0), "0");
    assert_eq!(decimal_text(1234567), "1234567");
    assert_eq!(decimal_text(u64::MAX), "18446744073709551615");
    assert_eq!(binary_file_summary("a.bin", 2048, "bin"), "[Binary file: a.bin (2048 bytes, type: bin)]");
    assert_eq!(
        docx_failure_text("b.docx", 10, "No text content found in DOCX file"),
        "[DOCX file: b.docx (10 bytes) - Text extraction failed: No text content found in DOCX file]"
    );
}
