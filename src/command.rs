//! The decisions of the interactive chat: what a line typed by the user asks
//! for, which kind of file an attachment is, and the message that carries the
//! user's question with the attached documents.
use vstd::prelude::*;
use crate::extract::{is_space, is_space_exec, strings_view};
use crate::message::{blocks_view, user_turn, BlockView, ContentBlock, ContentView, Message, MessageContent};
use crate::text::{chars_of, has_prefix, starts_with, string_from_chars};

verus! {

/// What a typed line asks for.
pub enum ChatCommand {
    /// End the session ("quit", "exit" or "bye").
    Quit,
    /// Forget the conversation and the pending files.
    Clear,
    /// Show the conversation so far.
    History,
    /// An empty line: nothing to do.
    Skip,
    /// Attach one file ("file <path>").
    AttachFile(String),
    /// Attach several files ("files <path> <path> ...").
    AttachFiles(Vec<String>),
    /// Send the line to the model.
    Send(String),
}

/// A command as plain values.
pub enum CommandView {
    Quit,
    Clear,
    History,
    Skip,
    AttachFile(Seq<char>),
    AttachFiles(Seq<Seq<char>>),
    Send(Seq<char>),
}

impl View for ChatCommand {
    type V = CommandView;

    open spec fn view(&self) -> CommandView {
        match self {
            ChatCommand::Quit => CommandView::Quit,
            ChatCommand::Clear => CommandView::Clear,
            ChatCommand::History => CommandView::History,
            ChatCommand::Skip => CommandView::Skip,
            ChatCommand::AttachFile(p) => CommandView::AttachFile(p@),
            ChatCommand::AttachFiles(ps) => CommandView::AttachFiles(strings_view(ps@)),
            ChatCommand::Send(t) => CommandView::Send(t@),
        }
    }
}

/// `s` without its leading whitespace.
pub open spec fn trim_start(s: Seq<char>) -> Seq<char>
    decreases s.len(),
{
    if s.len() > 0 && is_space(s[0]) {
        trim_start(s.drop_first())
    } else {
        s
    }
}

/// `s` without its trailing whitespace.
pub open spec fn trim_end(s: Seq<char>) -> Seq<char>
    decreases s.len(),
{
    if s.len() > 0 && is_space(s.last()) {
        trim_end(s.drop_last())
    } else {
        s
    }
}

/// `s` without whitespace at either end.
pub open spec fn trimmed(s: Seq<char>) -> Seq<char> {
    trim_end(trim_start(s))
}

/// How many characters from the start of `s` hold no whitespace.
pub open spec fn word_len(s: Seq<char>) -> nat
    decreases s.len(),
{
    if s.len() == 0 || is_space(s[0]) {
        0
    } else {
        1 + word_len(s.drop_first())
    }
}

/// The whitespace-separated words of `s`, in order.
pub open spec fn words(s: Seq<char>) -> Seq<Seq<char>>
    decreases s.len(),
{
    let t = trim_start(s);
    proof {
        lemma_trim_start_len(s);
        lemma_word_len_bound(t);
    }
    if t.len() == 0 {
        seq![]
    } else {
        seq![t.take(word_len(t) as int)] + words(t.skip(word_len(t) as int))
    }
}

/// The lower-case form of `s`, as `str::to_lowercase` gives it.
pub uninterp spec fn lower_of(s: Seq<char>) -> Seq<char>;

/// What the trimmed line `t` asks for, given its lower-case form `lowered`.
pub open spec fn command_of(t: Seq<char>, lowered: Seq<char>) -> CommandView {
    if lowered == "quit"@ || lowered == "exit"@ || lowered == "bye"@ {
        CommandView::Quit
    } else if lowered == "clear"@ {
        CommandView::Clear
    } else if lowered == "history"@ {
        CommandView::History
    } else if lowered.len() == 0 {
        CommandView::Skip
    } else if starts_with(t, "file "@) {
        CommandView::AttachFile(trimmed(t.skip(5)))
    } else if starts_with(t, "files "@) {
        CommandView::AttachFiles(words(t.skip(6)))
    } else {
        CommandView::Send(t)
    }
}

pub proof fn lemma_trim_start_len(s: Seq<char>)
    ensures
        trim_start(s).len() <= s.len(),
        trim_start(s).len() > 0 ==> !is_space(trim_start(s)[0]),
    decreases s.len(),
{
    if s.len() > 0 && is_space(s[0]) {
        lemma_trim_start_len(s.drop_first());
    }
}

pub proof fn lemma_word_len_bound(s: Seq<char>)
    ensures
        word_len(s) <= s.len(),
        s.len() > 0 && !is_space(s[0]) ==> word_len(s) > 0,
        forall|i: int| 0 <= i < word_len(s) ==> !is_space(#[trigger] s[i]),
        word_len(s) < s.len() ==> is_space(s[word_len(s) as int]),
    decreases s.len(),
{
    if s.len() > 0 && !is_space(s[0]) {
        lemma_word_len_bound(s.drop_first());
        assert forall|i: int| 0 <= i < word_len(s) implies !is_space(#[trigger] s[i]) by {
            if i > 0 {
                assert(s[i] == s.drop_first()[i - 1]);
            }
        }
    }
}

/// Relies on `str::to_lowercase`: the result depends on the characters alone.
#[verifier::external_body]
fn lowercase(s: &str) -> (r: String)
    ensures
        r@ == lower_of(s@),
{
    s.to_lowercase()
}

fn copy_range(t: &Vec<char>, a: usize, b: usize) -> (r: String)
    requires
        a <= b <= t@.len(),
    ensures
        r@ == t@.subrange(a as int, b as int),
{
    let mut v: Vec<char> = Vec::new();
    let mut i = a;
    while i < b
        invariant
            a <= i <= b <= t@.len(),
            v@ == t@.subrange(a as int, i as int),
        decreases b - i,
    {
        v.push(t[i]);
        i = i + 1;
    }
    string_from_chars(&v)
}

fn trim_start_index(t: &Vec<char>, from: usize) -> (r: usize)
    requires
        from <= t@.len(),
    ensures
        from <= r <= t@.len(),
        trim_start(t@.skip(from as int)) == t@.skip(r as int),
{
    let mut a = from;
    while a < t.len() && is_space_exec(t[a])
        invariant
            from <= a <= t@.len(),
            trim_start(t@.skip(from as int)) == trim_start(t@.skip(a as int)),
        decreases t@.len() - a,
    {
        assert(t@.skip(a as int).drop_first() =~= t@.skip(a + 1));
        a = a + 1;
    }
    a
}

/// `text` without whitespace at either end.
pub fn trim(text: &str) -> (r: String)
    ensures
        r@ == trimmed(text@),
{
    let t = chars_of(text);
    let a = trim_start_index(&t, 0);
    assert(t@.skip(0) =~= t@);
    let mut b = t.len();
    while b > a && is_space_exec(t[b - 1])
        invariant
            a <= b <= t@.len(),
            trim_end(t@.skip(a as int)) == trim_end(t@.subrange(a as int, b as int)),
        decreases b,
    {
        assert(t@.subrange(a as int, b as int).drop_last() =~= t@.subrange(a as int, b - 1));
        b = b - 1;
    }
    assert(t@.skip(a as int) =~= t@.subrange(a as int, t@.len() as int));
    proof {
        let piece = t@.subrange(a as int, b as int);
        assert(piece.len() == 0 || !is_space(piece.last()));
    }
    copy_range(&t, a, b)
}

/// The whitespace-separated words of `text`, in order.
pub fn split_words(text: &str) -> (r: Vec<String>)
    ensures
        strings_view(r@) == words(text@),
{
    let t = chars_of(text);
    let mut out: Vec<String> = Vec::new();
    let mut p: usize = 0;
    assert(t@.skip(0) =~= t@);
    while p < t.len()
        invariant
            p <= t@.len(),
            strings_view(out@) + words(t@.skip(p as int)) == words(t@),
        decreases t@.len() - p,
    {
        let a = trim_start_index(&t, p);
        if a == t.len() {
            assert(words(t@.skip(p as int)) =~= seq![]);
            p = a;
            assert(words(t@.skip(p as int)) =~= seq![]);
        } else {
            let mut b = a;
            while b < t.len() && !is_space_exec(t[b])
                invariant
                    a <= b <= t@.len(),
                    word_len(t@.skip(a as int)) == (b - a) + word_len(t@.skip(b as int)),
                decreases t@.len() - b,
            {
                assert(t@.skip(b as int).drop_first() =~= t@.skip(b + 1));
                b = b + 1;
            }
            let w = copy_range(&t, a, b);
            proof {
                let rest = t@.skip(a as int);
                lemma_trim_start_len(t@.skip(p as int));
                assert(word_len(rest) == b - a);
                assert(rest.take((b - a) as int) =~= t@.subrange(a as int, b as int));
                assert(rest.skip((b - a) as int) =~= t@.skip(b as int));
                assert(strings_view(out@.push(w)) =~= strings_view(out@).push(w@));
            }
            out.push(w);
            p = b;
        }
    }
    proof {
        assert(t@.skip(p as int) =~= Seq::<char>::empty());
        assert(words(Seq::<char>::empty()) =~= seq![]);
    }
    out
}

/// What the trimmed line `line` asks for, given its lower-case form.
pub fn command_for(line: &str, lowered: &str) -> (r: ChatCommand)
    ensures
        r@ == command_of(line@, lowered@),
{
    let l = String::from_str(lowered);
    if l == String::from_str("quit") || l == String::from_str("exit") || l == String::from_str("bye") {
        ChatCommand::Quit
    } else if l == String::from_str("clear") {
        ChatCommand::Clear
    } else if l == String::from_str("history") {
        ChatCommand::History
    } else if lowered.unicode_len() == 0 {
        ChatCommand::Skip
    } else if has_prefix(line, "file ") {
        proof {
            reveal_strlit("file ");
        }
        let n = line.unicode_len();
        ChatCommand::AttachFile(trim(line.substring_char(5, n)))
    } else if has_prefix(line, "files ") {
        proof {
            reveal_strlit("files ");
        }
        let n = line.unicode_len();
        ChatCommand::AttachFiles(split_words(line.substring_char(6, n)))
    } else {
        ChatCommand::Send(String::from_str(line))
    }
}

/// What a typed line asks for: it is trimmed, and its commands are
/// recognised whatever their case.
pub fn parse_command(input: &str) -> (r: ChatCommand)
    ensures
        r@ == command_of(trimmed(input@), lower_of(trimmed(input@))),
{
    let line = trim(input);
    let lowered = lowercase(line.as_str());
    command_for(line.as_str(), lowered.as_str())
}

/// An attached file that was read: its name and its text.
pub struct LoadedDocument {
    pub file_name: String,
    pub text: String,
}

/// The views of loaded documents: (file name, text).
pub open spec fn loaded_view(d: Seq<LoadedDocument>) -> Seq<(Seq<char>, Seq<char>)> {
    d.map_values(|x: LoadedDocument| (x.file_name@, x.text@))
}

/// One document inside a user message.
pub open spec fn document_part(name: Seq<char>, text: Seq<char>) -> Seq<char> {
    "\n--- Document: "@ + name + " ---\n"@ + text + "\n--- End of Document ---\n"@
}

/// The documents from the `i`-th on, each after a line break.
pub open spec fn document_parts(docs: Seq<(Seq<char>, Seq<char>)>, i: int) -> Seq<char>
    decreases docs.len() - i,
{
    if i < 0 || i >= docs.len() {
        seq![]
    } else {
        "\n"@ + document_part(docs[i].0, docs[i].1) + document_parts(docs, i + 1)
    }
}

/// The text of a user message: the question alone when no file was attached,
/// else the question followed by the documents that could be read.
pub open spec fn question_text(text: Seq<char>, attached: bool, docs: Seq<(Seq<char>, Seq<char>)>) -> Seq<
    char,
> {
    if attached {
        "User question: "@ + text + document_parts(docs, 0)
    } else {
        text
    }
}

/// The user message for `text`, with the documents read from the attached
/// files (`attached` tells whether any file was attached at all).
pub fn message_with_documents(text: &str, attached: bool, documents: &Vec<LoadedDocument>) -> (r:
    Message)
    ensures
        r@ == user_turn(question_text(text@, attached, loaded_view(documents@))),
{
    if !attached {
        return Message::user(String::from_str(text));
    }
    let ghost dv = loaded_view(documents@);
    let mut body = String::from_str("User question: ");
    body.append(text);
    let mut i: usize = 0;
    while i < documents.len()
        invariant
            i <= documents@.len(),
            dv == loaded_view(documents@),
            body@ + document_parts(dv, i as int) == "User question: "@ + text@ + document_parts(
                dv,
                0,
            ),
        decreases documents@.len() - i,
    {
        let d = &documents[i];
        assert(dv[i as int] == (d.file_name@, d.text@));
        let ghost before = body@;
        body.append("\n");
        body.append("\n--- Document: ");
        body.append(d.file_name.as_str());
        body.append(" ---\n");
        body.append(d.text.as_str());
        body.append("\n--- End of Document ---\n");
        assert(body@ + document_parts(dv, i + 1) =~= before + document_parts(dv, i as int));
        i = i + 1;
    }
    assert(body@ + document_parts(dv, i as int) =~= body@);
    Message::user(body)
}

/// How an attached file is read.
pub enum FileKind {
    /// Read as text.
    Text,
    /// A Word document, whose text is extracted.
    Docx,
    /// Any other file: only summarised.
    Binary,
}

/// The kind of a file with the lower-case extension `ext`.
pub open spec fn kind_of(ext: Seq<char>) -> FileKind {
    if ext == "txt"@ || ext == "md"@ || ext == "json"@ || ext == "xml"@ || ext == "csv"@ || ext
        == "html"@ || ext == "htm"@ {
        FileKind::Text
    } else if ext == "docx"@ {
        FileKind::Docx
    } else {
        FileKind::Binary
    }
}

/// The kind of a file with extension `extension`, whatever its case.
pub fn file_kind(extension: &str) -> (r: FileKind)
    ensures
        r == kind_of(lower_of(extension@)),
{
    let e = lowercase(extension);
    if e == String::from_str("txt") || e == String::from_str("md") || e == String::from_str("json")
        || e == String::from_str("xml") || e == String::from_str("csv") || e == String::from_str(
        "html",
    ) || e == String::from_str("htm") {
        FileKind::Text
    } else if e == String::from_str("docx") {
        FileKind::Docx
    } else {
        FileKind::Binary
    }
}

/// The texts of the text blocks among `blocks`, in order.
pub open spec fn block_texts(blocks: Seq<BlockView>) -> Seq<Seq<char>>
    decreases blocks.len(),
{
    if blocks.len() == 0 {
        seq![]
    } else {
        let rest = block_texts(blocks.drop_last());
        match blocks.last() {
            BlockView::Text(t) => rest.push(t),
            _ => rest,
        }
    }
}

/// `parts` joined with single spaces.
pub open spec fn joined(parts: Seq<Seq<char>>) -> Seq<char>
    decreases parts.len(),
{
    if parts.len() == 0 {
        seq![]
    } else if parts.len() == 1 {
        parts[0]
    } else {
        joined(parts.drop_last()) + " "@ + parts.last()
    }
}

/// The text shown for a message in the history: its text, or the texts of its
/// text blocks joined with spaces.
pub open spec fn preview_of(c: ContentView) -> Seq<char> {
    match c {
        ContentView::Text(t) => t,
        ContentView::Multimodal(blocks) => joined(block_texts(blocks)),
    }
}

/// The text shown for a message's content in the history.
pub fn content_preview(content: &MessageContent) -> (r: String)
    ensures
        r@ == preview_of(content@),
{
    match content {
        MessageContent::Text(t) => t.clone(),
        MessageContent::Multimodal(blocks) => {
            let ghost bv = blocks_view(blocks@);
            let mut out = String::new();
            let ghost mut parts: Seq<Seq<char>> = seq![];
            let mut any = false;
            let mut i: usize = 0;
            while i < blocks.len()
                invariant
                    i <= blocks@.len(),
                    bv == blocks_view(blocks@),
                    *content == MessageContent::Multimodal(*blocks),
                    parts == block_texts(bv.take(i as int)),
                    any == (parts.len() > 0),
                    out@ == joined(parts),
                decreases blocks@.len() - i,
            {
                assert(bv.take(i + 1).drop_last() =~= bv.take(i as int));
                assert(bv.take(i + 1).last() == blocks@[i as int]@);
                match &blocks[i] {
                    ContentBlock::Text { text } => {
                        if any {
                            out.append(" ");
                        }
                        out.append(text.as_str());
                        any = true;
                        proof {
                            parts = parts.push(text@);
                            assert(parts.drop_last() =~= block_texts(bv.take(i as int)));
                        }
                    },
                    ContentBlock::Document { .. } => {},
                }
                i = i + 1;
            }
            assert(bv.take(i as int) =~= bv);
            out
        },
    }
}

/// The character of the decimal digit `d`.
pub open spec fn digit_char(d: nat) -> char {
    if d == 0 { '0' } else if d == 1 { '1' } else if d == 2 { '2' } else if d == 3 { '3' }
    else if d == 4 { '4' } else if d == 5 { '5' } else if d == 6 { '6' } else if d == 7 { '7' }
    else if d == 8 { '8' } else { '9' }
}

/// The decimal digits of `n`.
pub open spec fn decimal(n: nat) -> Seq<char>
    decreases n,
{
    if n < 10 {
        seq![digit_char(n)]
    } else {
        decimal(n / 10).push(digit_char(n % 10))
    }
}

fn digit_char_exec(d: u64) -> (r: char)
    requires
        d < 10,
    ensures
        r == digit_char(d as nat),
{
    if d == 0 { '0' } else if d == 1 { '1' } else if d == 2 { '2' } else if d == 3 { '3' }
    else if d == 4 { '4' } else if d == 5 { '5' } else if d == 6 { '6' } else if d == 7 { '7' }
    else if d == 8 { '8' } else { '9' }
}

fn decimal_chars(n: u64) -> (r: Vec<char>)
    ensures
        r@ == decimal(n as nat),
    decreases n,
{
    if n < 10 {
        let mut v: Vec<char> = Vec::new();
        v.push(digit_char_exec(n));
        assert(v@ =~= seq![digit_char(n as nat)]);
        v
    } else {
        let mut v = decimal_chars(n / 10);
        v.push(digit_char_exec(n % 10));
        v
    }
}

/// `n` written in decimal.
pub fn decimal_text(n: u64) -> (r: String)
    ensures
        r@ == decimal(n as nat),
{
    string_from_chars(&decimal_chars(n))
}

/// The text that stands for a file that is only summarised.
pub open spec fn binary_summary(name: Seq<char>, size: nat, extension: Seq<char>) -> Seq<char> {
    "[Binary file: "@ + name + " ("@ + decimal(size) + " bytes, type: "@ + extension + ")]"@
}

/// The text that stands for a Word document whose text could not be read.
pub open spec fn docx_failure_summary(name: Seq<char>, size: nat, error: Seq<char>) -> Seq<char> {
    "[DOCX file: "@ + name + " ("@ + decimal(size) + " bytes) - Text extraction failed: "@ + error
        + "]"@
}

/// The text that stands for a file that is only summarised.
pub fn binary_file_summary(name: &str, size: u64, extension: &str) -> (r: String)
    ensures
        r@ == binary_summary(name@, size as nat, extension@),
{
    let mut r = String::from_str("[Binary file: ");
    r.append(name);
    r.append(" (");
    let digits = decimal_text(size);
    r.append(digits.as_str());
    r.append(" bytes, type: ");
    r.append(extension);
    r.append(")]");
    r
}

/// The text that stands for a Word document whose text could not be read.
pub fn docx_failure_text(name: &str, size: u64, error: &str) -> (r: String)
    ensures
        r@ == docx_failure_summary(name@, size as nat, error@),
{
    let mut r = String::from_str("[DOCX file: ");
    r.append(name);
    r.append(" (");
    let digits = decimal_text(size);
    r.append(digits.as_str());
    r.append(" bytes) - Text extraction failed: ");
    r.append(error);
    r.append("]");
    r
}

} // verus!
