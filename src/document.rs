//! Turning a fetched document into a conversation turn: PDF payloads are
//! picked out and decoded, the text that the caller extracted from each is
//! framed, and every part is cut to a ceiling with a visible notice, so that
//! the model is never handed partial data silently.
use vstd::prelude::*;
use crate::message::{user_turn, Message};
use crate::store::{windowed, ConversationStore};
use crate::extract::strings_view;
use crate::text::{blank, clip, clipped, has_prefix, is_blank, starts_with};

verus! {

/// The prefix that marks a base64 PDF payload.
pub open spec fn pdf_data_prefix() -> Seq<char> {
    "data:application/pdf;base64,"@
}

/// The most characters of a PDF's text that are kept.
pub const PDF_TEXT_LIMIT: usize = 50000;

/// The most characters of metadata kept when no PDF text came before it.
pub const METADATA_LIMIT: usize = 10000;

/// The most characters of metadata kept after PDF text.
pub const METADATA_AFTER_PDF_LIMIT: usize = 5000;

/// The most characters of a whole injected message.
pub const MESSAGE_LIMIT: usize = 100000;

/// How many turns a conversation keeps when a document is added to it.
pub const HISTORY_WINDOW: usize = 10;

/// What stands in for the text of a PDF that holds none.
pub open spec fn no_text_notice() -> Seq<char> {
    "📄 PDF document processed but no extractable text content found. This may be a scanned document or contain only images."@
}

/// The bytes that base64's standard engine decodes from `text`, or the
/// description of its error.
pub uninterp spec fn base64_standard_decode(text: Seq<char>) -> Result<Seq<u8>, Seq<char>>;

/// Relies on `base64::engine::general_purpose::STANDARD.decode`: the decoded
/// bytes, or the `Display` text of its error, both depending on `text` alone.
#[verifier::external_body]
fn decode_base64(text: &str) -> (r: Result<Vec<u8>, String>)
    ensures
        match r {
            Ok(b) => base64_standard_decode(text@) == Ok::<Seq<u8>, Seq<char>>(b@),
            Err(m) => base64_standard_decode(text@) == Err::<Seq<u8>, Seq<char>>(m@),
        },
{
    match base64::Engine::decode(&base64::engine::general_purpose::STANDARD, text) {
        Ok(bytes) => Ok(bytes),
        Err(e) => Err(e.to_string()),
    }
}

/// The views of a string result.
pub open spec fn result_view(r: Result<String, String>) -> Result<Seq<char>, Seq<char>> {
    match r {
        Ok(t) => Ok(t@),
        Err(e) => Err(e@),
    }
}

/// The base64 part of a payload: what follows the PDF prefix, if present.
pub open spec fn pdf_payload(data: Seq<char>) -> Seq<char> {
    if starts_with(data, pdf_data_prefix()) {
        data.skip(pdf_data_prefix().len() as int)
    } else {
        data
    }
}

/// What is kept of an extracted PDF text: the text, or a notice when blank.
pub open spec fn text_or_notice(t: Seq<char>) -> Seq<char> {
    if is_blank(t) {
        no_text_notice()
    } else {
        t
    }
}

/// The bytes of a base64 PDF payload, or why they could not be decoded.
pub open spec fn decoded_payload(data: Seq<char>) -> Result<Seq<u8>, Seq<char>> {
    match base64_standard_decode(pdf_payload(data)) {
        Err(m) => Err("Failed to decode base64: "@ + m),
        Ok(bytes) => Ok(bytes),
    }
}

/// What is kept of a PDF text extraction: the text (or a notice when it is
/// blank), or the extraction's error with what failed in front.
pub open spec fn extracted_text(raw: Result<Seq<char>, Seq<char>>) -> Result<Seq<char>, Seq<char>> {
    match raw {
        Err(m) => Err("Failed to extract text from PDF: "@ + m),
        Ok(t) => Ok(text_or_notice(t)),
    }
}

/// The text of an extracted PDF, or a notice in its place when it is blank.
pub fn pdf_text_or_notice(text: String) -> (r: String)
    ensures
        r@ == text_or_notice(text@),
{
    if blank(text.as_str()) {
        String::from_str(
            "📄 PDF document processed but no extractable text content found. This may be a scanned document or contain only images.",
        )
    } else {
        text
    }
}

/// Decodes a base64 PDF payload, with or without its data-URL prefix.
pub fn decode_pdf_payload(base64_data: &str) -> (r: Result<Vec<u8>, String>)
    ensures
        match r {
            Ok(b) => decoded_payload(base64_data@) == Ok::<Seq<u8>, Seq<char>>(b@),
            Err(m) => decoded_payload(base64_data@) == Err::<Seq<u8>, Seq<char>>(m@),
        },
{
    let payload = if has_prefix(base64_data, "data:application/pdf;base64,") {
        let n = base64_data.unicode_len();
        proof {
            reveal_strlit("data:application/pdf;base64,");
        }
        let rest = base64_data.substring_char(28, n);
        assert(rest@ =~= pdf_payload(base64_data@));
        rest
    } else {
        base64_data
    };
    match decode_base64(payload) {
        Err(m) => {
            let mut e = String::from_str("Failed to decode base64: ");
            e.append(m.as_str());
            Err(e)
        },
        Ok(bytes) => Ok(bytes),
    }
}

/// What is kept of a PDF text extraction, from what the extraction returned:
/// the text or a notice in its place, or the error described.
pub fn finish_pdf_text(raw: Result<String, String>) -> (r: Result<String, String>)
    ensures
        result_view(r) == extracted_text(result_view(raw)),
{
    match raw {
        Err(m) => {
            let mut e = String::from_str("Failed to extract text from PDF: ");
            e.append(m.as_str());
            Err(e)
        },
        Ok(t) => Ok(pdf_text_or_notice(t)),
    }
}

/// The part of the injected message for one PDF payload.
pub open spec fn pdf_section(r: Result<Seq<char>, Seq<char>>) -> Seq<char> {
    match r {
        Ok(t) => "📄 PDF Content:\n"@ + clipped(
            t,
            PDF_TEXT_LIMIT as nat,
            "...\n\n[Content truncated - PDF is very long. Showing first 50,000 characters]"@,
        ) + "\n\n"@,
        Err(e) => "📄 PDF document detected but failed to extract text: "@ + e + "\n\n"@,
    }
}

/// The payloads from the `i`-th on that carry the PDF prefix, in order.
pub open spec fn pdf_payloads_from(binaries: Seq<Seq<char>>, i: int) -> Seq<Seq<char>>
    decreases binaries.len() - i,
{
    if i < 0 || i >= binaries.len() {
        seq![]
    } else if starts_with(binaries[i], pdf_data_prefix()) {
        seq![binaries[i]] + pdf_payloads_from(binaries, i + 1)
    } else {
        pdf_payloads_from(binaries, i + 1)
    }
}

/// The PDF parts for the extraction results from the `i`-th on.
pub open spec fn pdf_sections(results: Seq<Result<Seq<char>, Seq<char>>>, i: int) -> Seq<char>
    decreases results.len() - i,
{
    if i < 0 || i >= results.len() {
        seq![]
    } else {
        pdf_section(results[i]) + pdf_sections(results, i + 1)
    }
}

/// The views of a sequence of string results.
pub open spec fn results_view(v: Seq<Result<String, String>>) -> Seq<Result<Seq<char>, Seq<char>>> {
    v.map_values(|r: Result<String, String>| result_view(r))
}

/// The metadata part, cut to `limit` characters.
pub open spec fn metadata_section(metadata: Seq<char>, limit: nat) -> Seq<char> {
    "📋 Document Metadata:\n"@ + clipped(metadata, limit, "...\n\n[Metadata truncated]"@) + "\n\n"@
}

/// The document's content: the PDF parts, then the metadata, which is cut
/// shorter when PDF text came before it.
pub open spec fn context_body(sections: Seq<char>, metadata: Option<Seq<char>>) -> Seq<char> {
    match metadata {
        None => sections,
        Some(m) => sections + metadata_section(
            m,
            if sections.len() == 0 {
                METADATA_LIMIT as nat
            } else {
                METADATA_AFTER_PDF_LIMIT as nat
            },
        ),
    }
}

/// The whole injected message, cut to its ceiling.
pub open spec fn document_message(document_id: Seq<char>, version_id: Seq<char>, body: Seq<char>) -> Seq<
    char,
> {
    clipped(
        "Document fetched and added to context:\n\nDocument ID: "@ + document_id
            + "\nDocument Version ID: "@ + version_id + "\n\n"@ + body,
        MESSAGE_LIMIT as nat,
        "...\n\n[Message truncated to prevent token limit exceeded]"@,
    )
}

/// The part of the injected message for one PDF payload, from what its
/// extraction gave.
pub fn pdf_section_text(extracted: &Result<String, String>) -> (r: String)
    ensures
        r@ == pdf_section(result_view(*extracted)),
{
    match extracted {
        Ok(t) => {
            let mut r = String::from_str("📄 PDF Content:\n");
            let body = clip(
                t.as_str(),
                PDF_TEXT_LIMIT,
                "...\n\n[Content truncated - PDF is very long. Showing first 50,000 characters]",
            );
            r.append(body.as_str());
            r.append("\n\n");
            r
        },
        Err(e) => {
            let mut r = String::from_str("📄 PDF document detected but failed to extract text: ");
            r.append(e.as_str());
            r.append("\n\n");
            r
        },
    }
}

/// The injected message for a document, from its PDF parts and its metadata.
pub fn compose_document_message(
    document_id: &str,
    version_id: &str,
    sections: &str,
    metadata: &Option<String>,
) -> (r: String)
    ensures
        r@ == document_message(
            document_id@,
            version_id@,
            context_body(
                sections@,
                match metadata {
                    Some(m) => Some(m@),
                    None => None,
                },
            ),
        ),
{
    let mut body = String::from_str(sections);
    match metadata {
        Some(m) => {
            let limit = if sections.unicode_len() == 0 {
                METADATA_LIMIT
            } else {
                METADATA_AFTER_PDF_LIMIT
            };
            body.append("📋 Document Metadata:\n");
            let kept = clip(m.as_str(), limit, "...\n\n[Metadata truncated]");
            body.append(kept.as_str());
            body.append("\n\n");
        },
        None => {},
    }
    let mut message = String::from_str("Document fetched and added to context:\n\nDocument ID: ");
    message.append(document_id);
    message.append("\nDocument Version ID: ");
    message.append(version_id);
    message.append("\n\n");
    message.append(body.as_str());
    clip(
        message.as_str(),
        MESSAGE_LIMIT,
        "...\n\n[Message truncated to prevent token limit exceeded]",
    )
}

/// The PDF payloads among a document's binaries: those with the PDF prefix,
/// in order.
pub fn pdf_payloads(binaries: &Option<Vec<String>>) -> (r: Vec<String>)
    ensures
        strings_view(r@) == match binaries {
            Some(b) => pdf_payloads_from(strings_view(b@), 0),
            None => seq![],
        },
{
    let mut out: Vec<String> = Vec::new();
    match binaries {
        Some(bs) => {
            let ghost bv = strings_view(bs@);
            let mut i: usize = 0;
            while i < bs.len()
                invariant
                    i <= bs@.len(),
                    bv == strings_view(bs@),
                    strings_view(out@) + pdf_payloads_from(bv, i as int) == pdf_payloads_from(bv, 0),
                decreases bs@.len() - i,
            {
                assert(bv[i as int] == bs@[i as int]@);
                if has_prefix(bs[i].as_str(), "data:application/pdf;base64,") {
                    let c = bs[i].clone();
                    assert(strings_view(out@.push(c)) =~= strings_view(out@).push(c@));
                    assert(strings_view(out@).push(c@) + pdf_payloads_from(bv, i + 1) =~= strings_view(out@)
                        + (seq![c@] + pdf_payloads_from(bv, i + 1)));
                    out.push(c);
                }
                i = i + 1;
            }
            assert(strings_view(out@) + pdf_payloads_from(bv, i as int) =~= strings_view(out@));
        },
        None => {
            assert(strings_view(out@) =~= seq![]);
        },
    }
    out
}

/// The injected message for a document: the part for each PDF extraction
/// result, in order, then its metadata, all within their ceilings.
pub fn document_context_message(
    document_id: &str,
    version_id: &str,
    extracted: &Vec<Result<String, String>>,
    metadata: &Option<String>,
) -> (r: String)
    ensures
        r@ == document_message(
            document_id@,
            version_id@,
            context_body(
                pdf_sections(results_view(extracted@), 0),
                match metadata {
                    Some(m) => Some(m@),
                    None => None,
                },
            ),
        ),
{
    let mut sections = String::new();
    let ghost rv = results_view(extracted@);
    let mut i: usize = 0;
    while i < extracted.len()
        invariant
            i <= extracted@.len(),
            rv == results_view(extracted@),
            sections@ + pdf_sections(rv, i as int) == pdf_sections(rv, 0),
        decreases extracted@.len() - i,
    {
        assert(rv[i as int] == result_view(extracted@[i as int]));
        let part = pdf_section_text(&extracted[i]);
        assert(sections@ + part@ + pdf_sections(rv, i + 1) =~= sections@ + (part@ + pdf_sections(
            rv,
            i + 1,
        )));
        sections.append(part.as_str());
        i = i + 1;
    }
    assert(sections@ + pdf_sections(rv, i as int) =~= sections@);
    compose_document_message(document_id, version_id, sections.as_str(), metadata)
}

/// Adds a document's message to conversation `id`: the conversation is first
/// cut to its latest turns, then the message is appended as a user turn.
pub fn inject_document(store: &mut ConversationStore, id: &str, message: String)
    ensures
        forall|x: Seq<char>|
            #[trigger] final(store).history(x) == if x == id@ {
                windowed(old(store).history(x), HISTORY_WINDOW as nat).push(user_turn(message@))
            } else {
                old(store).history(x)
            },
{
    store.trim_to_window(id, HISTORY_WINDOW);
    let ghost mid = *store;
    store.append(id, Message::user(message));
    assert forall|x: Seq<char>|
        #[trigger] store.history(x) == if x == id@ {
            windowed(old(store).history(x), HISTORY_WINDOW as nat).push(user_turn(message@))
        } else {
            old(store).history(x)
        } by {
        assert(mid.history(x) == if x == id@ {
            windowed(old(store).history(x), HISTORY_WINDOW as nat)
        } else {
            old(store).history(x)
        });
    }
}

} // verus!
