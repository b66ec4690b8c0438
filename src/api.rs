//! The values exchanged with the HTTP front end.
use vstd::prelude::*;
use crate::extract::DocumentReference;

verus! {

/// A chat turn request: the user's message and, optionally, the conversation.
pub struct ChatRequest {
    pub message: String,
    pub conversation_id: Option<String>,
}

/// The answer to a chat turn.
pub struct ChatResponse {
    pub response: String,
    pub conversation_id: String,
    pub input_tokens: u32,
    pub output_tokens: u32,
    pub document_references: Vec<DocumentReference>,
}

/// A request for the turns of a conversation.
pub struct ConversationQuery {
    pub id: Option<String>,
}

/// A request to fetch a document version into a conversation.
pub struct DocumentQuery {
    pub document_id: String,
    pub version_id: String,
    pub conversation_id: Option<String>,
}

/// The answer to a document fetch.
pub struct DocumentResponse {
    pub success: bool,
    pub document_id: String,
    pub version_id: String,
    pub content: Option<String>,
    pub binaries: Option<Vec<String>>,
    pub error: Option<String>,
    pub conversation_id: String,
}

/// The error text for a document fetch answered with a non-success status.
pub open spec fn status_error(code: u16, status_text: Seq<char>, reason: Option<Seq<char>>) -> Seq<
    char,
> {
    if code == 401 {
        "Authentication failed - please check your PRODOCTIVITY_TOKEN"@
    } else if code == 403 {
        "Access forbidden - insufficient permissions"@
    } else if code == 404 {
        "Document not found"@
    } else {
        "HTTP error: "@ + status_text + " - "@ + match reason {
            Some(r) => r,
            None => "Unknown error"@,
        }
    }
}

/// The error text for a document fetch answered with status `code`;
/// `status_text` is the status as displayed and `reason` its canonical reason.
pub fn http_error_message(code: u16, status_text: &str, reason: Option<&str>) -> (r: String)
    ensures
        r@ == status_error(
            code,
            status_text@,
            match reason {
                Some(x) => Some(x@),
                None => None,
            },
        ),
{
    if code == 401 {
        String::from_str("Authentication failed - please check your PRODOCTIVITY_TOKEN")
    } else if code == 403 {
        String::from_str("Access forbidden - insufficient permissions")
    } else if code == 404 {
        String::from_str("Document not found")
    } else {
        let mut r = String::from_str("HTTP error: ");
        r.append(status_text);
        r.append(" - ");
        match reason {
            Some(x) => r.append(x),
            None => r.append("Unknown error"),
        }
        r
    }
}

impl DocumentResponse {
    /// A failed fetch; the conversation id is the requested one, or empty.
    pub fn failure(query: DocumentQuery, error: String) -> (r: DocumentResponse)
        ensures
            !r.success,
            r.document_id == query.document_id,
            r.version_id == query.version_id,
            r.content is None,
            r.binaries is None,
            r.error == Some(error),
            query.conversation_id matches Some(c) ==> r.conversation_id == c,
            query.conversation_id is None ==> r.conversation_id@ == Seq::<char>::empty(),
    {
        let DocumentQuery { document_id, version_id, conversation_id } = query;
        let conversation_id = match conversation_id {
            Some(c) => c,
            None => String::new(),
        };
        DocumentResponse {
            success: false,
            document_id,
            version_id,
            content: None,
            binaries: None,
            error: Some(error),
            conversation_id,
        }
    }

    /// A successful fetch, added to conversation `conversation_id`.
    pub fn fetched(
        query: DocumentQuery,
        content: Option<String>,
        binaries: Option<Vec<String>>,
        conversation_id: String,
    ) -> (r: DocumentResponse)
        ensures
            r.success,
            r.document_id == query.document_id,
            r.version_id == query.version_id,
            r.content == content,
            r.binaries == binaries,
            r.error is None,
            r.conversation_id == conversation_id,
    {
        DocumentResponse {
            success: true,
            document_id: query.document_id,
            version_id: query.version_id,
            content,
            binaries,
            error: None,
            conversation_id,
        }
    }
}

/// Command-line options of the service.
pub struct Args {
    pub region: String,
    pub web: bool,
    pub port: u16,
}

impl Default for Args {
    fn default() -> (r: Args)
        ensures
            r.region@ == "us-east-1"@,
            !r.web,
            r.port == 3000,
    {
        Args { region: String::from_str("us-east-1"), web: false, port: 3000 }
    }
}

} // verus!
