//! The system prompt that frames every conversation.
use vstd::prelude::*;

verus! {

/// The system prompt built around the client's file context.
pub open spec fn context_prompt(context: Seq<char>) -> Seq<char> {
    "You are an AI assistant specialized in analyzing financial and legal documents. \
    You have access to a comprehensive document collection for a client. \
    Here is the complete context of the client's file:\n\n"@ + context
        + "\n\n\
    IMPORTANT INSTRUCTIONS:\n\
    - When referencing any document, ALWAYS include the document ID and document version ID (documentId and documentVersionId fields) in your response\n\
    - Format document references like: [Document ID: 68371449b15db0ce743c25b3, Document Version ID: 68371449b15db0ce743c25b3]\n\
    - If discussing multiple documents, list all relevant document IDs\n\
    - Use this information to provide accurate, detailed responses about the client's\n\
    - Please respond in the same language as the question or inquiry."@
}

/// The system prompt used when no context could be read.
pub open spec fn plain_prompt() -> Seq<char> {
    "You are an AI assistant specialized in analyzing financial and legal documents. \
    Always include document IDs when referencing specific documents. \
    IMPORTANT: When referencing documents, always include both Document ID and Document Version ID in this exact format: \
    Document ID: [24-character hex ID] \
    Document Version ID: [24-character hex ID] \
    Use this format regardless of the language you respond in."@
}

/// The system prompt: built around `context` when there is one, else the
/// plain prompt that still asks for citations in the expected format.
pub fn system_prompt(context: Option<&str>) -> (r: String)
    ensures
        r@ == match context {
            Some(c) => context_prompt(c@),
            None => plain_prompt(),
        },
{
    match context {
        Some(c) => {
            let mut r = String::from_str(
                "You are an AI assistant specialized in analyzing financial and legal documents. \
                You have access to a comprehensive document collection for a client. \
                Here is the complete context of the client's file:\n\n",
            );
            r.append(c);
            r.append(
                "\n\n\
                IMPORTANT INSTRUCTIONS:\n\
                - When referencing any document, ALWAYS include the document ID and document version ID (documentId and documentVersionId fields) in your response\n\
                - Format document references like: [Document ID: 68371449b15db0ce743c25b3, Document Version ID: 68371449b15db0ce743c25b3]\n\
                - If discussing multiple documents, list all relevant document IDs\n\
                - Use this information to provide accurate, detailed responses about the client's\n\
                - Please respond in the same language as the question or inquiry.",
            );
            r
        },
        None => String::from_str(
            "You are an AI assistant specialized in analyzing financial and legal documents. \
            Always include document IDs when referencing specific documents. \
            IMPORTANT: When referencing documents, always include both Document ID and Document Version ID in this exact format: \
            Document ID: [24-character hex ID] \
            Document Version ID: [24-character hex ID] \
            Use this format regardless of the language you respond in.",
        ),
    }
}

} // verus!
