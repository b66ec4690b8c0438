//! One chat turn: the user's message is appended, the model is called with
//! the whole conversation, and the turn is then either committed with the
//! model's reply or rolled back.
use vstd::prelude::*;
use crate::extract::{cited_references, extract_document_references, refs_view, DocumentReference};
use crate::gateway::{ModelError, ModelReply};
use crate::message::{assistant_turn, copy_turns, turns_view, user_turn, Message};
use crate::store::{appended, rolled_back, ConversationStore};

verus! {

/// The result of a committed turn.
pub struct TurnResult {
    pub reply: String,
    pub input_tokens: u32,
    pub output_tokens: u32,
    pub references: Vec<DocumentReference>,
}

/// A lower-case hexadecimal digit.
pub open spec fn is_lower_hex(c: char) -> bool {
    ('0' <= c <= '9') || ('a' <= c <= 'f')
}

/// The text of a random (version 4) UUID: 8-4-4-4-12 lower-case hexadecimal
/// digits, version digit 4, and variant digit 8, 9, a or b.
pub open spec fn is_uuid_v4_text(s: Seq<char>) -> bool {
    &&& s.len() == 36
    &&& forall|i: int|
        0 <= i < 36 ==> if i == 8 || i == 13 || i == 18 || i == 23 {
            #[trigger] s[i] == '-'
        } else {
            is_lower_hex(s[i])
        }
    &&& s[14] == '4'
    &&& (s[19] == '8' || s[19] == '9' || s[19] == 'a' || s[19] == 'b')
}

/// Relies on `uuid::Uuid::new_v4`, which sets the version and variant bits
/// of random bits, and on its `Display`, which writes the hyphenated
/// lower-case form.
#[verifier::external_body]
fn fresh_conversation_id() -> (r: String)
    ensures
        is_uuid_v4_text(r@),
{
    uuid::Uuid::new_v4().to_string()
}

/// The conversation id a request names, or a fresh random one.
pub fn conversation_id_or_new(given: Option<String>) -> (r: String)
    ensures
        given matches Some(g) ==> r == g,
        given is None ==> is_uuid_v4_text(r@),
{
    match given {
        Some(g) => g,
        None => fresh_conversation_id(),
    }
}

/// Starts a turn of a conversation held by the caller: appends the user's
/// message and returns a copy of the whole conversation.
pub fn begin_local_turn(conversation: &mut Vec<Message>, message: Message) -> (r: Vec<Message>)
    ensures
        turns_view(final(conversation)@) == turns_view(old(conversation)@).push(message@),
        turns_view(r@) == turns_view(final(conversation)@),
{
    let ghost m = message@;
    conversation.push(message);
    assert(turns_view(conversation@) =~= turns_view(old(conversation)@).push(m));
    copy_turns(conversation)
}

/// Ends a turn of a conversation held by the caller: a reply is appended as
/// the assistant's turn and its text returned; a failure removes the latest
/// turn (the user's message) and is returned unchanged.
pub fn end_local_turn(conversation: &mut Vec<Message>, result: Result<ModelReply, ModelError>) -> (r:
    Result<String, ModelError>)
    ensures
        match result {
            Ok(reply) => {
                &&& turns_view(final(conversation)@) == turns_view(old(conversation)@).push(
                    assistant_turn(reply.text@),
                )
                &&& r matches Ok(t) && t@ == reply.text@
            },
            Err(e) => turns_view(final(conversation)@) == (if old(conversation)@.len() > 0 {
                turns_view(old(conversation)@).drop_last()
            } else {
                turns_view(old(conversation)@)
            }) && r == Err::<String, ModelError>(e),
        },
{
    match result {
        Ok(reply) => {
            let text = reply.text;
            let m = Message::assistant(text.clone());
            let ghost mv = m@;
            conversation.push(m);
            assert(turns_view(conversation@) =~= turns_view(old(conversation)@).push(mv));
            Ok(text)
        },
        Err(e) => {
            conversation.pop();
            assert(turns_view(conversation@) =~= if old(conversation)@.len() > 0 {
                turns_view(old(conversation)@).drop_last()
            } else {
                turns_view(old(conversation)@)
            });
            Err(e)
        },
    }
}

/// Starts a turn: appends the user's message to conversation `id` and returns
/// the whole conversation, to be sent to the model.
pub fn begin_turn(store: &mut ConversationStore, id: &str, message: String) -> (r: Vec<Message>)
    ensures
        appended(old(store), final(store), id@, user_turn(message@)),
        turns_view(r@) == final(store).history(id@),
{
    store.append(id, Message::user(message));
    store.snapshot(id)
}

/// Ends a turn with the model's result. A reply is appended as the
/// assistant's turn and returned with the references it cites; a failure
/// removes the user's message again and is returned unchanged.
pub fn finish_turn(
    store: &mut ConversationStore,
    id: &str,
    result: Result<ModelReply, ModelError>,
) -> (r: Result<TurnResult, ModelError>)
    ensures
        match result {
            Ok(reply) => {
                &&& appended(old(store), final(store), id@, assistant_turn(reply.text@))
                &&& r matches Ok(t) && t.reply@ == reply.text@ && t.input_tokens
                    == reply.input_tokens && t.output_tokens == reply.output_tokens && refs_view(
                    t.references@,
                ) == cited_references(reply.text@)
            },
            Err(e) => rolled_back(old(store), final(store), id@) && r == Err::<TurnResult, ModelError>(
                e,
            ),
        },
{
    match result {
        Ok(reply) => {
            let ModelReply { text, input_tokens, output_tokens } = reply;
            let references = extract_document_references(text.as_str());
            store.append(id, Message::assistant(text.clone()));
            Ok(TurnResult { reply: text, input_tokens, output_tokens, references })
        },
        Err(e) => {
            store.rollback_last(id);
            Err(e)
        },
    }
}

} // verus!
