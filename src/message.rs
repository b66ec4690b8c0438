//! Conversation turns and their content.
use vstd::prelude::*;

verus! {

/// Where an attached document's bytes come from.
pub struct DocumentSource {
    pub source_type: String,
    pub media_type: String,
    pub data: String,
}

/// One block of a multimodal message.
pub enum ContentBlock {
    Text { text: String },
    Document { source: DocumentSource },
}

/// The content of a message: plain text, or a list of blocks.
pub enum MessageContent {
    Text(String),
    Multimodal(Vec<ContentBlock>),
}

/// One turn of a conversation; `role` is "user" or "assistant".
pub struct Message {
    pub role: String,
    pub content: MessageContent,
}

/// A content block as plain values.
pub enum BlockView {
    Text(Seq<char>),
    Document(Seq<char>, Seq<char>, Seq<char>),
}

/// Message content as plain values.
pub enum ContentView {
    Text(Seq<char>),
    Multimodal(Seq<BlockView>),
}

/// A message as plain values: (role, content).
pub type MessageView = (Seq<char>, ContentView);

impl View for ContentBlock {
    type V = BlockView;

    open spec fn view(&self) -> BlockView {
        match self {
            ContentBlock::Text { text } => BlockView::Text(text@),
            ContentBlock::Document { source } => BlockView::Document(
                source.source_type@,
                source.media_type@,
                source.data@,
            ),
        }
    }
}

/// The views of a sequence of blocks.
pub open spec fn blocks_view(v: Seq<ContentBlock>) -> Seq<BlockView> {
    v.map_values(|b: ContentBlock| b@)
}

impl View for MessageContent {
    type V = ContentView;

    open spec fn view(&self) -> ContentView {
        match self {
            MessageContent::Text(t) => ContentView::Text(t@),
            MessageContent::Multimodal(blocks) => ContentView::Multimodal(blocks_view(blocks@)),
        }
    }
}

impl View for Message {
    type V = MessageView;

    open spec fn view(&self) -> MessageView {
        (self.role@, self.content@)
    }
}

/// The views of a sequence of messages.
pub open spec fn turns_view(v: Seq<Message>) -> Seq<MessageView> {
    v.map_values(|m: Message| m@)
}

/// A user turn with plain text.
pub open spec fn user_turn(text: Seq<char>) -> MessageView {
    ("user"@, ContentView::Text(text))
}

/// An assistant turn with plain text.
pub open spec fn assistant_turn(text: Seq<char>) -> MessageView {
    ("assistant"@, ContentView::Text(text))
}

impl ContentBlock {
    /// An independent copy of the block.
    pub fn deep_copy(&self) -> (r: ContentBlock)
        ensures
            r@ == self@,
    {
        match self {
            ContentBlock::Text { text } => ContentBlock::Text { text: text.clone() },
            ContentBlock::Document { source } => ContentBlock::Document {
                source: DocumentSource {
                    source_type: source.source_type.clone(),
                    media_type: source.media_type.clone(),
                    data: source.data.clone(),
                },
            },
        }
    }
}

impl MessageContent {
    /// An independent copy of the content.
    pub fn deep_copy(&self) -> (r: MessageContent)
        ensures
            r@ == self@,
    {
        match self {
            MessageContent::Text(t) => MessageContent::Text(t.clone()),
            MessageContent::Multimodal(blocks) => {
                let mut out: Vec<ContentBlock> = Vec::new();
                let mut i: usize = 0;
                while i < blocks.len()
                    invariant
                        i <= blocks@.len(),
                        blocks_view(out@) =~= blocks_view(blocks@).take(i as int),
                    decreases blocks@.len() - i,
                {
                    let b = blocks[i].deep_copy();
                    proof {
                        assert(blocks_view(out@.push(b)) =~= blocks_view(out@).push(b@));
                    }
                    out.push(b);
                    i = i + 1;
                }
                assert(blocks_view(out@) =~= blocks_view(blocks@));
                MessageContent::Multimodal(out)
            },
        }
    }
}

impl Message {
    /// A user turn holding `text`.
    pub fn user(text: String) -> (r: Message)
        ensures
            r@ == user_turn(text@),
    {
        Message { role: String::from_str("user"), content: MessageContent::Text(text) }
    }

    /// An assistant turn holding `text`.
    pub fn assistant(text: String) -> (r: Message)
        ensures
            r@ == assistant_turn(text@),
    {
        Message { role: String::from_str("assistant"), content: MessageContent::Text(text) }
    }

    /// An independent copy of the message.
    pub fn deep_copy(&self) -> (r: Message)
        ensures
            r@ == self@,
    {
        Message { role: self.role.clone(), content: self.content.deep_copy() }
    }
}

/// Copies of all the messages, in order.
pub fn copy_turns(turns: &Vec<Message>) -> (r: Vec<Message>)
    ensures
        turns_view(r@) == turns_view(turns@),
{
    let mut out: Vec<Message> = Vec::new();
    let mut i: usize = 0;
    while i < turns.len()
        invariant
            i <= turns@.len(),
            turns_view(out@) =~= turns_view(turns@).take(i as int),
        decreases turns@.len() - i,
    {
        let m = turns[i].deep_copy();
        proof {
            assert(turns_view(out@.push(m)) =~= turns_view(out@).push(m@));
        }
        out.push(m);
        i = i + 1;
    }
    assert(turns_view(out@) =~= turns_view(turns@));
    out
}

} // verus!
