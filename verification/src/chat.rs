//! The messages of a chat request, as far as image generation reads them.
use vstd::prelude::*;

verus! {

/// Who wrote a chat message.
#[derive(Clone, Copy, Debug, PartialEq, Eq, Structural)]
pub enum Role {
    User,
    Assistant,
    /// Anyone else.
    Other,
}

/// One block of a chat message.
#[derive(Debug, PartialEq, Eq)]
pub enum ContentBlock {
    Text { text: String },
    /// A block that holds no prompt text, such as a tool call or an image.
    Other,
}

/// One chat message.
#[derive(Debug, PartialEq, Eq)]
pub struct Message {
    pub role: Role,
    pub content: Vec<ContentBlock>,
}

/// What a [`ContentBlock`] says: its text, where it has one.
pub open spec fn block_text(block: ContentBlock) -> Option<Seq<char>> {
    match block {
        ContentBlock::Text { text } => Some(text@),
        ContentBlock::Other => None,
    }
}

/// What a [`Message`] says.
pub struct MessageView {
    pub role: Role,
    pub blocks: Seq<Option<Seq<char>>>,
}

impl View for Message {
    type V = MessageView;

    open spec fn view(&self) -> MessageView {
        MessageView {
            role: self.role,
            blocks: self.content@.map_values(|block: ContentBlock| block_text(block)),
        }
    }
}

/// What a sequence of messages says, one by one.
pub open spec fn conversation(messages: Seq<Message>) -> Seq<MessageView> {
    messages.map_values(|message: Message| message@)
}

fn text_message(role: Role, text: &str) -> (message: Message)
    ensures
        message@ == (MessageView { role, blocks: seq![Some(text@)] }),
{
    let mut content: Vec<ContentBlock> = Vec::new();
    content.push(ContentBlock::Text { text: text.to_owned() });
    let message = Message { role, content };
    assert(message@.blocks =~= seq![Some(text@)]);
    message
}

impl Message {
    /// A message of the user with one text block.
    pub fn user(text: &str) -> (message: Self)
        ensures
            message@ == (MessageView { role: Role::User, blocks: seq![Some(text@)] }),
    {
        text_message(Role::User, text)
    }

    /// A message of the assistant with one text block.
    pub fn assistant_text(text: &str) -> (message: Self)
        ensures
            message@ == (MessageView { role: Role::Assistant, blocks: seq![Some(text@)] }),
    {
        text_message(Role::Assistant, text)
    }
}

/// The views of messages say what they hold: the text of each block that has one,
/// in order, and who wrote it.
pub proof fn law_views_say_what_messages_hold(
    message: Message,
    messages: Seq<Message>,
    text: String,
    i: int,
)
    ensures
        block_text(ContentBlock::Text { text }) == Some(text@),
        block_text(ContentBlock::Other) is None,
        message@.role == message.role,
        message@.blocks.len() == message.content@.len(),
        0 <= i < message.content@.len() ==> message@.blocks[i] == block_text(message.content@[i]),
        conversation(messages).len() == messages.len(),
        0 <= i < messages.len() ==> conversation(messages)[i] == messages[i]@,
{
}

} // verus!
