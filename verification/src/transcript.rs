//! The transcript: the typed messages of a conversation, and how streamed text
//! and the live tool card grow them.
use crate::sequences::lemma_filter_all_or_none;
use crate::strings::{join, joined, string_of, texts, trim, trimmed};
use vstd::prelude::*;
use vstd::string::{StrSliceExecFns, StringExecFns};

verus! {

/// Who produced a message. Roles are styled, not labelled.
#[derive(Clone, Copy, Debug, PartialEq, Eq, Structural)]
pub enum Role {
    User,
    Assistant,
    /// The model's reasoning: shown, but visibly subordinate to the answer.
    Reasoning,
    /// The tool call that runs right now, shown as one line of what is being
    /// done: a live status line, not a log of past calls.
    Tool,
}

/// One turn of the conversation.
#[derive(Debug, PartialEq, Eq)]
pub struct Message {
    pub role: Role,
    /// Markdown source, kept raw so that a streaming message can be parsed
    /// again as it grows, and so that a copy yields what the model wrote.
    pub source: String,
    /// The tool call this message reports, when `role` is [`Role::Tool`].
    pub call_id: Option<String>,
}

/// What a [`Message`] says.
pub struct MessageView {
    pub role: Role,
    pub source: Seq<char>,
    pub call_id: Option<Seq<char>>,
}

impl View for Message {
    type V = MessageView;

    open spec fn view(&self) -> MessageView {
        MessageView { role: self.role, source: self.source@, call_id: string_of(self.call_id) }
    }
}

impl Clone for Message {
    fn clone(&self) -> (same: Self)
        ensures
            same == *self,
    {
        Message {
            role: self.role,
            source: self.source.clone(),
            call_id: self.call_id.clone(),
        }
    }
}

/// A message without a tool call.
pub open spec fn plain_message(role: Role, source: Seq<char>) -> MessageView {
    MessageView { role, source, call_id: None }
}

/// The card of a running tool call.
pub open spec fn tool_card(call_id: Seq<char>, label: Seq<char>) -> MessageView {
    MessageView { role: Role::Tool, source: label, call_id: Some(call_id) }
}

impl Message {
    pub fn user(source: &str) -> (message: Self)
        ensures
            message@ == plain_message(Role::User, source@),
    {
        Message { role: Role::User, source: source.to_owned(), call_id: None }
    }

    pub fn assistant(source: &str) -> (message: Self)
        ensures
            message@ == plain_message(Role::Assistant, source@),
    {
        Message { role: Role::Assistant, source: source.to_owned(), call_id: None }
    }

    pub fn reasoning(source: &str) -> (message: Self)
        ensures
            message@ == plain_message(Role::Reasoning, source@),
    {
        Message { role: Role::Reasoning, source: source.to_owned(), call_id: None }
    }

    pub fn tool(call_id: &str, label: &str) -> (message: Self)
        ensures
            message@ == tool_card(call_id@, label@),
    {
        Message { role: Role::Tool, source: label.to_owned(), call_id: Some(call_id.to_owned()) }
    }
}

/// The conversation. Streaming appends to the trailing assistant message rather
/// than pushing a new one per delta, so a reply is one block however many chunks
/// it arrived in.
#[derive(Debug, PartialEq, Eq)]
pub struct Transcript {
    messages: Vec<Message>,
}

/// What a sequence of messages says, one by one.
pub open spec fn spoken(messages: Seq<Message>) -> Seq<MessageView> {
    messages.map_values(|message: Message| message@)
}

impl View for Transcript {
    type V = Seq<MessageView>;

    closed spec fn view(&self) -> Seq<MessageView> {
        spoken(self.messages@)
    }
}

/// The last message is the live tool card.
pub open spec fn ends_in_card(messages: Seq<MessageView>) -> bool {
    messages.len() > 0 && messages.last().role == Role::Tool
}

/// Where streamed text goes: the end of the transcript, but before a live tool
/// card at the tail.
pub open spec fn text_tail(messages: Seq<MessageView>) -> int {
    if ends_in_card(messages) {
        messages.len() - 1
    } else {
        messages.len() as int
    }
}

/// The transcript after `text` of `role` streamed in: it continues the message
/// at the text tail where that one has the role, and starts a message there
/// otherwise.
pub open spec fn appended(messages: Seq<MessageView>, role: Role, text: Seq<char>) -> Seq<
    MessageView,
> {
    let at = text_tail(messages);
    if at > 0 && messages[at - 1].role == role {
        let last = messages[at - 1];
        messages.update(at - 1, MessageView { source: last.source + text, ..last })
    } else {
        messages.insert(at, plain_message(role, text))
    }
}

/// The messages that are no tool card.
pub open spec fn without_cards(messages: Seq<MessageView>) -> Seq<MessageView> {
    messages.filter(|message: MessageView| message.role != Role::Tool)
}

/// The transcript after the tool call `call_id` reports itself as `label`. A
/// blank label changes nothing; otherwise one card at the tail takes the place
/// of every card that was there.
pub open spec fn with_card(
    messages: Seq<MessageView>,
    call_id: Seq<char>,
    label: Seq<char>,
) -> Seq<MessageView> {
    if trimmed(label).len() == 0 {
        messages
    } else {
        without_cards(messages).push(tool_card(call_id, trimmed(label)))
    }
}

/// Characters in the message that is arriving: the last one that is no tool
/// card at the tail, unless the user wrote it.
pub open spec fn arriving(messages: Seq<MessageView>) -> nat {
    let at = text_tail(messages);
    if at > 0 && messages[at - 1].role != Role::User {
        messages[at - 1].source.len()
    } else {
        0
    }
}

/// The sources of `messages`, each trimmed.
pub open spec fn trimmed_sources(messages: Seq<MessageView>) -> Seq<Seq<char>> {
    messages.map_values(|message: MessageView| trimmed(message.source))
}

/// The transcript after a message was pushed.
pub open spec fn pushed(messages: Seq<MessageView>, message: MessageView) -> Seq<MessageView> {
    messages.push(message)
}

/// No message has anything but white space.
pub open spec fn says_nothing(messages: Seq<MessageView>) -> bool {
    forall|i: int| 0 <= i < messages.len() ==> trimmed((#[trigger] messages[i]).source).len() == 0
}

/// The conversation as plain text.
pub open spec fn plain(messages: Seq<MessageView>) -> Seq<char> {
    joined(trimmed_sources(messages), "\n\n"@)
}

impl Default for Transcript {
    fn default() -> (transcript: Self)
        ensures
            transcript@.len() == 0,
    {
        Transcript { messages: Vec::new() }
    }
}

impl Clone for Transcript {
    fn clone(&self) -> (same: Self)
        ensures
            same@ == self@,
    {
        Transcript { messages: copy_messages(self.messages.as_slice()) }
    }
}

/// A vector of the same messages.
fn copy_messages(messages: &[Message]) -> (same: Vec<Message>)
    ensures
        same@ == messages@,
{
    let mut same: Vec<Message> = Vec::new();
    let mut i: usize = 0;
    while i < messages.len()
        invariant
            i <= messages.len(),
            same@ == messages@.take(i as int),
        decreases messages.len() - i,
    {
        same.push(messages[i].clone());
        assert(messages@.take(i + 1) =~= messages@.take(i as int).push(messages@[i as int]));
        i = i + 1;
    }
    assert(messages@.take(i as int) =~= messages@);
    same
}

impl Transcript {
    /// Whether nothing but white space was said.
    pub fn is_empty(&self) -> (empty: bool)
        ensures
            empty == (forall|i: int|
                0 <= i < self@.len() ==> trimmed((#[trigger] self@[i]).source).len() == 0),
            empty == says_nothing(self@),
    {
        let mut i: usize = 0;
        while i < self.messages.len()
            invariant
                i <= self.messages.len(),
                forall|k: int| 0 <= k < i ==> trimmed((#[trigger] self@[k]).source).len() == 0,
            decreases self.messages.len() - i,
        {
            assert(self@[i as int] == self.messages@[i as int]@);
            if !trim(self.messages[i].source.as_str()).is_empty() {
                return false;
            }
            i = i + 1;
        }
        true
    }

    pub fn messages(&self) -> (messages: &[Message])
        ensures
            spoken(messages@) == self@,
    {
        self.messages.as_slice()
    }

    pub fn push(&mut self, message: Message)
        ensures
            final(self)@ == old(self)@.push(message@),
            final(self)@ == pushed(old(self)@, message@),
    {
        self.messages.push(message);
        assert(self@ =~= old(self)@.push(message@));
    }

    /// Appends streamed assistant text, continuing the current reply when there
    /// is one. Text lands above a live tool card.
    pub fn append_assistant(&mut self, text: &str)
        ensures
            final(self)@ == appended(old(self)@, Role::Assistant, text@),
    {
        self.append_text(Role::Assistant, text);
    }

    /// Appends streamed reasoning, continuing the current thought. A new
    /// assistant message ends the thought.
    pub fn append_reasoning(&mut self, text: &str)
        ensures
            final(self)@ == appended(old(self)@, Role::Reasoning, text@),
    {
        self.append_text(Role::Reasoning, text);
    }

    fn append_text(&mut self, role: Role, text: &str)
        ensures
            final(self)@ == appended(old(self)@, role, text@),
    {
        let at = self.text_tail();
        if at > 0 && self.messages[at - 1].role == role {
            let last = &mut self.messages[at - 1];
            last.source.append(text);
        } else {
            let message = Message { role, source: text.to_owned(), call_id: None };
            self.messages.insert(at, message);
        }
        assert(self@ =~= appended(old(self)@, role, text@));
    }

    /// Where streamed text goes. One definition, so both append paths keep the
    /// card pinned and neither can strand it mid-transcript.
    fn text_tail(&self) -> (at: usize)
        ensures
            at == text_tail(self@),
    {
        let len = self.messages.len();
        if len > 0 && self.messages[len - 1].role == Role::Tool {
            len - 1
        } else {
            len
        }
    }

    /// Shows the current tool call as the single live tool card, at the tail of
    /// the transcript. The card is a slot, not a log entry: whichever call it
    /// belonged to, the new one takes it over, and no stray card left by a
    /// replayed history doubles it up.
    pub fn set_live_tool(&mut self, call_id: &str, label: &str)
        ensures
            final(self)@ == with_card(old(self)@, call_id@, label@),
    {
        let label = trim(label);
        if label.is_empty() {
            return;
        }
        self.clear_live_tool();
        self.push(Message::tool(call_id, label));
    }

    /// Removes the live tool card. Called when the turn ends: a card left
    /// behind would claim work is still happening after it stopped.
    pub fn clear_live_tool(&mut self)
        ensures
            final(self)@ == without_cards(old(self)@),
    {
        let ghost kept = |message: MessageView| message.role != Role::Tool;
        let mut messages: Vec<Message> = Vec::new();
        let mut i: usize = 0;
        assert(spoken(messages@) =~= self@.take(0).filter(kept)) by {
            reveal(Seq::filter);
        }
        while i < self.messages.len()
            invariant
                i <= self.messages.len(),
                kept == (|message: MessageView| message.role != Role::Tool),
                spoken(messages@) == self@.take(i as int).filter(kept),
            decreases self.messages.len() - i,
        {
            assert(self@.take(i + 1).drop_last() =~= self@.take(i as int));
            let ghost before = messages@;
            if self.messages[i].role != Role::Tool {
                messages.push(self.messages[i].clone());
                assert(spoken(messages@) =~= spoken(before).push(self@[i as int]));
            }
            assert(spoken(messages@) == self@.take(i + 1).filter(kept)) by {
                reveal(Seq::filter);
            }
            i = i + 1;
        }
        assert(self@.take(i as int) =~= self@);
        self.messages = messages;
    }

    /// Plain-text rendering, for copying the conversation.
    pub fn plain_text(&self) -> (text: String)
        ensures
            text@ == joined(trimmed_sources(self@), "\n\n"@),
            text@ == plain(self@),
    {
        let mut parts: Vec<String> = Vec::new();
        let mut i: usize = 0;
        while i < self.messages.len()
            invariant
                i <= self.messages.len(),
                texts(parts@) == trimmed_sources(self@).take(i as int),
            decreases self.messages.len() - i,
        {
            let ghost before = parts@;
            parts.push(trim(self.messages[i].source.as_str()).to_owned());
            assert(texts(parts@) =~= texts(before).push(trimmed(self@[i as int].source)));
            assert(texts(parts@) =~= trimmed_sources(self@).take(i + 1));
            i = i + 1;
        }
        assert(trimmed_sources(self@).take(i as int) =~= trimmed_sources(self@));
        join(&parts, "\n\n")
    }

    /// Characters in the trailing reply, which is the message the streaming
    /// reveal is animating. Zero when the last turn is the user's. A live tool
    /// card at the tail is skipped.
    pub fn streaming_len(&self) -> (len: usize)
        ensures
            len == arriving(self@),
    {
        let at = self.text_tail();
        if at > 0 && self.messages[at - 1].role != Role::User {
            self.messages[at - 1].source.as_str().unicode_len()
        } else {
            0
        }
    }
}

impl<'a> From<&'a [Message]> for Transcript {
    fn from(messages: &'a [Message]) -> (transcript: Self)
        ensures
            transcript@ == spoken(messages@),
    {
        Transcript { messages: copy_messages(messages) }
    }
}

impl<'a> vstd::std_specs::convert::FromSpecImpl<&'a [Message]> for Transcript {
    open spec fn obeys_from_spec() -> bool {
        false
    }

    closed spec fn from_spec(messages: &'a [Message]) -> Transcript {
        arbitrary()
    }
}

/// The live tool card is at most one, and last.
pub open spec fn card_is_pinned(messages: Seq<MessageView>) -> bool {
    forall|i: int|
        0 <= i < messages.len() - 1 ==> (#[trigger] messages[i]).role != Role::Tool
}

/// Two pieces of streamed text read as one: a reply is the same message however
/// it is cut into pieces.
pub proof fn law_streamed_pieces_make_one_message(
    messages: Seq<MessageView>,
    role: Role,
    first: Seq<char>,
    second: Seq<char>,
)
    requires
        role != Role::Tool,
    ensures
        appended(appended(messages, role, first), role, second) == appended(
            messages,
            role,
            first + second,
        ),
{
    let once = appended(messages, role, first);
    let at = text_tail(messages);
    assert(ends_in_card(once) == ends_in_card(messages));
    if at > 0 && messages[at - 1].role == role {
        let last = messages[at - 1];
        assert(text_tail(once) == at);
        assert(last.source + first + second =~= last.source + (first + second));
        assert(appended(once, role, second) =~= appended(messages, role, first + second));
    } else {
        assert(text_tail(once) == at + 1);
        assert(once[at] == plain_message(role, first));
        assert(appended(once, role, second) =~= appended(messages, role, first + second));
    }
}

/// Streamed text adds at most one message, puts its text behind what it
/// continues, and leaves everything else, a card at the tail too, as it was.
pub proof fn law_streamed_text_lands_above_the_card(
    messages: Seq<MessageView>,
    role: Role,
    text: Seq<char>,
)
    requires
        role != Role::Tool,
    ensures
        ({
            let after = appended(messages, role, text);
            let at = text_tail(after);
            &&& messages.len() <= after.len() <= messages.len() + 1
            &&& at > 0
            &&& after[at - 1].role == role
            &&& text.is_suffix_of(after[at - 1].source)
            &&& forall|i: int| 0 <= i < at - 1 ==> after[i] == messages[i]
            &&& ends_in_card(after) == ends_in_card(messages)
            &&& ends_in_card(messages) ==> after.last() == messages.last()
        }),
{
    let after = appended(messages, role, text);
    let at = text_tail(messages);
    if at > 0 && messages[at - 1].role == role {
        let source = messages[at - 1].source + text;
        assert(text =~= source.subrange(source.len() - text.len(), source.len() as int));
    } else {
        assert(text =~= text.subrange(0, text.len() as int));
    }
}

/// Streaming and tool calls keep the card pinned: however a turn interleaves
/// text, reasoning and calls, the card is one and last. A message that is pushed
/// keeps it so where no card is there.
pub proof fn law_card_stays_pinned(
    messages: Seq<MessageView>,
    role: Role,
    text: Seq<char>,
    call_id: Seq<char>,
    message: MessageView,
)
    requires
        card_is_pinned(messages),
        role != Role::Tool,
    ensures
        card_is_pinned(appended(messages, role, text)),
        card_is_pinned(with_card(messages, call_id, text)),
        card_is_pinned(without_cards(messages)),
        !ends_in_card(messages) ==> card_is_pinned(messages.push(message)),
{
    let after = appended(messages, role, text);
    assert forall|i: int| 0 <= i < after.len() - 1 implies (#[trigger] after[i]).role
        != Role::Tool by {
        let at = text_tail(messages);
        if at > 0 && messages[at - 1].role == role {
            if i != at - 1 {
                assert(messages[i].role != Role::Tool);
            }
        } else if i < at {
            assert(after[i] == messages[i]);
            if i == messages.len() - 1 {
                assert(!ends_in_card(messages));
            }
        } else {
            assert(i == at);
        }
    }
    lemma_no_cards(messages);
    if trimmed(text).len() > 0 {
        law_a_shown_call_is_the_only_card(messages, call_id, text);
    }
}

/// Of the messages without cards none is a card, and clearing them again changes
/// nothing.
proof fn lemma_no_cards(messages: Seq<MessageView>)
    ensures
        forall|i: int|
            0 <= i < without_cards(messages).len() ==> (#[trigger] without_cards(messages)[i]).role
                != Role::Tool,
        without_cards(without_cards(messages)) == without_cards(messages),
{
    let kept = |message: MessageView| message.role != Role::Tool;
    let cleared = without_cards(messages);
    assert forall|i: int| 0 <= i < cleared.len() implies (#[trigger] cleared[i]).role
        != Role::Tool by {
        messages.lemma_filter_pred(kept, i);
    }
    lemma_filter_all_or_none(cleared, kept);
}

/// A card at the tail is the only thing that clearing it takes away.
proof fn lemma_clearing_a_card_at_the_tail(messages: Seq<MessageView>, card: MessageView)
    requires
        card.role == Role::Tool,
    ensures
        without_cards(messages.push(card)) == without_cards(messages),
{
    reveal(Seq::filter);
    assert(messages.push(card).drop_last() =~= messages);
}

/// Showing a call leaves exactly one card, and it is last, whatever cards were
/// there: before it stand the messages that are no card, unchanged and in order.
pub proof fn law_a_shown_call_is_the_only_card(
    messages: Seq<MessageView>,
    call_id: Seq<char>,
    label: Seq<char>,
)
    requires
        trimmed(label).len() > 0,
    ensures
        ({
            let after = with_card(messages, call_id, label);
            &&& card_is_pinned(after)
            &&& after.last() == tool_card(call_id, trimmed(label))
            &&& after.drop_last() == without_cards(messages)
        }),
{
    lemma_no_cards(messages);
    let cleared = without_cards(messages);
    let after = with_card(messages, call_id, label);
    assert(after.drop_last() =~= cleared);
    assert forall|i: int| 0 <= i < after.len() - 1 implies (#[trigger] after[i]).role
        != Role::Tool by {
        assert(after[i] == cleared[i]);
    }
}

/// The card is a slot, not a log: of two calls shown in a row only the second is
/// left, and a blank label changes nothing.
pub proof fn law_the_next_call_takes_the_card_over(
    messages: Seq<MessageView>,
    first_call: Seq<char>,
    first_label: Seq<char>,
    second_call: Seq<char>,
    second_label: Seq<char>,
)
    ensures
        trimmed(second_label).len() > 0 ==> with_card(
            with_card(messages, first_call, first_label),
            second_call,
            second_label,
        ) == with_card(messages, second_call, second_label),
        trimmed(second_label).len() == 0 ==> with_card(messages, second_call, second_label)
            == messages,
{
    lemma_no_cards(messages);
    lemma_clearing_a_card_at_the_tail(
        without_cards(messages),
        tool_card(first_call, trimmed(first_label)),
    );
}

/// Clearing the card leaves every other message and no card; it takes back what
/// showing a call did. Of a transcript whose card is pinned it leaves all that
/// stands above the card.
pub proof fn law_clearing_takes_the_card_back(
    messages: Seq<MessageView>,
    call_id: Seq<char>,
    label: Seq<char>,
)
    ensures
        forall|i: int|
            0 <= i < without_cards(messages).len() ==> (#[trigger] without_cards(messages)[i]).role
                != Role::Tool,
        without_cards(with_card(messages, call_id, label)) == without_cards(messages),
        without_cards(without_cards(messages)) == without_cards(messages),
        card_is_pinned(messages) ==> without_cards(messages) == messages.take(text_tail(messages)),
{
    lemma_no_cards(messages);
    lemma_clearing_a_card_at_the_tail(
        without_cards(messages),
        tool_card(call_id, trimmed(label)),
    );
    if card_is_pinned(messages) {
        lemma_clearing_a_pinned_card(messages);
    }
}

proof fn lemma_clearing_a_pinned_card(messages: Seq<MessageView>)
    requires
        card_is_pinned(messages),
    ensures
        without_cards(messages) == messages.take(text_tail(messages)),
{
    let kept = |message: MessageView| message.role != Role::Tool;
    let at = text_tail(messages);
    let text = messages.take(at);
    assert forall|i: int| 0 <= i < text.len() implies kept(#[trigger] text[i]) by {
        if i == messages.len() - 1 {
            assert(!ends_in_card(messages));
        } else {
            assert(messages[i].role != Role::Tool);
        }
    }
    lemma_filter_all_or_none(text, kept);
    if ends_in_card(messages) {
        reveal(Seq::filter);
        assert(messages.drop_last() =~= text);
    } else {
        assert(text =~= messages);
    }
}

/// The card does not count toward the reveal: showing a call does not change how
/// much of the reply is arriving.
pub proof fn law_the_card_does_not_count(
    messages: Seq<MessageView>,
    call_id: Seq<char>,
    label: Seq<char>,
)
    requires
        card_is_pinned(messages),
    ensures
        arriving(with_card(messages, call_id, label)) == arriving(messages),
        arriving(without_cards(messages)) == arriving(messages),
{
    law_clearing_takes_the_card_back(messages, call_id, label);
    let carded = with_card(messages, call_id, label);
    let cleared = without_cards(messages);
    assert(text_tail(cleared) == cleared.len()) by {
        if cleared.len() > 0 {
            assert(cleared[cleared.len() - 1].role != Role::Tool);
        }
    }
    law_card_stays_pinned(messages, Role::User, label, call_id, plain_message(Role::User, label));
    lemma_clearing_a_pinned_card(carded);
    assert(carded.take(text_tail(carded)) == cleared);
    assert(messages.take(text_tail(messages)) == cleared);
    if cleared.len() > 0 {
        assert(carded[text_tail(carded) - 1] == cleared[cleared.len() - 1]);
        assert(messages[text_tail(messages) - 1] == cleared[cleared.len() - 1]);
    }
}

/// While text streams in, what is arriving is the message that it continues or
/// starts: it grows by exactly the text, or is exactly the text.
pub proof fn law_arriving_text_is_counted(
    messages: Seq<MessageView>,
    role: Role,
    text: Seq<char>,
)
    requires
        role == Role::Assistant || role == Role::Reasoning,
    ensures
        ({
            let at = text_tail(messages);
            arriving(appended(messages, role, text)) == if at > 0 && messages[at - 1].role == role {
                arriving(messages) + text.len()
            } else {
                text.len()
            }
        }),
{
    law_streamed_text_lands_above_the_card(messages, role, text);
}

/// Streamed text is kept to the letter. On a transcript whose last message is a
/// card, all of it happens above that card: where the message there has the role,
/// exactly the text is added to its source and nothing else changes; where it has
/// another, or there is none, a message of that role with exactly that text, and
/// without a call, is put there, and nothing else changes.
pub proof fn law_streamed_text_is_kept_to_the_letter(
    above: Seq<MessageView>,
    cards: Seq<MessageView>,
    role: Role,
    text: Seq<char>,
)
    requires
        cards.len() <= 1,
        cards.len() == 1 ==> cards[0].role == Role::Tool,
        cards.len() == 0 && above.len() > 0 ==> above.last().role != Role::Tool,
    ensures
        above.len() > 0 && above.last().role == role ==> appended(above + cards, role, text)
            == above.drop_last().push(
            MessageView {
                role,
                source: above.last().source + text,
                call_id: above.last().call_id,
            },
        ) + cards,
        above.len() == 0 || above.last().role != role ==> appended(above + cards, role, text)
            == above.push(MessageView { role, source: text, call_id: None }) + cards,
{
    let all = above + cards;
    assert(text_tail(all) == above.len());
    if above.len() > 0 {
        assert(all[above.len() - 1] == above.last());
    }
    if above.len() > 0 && above.last().role == role {
        assert(appended(all, role, text) =~= above.drop_last().push(
            MessageView {
                role,
                source: above.last().source + text,
                call_id: above.last().call_id,
            },
        ) + cards);
    } else {
        assert(appended(all, role, text) =~= above.push(
            MessageView { role, source: text, call_id: None },
        ) + cards);
    }
}

/// A call is shown as one message at the end, of role `Tool`, with its id, and
/// with its label from the first character to the last that is no white space;
/// before it stand all messages of other roles. A label of white space alone
/// changes nothing.
pub proof fn law_a_call_is_shown_at_the_end(
    messages: Seq<MessageView>,
    call_id: Seq<char>,
    label: Seq<char>,
)
    ensures
        trimmed(label).len() > 0 ==> with_card(messages, call_id, label) == messages.filter(
            |message: MessageView| message.role != Role::Tool,
        ).push(
            MessageView { role: Role::Tool, source: trimmed(label), call_id: Some(call_id) },
        ),
        trimmed(label).len() == 0 ==> with_card(messages, call_id, label) == messages,
        without_cards(messages) == messages.filter(
            |message: MessageView| message.role != Role::Tool,
        ),
{
}

/// What is arriving is all of the last message above a card, unless the user wrote
/// it; of a transcript without such a message nothing is.
pub proof fn law_what_is_arriving(above: Seq<MessageView>, cards: Seq<MessageView>)
    requires
        cards.len() <= 1,
        cards.len() == 1 ==> cards[0].role == Role::Tool,
        cards.len() == 0 && above.len() > 0 ==> above.last().role != Role::Tool,
    ensures
        above.len() > 0 && above.last().role != Role::User ==> arriving(above + cards)
            == above.last().source.len(),
        above.len() > 0 && above.last().role == Role::User ==> arriving(above + cards) == 0,
        above.len() == 0 ==> arriving(above + cards) == 0,
{
    let all = above + cards;
    assert(text_tail(all) == above.len());
    if above.len() > 0 {
        assert(all[above.len() - 1] == above.last());
    }
}

/// Messages are made of what they are given, the sources of a transcript are
/// trimmed one by one, and its view says what its messages hold.
pub proof fn law_messages_hold_what_they_are_given(
    role: Role,
    source: Seq<char>,
    call_id: Seq<char>,
    messages: Seq<MessageView>,
    listed: Seq<Message>,
    i: int,
)
    ensures
        plain_message(role, source).role == role,
        plain_message(role, source).source == source,
        plain_message(role, source).call_id is None,
        tool_card(call_id, source).role == Role::Tool,
        tool_card(call_id, source).source == source,
        tool_card(call_id, source).call_id == Some(call_id),
        trimmed_sources(messages).len() == messages.len(),
        0 <= i < messages.len() ==> trimmed_sources(messages)[i] == trimmed(messages[i].source),
        spoken(listed).len() == listed.len(),
        0 <= i < listed.len() ==> spoken(listed)[i] == listed[i]@,
        0 <= i < listed.len() ==> listed[i]@.role == listed[i].role && listed[i]@.source
            == listed[i].source@ && listed[i]@.call_id == string_of(listed[i].call_id),
{
}

/// The plain text of a conversation is its messages in order, each whole but for
/// white space at its ends, with an empty line between each two.
pub proof fn law_plain_text_is_all_messages(a: Seq<MessageView>, b: Seq<MessageView>)
    ensures
        plain(Seq::empty()) == Seq::<char>::empty(),
        a.len() == 1 ==> plain(a) == trimmed(a[0].source),
        a.len() > 0 && b.len() > 0 ==> plain(a + b) == plain(a) + seq!['\n', '\n'] + plain(b),
{
    reveal_strlit("\n\n");
    assert("\n\n"@ =~= seq!['\n', '\n']);
    assert(trimmed_sources(Seq::empty()) =~= Seq::<Seq<char>>::empty());
    assert(trimmed_sources(a + b) =~= trimmed_sources(a) + trimmed_sources(b));
    crate::strings::law_joining(trimmed_sources(a), trimmed_sources(b), "\n\n"@);
}

/// A conversation says nothing if and only if no message holds a character that is
/// no white space.
pub proof fn law_a_conversation_says_nothing_without_text(messages: Seq<MessageView>)
    ensures
        says_nothing(messages) <==> forall|i: int, k: int|
            0 <= i < messages.len() && 0 <= k < messages[i].source.len()
                ==> crate::strings::white_space(#[trigger] messages[i].source[k]),
{
    let class = crate::strings::CharClass::WhiteSpace;
    if says_nothing(messages) {
        assert forall|i: int, k: int|
            0 <= i < messages.len() && 0 <= k
                < messages[i].source.len() implies crate::strings::white_space(
            #[trigger] messages[i].source[k],
        ) by {
            crate::strings::law_trimming_takes_only_the_ends(messages[i].source, class);
            assert(trimmed(messages[i].source).len() == 0);
            assert(crate::strings::in_class(class, messages[i].source[k]));
        }
    }
    if forall|i: int, k: int|
        0 <= i < messages.len() && 0 <= k < messages[i].source.len()
            ==> crate::strings::white_space(#[trigger] messages[i].source[k]) {
        assert forall|i: int| 0 <= i < messages.len() implies trimmed(
            (#[trigger] messages[i]).source,
        ).len() == 0 by {
            crate::strings::law_trimming_takes_only_the_ends(messages[i].source, class);
            assert forall|k: int| 0 <= k < messages[i].source.len() implies crate::strings::in_class(
                class,
                #[trigger] messages[i].source[k],
            ) by {
                assert(crate::strings::white_space(messages[i].source[k]));
            }
        }
    }
}

/// A pushed message comes last, as it is, whatever it holds; all others stay.
pub proof fn law_a_pushed_message_comes_last(messages: Seq<MessageView>, message: MessageView)
    ensures
        pushed(messages, message).len() == messages.len() + 1,
        pushed(messages, message).last() == message,
        pushed(messages, message).drop_last() == messages,
{
    assert(pushed(messages, message).drop_last() =~= messages);
}

} // verus!
