use jcode_surfaces::transcript::{Message, Role, Transcript};

fn roles(transcript: &Transcript) -> Vec<Role> {
    transcript.messages().iter().map(|m| m.role).collect()
}

/// Streaming must continue one reply, not create a block per chunk: markdown
/// spanning a chunk boundary would otherwise never parse.
#[test]
fn streaming_deltas_accumulate_into_one_message() {
    let mut transcript = Transcript::default();
    transcript.push(Message::user("hi"));
    transcript.append_assistant("**bo");
    transcript.append_assistant("ld**");
    assert_eq!(transcript.messages().len(), 2);
    assert_eq!(transcript.messages()[1].source, "**bold**");
}

/// A tool call is one transcript card however many events it produced.
#[test]
fn a_tool_call_refines_one_line_in_place() {
    let mut transcript = Transcript::default();
    transcript.set_live_tool("call_1", "bash");
    transcript.set_live_tool("call_1", "check the build");
    assert_eq!(transcript.messages().len(), 1);
    assert_eq!(transcript.messages()[0].role, Role::Tool);
    assert_eq!(transcript.messages()[0].source, "check the build");
}

/// The card is a slot, not a log: the next call takes it over, and text
/// arriving between calls is inserted above it.
#[test]
fn the_live_tool_card_is_singular() {
    let mut transcript = Transcript::default();
    transcript.set_live_tool("call_1", "read the config");
    transcript.append_assistant("Found it. ");
    assert_eq!(
        roles(&transcript),
        vec![Role::Assistant, Role::Tool],
        "streamed text did not land above the live card"
    );
    transcript.set_live_tool("call_2", "run the tests");
    assert_eq!(roles(&transcript), vec![Role::Assistant, Role::Tool]);
    assert_eq!(transcript.messages()[1].source, "run the tests");
    // Back-to-back calls reuse the card in place.
    transcript.set_live_tool("call_3", "check the diff");
    let tools = transcript
        .messages()
        .iter()
        .filter(|m| m.role == Role::Tool)
        .count();
    assert_eq!(tools, 1, "a second call added a card instead of taking it");
    assert_eq!(transcript.messages()[1].source, "check the diff");
}

/// The card is pinned to the tail, however the turn interleaves text, reasoning
/// and calls.
#[test]
fn the_live_tool_card_stays_at_the_bottom() {
    let mut transcript = Transcript::default();
    transcript.push(Message::user("go"));
    transcript.set_live_tool("call_1", "read the config");
    transcript.append_reasoning("thinking about it ");
    transcript.append_assistant("Found it. ");
    transcript.append_assistant("Fixing now. ");
    assert_eq!(
        transcript.messages().last().map(|m| m.role),
        Some(Role::Tool),
        "streamed text pushed the live card off the tail"
    );
    // And the text above it coalesced normally rather than fragmenting around
    // the card.
    assert_eq!(
        roles(&transcript),
        vec![Role::User, Role::Reasoning, Role::Assistant, Role::Tool]
    );
    assert_eq!(transcript.messages()[2].source, "Found it. Fixing now. ");
}

/// The turn ending removes the card: a card left behind would claim work is
/// still happening after it stopped.
#[test]
fn the_tool_card_clears_when_the_turn_ends() {
    let mut transcript = Transcript::default();
    transcript.push(Message::user("go"));
    transcript.set_live_tool("call_1", "running tests");
    transcript.append_assistant("done");
    transcript.clear_live_tool();
    assert!(
        transcript.messages().iter().all(|m| m.role != Role::Tool),
        "a finished turn left its tool card behind"
    );
    assert_eq!(transcript.messages().len(), 2);
}

/// A blank label is noise, not a card.
#[test]
fn a_blank_tool_label_changes_nothing() {
    let mut transcript = Transcript::default();
    transcript.set_live_tool("call_1", "   ");
    assert!(transcript.messages().is_empty());
    transcript.set_live_tool("call_1", "list the crate");
    transcript.set_live_tool("call_1", "");
    assert_eq!(transcript.messages()[0].source, "list the crate");
}

/// The card is a status readout pinned under the stream, not part of it.
#[test]
fn the_tool_card_does_not_count_toward_the_reveal() {
    let mut transcript = Transcript::default();
    transcript.push(Message::user("go"));
    transcript.append_assistant("The fix is in the layout module.");
    let reply_len = transcript.streaming_len();
    assert!(reply_len > 0);
    transcript.set_live_tool("call_1", "running tests");
    assert_eq!(
        transcript.streaming_len(),
        reply_len,
        "the live card changed the streaming length"
    );
}

/// Reasoning coalesces like a reply, and the answer that follows it starts a new
/// message.
#[test]
fn reasoning_accumulates_then_yields_to_the_answer() {
    let mut transcript = Transcript::default();
    transcript.append_reasoning("first ");
    transcript.append_reasoning("thought");
    transcript.append_assistant("the answer");
    assert_eq!(roles(&transcript), vec![Role::Reasoning, Role::Assistant]);
    assert_eq!(transcript.messages()[0].source, "first thought");
}

/// The marker is gone: role is carried in the model, so nothing needs to prefix
/// a caret onto the user's own words.
#[test]
fn a_user_message_carries_no_marker_text() {
    let transcript = Transcript::from(&[Message::user("hello")][..]);
    assert!(
        !transcript.plain_text().contains('>'),
        "a shell prompt marker leaked into the transcript text"
    );
}

#[test]
fn messages_carry_what_they_were_made_from() {
    let tool = Message::tool("call_9", "look");
    assert_eq!(tool.role, Role::Tool);
    assert_eq!(tool.source, "look");
    assert_eq!(tool.call_id.as_deref(), Some("call_9"));
    let thought = Message::reasoning(" hm ");
    assert_eq!(thought.role, Role::Reasoning);
    assert_eq!(thought.source, " hm ");
    assert_eq!(thought.call_id, None);
    assert_eq!(Message::assistant("a").role, Role::Assistant);
    assert_eq!(Message::user("u").role, Role::User);
}

#[test]
fn plain_text_joins_trimmed_messages() {
    let transcript = Transcript::from(
        &[
            Message::user("  hi\n"),
            Message::assistant("\u{a0}there\u{3000}"),
            Message::reasoning(""),
        ][..],
    );
    assert_eq!(transcript.plain_text(), "hi\n\nthere\n\n");
    assert_eq!(Transcript::default().plain_text(), "");
}

#[test]
fn a_transcript_of_blank_messages_is_empty() {
    assert!(Transcript::default().is_empty());
    assert!(Transcript::from(&[Message::user(" \n\t"), Message::assistant("")][..]).is_empty());
    assert!(!Transcript::from(&[Message::user(" x ")][..]).is_empty());
}

#[test]
fn a_label_is_trimmed_and_the_call_is_noted() {
    let mut transcript = Transcript::default();
    transcript.set_live_tool("call_1", "  run it \n");
    assert_eq!(transcript.messages()[0].source, "run it");
    transcript.set_live_tool("call_2", "again");
    assert_eq!(transcript.messages()[0].call_id.as_deref(), Some("call_2"));
}

/// A card left in the middle by a replayed history goes when a new one opens.
#[test]
fn a_new_card_replaces_a_stray_one() {
    let mut transcript = Transcript::default();
    transcript.push(Message::tool("old", "stray"));
    transcript.push(Message::user("go on"));
    transcript.set_live_tool("new", "fresh");
    assert_eq!(roles(&transcript), vec![Role::User, Role::Tool]);
    assert_eq!(transcript.messages()[1].source, "fresh");
}

/// A stray card goes too where the transcript already ends in a card.
#[test]
fn a_shown_call_replaces_every_card() {
    let mut transcript = Transcript::from(
        &[
            Message::tool("old", "stray"),
            Message::user("go on"),
            Message::tool("older", "also stray"),
            Message::assistant("ok"),
            Message::tool("live", "at the tail"),
        ][..],
    );
    transcript.set_live_tool("new", " fresh ");
    assert_eq!(
        transcript.messages(),
        &[
            Message::user("go on"),
            Message::assistant("ok"),
            Message::tool("new", "fresh"),
        ]
    );
    let before = transcript.clone();
    transcript.set_live_tool("blank", " ");
    assert_eq!(transcript, before);
}

#[test]
fn clearing_a_card_gives_back_the_transcript_before_it() {
    let mut transcript = Transcript::default();
    transcript.push(Message::user("go"));
    transcript.append_assistant("ok");
    let before = transcript.clone();
    transcript.set_live_tool("call_1", "work");
    transcript.clear_live_tool();
    assert_eq!(transcript, before);
}

#[test]
fn streaming_len_counts_characters_of_what_is_arriving() {
    let mut transcript = Transcript::default();
    assert_eq!(transcript.streaming_len(), 0);
    transcript.append_reasoning("héé");
    assert_eq!(transcript.streaming_len(), 3);
    transcript.append_assistant("ok 🎉");
    assert_eq!(transcript.streaming_len(), 4);
    transcript.push(Message::user("more"));
    assert_eq!(transcript.streaming_len(), 0);
    transcript.set_live_tool("call_1", "status");
    assert_eq!(transcript.streaming_len(), 0);
}

/// Text after a user's turn starts a message of its own, above the card.
#[test]
fn text_after_a_user_turn_starts_a_new_message() {
    let mut transcript = Transcript::default();
    transcript.append_assistant("one");
    transcript.push(Message::user("and?"));
    transcript.set_live_tool("call_1", "look");
    transcript.append_assistant("two");
    assert_eq!(
        roles(&transcript),
        vec![Role::Assistant, Role::User, Role::Assistant, Role::Tool]
    );
    assert_eq!(transcript.messages()[2].source, "two");
}
