//! The events of a streamed model turn.
use crate::strings::string_of;
use vstd::prelude::*;

verus! {

/// How far a request to the model's endpoint has come.
#[derive(Clone, Copy, Debug, PartialEq, Eq)]
pub enum ConnectionPhase {
    Connecting,
    WaitingForResponse,
}

/// One event of a streamed turn. The kinds that the library reads or makes are
/// spelled out; a stream may carry others, which the library only passes on.
#[derive(Debug, PartialEq, Eq)]
pub enum StreamEvent<T> {
    /// More of the reply's text.
    TextDelta(String),
    /// The model opened a call of the tool `name`.
    ToolUseStart { id: String, name: String },
    /// More of the open call's arguments.
    ToolInputDelta(String),
    /// The open call is complete.
    ToolUseEnd,
    /// What a call came to.
    ToolResult { tool_use_id: String, content: String, is_error: bool },
    /// An image was generated and saved.
    GeneratedImage {
        id: String,
        path: String,
        metadata_path: Option<String>,
        output_format: String,
        revised_prompt: Option<String>,
    },
    /// The request reached another phase.
    ConnectionPhase { phase: ConnectionPhase },
    /// The turn is over.
    MessageEnd { stop_reason: Option<String> },
    /// Any other event.
    Other(T),
}

/// What a [`StreamEvent`] says, with its texts as sequences of characters.
pub enum Event<T> {
    TextDelta(Seq<char>),
    ToolUseStart { id: Seq<char>, name: Seq<char> },
    ToolInputDelta(Seq<char>),
    ToolUseEnd,
    ToolResult { tool_use_id: Seq<char>, content: Seq<char>, is_error: bool },
    GeneratedImage {
        id: Seq<char>,
        path: Seq<char>,
        metadata_path: Option<Seq<char>>,
        output_format: Seq<char>,
        revised_prompt: Option<Seq<char>>,
    },
    ConnectionPhase { phase: ConnectionPhase },
    MessageEnd { stop_reason: Option<Seq<char>> },
    Other(T),
}

impl<T> View for StreamEvent<T> {
    type V = Event<T>;

    open spec fn view(&self) -> Event<T> {
        match *self {
            StreamEvent::TextDelta(text) => Event::TextDelta(text@),
            StreamEvent::ToolUseStart { id, name } => Event::ToolUseStart {
                id: id@,
                name: name@,
            },
            StreamEvent::ToolInputDelta(delta) => Event::ToolInputDelta(delta@),
            StreamEvent::ToolUseEnd => Event::ToolUseEnd,
            StreamEvent::ToolResult { tool_use_id, content, is_error } => Event::ToolResult {
                tool_use_id: tool_use_id@,
                content: content@,
                is_error,
            },
            StreamEvent::GeneratedImage {
                id,
                path,
                metadata_path,
                output_format,
                revised_prompt,
            } => Event::GeneratedImage {
                id: id@,
                path: path@,
                metadata_path: string_of(metadata_path),
                output_format: output_format@,
                revised_prompt: string_of(revised_prompt),
            },
            StreamEvent::ConnectionPhase { phase } => Event::ConnectionPhase { phase },
            StreamEvent::MessageEnd { stop_reason } => Event::MessageEnd {
                stop_reason: string_of(stop_reason),
            },
            StreamEvent::Other(other) => Event::Other(other),
        }
    }
}

/// What a sequence of events says, one by one.
pub open spec fn said<T>(events: Seq<StreamEvent<T>>) -> Seq<Event<T>> {
    events.map_values(|event: StreamEvent<T>| event@)
}

/// The view of an event says what it holds, and a sequence of events is said one
/// by one.
pub proof fn law_views_say_what_events_hold<T>(
    event: StreamEvent<T>,
    events: Seq<StreamEvent<T>>,
    i: int,
)
    ensures
        event matches StreamEvent::TextDelta(text) ==> event@ == Event::<T>::TextDelta(text@),
        event matches StreamEvent::ToolUseStart { id, name } ==> event@
            == (Event::<T>::ToolUseStart { id: id@, name: name@ }),
        event matches StreamEvent::ToolInputDelta(delta) ==> event@ == Event::<T>::ToolInputDelta(
            delta@,
        ),
        event is ToolUseEnd ==> event@ is ToolUseEnd,
        event matches StreamEvent::ToolResult { tool_use_id, content, is_error } ==> event@
            == (Event::<T>::ToolResult {
            tool_use_id: tool_use_id@,
            content: content@,
            is_error,
        }),
        event matches StreamEvent::GeneratedImage {
            id,
            path,
            metadata_path,
            output_format,
            revised_prompt,
        } ==> event@ == (Event::<T>::GeneratedImage {
            id: id@,
            path: path@,
            metadata_path: string_of(metadata_path),
            output_format: output_format@,
            revised_prompt: string_of(revised_prompt),
        }),
        event matches StreamEvent::ConnectionPhase { phase } ==> event@
            == (Event::<T>::ConnectionPhase { phase }),
        event matches StreamEvent::MessageEnd { stop_reason } ==> event@
            == (Event::<T>::MessageEnd { stop_reason: string_of(stop_reason) }),
        event matches StreamEvent::Other(other) ==> event@ == Event::<T>::Other(other),
        said(events).len() == events.len(),
        0 <= i < events.len() ==> said(events)[i] == events[i]@,
{
}

} // verus!
