//! The surfaces of a coding agent, as values: the transcript of a conversation
//! and how its messages are set, the strip of sessions and where its bars go,
//! the desktop's settings, and the generation of images through MiniMax.
//!
//! Everything here is a decision, from plain values to plain values. Drawing,
//! measuring text, reading the clock, files, the environment and the network
//! are the caller's part: where a decision depends on one of them, a function
//! takes its outcome and says what follows.
//!
//! * [`strings`], [`sequences`] and [`json`] are the ground: texts as sequences of
//!   characters, what filters do to a sequence, and JSON values as a tree.
//! * [`transcript`], [`document`], [`rich_text`], [`layout`], [`text`] and
//!   [`scroll`] are the conversation on the page.
//! * [`strip`] and [`strip_layout`] are the sessions beside it.
//! * [`desktop_config`] reads the desktop's settings.
//! * [`chat`], [`events`], [`generated_image`], [`minimax_image`] and
//!   [`minimax_image_generation`] turn a call or a turn into a saved image.
pub mod chat;
pub mod desktop_config;
pub mod document;
pub mod events;
pub mod generated_image;
pub mod json;
pub mod layout;
pub mod minimax_image;
pub mod minimax_image_generation;
pub mod rich_text;
pub mod scroll;
pub mod sequences;
pub mod strings;
pub mod strip;
pub mod strip_layout;
pub mod text;
pub mod transcript;
