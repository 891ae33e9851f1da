//! A Markdown layout engine and the plain logic of a small chat client.
//!
//! The engine turns a Markdown source text into a tree of styled text:
//! blocks (one per heading, paragraph or list item), each holding wrapped
//! lines, each holding words with their inline style. [`markdown::markdown`]
//! is its entry point.

pub mod chat;
pub mod document;
pub mod event;
pub mod gemini;
pub mod markdown;
pub mod mistral;
pub mod render;
pub mod segment;
pub mod style;
pub mod text;
pub mod types;
pub mod wrap;
