//! Core logic of a feed reader: text handling, HTML sanitising, RSSHub routing, AI prompts and
//! streaming, and the decisions behind the reader's commands.

pub mod text;
pub mod sanitize;
pub mod rsshub;
pub mod error;
pub mod json;
pub mod ai;
pub mod sse;
pub mod settings;
pub mod prompts;
pub mod highlights;
pub mod share;
pub mod subscribe;
pub mod discovery;
pub mod opml;
pub mod newsletter;
pub mod library;
