//! The reading engine of a focused RSVP (one word at a time) reader:
//! documents become blocks, blocks become timed chunks, and a small state
//! machine decides what each key press does.

pub mod chars;
pub mod text;
pub mod doc;
pub mod markdown;
pub mod docx;
pub mod reader;
pub mod preset;
pub mod theme;
pub mod pdf;
pub mod input;
pub mod picker;
pub mod session;
pub mod history;
pub mod outline;
pub mod web;
