//! Markdown event streams rendered into a nested tree of display nodes.
//!
//! The input is a flat sequence of markup events with source byte ranges,
//! produced by an upstream tokenizer. This crate turns it into a tree:
//! the stream adapter rewrites soft breaks, the renderer walks the stream
//! with a single cursor and builds one node per leaf event or balanced
//! tag pair, and per-kind rules resolve syntax highlighting, math
//! typesetting, table alignment and link customization.

pub mod adapter;
pub mod click;
pub mod context;
pub mod event;
pub mod node;
pub mod ranges;
pub mod render;
