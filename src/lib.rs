//! A small task manager whose state lives in Markdown text: the document
//! model, the reference resolver, the resilient parser, the generator and the
//! mutation engine, each with its contract.

pub mod text;
pub mod model;
pub mod reference;
pub mod todo;
pub mod laws;
pub mod engine;
pub mod archive;
pub mod content;
pub mod display;
pub mod migration;
