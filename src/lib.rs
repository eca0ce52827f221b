//! A small CSS-subset selector engine: an intern table for names, a
//! tokenizer and parser that compile selector text into a flat list of
//! parts, and a matcher that evaluates such a list against an element's
//! chain of ancestors.

pub mod atom;
pub mod selector;
pub mod parser;
pub mod laws;
pub mod window;
pub mod napi;
pub mod text_laws;
