//! Keystone: a minimal syntax-highlighting editor core.
//!
//! The library holds the verified logic of the editor: the tokenizer and
//! classifier for the toy scripting language, the fixed color palette, the
//! document buffer with its end-of-buffer edit model, and the per-frame
//! layout arithmetic. Window creation, font rendering and event polling are
//! outside collaborators and live with the embedding application.

pub mod document;
pub mod editor;
pub mod layout;
pub mod lexer;
pub mod palette;
