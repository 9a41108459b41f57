//! A pretty-printer for a pipeline-oriented shell scripting language.
//!
//! Source text is classified character by character, folded into tokens,
//! and laid out again with single separator spaces and tab indentation.
//! Braces, square brackets and parens all count towards one indent depth.
//! A word is spaced from a following `>` as from any operator.
pub mod laws;
pub mod layout;
pub mod lexer;
pub mod tokenizer;
pub mod tokens;

pub use layout::{add_depth, add_indent, add_whitespace, format_buffer, suppresses_space};
pub use lexer::gen_tokens;
pub use tokenizer::Tokonizer;
pub use tokens::{Token, TokenView, TokonizerTools, TAB_MULTIPLIER};
