//! Front end of the Erys compiler: spans, tokens, a lexer with exact
//! scanning rules, and diagnostics anchored in the source text.
pub mod span;
pub mod tokens;
pub mod scan;
pub mod source;
pub mod lexer;
pub mod session;
pub mod diagnostics;
