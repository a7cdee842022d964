//! Rendering of captured macro token trees back into source text, and the
//! name resolution that decides which macro definition an invocation uses.

pub mod assemble;
pub mod chars;
pub mod lexeme;
pub mod output;
pub mod render;
pub mod resolve;
pub mod roundtrip;
pub mod scan;
pub mod table;
pub mod text;
pub mod token;
