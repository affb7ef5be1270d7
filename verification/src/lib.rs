//! An indentation-sensitive scripting language front end: lexers, token streams,
//! and the program layout and name resolution of its definitions.
pub mod symbols;

pub mod span;
pub mod token;
pub mod lexer;
pub mod filter;
pub mod spanned;
pub mod ptr_vec;
pub mod indexers;
pub mod value;
pub mod parse_token;
pub mod text_line;
pub mod line_lexer;
pub mod name_map;
pub mod ast;
pub mod layout;
pub mod resolve;
pub mod syntax;
pub mod shell_stream;
pub mod line_parser;
pub mod expr_parser;
pub mod stmt_parser;
pub mod stream;
pub mod builder;
pub mod compiler;
pub mod session;
pub mod program;
