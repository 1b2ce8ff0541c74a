//! Parser and formatter for nginx configuration files.
//!
//! The text of a configuration is split into tokens, the tokens are read
//! into a tree of directives, and the tree is written back as text. Every
//! step has a mathematical description, and the code is verified against it.

pub mod access;
pub mod ast;
pub mod closest;
pub mod copies;
pub mod display;
pub mod error;
pub mod format;
pub mod forms;
pub mod forms_blocks;
pub mod forms_cache;
pub mod forms_if;
pub mod forms_kinds;
pub mod forms_laws;
pub mod forms_listen;
pub mod forms_log;
pub mod forms_map;
pub mod forms_more;
pub mod forms_net;
pub mod forms_options;
pub mod forms_page;
pub mod forms_reads;
pub mod forms_try;
pub mod forms_words;
pub mod grammar;
pub mod gzip;
pub mod headers;
pub mod helpers;
pub mod http_core;
pub mod laws;
pub mod layout_laws;
pub mod lex_laws;
pub mod log;
pub mod names;
pub mod net;
pub mod net6;
pub mod net6_laws;
pub mod net_laws;
pub mod number_laws;
pub mod position;
pub mod proxy;
pub mod real_ip;
pub mod rewrite;
pub mod round_trip;
pub mod text;
pub mod tokenizer;
pub mod value;
pub mod value_laws;
pub mod visitors;
pub mod word_laws;

pub use error::ParseError;
pub use format::Style;
pub use grammar::{parse_directives, parse_main};
pub use position::Pos;
