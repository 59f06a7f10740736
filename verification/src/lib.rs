//! MeriDB storage and catalog core: binary codecs, slotted heap pages,
//! record serialisation, per-table row state, and the SQL front end.

pub mod checksum;
pub mod le;

pub mod text;
pub mod tokens;
pub mod types;
pub mod error;
pub mod meta_codec;
pub mod schema_codec;
pub mod page;
pub mod clock;
pub mod value;
pub mod ast;
pub mod record;
pub mod bitmap;
pub mod record_codec;
pub mod store;
pub mod scan;
pub mod recovery;
pub mod lexer;
pub mod history;
pub mod keys;
pub mod parser;
pub mod names;
pub mod catalog;
pub mod executor;
pub mod number;
pub mod grammar;
pub mod memory;
pub mod table;
pub mod repair;
pub mod open;
pub mod statements;
pub mod segment;
