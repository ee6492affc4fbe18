//! Build-time rewriting of inline-translation calls.
//!
//! Recognized calls such as `it('텍스트', 'text')` or
//! `it({ko: '...', en: '...'})` are rewritten into a call of a configured
//! runtime lookup function, carrying a deterministic content hash and a
//! canonical translation table.

pub mod ast;
pub mod config;
pub mod hash;
pub mod names;
pub mod table;
pub mod transform;

pub use ast::{Arg, Expr, Prop, PropKey};
pub use config::{default_runtime_function, PluginConfig};
pub use hash::generate_hash;
pub use names::{get_pair_mapping, is_translation_fn};
pub use table::Translations;
pub use transform::TransformVisitor;
