//! Compiler for localisation tables: source text in, a validated table of
//! keys and per-locale templates out.
//!
//! The stages, each with its contracts stated over the characters involved:
//! - [`reader`]: characters to tokens, one per step;
//! - [`config`]: directive lines, the declared locales and the queue of
//!   further sources;
//! - [`parser`]: tokens to keys with one entry slot per locale, keys merged
//!   across declarations and sources;
//! - [`validate`]: every locale filled, placeholders well formed and alike
//!   in every locale, comments merged;
//! - [`emit`]: the locale enumeration and one accessor description per key;
//! - [`runtime`]: the current locale, and templates filled with values;
//! - [`compile`]: the whole pipeline over sources held in memory.

pub mod compile;
pub mod config;
pub mod emit;
pub mod error;
pub mod name;
pub mod parser;
pub mod reader;
pub mod runtime;
pub mod text;
pub mod validate;
