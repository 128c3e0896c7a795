//! A library for reading, validating and re-emitting game-mod assets written
//! in the Clausewitz script text format (`key = value`, brace-nested
//! objects and arrays, quoted and bare tokens, line comments).
//!
//! The pipeline: raw text runs through the character-level parser into the
//! recursive [`value::Value`] model; per-schema builders turn root objects
//! into typed records ([`country_definition::CountryDefinition`],
//! [`culture::Culture`], [`state::State`]); the validator checks
//! cross-entity consistency over a [`mod_state::ModState`]; and the
//! serializers render each record back to canonical text.
use vstd::prelude::*;

pub mod builder_factory;
pub mod color;
pub mod config;
pub mod country_definition;
pub mod country_tier;
pub mod culture;
pub mod error_messages;
pub mod format;
pub mod lexer_token;
pub mod logger;
pub mod mod_state;
pub mod mod_validator;
pub mod parser;
pub mod round_trip;
pub mod state;
pub mod to_pdx;
pub mod text;
pub mod value;
pub mod value_reader;

verus! {

/// A short description of the library, for banner output.
pub fn message() -> (r: &'static str)
    ensures
        r@ == "Clausewitz script reader"@,
{
    "Clausewitz script reader"
}

} // verus!
