//! Conversion of grenade lineups from one source schema into three
//! playback schemas.
//!
//! A source document names maps and lists, for each map, entries that
//! describe one grenade throw each. `read_gs_json` reads such a document
//! into records; `Grenade::to_mono`, `Grenade::to_prim` and
//! `Grenade::to_kidua` map one record into one of the three schemas, or
//! say why the schema has no place for it.
//!
//! Documents are trees of `Value`s. `parse_document` reads one from JSON
//! text: the parser gives the document as the text writes it, a `Raw`,
//! and `read_numbers` reads its numbers. Numbers are `Decimal`s, decimal
//! fixed-point numbers with eighteen fractional digits, so that every
//! angle, time and tolerance is computed exactly. Every function states what it returns
//! over the mathematical content of its arguments: the `Tree` of a
//! `Value`, the `Lineup` of a `Grenade`, the units of a `Decimal`.

pub mod decimal;
pub mod text;
pub mod value;
pub mod document;
pub mod grenade;
pub mod mono;
pub mod prim;
pub mod kidua;
pub mod reader;
pub mod convert;

pub use crate::decimal::Decimal;
pub use crate::document::{parse_document, DocumentError, Raw};
pub use crate::grenade::{Grenade, ParseError};
pub use crate::kidua::KiduaError;
pub use crate::mono::{Direction, MonoError};
pub use crate::prim::{Category, PrimError};
pub use crate::reader::{deduplicate, read_document, read_gs_json, total_count, MapLineups};
pub use crate::value::Value;
