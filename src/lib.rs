//! Event-modeling diagrams: a parser for the EML notation, ingestion of the
//! parsed expressions into cards and arrows, a fixed three-row swimlane
//! layout, and an SVG renderer.
//!
//! All geometry is exact. Configuration lengths are whole units; positions
//! and sizes count ticks, twelve ticks to a unit, so that halves of card
//! sizes and the text inset (a twelfth of the padding) need no rounding.

pub mod chars;
pub mod eventmodel;
pub mod error;
pub mod grammar;
pub mod parse;
pub mod card;
pub mod arrow;
pub mod swimlane;
pub mod document;
pub mod ingest;
pub mod pipeline;

pub use arrow::Arrow;
pub use card::{Card, CardType, Point, TextTranslate};
pub use document::{SvgConfig, SvgDocument};
pub use error::EmlError;
pub use eventmodel::{Body, EventModel, Expression, ExpressionId, ExpressionType, Field, TextField, TextSeries};
pub use parse::parse;
pub use pipeline::process;
pub use swimlane::Swimlane;
