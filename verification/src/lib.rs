//! A small templating language for transforming captured text fragments
//! into formatted output lines.
//!
//! A template string holds literal text interspersed with anchors:
//! interpolation points that reference named captures, optionally indexed,
//! defaulted and styled with attributes. Parsing a template yields an
//! [`template::OutputTemplate`]; transforming binds the anchors against a
//! per-line [`template::InterpolationMap`] to produce the output text.

pub mod anchor;
pub mod attr;
pub mod buffer;
pub mod charset;
pub mod error;
pub mod line;
pub mod parse;
pub mod pattern;
pub mod strutil;
pub mod style;
pub mod template;
pub mod token;

pub use anchor::{Anchor, DefaultValue};
pub use attr::{Alignment, Attribute, AttributeKind};
pub use buffer::BlockBuffer;
pub use charset::Rules;
pub use error::ParseError;
pub use line::{LineProcessor, LineProcessorError, RequireMode};
pub use pattern::CompiledPattern;
pub use template::{InterpolationMap, InterpolationTarget, OutputTemplate};
