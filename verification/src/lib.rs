//! Arithmetic on numbers that carry units: a conversion table that is
//! expanded once from declared ratios, unit-aware operations on values, and
//! the grammar of one-line expressions such as `1km + 6000m` or `45 - 20%`.
//!
//! Numbers are kept as the exact arithmetic that yields them (see
//! [`Number`]); the library decides which arithmetic an expression comes to
//! and leaves the computation in binary64 to its caller.

pub mod converter;
pub mod expansion;
pub mod grammar;
pub mod lexer;
pub mod notation;
pub mod number;
pub mod parser;
pub mod pending;
pub mod table;
pub mod unit;
pub mod value;

pub use crate::converter::Converter;
pub use crate::number::Number;
pub use crate::parser::evaluate;
pub use crate::parser::ExpressionParser;
pub use crate::parser::ParseError;
pub use crate::table::Conversion;
pub use crate::table::Conversions;
pub use crate::unit::Unit;
pub use crate::value::Value;
