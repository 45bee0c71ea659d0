//! Encoding and decoding of checkers moves.
//!
//! A move is a source square, a destination square and, for capturing
//! sequences, the ordered list of leap directions; all of it is packed into
//! one 32-bit word. Moves can be built from a list of 1-based square numbers
//! or parsed from hyphen-separated movetext, and the packed word can be
//! queried for each logical field.

pub mod action;
pub mod error;
pub mod model;

pub use action::Action;
pub use action::ActionType;
pub use action::Direction;
pub use error::ParseActionError;
