//! Decoding of fighting-game combo notation into token sequences.
//!
//! - `notation`: a character-level state machine for a numeric-pad and
//!   weighted-normal shorthand.
//! - `tokenizer`: a vocabulary-driven tokenizer that splits a line into the
//!   longest known spellings, leftmost first.
//! - `pattern`: the literal alternation patterns the tokenizer searches with.
//! - `asset`: the asset that each token is drawn with.
pub mod asset;
pub mod notation;
pub mod pattern;
pub mod tokenizer;
