//! Decoder for Forsyth-Edwards Notation (FEN), the single-line text
//! encoding of a chess position.
//!
//! The input string is split on whitespace into up to six tokens (piece
//! placement, active color, castling availability, en-passant target,
//! halfmove clock, fullmove clock), each token is decoded by a
//! field-specific scanner, and the results are assembled into a
//! [`GameState`] snapshot under either a strict (fail-fast) or a lenient
//! (best-effort, default-filling) policy.

pub mod assemble;
pub mod fields;
pub mod laws;
pub mod placement;
pub mod scan;
pub mod types;

pub use assemble::parse;
pub use assemble::parse_or_default;
pub use assemble::parse_or_else;
pub use placement::parse_rank;
pub use types::Color;
pub use types::Diagnostic;
pub use types::GameState;
pub use types::Kind;
pub use types::LibFenError;
pub use types::Piece;
pub use types::Position;
