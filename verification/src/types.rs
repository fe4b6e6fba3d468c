//! Core data model: colors, piece kinds, board coordinates, pieces,
//! position snapshots, and the error and diagnostic types of the decoder.

use vstd::prelude::*;

verus! {

/// Which side a piece belongs to, and whose turn it is.
#[derive(Copy, Clone, Eq, PartialEq, Structural, Debug)]
pub enum Color {
    White,
    Black,
}

/// The six kinds of chess pieces.
#[derive(Copy, Clone, Eq, PartialEq, Structural, Debug)]
pub enum Kind {
    Pawn,
    Rook,
    Knight,
    Bishop,
    Queen,
    King,
}

/// A board coordinate: column 0-7 (file a-h) and row 0-7.
#[derive(Copy, Clone, Eq, PartialEq, Structural, Debug)]
pub struct Position(pub usize, pub usize);

impl Position {
    /// Both coordinates lie on the 8x8 board.
    pub open spec fn wf(self) -> bool {
        self.0 < 8 && self.1 < 8
    }
}

/// A piece of a given kind and color standing on a square.
#[derive(Copy, Clone, Debug)]
pub struct Piece {
    pub kind: Kind,
    pub color: Color,
    pub position: Position,
}

impl Piece {
    /// The piece stands on the board.
    pub open spec fn wf(self) -> bool {
        self.position.wf()
    }
}

/// Why a decode call failed.
#[derive(Copy, Clone, Eq, PartialEq, Structural, Debug)]
pub enum LibFenError {
    /// A required whitespace-separated token is missing.
    IncompleteFen,
    /// A token is present but fails its field-specific domain check.
    IllegalInput,
    /// A token is present but fails its structural pattern check.
    Generic,
}

/// An advisory note about a recoverable anomaly met while decoding a
/// rank group; never an error.
#[derive(Copy, Clone, Eq, PartialEq, Debug)]
pub enum Diagnostic {
    /// The column cursor reached the right edge of the board with
    /// characters of the rank group still unread; they were skipped.
    RankOverflow { row: usize },
    /// A character that is neither a piece letter nor a digit 1-8 was
    /// met in a rank group and ignored; `found` is its code point.
    UnexpectedCharacter { row: usize, found: u32 },
}

/// The decoded snapshot of a chess position.
#[derive(Copy, Clone, Debug)]
pub struct GameState {
    /// organization: [y][x]; row index 0 is rank 1, row index 7 is rank 8.
    pub pieces: [[Option<Piece>; 8]; 8],
    pub active_color: Color,
    /// 4-bit mask: bit0 = White kingside, bit1 = White queenside,
    /// bit2 = Black kingside, bit3 = Black queenside.
    pub castling_availability: i32,
    pub en_passant: Option<Position>,
    /// Halfmoves since the last capture or pawn advance.
    pub half_move_clock: i32,
    /// The number of the full move; starts at 1, incremented after Black's move.
    pub full_move_clock: i32,
}

impl GameState {
    /// An empty board, White to move, no castling rights, no en-passant
    /// target, clocks 0 and 1.
    pub open spec fn is_blank(self) -> bool {
        &&& forall|x: int, y: int| 0 <= x < 8 && 0 <= y < 8 ==> self.pieces[y][x] is None
        &&& self.active_color == Color::White
        &&& self.castling_availability == 0
        &&& self.en_passant is None
        &&& self.half_move_clock == 0
        &&& self.full_move_clock == 1
    }

    /// An empty board, White to move, no castling rights, no en-passant
    /// target, clocks 0 and 1.
    pub fn blank() -> (g: GameState)
        ensures
            g.is_blank(),
    {
        GameState {
            pieces: [[None; 8]; 8],
            active_color: Color::White,
            castling_availability: 0,
            en_passant: None,
            half_move_clock: 0,
            full_move_clock: 1,
        }
    }
}

} // verus!
