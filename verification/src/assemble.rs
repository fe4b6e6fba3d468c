//! Assembler: orchestrates the tokenizer and the six field decoders and
//! merges their results into a position snapshot, under either a strict
//! (fail-fast) or a lenient (best-effort, default-filling) policy.

use vstd::prelude::*;

use crate::fields::castle_mask;
use crate::fields::clock_ok;
use crate::fields::clock_value;
use crate::fields::parse_active_color;
use crate::fields::parse_castling_availabilty;
use crate::fields::parse_en_passant;
use crate::fields::parse_move_clock;
use crate::fields::spec_active_color;
use crate::fields::spec_en_passant;
use crate::placement::lemma_deep_view_index;
use crate::placement::parse_ranks;
use crate::placement::placement_ok;
use crate::placement::placement_pieces;
use crate::scan::spec_tokens;
use crate::scan::tokenize;
use crate::types::Color;
use crate::types::GameState;
use crate::types::LibFenError;
use crate::types::Piece;

verus! {

/// The first failure strict decoding observes when the six decoded fields
/// are applied in token order (piece placement, active color, castling,
/// en-passant, halfmove clock, fullmove clock), or nothing when every
/// field decodes. A missing token is `IncompleteFen`; a malformed
/// placement or en-passant token is `Generic`; a bad color letter or a
/// non-numeric clock is `IllegalInput`; a present castling token never
/// fails.
pub open spec fn strict_error(toks: Seq<Seq<char>>) -> Option<LibFenError> {
    if toks.len() < 1 {
        Some(LibFenError::IncompleteFen)
    } else if !placement_ok(toks[0]) {
        Some(LibFenError::Generic)
    } else if toks.len() < 2 {
        Some(LibFenError::IncompleteFen)
    } else if spec_active_color(toks[1]) is None {
        Some(LibFenError::IllegalInput)
    } else if toks.len() < 3 {
        Some(LibFenError::IncompleteFen)
    } else if toks.len() < 4 {
        Some(LibFenError::IncompleteFen)
    } else if spec_en_passant(toks[3]) is None {
        Some(LibFenError::Generic)
    } else if toks.len() < 5 {
        Some(LibFenError::IncompleteFen)
    } else if !clock_ok(toks[4]) {
        Some(LibFenError::IllegalInput)
    } else if toks.len() < 6 {
        Some(LibFenError::IncompleteFen)
    } else if !clock_ok(toks[5]) {
        Some(LibFenError::IllegalInput)
    } else {
        None
    }
}

/// The content of square `(x, y)` after the pieces of `ps` are written
/// over a square holding `base`, in order: the last piece of `ps` standing
/// on the square, or `base` if none does. A later piece silently
/// overwrites an earlier one.
pub open spec fn square_after(base: Option<Piece>, ps: Seq<Piece>, x: int, y: int) -> Option<
    Piece,
>
    decreases ps.len(),
{
    if ps.len() == 0 {
        base
    } else if ps.last().position.0 == x && ps.last().position.1 == y {
        Some(ps.last())
    } else {
        square_after(base, ps.drop_last(), x, y)
    }
}

/// The board of `g` is the board of `base` overwritten by the pieces of
/// `ps`, square by square.
pub open spec fn board_applied(g: GameState, base: GameState, ps: Seq<Piece>) -> bool {
    forall|x: int, y: int|
        0 <= x < 8 && 0 <= y < 8 ==> g.pieces[y][x] == square_after(base.pieces[y][x], ps, x, y)
}

/// The five non-placement fields of `g` hold exactly what the tokens say.
pub open spec fn strict_fields_ok(g: GameState, toks: Seq<Seq<char>>) -> bool {
    &&& Some(g.active_color) == spec_active_color(toks[1])
    &&& g.castling_availability as int == castle_mask(toks[2])
    &&& g.en_passant == spec_en_passant(toks[3])
    &&& g.half_move_clock as int == clock_value(toks[4])
    &&& g.full_move_clock as int == clock_value(toks[5])
}

/// The five non-placement fields of `g` are those of the defaults `d`.
pub open spec fn defaults_fields_kept(g: GameState, d: GameState) -> bool {
    &&& g.active_color == d.active_color
    &&& g.castling_availability == d.castling_availability
    &&& g.en_passant == d.en_passant
    &&& g.half_move_clock == d.half_move_clock
    &&& g.full_move_clock == d.full_move_clock
}

/// What strict decoding returns on success: the decoded pieces written
/// over the defaults' board, and every other field taken from its token.
pub open spec fn strict_result_ok(g: GameState, s: Seq<char>, d: GameState) -> bool {
    let toks = spec_tokens(s);
    &&& board_applied(g, d, placement_pieces(toks[0]))
    &&& strict_fields_ok(g, toks)
}

/// What lenient decoding returns: the piece placement applied best-effort
/// over the defaults (the board is left as supplied when the placement
/// token is missing or malformed), and every other field taken from the
/// caller's defaults verbatim, whether or not its token was present,
/// well-formed, or malformed.
pub open spec fn lenient_result_ok(g: GameState, s: Seq<char>, d: GameState) -> bool {
    let toks = spec_tokens(s);
    &&& defaults_fields_kept(g, d)
    &&& if toks.len() >= 1 && placement_ok(toks[0]) {
        board_applied(g, d, placement_pieces(toks[0]))
    } else {
        board_applied(g, d, Seq::empty())
    }
}

/// What strict decoding of `s` returns on success when the defaults are a
/// blank snapshot: each square holds the last decoded piece placed on it,
/// or nothing.
pub open spec fn strict_blank_ok(g: GameState, s: Seq<char>) -> bool {
    let toks = spec_tokens(s);
    &&& forall|x: int, y: int|
        0 <= x < 8 && 0 <= y < 8 ==> g.pieces[y][x] == square_after(
            None,
            placement_pieces(toks[0]),
            x,
            y,
        )
    &&& strict_fields_ok(g, toks)
}

/// What lenient decoding of `s` over a blank snapshot returns: a board
/// holding the decoded placement (or nothing at all), White to move, no
/// castling rights, no en-passant target, clocks 0 and 1.
pub open spec fn lenient_blank_ok(g: GameState, s: Seq<char>) -> bool {
    let toks = spec_tokens(s);
    &&& g.active_color == Color::White
    &&& g.castling_availability == 0
    &&& g.en_passant is None
    &&& g.half_move_clock == 0
    &&& g.full_move_clock == 1
    &&& forall|x: int, y: int|
        0 <= x < 8 && 0 <= y < 8 ==> g.pieces[y][x] == (
        if spec_tokens(s).len() >= 1 && placement_ok(spec_tokens(s)[0]) {
            square_after(None, placement_pieces(spec_tokens(s)[0]), x, y)
        } else {
            None
        })
}

/// Decodes `fen_str` strictly: every one of the six fields must decode,
/// and the first failure, observed in token order, aborts the whole call.
pub fn parse(fen_str: &str) -> (r: Result<GameState, LibFenError>)
    ensures
        r matches Ok(g) <==> strict_error(spec_tokens(fen_str@)) is None,
        r matches Ok(g) ==> strict_blank_ok(g, fen_str@),
        r matches Err(e) ==> Some(e) == strict_error(spec_tokens(fen_str@)),
{
    let defaults = GameState::blank();
    let r = do_parse(fen_str, defaults, true);
    proof {
        if strict_error(spec_tokens(fen_str@)) is None {
            let g = r->Ok_0;
            assert forall|x: int, y: int| 0 <= x < 8 && 0 <= y < 8 implies g.pieces[y][x]
                == square_after(None, placement_pieces(spec_tokens(fen_str@)[0]), x, y) by {
                assert(defaults.pieces[y][x] is None);
            }
        }
    }
    r
}

/// Decodes `fen_str` leniently over a blank snapshot: never fails.
pub fn parse_or_default(fen_str: &str) -> (g: GameState)
    ensures
        lenient_blank_ok(g, fen_str@),
{
    let defaults = GameState::blank();
    let g = parse_or_else(fen_str, defaults);
    proof {
        assert forall|x: int, y: int| 0 <= x < 8 && 0 <= y < 8 implies g.pieces[y][x] == (
        if spec_tokens(fen_str@).len() >= 1 && placement_ok(spec_tokens(fen_str@)[0]) {
            square_after(None, placement_pieces(spec_tokens(fen_str@)[0]), x, y)
        } else {
            None
        }) by {
            assert(defaults.pieces[y][x] is None);
        }
    }
    g
}

/// Decodes `fen_str` leniently with caller-supplied defaults: never fails.
/// Only the piece placement is taken from the input, and only when its
/// token is well-formed; every other field comes from `defaults`.
pub fn parse_or_else(fen_str: &str, defaults: GameState) -> (g: GameState)
    ensures
        lenient_result_ok(g, fen_str@, defaults),
{
    match do_parse(fen_str, defaults, false) {
        Ok(g) => g,
        Err(_) => defaults,
    }
}

/// The shared decode pipeline. Each field is decoded eagerly from its
/// token; the decoded values are then applied in token order. In strict
/// mode the first applied failure aborts the call; in lenient mode the
/// placement is applied best-effort and every other field keeps the
/// defaults.
fn do_parse(fen_str: &str, defaults: GameState, strict: bool) -> (r: Result<
    GameState,
    LibFenError,
>)
    ensures
        strict ==> (match strict_error(spec_tokens(fen_str@)) {
            Some(e) => r == Err::<GameState, LibFenError>(e),
            None => r matches Ok(g) && strict_result_ok(g, fen_str@, defaults),
        }),
        !strict ==> (r matches Ok(g) && lenient_result_ok(g, fen_str@, defaults)),
{
    let toks = tokenize(fen_str);
    let ghost tv = spec_tokens(fen_str@);
    let mut game_state = defaults;

    let tok0 = if toks.len() > 0 {
        proof {
            lemma_deep_view_index(&toks, 0);
        }
        Some(&toks[0])
    } else {
        None
    };
    let tok1 = if toks.len() > 1 {
        proof {
            lemma_deep_view_index(&toks, 1);
        }
        Some(&toks[1])
    } else {
        None
    };
    let tok2 = if toks.len() > 2 {
        proof {
            lemma_deep_view_index(&toks, 2);
        }
        Some(&toks[2])
    } else {
        None
    };
    let tok3 = if toks.len() > 3 {
        proof {
            lemma_deep_view_index(&toks, 3);
        }
        Some(&toks[3])
    } else {
        None
    };
    let tok4 = if toks.len() > 4 {
        proof {
            lemma_deep_view_index(&toks, 4);
        }
        Some(&toks[4])
    } else {
        None
    };
    let tok5 = if toks.len() > 5 {
        proof {
            lemma_deep_view_index(&toks, 5);
        }
        Some(&toks[5])
    } else {
        None
    };

    // The placement diagnostics are advisory and the snapshot has no room
    // for them; callers that want them use the rank decoder directly.
    let (pieces_res, _diags) = parse_ranks(tok0);
    let active_color = parse_active_color(tok1);
    let castling_availability = parse_castling_availabilty(tok2);
    let en_passant = parse_en_passant(tok3);
    let half_move_clock = parse_move_clock(tok4);
    let full_move_clock = parse_move_clock(tok5);

    let pieces: Vec<Piece> = if strict {
        match pieces_res {
            Ok(ps) => ps,
            Err(e) => {
                return Err(e);
            },
        }
    } else {
        match pieces_res {
            Ok(ps) => ps,
            Err(_) => Vec::new(),
        }
    };

    // organization: [y][x]
    let ghost psq = pieces@;
    let mut idx: usize = 0;
    proof {
        assert(psq.take(0) =~= Seq::<Piece>::empty());
    }
    while idx < pieces.len()
        invariant
            idx <= pieces@.len(),
            pieces@ == psq,
            forall|i: int| 0 <= i < psq.len() ==> (#[trigger] psq[i]).wf(),
            forall|x: int, y: int|
                0 <= x < 8 && 0 <= y < 8 ==> game_state.pieces[y][x] == square_after(
                    defaults.pieces[y][x],
                    psq.take(idx as int),
                    x,
                    y,
                ),
            defaults_fields_kept(game_state, defaults),
        decreases pieces@.len() - idx,
    {
        let p = pieces[idx];
        let mut row = game_state.pieces[p.position.1];
        row[p.position.0] = Some(p);
        game_state.pieces[p.position.1] = row;
        idx = idx + 1;
        proof {
            let pre = psq.take(idx as int);
            assert(pre.drop_last() =~= psq.take(idx as int - 1));
            assert(pre.last() == p);
        }
    }
    proof {
        assert(psq.take(psq.len() as int) =~= psq);
    }

    game_state.active_color = if strict {
        match active_color {
            Ok(c) => c,
            Err(e) => {
                return Err(e);
            },
        }
    } else {
        defaults.active_color
    };
    game_state.castling_availability = if strict {
        match castling_availability {
            Ok(m) => m,
            Err(e) => {
                return Err(e);
            },
        }
    } else {
        defaults.castling_availability
    };
    game_state.en_passant = if strict {
        match en_passant {
            Ok(t) => t,
            Err(e) => {
                return Err(e);
            },
        }
    } else {
        defaults.en_passant
    };
    game_state.half_move_clock = if strict {
        match half_move_clock {
            Ok(c) => c,
            Err(e) => {
                return Err(e);
            },
        }
    } else {
        defaults.half_move_clock
    };
    game_state.full_move_clock = if strict {
        match full_move_clock {
            Ok(c) => c,
            Err(e) => {
                return Err(e);
            },
        }
    } else {
        defaults.full_move_clock
    };

    Ok(game_state)
}

} // verus!
