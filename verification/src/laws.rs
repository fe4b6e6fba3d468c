//! Laws: properties of the decoders that hold for every input, stated
//! and proved once and for all.

use vstd::prelude::*;

use crate::assemble::strict_error;
use crate::fields::castle_mask;
use crate::fields::clock_ok;
use crate::fields::digit_val;
use crate::fields::spec_active_color;
use crate::fields::spec_en_passant;
use crate::placement::is_count_char;
use crate::placement::is_piece_char;
use crate::placement::placement_ok;
use crate::placement::rank_pieces_from;
use crate::types::LibFenError;

verus! {

/// Castling decode law: the mask is always a 4-bit value; bit 0 is set
/// exactly when the token holds a `K`, bit 1 for `Q`, bit 2 for `k`,
/// bit 3 for `q`; duplicate letters are idempotent and order is
/// irrelevant, since the mask depends only on which letters occur; the
/// mask is 0 exactly when none of the four letters occurs, so any token
/// of unrelated characters (the conventional `-` included) decodes to 0.
pub proof fn lemma_castle_mask_bits(t: Seq<char>)
    ensures
        0 <= castle_mask(t) <= 15,
        castle_mask(t) % 2 == 1 <==> t.contains('K'),
        (castle_mask(t) / 2) % 2 == 1 <==> t.contains('Q'),
        (castle_mask(t) / 4) % 2 == 1 <==> t.contains('k'),
        (castle_mask(t) / 8) % 2 == 1 <==> t.contains('q'),
        castle_mask(t) == 0 <==> (!t.contains('K') && !t.contains('Q') && !t.contains('k')
            && !t.contains('q')),
{
}

/// Incompleteness law: when fewer than six tokens are present and every
/// token that is present decodes, strict decoding fails with
/// `IncompleteFen` for the first missing field in token order.
pub proof fn lemma_missing_token_incomplete(toks: Seq<Seq<char>>)
    requires
        toks.len() < 6,
        toks.len() >= 1 ==> placement_ok(toks[0]),
        toks.len() >= 2 ==> spec_active_color(toks[1]) is Some,
        toks.len() >= 4 ==> spec_en_passant(toks[3]) is Some,
        toks.len() >= 5 ==> clock_ok(toks[4]),
    ensures
        strict_error(toks) == Some(LibFenError::IncompleteFen),
{
}

/// Column order law: the pieces decoded from a rank group stand on
/// strictly increasing columns, all at or right of the cursor, so no two
/// pieces of one rank group ever share a square and a group whose counts
/// sum past the right edge places nothing outside the board.
pub proof fn lemma_rank_pieces_columns(g: Seq<char>, y: int, x: int)
    requires
        0 <= x,
    ensures
        forall|i: int|
            0 <= i < rank_pieces_from(g, y, x).len() ==> #[trigger] rank_pieces_from(
                g,
                y,
                x,
            )[i].position.0 >= x,
        forall|i: int, j: int|
            0 <= i < j < rank_pieces_from(g, y, x).len() ==> rank_pieces_from(g, y, x)[i].position.0
                < rank_pieces_from(g, y, x)[j].position.0,
    decreases g.len(),
{
    if g.len() == 0 || x >= 8 {
    } else if is_piece_char(g[0]) {
        lemma_rank_pieces_columns(g.skip(1), y, x + 1);
        assert forall|i: int| 0 <= i < rank_pieces_from(g, y, x).len() implies #[trigger]
        rank_pieces_from(g, y, x)[i].position.0 >= x by {
            if i > 0 {
                assert(rank_pieces_from(g, y, x)[i] == rank_pieces_from(g.skip(1), y, x + 1)[i
                    - 1]);
            }
        }
    } else if is_count_char(g[0]) {
        lemma_rank_pieces_columns(g.skip(1), y, x + digit_val(g[0]));
    } else {
        lemma_rank_pieces_columns(g.skip(1), y, x);
    }
}

} // verus!
