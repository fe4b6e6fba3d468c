//! Piece-placement decoder: validates the first FEN token as eight
//! rank groups joined by `/` and decodes it into a list of placed pieces.

use vstd::prelude::*;

use crate::fields::digit_val;
use crate::types::Color;
use crate::types::Diagnostic;
use crate::types::Kind;
use crate::types::LibFenError;
use crate::types::Piece;
use crate::types::Position;

verus! {

/// The twelve piece letters: lower case for Black, upper case for White.
pub open spec fn is_piece_char(c: char) -> bool {
    c == 'p' || c == 'r' || c == 'n' || c == 'b' || c == 'q' || c == 'k' || c == 'P' || c == 'R'
        || c == 'N' || c == 'B' || c == 'Q' || c == 'K'
}

/// The digits 1-8, each standing for that many consecutive empty squares.
pub open spec fn is_count_char(c: char) -> bool {
    c == '1' || c == '2' || c == '3' || c == '4' || c == '5' || c == '6' || c == '7' || c == '8'
}

/// A character a valid rank group may hold.
pub open spec fn is_rank_char(c: char) -> bool {
    is_piece_char(c) || is_count_char(c)
}

/// The piece kind a piece letter stands for.
pub open spec fn kind_of(c: char) -> Kind {
    if c == 'p' || c == 'P' {
        Kind::Pawn
    } else if c == 'r' || c == 'R' {
        Kind::Rook
    } else if c == 'n' || c == 'N' {
        Kind::Knight
    } else if c == 'b' || c == 'B' {
        Kind::Bishop
    } else if c == 'q' || c == 'Q' {
        Kind::Queen
    } else {
        Kind::King
    }
}

/// White if the letter is upper case, Black otherwise.
pub open spec fn color_of(c: char) -> Color {
    if c == 'P' || c == 'R' || c == 'N' || c == 'B' || c == 'Q' || c == 'K' {
        Color::White
    } else {
        Color::Black
    }
}

/// The first index at or after `i` holding a `/`, or the length of `t`.
pub open spec fn group_end(t: Seq<char>, i: int) -> int
    decreases t.len() - i,
{
    if i < 0 || i >= t.len() {
        t.len() as int
    } else if t[i] == '/' {
        i
    } else {
        group_end(t, i + 1)
    }
}

pub proof fn lemma_group_end_props(t: Seq<char>, i: int)
    requires
        0 <= i <= t.len(),
    ensures
        i <= group_end(t, i) <= t.len(),
        group_end(t, i) < t.len() ==> t[group_end(t, i)] == '/',
        forall|k: int| i <= k < group_end(t, i) ==> t[k] != '/',
    decreases t.len() - i,
{
    if i < t.len() && t[i] != '/' {
        lemma_group_end_props(t, i + 1);
    }
}

/// `group_end(t, i)` is the unique index `j` past a run of non-`/`
/// characters starting at `i` that ends at the end of `t` or at a `/`.
pub proof fn lemma_group_end_is(t: Seq<char>, i: int, j: int)
    requires
        0 <= i <= j <= t.len(),
        forall|k: int| i <= k < j ==> t[k] != '/',
        j == t.len() || t[j] == '/',
    ensures
        group_end(t, i) == j,
    decreases j - i,
{
    if i < j {
        lemma_group_end_is(t, i + 1, j);
    }
}

/// The rank groups of `t` from position `i` on: the runs between the
/// `/` separators, empty runs kept.
pub open spec fn groups_from(t: Seq<char>, i: int) -> Seq<Seq<char>>
    decreases t.len() - i,
    when 0 <= i <= t.len()
    via groups_from_decreases
{
    let e = group_end(t, i);
    if e >= t.len() {
        seq![t.subrange(i, e)]
    } else {
        seq![t.subrange(i, e)] + groups_from(t, e + 1)
    }
}

#[via_fn]
proof fn groups_from_decreases(t: Seq<char>, i: int) {
    lemma_group_end_props(t, i);
}

/// The rank groups of the piece-placement token, rank 8 first.
pub open spec fn placement_groups(t: Seq<char>) -> Seq<Seq<char>> {
    groups_from(t, 0)
}

/// A valid rank group: one to eight characters, each a piece letter or
/// a digit 1-8.
pub open spec fn group_ok(g: Seq<char>) -> bool {
    1 <= g.len() <= 8 && (forall|i: int| 0 <= i < g.len() ==> is_rank_char(g[i]))
}

/// The structural shape check of the piece-placement token: exactly
/// eight valid rank groups joined by `/`.
pub open spec fn placement_ok(t: Seq<char>) -> bool {
    placement_groups(t).len() == 8 && (forall|i: int|
        0 <= i < 8 ==> group_ok(placement_groups(t)[i]))
}

/// The pieces decoded from the rest of a rank group, on row `y`, with the
/// column cursor at `x`. A piece letter places a piece and advances the
/// cursor by one; a digit advances it by its value; once the cursor has
/// left the board nothing further is placed; any other character is
/// ignored.
pub open spec fn rank_pieces_from(g: Seq<char>, y: int, x: int) -> Seq<Piece>
    decreases g.len(),
{
    if g.len() == 0 || x >= 8 {
        Seq::empty()
    } else if is_piece_char(g[0]) {
        seq![
            Piece {
                kind: kind_of(g[0]),
                color: color_of(g[0]),
                position: Position(x as usize, y as usize),
            },
        ] + rank_pieces_from(g.skip(1), y, x + 1)
    } else if is_count_char(g[0]) {
        rank_pieces_from(g.skip(1), y, x + digit_val(g[0]))
    } else {
        rank_pieces_from(g.skip(1), y, x)
    }
}

/// The diagnostics emitted while decoding the rest of a rank group on
/// row `y` with the column cursor at `x`: one note ends the scan when
/// characters remain after the cursor left the board, and one note is
/// emitted for every unrecognized character.
pub open spec fn rank_notes_from(g: Seq<char>, y: int, x: int) -> Seq<Diagnostic>
    decreases g.len(),
{
    if g.len() == 0 {
        Seq::empty()
    } else if x >= 8 {
        seq![Diagnostic::RankOverflow { row: y as usize }]
    } else if !is_rank_char(g[0]) {
        seq![Diagnostic::UnexpectedCharacter { row: y as usize, found: g[0] as u32 }] + rank_notes_from(
            g.skip(1),
            y,
            x,
        )
    } else if is_piece_char(g[0]) {
        rank_notes_from(g.skip(1), y, x + 1)
    } else {
        rank_notes_from(g.skip(1), y, x + digit_val(g[0]))
    }
}

/// Every piece decoded from a rank group stands on the board, on row `y`.
pub proof fn lemma_rank_pieces_wf(g: Seq<char>, y: int, x: int)
    requires
        0 <= y <= 7,
        0 <= x,
    ensures
        forall|i: int|
            0 <= i < rank_pieces_from(g, y, x).len() ==> (#[trigger] rank_pieces_from(g, y, x)[i]).wf()
                && rank_pieces_from(g, y, x)[i].position.1 == y,
    decreases g.len(),
{
    if g.len() == 0 || x >= 8 {
    } else if is_piece_char(g[0]) {
        lemma_rank_pieces_wf(g.skip(1), y, x + 1);
    } else if is_count_char(g[0]) {
        lemma_rank_pieces_wf(g.skip(1), y, x + digit_val(g[0]));
    } else {
        lemma_rank_pieces_wf(g.skip(1), y, x);
    }
}

/// The color of a piece letter: White if upper case, Black otherwise.
fn piece_color_of(c: char) -> (col: Color)
    ensures
        col == color_of(c),
{
    match c {
        'P' | 'R' | 'N' | 'B' | 'Q' | 'K' => Color::White,
        _ => Color::Black,
    }
}

/// The value of a digit 1-8, or nothing for any other character.
fn count_of(c: char) -> (d: Option<u8>)
    ensures
        d is Some <==> is_count_char(c),
        is_count_char(c) ==> d == Some(digit_val(c) as u8),
{
    match c {
        '1' => Some(1),
        '2' => Some(2),
        '3' => Some(3),
        '4' => Some(4),
        '5' => Some(5),
        '6' => Some(6),
        '7' => Some(7),
        '8' => Some(8),
        _ => None,
    }
}

/// Decodes one rank group on row `y`, returning the placed pieces and the
/// advisory diagnostics. A row off the board decodes to nothing.
pub fn parse_rank(y: usize, rank: &Vec<char>) -> (r: (Vec<Piece>, Vec<Diagnostic>))
    ensures
        y <= 7 ==> r.0@ == rank_pieces_from(rank@, y as int, 0),
        y <= 7 ==> r.1@ == rank_notes_from(rank@, y as int, 0),
        y > 7 ==> r.0@ == Seq::<Piece>::empty() && r.1@ == Seq::<Diagnostic>::empty(),
        forall|i: int|
            0 <= i < r.0@.len() ==> (#[trigger] r.0@[i]).wf() && r.0@[i].position.1 == y,
{
    let mut pieces: Vec<Piece> = Vec::new();
    let mut diags: Vec<Diagnostic> = Vec::new();

    if y > 7 {
        return (pieces, diags);
    }

    let ghost g = rank@;
    let n = rank.len();
    let mut x: usize = 0;
    let mut k: usize = 0;
    proof {
        assert(g.skip(0) =~= g);
        assert(pieces@ + rank_pieces_from(g, y as int, 0) =~= rank_pieces_from(g, y as int, 0));
        assert(diags@ + rank_notes_from(g, y as int, 0) =~= rank_notes_from(g, y as int, 0));
    }
    while k < n && x < 8
        invariant
            y <= 7,
            k <= n,
            n == g.len(),
            rank@ == g,
            x <= 16,
            pieces@ + rank_pieces_from(g.skip(k as int), y as int, x as int) == rank_pieces_from(
                g,
                y as int,
                0,
            ),
            diags@ + rank_notes_from(g.skip(k as int), y as int, x as int) == rank_notes_from(
                g,
                y as int,
                0,
            ),
            forall|i: int|
                0 <= i < pieces@.len() ==> (#[trigger] pieces@[i]).wf() && pieces@[i].position.1
                    == y,
        decreases n - k,
    {
        let ghost rest = g.skip(k as int);
        let ghost pieces0 = pieces@;
        let ghost diags0 = diags@;
        let ghost x0 = x as int;
        proof {
            assert(rest.len() == n - k);
            assert(rest[0] == g[k as int]);
            assert(rest.skip(1) =~= g.skip(k as int + 1));
        }
        let c = rank[k];
        let position = Position(x, y);
        let color = piece_color_of(c);
        match c {
            'p' | 'P' => {
                pieces.push(Piece { kind: Kind::Pawn, color, position });
                x = x + 1;
            },
            'r' | 'R' => {
                pieces.push(Piece { kind: Kind::Rook, color, position });
                x = x + 1;
            },
            'n' | 'N' => {
                pieces.push(Piece { kind: Kind::Knight, color, position });
                x = x + 1;
            },
            'b' | 'B' => {
                pieces.push(Piece { kind: Kind::Bishop, color, position });
                x = x + 1;
            },
            'q' | 'Q' => {
                pieces.push(Piece { kind: Kind::Queen, color, position });
                x = x + 1;
            },
            'k' | 'K' => {
                pieces.push(Piece { kind: Kind::King, color, position });
                x = x + 1;
            },
            _ => {
                match count_of(c) {
                    Some(d) => {
                        x = x + d as usize;
                    },
                    None => {
                        diags.push(Diagnostic::UnexpectedCharacter { row: y, found: c as u32 });
                    },
                }
            },
        }
        k = k + 1;
        proof {
            if is_piece_char(rest[0]) {
                assert(rank_notes_from(rest, y as int, x0) == rank_notes_from(
                    rest.skip(1),
                    y as int,
                    x0 + 1,
                ));
            } else if is_count_char(rest[0]) {
                assert(rank_notes_from(rest, y as int, x0) == rank_notes_from(
                    rest.skip(1),
                    y as int,
                    x0 + digit_val(rest[0]),
                ));
            } else {
                assert(rank_notes_from(rest, y as int, x0) == seq![
                    Diagnostic::UnexpectedCharacter { row: y, found: rest[0] as u32 },
                ] + rank_notes_from(rest.skip(1), y as int, x0));
            }
            assert(pieces@ + rank_pieces_from(g.skip(k as int), y as int, x as int) =~= pieces0
                + rank_pieces_from(rest, y as int, x0));
            assert(diags@ + rank_notes_from(g.skip(k as int), y as int, x as int) =~= diags0
                + rank_notes_from(rest, y as int, x0));
        }
    }
    proof {
        if k == n {
            assert(g.skip(n as int) =~= Seq::<char>::empty());
        }
    }
    if k < n {
        // the cursor left the board with characters still unread
        diags.push(Diagnostic::RankOverflow { row: y });
        proof {
            let ghost rest = g.skip(k as int);
            assert(rest.len() > 0);
            assert(rank_pieces_from(rest, y as int, x as int) =~= Seq::<Piece>::empty());
            assert(rank_notes_from(rest, y as int, x as int) =~= seq![
                Diagnostic::RankOverflow { row: y },
            ]);
        }
    }
    proof {
        assert(pieces@ =~= rank_pieces_from(g, y as int, 0));
        assert(diags@ =~= rank_notes_from(g, y as int, 0));
    }
    (pieces, diags)
}


/// The pieces of all rank groups from index `i` on; group `i` lies on
/// row `7 - i` (the first group is rank 8, the last rank 1).
pub open spec fn pieces_from_groups(gs: Seq<Seq<char>>, i: int) -> Seq<Piece>
    decreases gs.len() - i,
{
    if i < 0 || i >= gs.len() {
        Seq::empty()
    } else {
        rank_pieces_from(gs[i], 7 - i, 0) + pieces_from_groups(gs, i + 1)
    }
}

/// The diagnostics of all rank groups from index `i` on, in group order.
pub open spec fn notes_from_groups(gs: Seq<Seq<char>>, i: int) -> Seq<Diagnostic>
    decreases gs.len() - i,
{
    if i < 0 || i >= gs.len() {
        Seq::empty()
    } else {
        rank_notes_from(gs[i], 7 - i, 0) + notes_from_groups(gs, i + 1)
    }
}

/// All pieces decoded from a structurally valid piece-placement token.
pub open spec fn placement_pieces(t: Seq<char>) -> Seq<Piece> {
    pieces_from_groups(placement_groups(t), 0)
}

/// All diagnostics emitted while decoding a structurally valid
/// piece-placement token.
pub open spec fn placement_notes(t: Seq<char>) -> Seq<Diagnostic> {
    notes_from_groups(placement_groups(t), 0)
}

/// The element of a nested vector's deep view is the view of the element.
pub proof fn lemma_deep_view_index(v: &Vec<Vec<char>>, i: int)
    requires
        0 <= i < v@.len(),
    ensures
        v.deep_view().len() == v@.len(),
        v.deep_view()[i] == v@[i]@,
{
    assert(v.deep_view()[i] == v@[i].deep_view());
    assert(v@[i].deep_view() =~= v@[i]@);
}

/// Whether `c` may stand in a rank group.
fn rank_char(c: char) -> (b: bool)
    ensures
        b == is_rank_char(c),
{
    match c {
        'p' | 'r' | 'n' | 'b' | 'q' | 'k' | 'P' | 'R' | 'N' | 'B' | 'Q' | 'K' => true,
        '1' | '2' | '3' | '4' | '5' | '6' | '7' | '8' => true,
        _ => false,
    }
}

/// Decodes the piece-placement token: validates it as exactly eight valid
/// rank groups joined by `/` and decodes each group, rank 8 first.
/// A missing token is a hard failure, as is a token of the wrong shape.
pub fn parse_ranks(ranks: Option<&Vec<char>>) -> (r: (
    Result<Vec<Piece>, LibFenError>,
    Vec<Diagnostic>,
))
    ensures
        ranks is None ==> r.0 == Err::<Vec<Piece>, LibFenError>(LibFenError::IncompleteFen)
            && r.1@ == Seq::<Diagnostic>::empty(),
        ranks matches Some(t) ==> (!placement_ok(t@) ==> r.0 == Err::<Vec<Piece>, LibFenError>(
            LibFenError::Generic,
        ) && r.1@ == Seq::<Diagnostic>::empty()),
        ranks matches Some(t) ==> (placement_ok(t@) ==> (r.0 matches Ok(ps) && ps@
            == placement_pieces(t@) && r.1@ == placement_notes(t@))),
        r.0 matches Ok(ps) ==> forall|i: int| 0 <= i < ps@.len() ==> (#[trigger] ps@[i]).wf(),
{
    let t = match ranks {
        None => {
            return (Err(LibFenError::IncompleteFen), Vec::new());
        },
        Some(t) => t,
    };
    let ghost tq = t@;
    let n = t.len();

    // Split the token on `/` into rank groups, empty groups kept.
    let mut groups: Vec<Vec<char>> = Vec::new();
    let mut cur: Vec<char> = Vec::new();
    let mut k: usize = 0;
    let ghost mut start: int = 0;
    while k < n
        invariant
            0 <= start <= k as int <= n,
            n == tq.len(),
            t@ == tq,
            cur@ == tq.subrange(start, k as int),
            forall|j: int| start <= j < k as int ==> tq[j] != '/',
            groups.deep_view() + groups_from(tq, start) == groups_from(tq, 0),
        decreases n - k,
    {
        let ghost groups0 = groups.deep_view();
        let ghost start0 = start;
        if t[k] == '/' {
            proof {
                lemma_group_end_is(tq, start, k as int);
                assert(groups_from(tq, start) == seq![tq.subrange(start, k as int)] + groups_from(
                    tq,
                    k as int + 1,
                ));
            }
            groups.push(cur);
            cur = Vec::new();
            k = k + 1;
            proof {
                start = k as int;
                assert(groups.deep_view() =~~= groups0.push(tq.subrange(start0, k as int - 1)));
                assert(groups.deep_view() + groups_from(tq, start) =~~= groups0 + groups_from(
                    tq,
                    start0,
                ));
                assert(cur@ =~= tq.subrange(start, k as int));
            }
        } else {
            cur.push(t[k]);
            k = k + 1;
            proof {
                assert(cur@ =~= tq.subrange(start, k as int));
            }
        }
    }
    proof {
        lemma_group_end_is(tq, start, n as int);
        assert(groups_from(tq, start) == seq![tq.subrange(start, n as int)]);
    }
    let ghost groups1 = groups.deep_view();
    groups.push(cur);
    proof {
        assert(groups.deep_view() =~~= groups1.push(tq.subrange(start, n as int)));
        assert(groups.deep_view() =~~= groups_from(tq, 0));
    }
    let ghost gs = groups_from(tq, 0);

    // The structural shape check: exactly eight groups, each 1-8 valid characters.
    if groups.len() != 8 {
        return (Err(LibFenError::Generic), Vec::new());
    }
    let mut gi: usize = 0;
    while gi < 8
        invariant
            ranks == Some(t),
            t@ == tq,
            gi <= 8,
            groups@.len() == 8,
            groups.deep_view() == gs,
            gs == groups_from(tq, 0),
            gs.len() == 8,
            forall|i: int| 0 <= i < gi as int ==> group_ok(gs[i]),
        decreases 8 - gi,
    {
        let g = &groups[gi];
        proof {
            lemma_deep_view_index(&groups, gi as int);
        }
        if g.len() < 1 || g.len() > 8 {
            return (Err(LibFenError::Generic), Vec::new());
        }
        let mut ci: usize = 0;
        while ci < g.len()
            invariant
                ranks == Some(t),
                t@ == tq,
                gi < 8,
                ci <= g@.len(),
                g@ == gs[gi as int],
                gs == groups_from(tq, 0),
                gs.len() == 8,
                forall|j: int| 0 <= j < ci as int ==> is_rank_char(g@[j]),
            decreases g@.len() - ci,
        {
            if !rank_char(g[ci]) {
                proof {
                    assert(!group_ok(gs[gi as int]));
                    assert(!placement_ok(tq));
                }
                return (Err(LibFenError::Generic), Vec::new());
            }
            ci = ci + 1;
        }
        gi = gi + 1;
    }
    assert(placement_ok(tq));

    // Decode each group; group i lies on row 7 - i.
    let mut pieces: Vec<Piece> = Vec::new();
    let mut diags: Vec<Diagnostic> = Vec::new();
    let mut i: usize = 0;
    proof {
        assert(pieces@ + pieces_from_groups(gs, 0) =~= pieces_from_groups(gs, 0));
        assert(diags@ + notes_from_groups(gs, 0) =~= notes_from_groups(gs, 0));
    }
    while i < 8
        invariant
            ranks == Some(t),
            t@ == tq,
            i <= 8,
            groups@.len() == 8,
            groups.deep_view() == gs,
            gs == groups_from(tq, 0),
            gs.len() == 8,
            placement_ok(tq),
            pieces@ + pieces_from_groups(gs, i as int) == pieces_from_groups(gs, 0),
            diags@ + notes_from_groups(gs, i as int) == notes_from_groups(gs, 0),
            forall|j: int| 0 <= j < pieces@.len() ==> (#[trigger] pieces@[j]).wf(),
        decreases 8 - i,
    {
        let ghost pieces0 = pieces@;
        let ghost diags0 = diags@;
        let y = 7 - i;
        proof {
            lemma_deep_view_index(&groups, i as int);
        }
        let (mut ps, mut ds) = parse_rank(y, &groups[i]);
        pieces.append(&mut ps);
        diags.append(&mut ds);
        i = i + 1;
        proof {
            assert(pieces@ + pieces_from_groups(gs, i as int) =~= pieces0 + pieces_from_groups(
                gs,
                i as int - 1,
            ));
            assert(diags@ + notes_from_groups(gs, i as int) =~= diags0 + notes_from_groups(
                gs,
                i as int - 1,
            ));
        }
    }
    proof {
        assert(pieces@ =~= pieces_from_groups(gs, 0));
        assert(diags@ =~= notes_from_groups(gs, 0));
    }
    (Ok(pieces), diags)
}

} // verus!
