//! Decoders for the single-token FEN fields: active color, castling
//! availability, en-passant target, and the two move clocks.

use vstd::prelude::*;

use crate::types::Color;
use crate::types::LibFenError;
use crate::types::Position;

verus! {

// ---------------------------------------------------------------------------
// Active color
// ---------------------------------------------------------------------------
/// The side to move encoded by a token: `w`, `b`, or nothing.
pub open spec fn spec_active_color(t: Seq<char>) -> Option<Color> {
    if t.len() == 1 && t[0] == 'w' {
        Some(Color::White)
    } else if t.len() == 1 && t[0] == 'b' {
        Some(Color::Black)
    } else {
        None
    }
}

/// Decodes the active-color token: `w` means White, `b` means Black.
pub fn parse_active_color(input: Option<&Vec<char>>) -> (r: Result<Color, LibFenError>)
    ensures
        input is None ==> r == Err::<Color, LibFenError>(LibFenError::IncompleteFen),
        input matches Some(t) ==> r == match spec_active_color(t@) {
            Some(c) => Ok::<Color, LibFenError>(c),
            None => Err::<Color, LibFenError>(LibFenError::IllegalInput),
        },
{
    match input {
        None => Err(LibFenError::IncompleteFen),
        Some(t) => {
            if t.len() == 1 && t[0] == 'w' {
                Ok(Color::White)
            } else if t.len() == 1 && t[0] == 'b' {
                Ok(Color::Black)
            } else {
                Err(LibFenError::IllegalInput)
            }
        },
    }
}

// ---------------------------------------------------------------------------
// Castling availability
// ---------------------------------------------------------------------------
/// The 4-bit castling mask encoded by a token: each of the letters
/// `K`, `Q`, `k`, `q` present anywhere in the token sets its bit
/// (1, 2, 4, 8 in that order); every other character contributes nothing.
pub open spec fn castle_mask(t: Seq<char>) -> int {
    (if t.contains('K') {
        1int
    } else {
        0int
    }) + (if t.contains('Q') {
        2int
    } else {
        0int
    }) + (if t.contains('k') {
        4int
    } else {
        0int
    }) + (if t.contains('q') {
        8int
    } else {
        0int
    })
}

/// Whether `c` occurs in the token.
fn contains_char(t: &Vec<char>, c: char) -> (b: bool)
    ensures
        b == t@.contains(c),
{
    let n = t.len();
    let mut i: usize = 0;
    while i < n
        invariant
            i <= n,
            n == t@.len(),
            forall|k: int| 0 <= k < i ==> t@[k] != c,
        decreases n - i,
    {
        if t[i] == c {
            return true;
        }
        i = i + 1;
    }
    false
}

/// Decodes the castling-availability token into its 4-bit mask.
/// Duplicate letters are idempotent, order is irrelevant, and unrelated
/// characters (including the conventional `-` absence marker) are ignored.
pub fn parse_castling_availabilty(input: Option<&Vec<char>>) -> (r: Result<i32, LibFenError>)
    ensures
        input is None ==> r == Err::<i32, LibFenError>(LibFenError::IncompleteFen),
        input matches Some(t) ==> r matches Ok(m) && m as int == castle_mask(t@),
{
    match input {
        None => Err(LibFenError::IncompleteFen),
        Some(t) => {
            let mut value: i32 = 0;
            if contains_char(t, 'K') {
                value = value + 1;
            }
            if contains_char(t, 'Q') {
                value = value + 2;
            }
            if contains_char(t, 'k') {
                value = value + 4;
            }
            if contains_char(t, 'q') {
                value = value + 8;
            }
            Ok(value)
        },
    }
}

// ---------------------------------------------------------------------------
// En-passant target
// ---------------------------------------------------------------------------
/// File letters an en-passant target may carry; `h` is excluded by
/// construction of the decoder's pattern.
pub open spec fn is_ep_file(c: char) -> bool {
    c == 'a' || c == 'b' || c == 'c' || c == 'd' || c == 'e' || c == 'f' || c == 'g'
}

/// The zero-based column of an en-passant file letter.
pub open spec fn ep_file_index(c: char) -> usize {
    if c == 'a' {
        0usize
    } else if c == 'b' {
        1usize
    } else if c == 'c' {
        2usize
    } else if c == 'd' {
        3usize
    } else if c == 'e' {
        4usize
    } else if c == 'f' {
        5usize
    } else {
        6usize
    }
}

/// The en-passant target encoded by a token: a file letter `a`-`g`
/// followed by the rank digit `3` or `6`, or nothing. The row is the
/// literal digit value, not translated through the rank-to-row
/// convention of the piece-placement decoder.
pub open spec fn spec_en_passant(t: Seq<char>) -> Option<Position> {
    if t.len() == 2 && is_ep_file(t[0]) && (t[1] == '3' || t[1] == '6') {
        Some(
            Position(
                ep_file_index(t[0]),
                if t[1] == '3' {
                    3usize
                } else {
                    6usize
                },
            ),
        )
    } else {
        None
    }
}

/// The column of an en-passant file letter, or nothing for any other character.
fn ep_file_of(c: char) -> (r: Option<usize>)
    ensures
        r is Some <==> is_ep_file(c),
        is_ep_file(c) ==> r == Some(ep_file_index(c)),
{
    match c {
        'a' => Some(0),
        'b' => Some(1),
        'c' => Some(2),
        'd' => Some(3),
        'e' => Some(4),
        'f' => Some(5),
        'g' => Some(6),
        _ => None,
    }
}

/// Decodes the en-passant token. The standard `-` absence marker does not
/// match the two-character square pattern and therefore fails with
/// `Generic`; this decoder never returns `Ok(None)`.
pub fn parse_en_passant(input: Option<&Vec<char>>) -> (r: Result<
    Option<Position>,
    LibFenError,
>)
    ensures
        input is None ==> r == Err::<Option<Position>, LibFenError>(LibFenError::IncompleteFen),
        input matches Some(t) ==> r == match spec_en_passant(t@) {
            Some(p) => Ok::<Option<Position>, LibFenError>(Some(p)),
            None => Err::<Option<Position>, LibFenError>(LibFenError::Generic),
        },
        r matches Ok(p) ==> p matches Some(q) && q.wf(),
{
    match input {
        None => Err(LibFenError::IncompleteFen),
        Some(t) => {
            if t.len() != 2 {
                return Err(LibFenError::Generic);
            }
            let x = match ep_file_of(t[0]) {
                Some(x) => x,
                None => {
                    return Err(LibFenError::Generic);
                },
            };
            let y: usize = if t[1] == '3' {
                3
            } else if t[1] == '6' {
                6
            } else {
                return Err(LibFenError::Generic);
            };
            Ok(Some(Position(x, y)))
        },
    }
}

// ---------------------------------------------------------------------------
// Move clocks
// ---------------------------------------------------------------------------
/// The ten decimal digit characters.
pub open spec fn is_dec_digit(c: char) -> bool {
    c == '0' || c == '1' || c == '2' || c == '3' || c == '4' || c == '5' || c == '6' || c == '7'
        || c == '8' || c == '9'
}

/// The numeric value of a decimal digit character; 0 for anything else.
pub open spec fn digit_val(c: char) -> int {
    if c == '1' {
        1
    } else if c == '2' {
        2
    } else if c == '3' {
        3
    } else if c == '4' {
        4
    } else if c == '5' {
        5
    } else if c == '6' {
        6
    } else if c == '7' {
        7
    } else if c == '8' {
        8
    } else if c == '9' {
        9
    } else {
        0
    }
}

/// The value of a run of decimal digits read left to right.
pub open spec fn digits_val(s: Seq<char>) -> int
    decreases s.len(),
{
    if s.len() == 0 {
        0
    } else {
        digits_val(s.drop_last()) * 10 + digit_val(s.last())
    }
}

/// The digit run of a clock token: everything after an optional leading
/// sign character.
pub open spec fn clock_digits(t: Seq<char>) -> Seq<char> {
    if t.len() > 0 && (t[0] == '+' || t[0] == '-') {
        t.skip(1)
    } else {
        t
    }
}

/// Whether a clock token carries a leading minus sign.
pub open spec fn clock_negative(t: Seq<char>) -> bool {
    t.len() > 0 && t[0] == '-'
}

/// A clock token is syntactically a base-10 integer: an optional sign
/// followed by at least one decimal digit and nothing else.
pub open spec fn clock_syntax_ok(t: Seq<char>) -> bool {
    clock_digits(t).len() > 0 && (forall|i: int|
        0 <= i < clock_digits(t).len() ==> is_dec_digit(clock_digits(t)[i]))
}

/// The signed integer value of a syntactically valid clock token.
pub open spec fn clock_value(t: Seq<char>) -> int {
    if clock_negative(t) {
        -digits_val(clock_digits(t))
    } else {
        digits_val(clock_digits(t))
    }
}

/// A clock token decodes successfully: valid syntax and a value that a
/// 32-bit signed integer can hold. Negative values are accepted; the
/// decoder does no range validation beyond the successful integer parse.
pub open spec fn clock_ok(t: Seq<char>) -> bool {
    clock_syntax_ok(t) && i32::MIN as int <= clock_value(t) <= i32::MAX as int
}

pub proof fn lemma_digits_val_nonneg(s: Seq<char>)
    ensures
        digits_val(s) >= 0,
    decreases s.len(),
{
    if s.len() > 0 {
        lemma_digits_val_nonneg(s.drop_last());
    }
}

/// Reading further digits never shrinks the value: the value of a prefix
/// of a digit run bounds the value of the whole run from below.
pub proof fn lemma_digits_val_prefix(s: Seq<char>, k: int)
    requires
        0 <= k <= s.len(),
    ensures
        digits_val(s.take(k)) <= digits_val(s),
    decreases s.len() - k,
{
    if k == s.len() {
        assert(s.take(k) =~= s);
    } else {
        assert(s.take(k + 1).drop_last() =~= s.take(k));
        assert(s.take(k + 1).last() == s[k]);
        lemma_digits_val_nonneg(s.take(k));
        assert(digits_val(s.take(k)) <= digits_val(s.take(k + 1)));
        lemma_digits_val_prefix(s, k + 1);
    }
}

/// The numeric value of a decimal digit character, or nothing for any
/// other character.
fn digit_of(c: char) -> (d: Option<u8>)
    ensures
        d is Some <==> is_dec_digit(c),
        is_dec_digit(c) ==> d == Some(digit_val(c) as u8),
{
    match c {
        '0' => Some(0),
        '1' => Some(1),
        '2' => Some(2),
        '3' => Some(3),
        '4' => Some(4),
        '5' => Some(5),
        '6' => Some(6),
        '7' => Some(7),
        '8' => Some(8),
        '9' => Some(9),
        _ => None,
    }
}

/// Decodes a halfmove or fullmove clock token as a base-10 signed integer.
pub fn parse_move_clock(input: Option<&Vec<char>>) -> (r: Result<i32, LibFenError>)
    ensures
        input is None ==> r == Err::<i32, LibFenError>(LibFenError::IncompleteFen),
        input matches Some(t) ==> (clock_ok(t@) ==> (r matches Ok(v) && v as int == clock_value(
            t@,
        ))),
        input matches Some(t) ==> (!clock_ok(t@) ==> r == Err::<i32, LibFenError>(
            LibFenError::IllegalInput,
        )),
{
    let t = match input {
        None => {
            return Err(LibFenError::IncompleteFen);
        },
        Some(t) => t,
    };
    let n = t.len();
    let mut idx: usize = 0;
    let mut neg = false;
    if n > 0 && (t[0] == '+' || t[0] == '-') {
        neg = t[0] == '-';
        idx = 1;
    }
    let ghost ds = clock_digits(t@);
    proof {
        assert(ds =~= t@.skip(idx as int));
    }
    if idx >= n {
        // no digits at all
        assert(ds.len() == 0);
        return Err(LibFenError::IllegalInput);
    }
    let ghost start = idx as int;
    let mut acc: i64 = 0;
    let mut j = idx;
    while j < n
        invariant
            input == Some(t),
            0 <= start <= j as int <= n,
            n == t@.len(),
            ds == clock_digits(t@),
            ds == t@.skip(start),
            forall|k: int| start <= k < j as int ==> is_dec_digit(t@[k]),
            acc as int == digits_val(t@.subrange(start, j as int)),
            0 <= acc <= 0x8000_0000,
        decreases n - j,
    {
        let d = match digit_of(t[j]) {
            Some(d) => d,
            None => {
                proof {
                    assert(ds[j as int - start] == t@[j as int]);
                    assert(!clock_syntax_ok(t@));
                }
                return Err(LibFenError::IllegalInput);
            },
        };
        acc = acc * 10 + d as i64;
        j = j + 1;
        proof {
            let pre = t@.subrange(start, j as int);
            assert(pre.drop_last() =~= t@.subrange(start, j as int - 1));
            assert(pre.last() == t@[j as int - 1]);
        }
        if acc > 0x8000_0000 {
            // the value can only grow from here on; it cannot fit an i32
            proof {
                if clock_syntax_ok(t@) {
                    assert(t@.subrange(start, j as int) =~= ds.take(j as int - start));
                    lemma_digits_val_prefix(ds, j as int - start);
                    assert(digits_val(ds) > i32::MAX as int + 1);
                }
            }
            return Err(LibFenError::IllegalInput);
        }
    }
    proof {
        assert(t@.subrange(start, n as int) =~= ds);
        assert(acc as int == digits_val(ds));
        assert(clock_syntax_ok(t@));
    }
    if neg {
        Ok((-acc) as i32)
    } else {
        if acc > 0x7fff_ffff {
            return Err(LibFenError::IllegalInput);
        }
        Ok(acc as i32)
    }
}

} // verus!
