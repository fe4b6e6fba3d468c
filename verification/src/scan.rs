//! Tokenizer: splits the input on runs of whitespace into an ordered
//! sequence of tokens. No validation happens here; missing trailing
//! tokens are simply absent from the result.

use vstd::prelude::*;

verus! {

/// The whitespace characters that separate FEN fields.
pub open spec fn is_fen_whitespace(c: char) -> bool {
    c == ' ' || c == '\t' || c == '\n' || c == '\r' || c == '\u{b}' || c == '\u{c}'
}

/// The first index at or after `i` holding a non-whitespace character,
/// or the length of `s` if there is none.
pub open spec fn token_start(s: Seq<char>, i: int) -> int
    decreases s.len() - i,
{
    if i < 0 || i >= s.len() {
        s.len() as int
    } else if is_fen_whitespace(s[i]) {
        token_start(s, i + 1)
    } else {
        i
    }
}

/// The first index at or after `i` holding a whitespace character,
/// or the length of `s` if there is none.
pub open spec fn token_end(s: Seq<char>, i: int) -> int
    decreases s.len() - i,
{
    if i < 0 || i >= s.len() {
        s.len() as int
    } else if is_fen_whitespace(s[i]) {
        i
    } else {
        token_end(s, i + 1)
    }
}

pub proof fn lemma_token_start_props(s: Seq<char>, i: int)
    requires
        0 <= i <= s.len(),
    ensures
        i <= token_start(s, i) <= s.len(),
        token_start(s, i) < s.len() ==> !is_fen_whitespace(s[token_start(s, i)]),
        forall|t: int| i <= t < token_start(s, i) ==> is_fen_whitespace(s[t]),
    decreases s.len() - i,
{
    if i < s.len() && is_fen_whitespace(s[i]) {
        lemma_token_start_props(s, i + 1);
    }
}

pub proof fn lemma_token_end_props(s: Seq<char>, i: int)
    requires
        0 <= i <= s.len(),
    ensures
        i <= token_end(s, i) <= s.len(),
        token_end(s, i) < s.len() ==> is_fen_whitespace(s[token_end(s, i)]),
        forall|t: int| i <= t < token_end(s, i) ==> !is_fen_whitespace(s[t]),
    decreases s.len() - i,
{
    if i < s.len() && !is_fen_whitespace(s[i]) {
        lemma_token_end_props(s, i + 1);
    }
}

/// `token_end(s, i)` is the unique index `j` past a run of non-whitespace
/// characters starting at `i` that ends at the end of `s` or at whitespace.
pub proof fn lemma_token_end_is(s: Seq<char>, i: int, j: int)
    requires
        0 <= i <= j <= s.len(),
        forall|t: int| i <= t < j ==> !is_fen_whitespace(s[t]),
        j == s.len() || is_fen_whitespace(s[j]),
    ensures
        token_end(s, i) == j,
    decreases j - i,
{
    if i < j {
        lemma_token_end_is(s, i + 1, j);
    }
}

/// The tokens of `s` from position `i` on: maximal runs of
/// non-whitespace characters, in order.
pub open spec fn tokens_from(s: Seq<char>, i: int) -> Seq<Seq<char>>
    decreases s.len() - i,
    when i >= 0
    via tokens_from_decreases
{
    let st = token_start(s, i);
    if st >= s.len() {
        Seq::empty()
    } else {
        seq![s.subrange(st, token_end(s, st))] + tokens_from(s, token_end(s, st))
    }
}

#[via_fn]
proof fn tokens_from_decreases(s: Seq<char>, i: int) {
    if i <= s.len() {
        lemma_token_start_props(s, i);
        let st = token_start(s, i);
        if st < s.len() {
            lemma_token_end_props(s, st + 1);
            assert(token_end(s, st) == token_end(s, st + 1));
        }
    }
}

/// The whitespace-separated tokens of `s`, in order.
pub open spec fn spec_tokens(s: Seq<char>) -> Seq<Seq<char>> {
    tokens_from(s, 0)
}

/// Skipping one leading whitespace character does not change the tokens.
proof fn lemma_tokens_from_ws_step(s: Seq<char>, i: int)
    requires
        0 <= i < s.len(),
        is_fen_whitespace(s[i]),
    ensures
        tokens_from(s, i) == tokens_from(s, i + 1),
{
    assert(token_start(s, i) == token_start(s, i + 1));
}

/// The characters of `s`, in order, as a vector.
fn chars_of(s: &str) -> (r: Vec<char>)
    ensures
        r@ == s@,
{
    let n = s.unicode_len();
    let mut r: Vec<char> = Vec::new();
    let mut i: usize = 0;
    while i < n
        invariant
            i <= n,
            n == s@.len(),
            r@ == s@.subrange(0, i as int),
        decreases n - i,
    {
        let c = s.get_char(i);
        r.push(c);
        i = i + 1;
        proof {
            assert(r@ =~= s@.subrange(0, i as int));
        }
    }
    proof {
        assert(r@ =~= s@);
    }
    r
}

/// Whether `c` separates FEN fields.
fn is_ws_char(c: char) -> (b: bool)
    ensures
        b == is_fen_whitespace(c),
{
    c == ' ' || c == '\t' || c == '\n' || c == '\r' || c == '\u{b}' || c == '\u{c}'
}

/// Splits the characters of the input on runs of whitespace.
pub fn tokenize(fen_str: &str) -> (toks: Vec<Vec<char>>)
    ensures
        toks.deep_view() == spec_tokens(fen_str@),
{
    let s = chars_of(fen_str);
    let ghost sq = s@;
    let n = s.len();
    let mut toks: Vec<Vec<char>> = Vec::new();
    let mut i: usize = 0;
    while i < n
        invariant
            i <= n,
            n == sq.len(),
            s@ == sq,
            toks.deep_view() + tokens_from(sq, i as int) == tokens_from(sq, 0),
        decreases n - i,
    {
        if is_ws_char(s[i]) {
            proof {
                lemma_tokens_from_ws_step(sq, i as int);
            }
            i = i + 1;
        } else {
            let ghost start = i as int;
            let ghost toks_before = toks.deep_view();
            let mut cur: Vec<char> = Vec::new();
            while i < n && !is_ws_char(s[i])
                invariant
                    0 <= start,
                    start <= i as int <= n,
                    n == sq.len(),
                    s@ == sq,
                    cur@ == sq.subrange(start, i as int),
                    forall|t: int| start <= t < i as int ==> !is_fen_whitespace(sq[t]),
                decreases n - i,
            {
                cur.push(s[i]);
                i = i + 1;
                proof {
                    assert(cur@ =~= sq.subrange(start, i as int));
                }
            }
            proof {
                lemma_token_end_is(sq, start, i as int);
                assert(token_start(sq, start) == start);
                assert(tokens_from(sq, start) == seq![sq.subrange(start, i as int)]
                    + tokens_from(sq, i as int));
            }
            toks.push(cur);
            proof {
                assert(toks.deep_view() =~~= toks_before.push(cur@));
                assert(toks.deep_view() + tokens_from(sq, i as int) =~~= toks_before
                    + tokens_from(sq, start));
            }
        }
    }
    proof {
        assert(tokens_from(sq, n as int) =~= Seq::<Seq<char>>::empty());
        assert(toks.deep_view() =~~= tokens_from(sq, 0));
    }
    toks
}

} // verus!
