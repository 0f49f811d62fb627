//! The language's lexical grammar as spec functions over the input characters.
use vstd::prelude::*;

use crate::token::TokenKind;

verus! {

/// Space, tab and carriage return: skipped between tokens, never a token.
pub open spec fn is_hspace(c: char) -> bool {
    c == ' ' || c == '\t' || c == '\r'
}

/// A decimal digit `0` to `9`.
pub open spec fn is_digit(c: char) -> bool {
    '0' <= c && c <= '9'
}

/// Whether a character has the Unicode Alphabetic property.
pub uninterp spec fn alphabetic(c: char) -> bool;

/// The keyword `LET`.
pub open spec fn let_keyword() -> Seq<char> {
    seq!['L', 'E', 'T']
}

/// The first index at or after `i` that does not hold horizontal whitespace.
pub open spec fn skip_hspace(s: Seq<char>, i: int) -> int
    decreases s.len() - i,
{
    if 0 <= i < s.len() && is_hspace(s[i]) {
        skip_hspace(s, i + 1)
    } else {
        i
    }
}

/// The end (exclusive) of the run of digits that starts at `i`.
pub open spec fn digits_end(s: Seq<char>, i: int) -> int
    decreases s.len() - i,
{
    if 0 <= i < s.len() && is_digit(s[i]) {
        digits_end(s, i + 1)
    } else {
        i
    }
}

/// The end (exclusive) of the run of letters that starts at `i`.
pub open spec fn alpha_end(s: Seq<char>, letters: Seq<bool>, i: int) -> int
    decreases s.len() - i,
{
    if 0 <= i < s.len() && letters[i] {
        alpha_end(s, letters, i + 1)
    } else {
        i
    }
}

/// Whether the character at `i` is one that stands alone as a token.
pub open spec fn is_single(c: char) -> bool {
    c == '\n' || c == '+' || c == '-' || c == '*' || c == '='
}

/// The end (exclusive) of the token that starts at `i`, for `0 <= i < s.len()`.
pub open spec fn token_end(s: Seq<char>, letters: Seq<bool>, i: int) -> int {
    let c = s[i];
    if is_single(c) {
        i + 1
    } else if is_digit(c) {
        digits_end(s, i)
    } else if letters[i] {
        alpha_end(s, letters, i)
    } else {
        i + 1
    }
}

/// The kind of the token that starts at `i`, for `0 <= i < s.len()`, where
/// `letters[k]` tells whether `s[k]` counts as a letter;
/// `None` where it is a run of letters that is no keyword.
pub open spec fn token_kind(s: Seq<char>, letters: Seq<bool>, i: int) -> Option<TokenKind> {
    let c = s[i];
    if c == '\n' {
        Some(TokenKind::Newline)
    } else if c == '+' {
        Some(TokenKind::Plus)
    } else if c == '-' {
        Some(TokenKind::Minus)
    } else if c == '*' {
        Some(TokenKind::Asterisk)
    } else if c == '=' {
        Some(TokenKind::EQ)
    } else if is_digit(c) {
        Some(TokenKind::Number)
    } else if letters[i] {
        if alpha_end(s, letters, i) == i + 1 {
            Some(TokenKind::Var)
        } else if s.subrange(i, alpha_end(s, letters, i)) == let_keyword() {
            Some(TokenKind::Let)
        } else {
            None
        }
    } else {
        Some(TokenKind::InvalidToken)
    }
}

/// Puts `toks` in front of the tokens of a successful outcome.
pub open spec fn prepend(
    toks: Seq<(TokenKind, Seq<char>)>,
    r: Result<Seq<(TokenKind, Seq<char>)>, Seq<char>>,
) -> Result<Seq<(TokenKind, Seq<char>)>, Seq<char>> {
    match r {
        Ok(rest) => Ok(toks + rest),
        Err(e) => Err(e),
    }
}

/// The outcome of lexing `s` from index `i` on: the tokens, each with its
/// text, or the text of the first run of letters that is no keyword.
pub open spec fn lex_from(s: Seq<char>, letters: Seq<bool>, i: int) -> Result<
    Seq<(TokenKind, Seq<char>)>,
    Seq<char>,
>
    decreases s.len() - i,
    via lex_from_decreases
{
    let j = skip_hspace(s, i);
    if j < 0 || j >= s.len() {
        Ok(seq![])
    } else {
        let e = token_end(s, letters, j);
        let text = s.subrange(j, e);
        match token_kind(s, letters, j) {
            None => Err(text),
            Some(k) => prepend(seq![(k, text)], lex_from(s, letters, e)),
        }
    }
}

/// Where each token of `lex_from(s, letters, i)` stands in `s`: its start and
/// its end (exclusive), in the order of the tokens.
pub open spec fn spans_from(s: Seq<char>, letters: Seq<bool>, i: int) -> Seq<(int, int)>
    decreases s.len() - i,
    via spans_from_decreases
{
    let j = skip_hspace(s, i);
    if j < 0 || j >= s.len() {
        seq![]
    } else {
        let e = token_end(s, letters, j);
        seq![(j, e)] + spans_from(s, letters, e)
    }
}

/// The outcome of lexing the whole of `s`, where `letters[k]` tells whether
/// `s[k]` counts as a letter.
pub open spec fn lex_with(s: Seq<char>, letters: Seq<bool>) -> Result<
    Seq<(TokenKind, Seq<char>)>,
    Seq<char>,
> {
    lex_from(s, letters, 0)
}

/// For each character of `s`, whether it has the Alphabetic property.
pub open spec fn letter_flags(s: Seq<char>) -> Seq<bool> {
    Seq::new(s.len(), |k: int| alphabetic(s[k]))
}

/// The outcome of lexing the whole of `s`.
pub open spec fn lex(s: Seq<char>) -> Result<Seq<(TokenKind, Seq<char>)>, Seq<char>> {
    lex_with(s, letter_flags(s))
}

pub proof fn lemma_skip_hspace(s: Seq<char>, i: int)
    ensures
        skip_hspace(s, i) >= i,
        i <= s.len() ==> skip_hspace(s, i) <= s.len(),
        forall|k: int| i <= k < skip_hspace(s, i) ==> is_hspace(#[trigger] s[k]),
        0 <= skip_hspace(s, i) < s.len() ==> !is_hspace(s[skip_hspace(s, i)]),
    decreases s.len() - i,
{
    if 0 <= i < s.len() && is_hspace(s[i]) {
        lemma_skip_hspace(s, i + 1);
    }
}

pub proof fn lemma_digits_end(s: Seq<char>, i: int)
    ensures
        digits_end(s, i) >= i,
        i <= s.len() ==> digits_end(s, i) <= s.len(),
        forall|k: int| i <= k < digits_end(s, i) ==> is_digit(#[trigger] s[k]),
        0 <= digits_end(s, i) < s.len() ==> !is_digit(s[digits_end(s, i)]),
    decreases s.len() - i,
{
    if 0 <= i < s.len() && is_digit(s[i]) {
        lemma_digits_end(s, i + 1);
    }
}

pub proof fn lemma_alpha_end(s: Seq<char>, letters: Seq<bool>, i: int)
    ensures
        alpha_end(s, letters, i) >= i,
        i <= s.len() ==> alpha_end(s, letters, i) <= s.len(),
        forall|k: int| i <= k < alpha_end(s, letters, i) ==> #[trigger] letters[k],
        0 <= alpha_end(s, letters, i) < s.len() ==> !letters[alpha_end(s, letters, i)],
    decreases s.len() - i,
{
    if 0 <= i < s.len() && letters[i] {
        lemma_alpha_end(s, letters, i + 1);
    }
}

/// A token starting inside the input is non-empty and ends within it.
pub proof fn lemma_token_end(s: Seq<char>, letters: Seq<bool>, i: int)
    requires
        0 <= i < s.len(),
    ensures
        i < token_end(s, letters, i) <= s.len(),
{
    lemma_digits_end(s, i);
    lemma_alpha_end(s, letters, i);
}

/// A run of digits from `i` to `e` that cannot go on ends at `e`.
pub proof fn lemma_digits_end_at(s: Seq<char>, i: int, e: int)
    requires
        0 <= i <= e <= s.len(),
        forall|k: int| i <= k < e ==> is_digit(#[trigger] s[k]),
        e == s.len() || !is_digit(s[e]),
    ensures
        digits_end(s, i) == e,
    decreases e - i,
{
    if i < e {
        lemma_digits_end_at(s, i + 1, e);
    }
}

/// A run of letters from `i` to `e` that cannot go on ends at `e`.
pub proof fn lemma_alpha_end_at(s: Seq<char>, letters: Seq<bool>, i: int, e: int)
    requires
        0 <= i <= e <= s.len(),
        forall|k: int| i <= k < e ==> #[trigger] letters[k],
        e == s.len() || !letters[e],
    ensures
        alpha_end(s, letters, i) == e,
    decreases e - i,
{
    if i < e {
        lemma_alpha_end_at(s, letters, i + 1, e);
    }
}

/// Skipping whitespace twice skips no more than once.
pub proof fn lemma_skip_hspace_idem(s: Seq<char>, i: int)
    ensures
        skip_hspace(s, skip_hspace(s, i)) == skip_hspace(s, i),
{
    lemma_skip_hspace(s, i);
}

/// Lexing from `i` is lexing from the first non-blank index at or after it.
pub proof fn lemma_lex_from_skip(s: Seq<char>, letters: Seq<bool>, i: int)
    ensures
        lex_from(s, letters, i) == lex_from(s, letters, skip_hspace(s, i)),
{
    lemma_skip_hspace_idem(s, i);
}

#[via_fn]
proof fn spans_from_decreases(s: Seq<char>, letters: Seq<bool>, i: int) {
    lemma_skip_hspace(s, i);
    let j = skip_hspace(s, i);
    if 0 <= j < s.len() {
        lemma_token_end(s, letters, j);
    }
}

#[via_fn]
proof fn lex_from_decreases(s: Seq<char>, letters: Seq<bool>, i: int) {
    lemma_skip_hspace(s, i);
    let j = skip_hspace(s, i);
    if 0 <= j < s.len() {
        lemma_token_end(s, letters, j);
    }
}

} // verus!
