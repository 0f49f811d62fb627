//! What holds of every run of the lexer, stated over the grammar's model.
use vstd::prelude::*;

use crate::grammar::{
    alpha_end, digits_end, is_digit, is_hspace, lemma_alpha_end, lemma_digits_end,
    lemma_skip_hspace, lemma_token_end, let_keyword, lex_from, lex_with, skip_hspace, spans_from,
    token_end, token_kind,
};
use crate::token::TokenKind;

verus! {

/// `s` with its spaces, tabs and carriage returns taken out.
pub open spec fn strip_hspace(s: Seq<char>) -> Seq<char>
    decreases s.len(),
{
    if s.len() == 0 {
        s
    } else if is_hspace(s[0]) {
        strip_hspace(s.drop_first())
    } else {
        seq![s[0]] + strip_hspace(s.drop_first())
    }
}

/// The texts of `toks`, one after the other.
pub open spec fn joined(toks: Seq<(TokenKind, Seq<char>)>) -> Seq<char>
    decreases toks.len(),
{
    if toks.len() == 0 {
        Seq::empty()
    } else {
        toks[0].1 + joined(toks.drop_first())
    }
}

proof fn lemma_strip_add(a: Seq<char>, b: Seq<char>)
    ensures
        strip_hspace(a + b) == strip_hspace(a) + strip_hspace(b),
    decreases a.len(),
{
    if a.len() == 0 {
        assert(a + b =~= b);
        assert(strip_hspace(a) + strip_hspace(b) =~= strip_hspace(b));
    } else {
        assert((a + b).drop_first() =~= a.drop_first() + b);
        lemma_strip_add(a.drop_first(), b);
        if !is_hspace(a[0]) {
            assert(seq![a[0]] + (strip_hspace(a.drop_first()) + strip_hspace(b)) =~= (seq![a[0]]
                + strip_hspace(a.drop_first())) + strip_hspace(b));
        }
    }
}

proof fn lemma_strip_blank(a: Seq<char>)
    requires
        forall|k: int| 0 <= k < a.len() ==> is_hspace(#[trigger] a[k]),
    ensures
        strip_hspace(a) == Seq::<char>::empty(),
    decreases a.len(),
{
    if a.len() > 0 {
        lemma_strip_blank(a.drop_first());
    }
}

proof fn lemma_strip_solid(a: Seq<char>)
    requires
        forall|k: int| 0 <= k < a.len() ==> !is_hspace(#[trigger] a[k]),
    ensures
        strip_hspace(a) == a,
    decreases a.len(),
{
    if a.len() > 0 {
        lemma_strip_solid(a.drop_first());
        assert(seq![a[0]] + a.drop_first() =~= a);
    }
}

/// Where the token at `j` is read without error, its text holds no
/// horizontal whitespace.
proof fn lemma_token_text_solid(s: Seq<char>, letters: Seq<bool>, j: int)
    requires
        0 <= j < s.len(),
        !is_hspace(s[j]),
        token_kind(s, letters, j) is Some,
    ensures
        forall|k: int| j <= k < token_end(s, letters, j) ==> !is_hspace(#[trigger] s[k]),
{
    lemma_digits_end(s, j);
    lemma_alpha_end(s, letters, j);
    if token_kind(s, letters, j) == Some(TokenKind::Let) {
        let text = s.subrange(j, token_end(s, letters, j));
        assert(text == let_keyword());
        assert(text.len() == 3 && text[0] == 'L' && text[1] == 'E' && text[2] == 'T');
        assert forall|k: int| j <= k < token_end(s, letters, j) implies !is_hspace(
            #[trigger] s[k],
        ) by {
            assert(s[k] == text[k - j]);
        }
    }
}

proof fn lemma_joined_from(s: Seq<char>, letters: Seq<bool>, i: int)
    requires
        0 <= i <= s.len(),
        lex_from(s, letters, i) is Ok,
    ensures
        joined(lex_from(s, letters, i)->Ok_0) == strip_hspace(s.subrange(i, s.len() as int)),
        forall|k: int|
            0 <= k < (lex_from(s, letters, i)->Ok_0).len() ==> (#[trigger] (lex_from(
                s,
                letters,
                i,
            )->Ok_0)[k]).1.len() > 0,
    decreases s.len() - i,
{
    lemma_skip_hspace(s, i);
    let j = skip_hspace(s, i);
    lemma_strip_blank(s.subrange(i, j));
    if j >= s.len() {
        assert(s.subrange(i, s.len() as int) =~= s.subrange(i, j));
    } else {
        let e = token_end(s, letters, j);
        lemma_token_end(s, letters, j);
        lemma_token_text_solid(s, letters, j);
        lemma_strip_solid(s.subrange(j, e));
        lemma_joined_from(s, letters, e);
        let toks = lex_from(s, letters, i)->Ok_0;
        let rest = lex_from(s, letters, e)->Ok_0;
        assert(toks.drop_first() =~= rest);
        assert(s.subrange(i, s.len() as int) =~= s.subrange(i, j) + s.subrange(j, e) + s.subrange(
            e,
            s.len() as int,
        ));
        lemma_strip_add(s.subrange(i, j) + s.subrange(j, e), s.subrange(e, s.len() as int));
        lemma_strip_add(s.subrange(i, j), s.subrange(j, e));
        assert(strip_hspace(s.subrange(i, j)) + s.subrange(j, e) =~= s.subrange(j, e));
        assert forall|k: int| 0 <= k < toks.len() implies (#[trigger] toks[k]).1.len() > 0 by {
            if k > 0 {
                assert(toks[k] == rest[k - 1]);
            }
        }
    }
}

/// Every token of `lex_from(s, letters, i)` stands at its span of
/// `spans_from(s, letters, i)`: spans in order, non-empty and free of
/// whitespace, with whitespace alone outside them, and each `Number` on a
/// whole run of digits.
proof fn lemma_spans_from(s: Seq<char>, letters: Seq<bool>, i: int)
    requires
        0 <= i <= s.len(),
        lex_from(s, letters, i) is Ok,
        i == 0 || i == s.len() || !is_digit(s[i - 1]) || !is_digit(s[i]),
    ensures
        ({
            let toks = lex_from(s, letters, i)->Ok_0;
            let sp = spans_from(s, letters, i);
            &&& sp.len() == toks.len()
            &&& forall|k: int|
                0 <= k < sp.len() ==> {
                    &&& i <= (#[trigger] sp[k]).0 < sp[k].1 <= s.len()
                    &&& toks[k].1 == s.subrange(sp[k].0, sp[k].1)
                    &&& forall|m: int| sp[k].0 <= m < sp[k].1 ==> !is_hspace(#[trigger] s[m])
                    &&& toks[k].0 == TokenKind::Number ==> {
                        &&& is_digit(s[sp[k].0])
                        &&& sp[k].1 == digits_end(s, sp[k].0)
                        &&& (sp[k].0 == 0 || !is_digit(s[sp[k].0 - 1]))
                    }
                }
            &&& forall|k1: int, k2: int|
                0 <= k1 < k2 < sp.len() ==> (#[trigger] sp[k1]).1 <= (#[trigger] sp[k2]).0
            &&& forall|m: int|
                i <= m < s.len() && !is_hspace(#[trigger] s[m]) ==> exists|k: int|
                    0 <= k < sp.len() && (#[trigger] sp[k]).0 <= m < sp[k].1
        }),
    decreases s.len() - i,
{
    lemma_skip_hspace(s, i);
    let j = skip_hspace(s, i);
    if j < s.len() {
        let e = token_end(s, letters, j);
        lemma_token_end(s, letters, j);
        lemma_token_text_solid(s, letters, j);
        lemma_digits_end(s, j);
        lemma_alpha_end(s, letters, j);
        if token_kind(s, letters, j) == Some(TokenKind::Let) {
            let text = s.subrange(j, e);
            assert(text == let_keyword());
            assert(text.len() == 3 && text[2] == 'T');
            assert(s[e - 1] == text[2]);
        }
        if j > i {
            assert(is_hspace(s[j - 1]));
        }
        lemma_spans_from(s, letters, e);
        let toks = lex_from(s, letters, i)->Ok_0;
        let rest = lex_from(s, letters, e)->Ok_0;
        let sp = spans_from(s, letters, i);
        let rsp = spans_from(s, letters, e);
        assert(toks.drop_first() =~= rest);
        assert(sp.drop_first() =~= rsp);
        assert forall|k: int| 0 < k < sp.len() implies sp[k] == rsp[k - 1] && toks[k] == rest[k
            - 1] by {
            assert(sp[k] == sp.drop_first()[k - 1]);
            assert(toks[k] == toks.drop_first()[k - 1]);
        }
        assert forall|m: int| i <= m < s.len() && !is_hspace(#[trigger] s[m]) implies exists|k: int|
            0 <= k < sp.len() && (#[trigger] sp[k]).0 <= m < sp[k].1 by {
            if m < e {
                assert(sp[0].0 <= m < sp[0].1);
            } else {
                let k = choose|k: int| 0 <= k < rsp.len() && (#[trigger] rsp[k]).0 <= m < rsp[k].1;
                assert(sp[k + 1] == rsp[k]);
            }
        }
    } else {
        assert forall|m: int| i <= m < s.len() implies is_hspace(#[trigger] s[m]) by {}
    }
}

/// Where lexing succeeds, each token has a span of the input from which its
/// text is taken: the spans are non-empty, in order and free of spaces, tabs
/// and carriage returns, and every index outside them holds one of those;
/// each `Number` token spans a whole run of digits.
pub proof fn lemma_token_spans(s: Seq<char>, letters: Seq<bool>)
    requires
        lex_with(s, letters) is Ok,
    ensures
        ({
            let toks = lex_with(s, letters)->Ok_0;
            let sp = spans_from(s, letters, 0);
            &&& sp.len() == toks.len()
            &&& forall|k: int|
                0 <= k < sp.len() ==> {
                    &&& 0 <= (#[trigger] sp[k]).0 < sp[k].1 <= s.len()
                    &&& toks[k].1 == s.subrange(sp[k].0, sp[k].1)
                    &&& forall|m: int| sp[k].0 <= m < sp[k].1 ==> !is_hspace(#[trigger] s[m])
                    &&& toks[k].0 == TokenKind::Number ==> {
                        &&& is_digit(s[sp[k].0])
                        &&& sp[k].1 == digits_end(s, sp[k].0)
                        &&& (sp[k].0 == 0 || !is_digit(s[sp[k].0 - 1]))
                    }
                }
            &&& forall|k1: int, k2: int|
                0 <= k1 < k2 < sp.len() ==> (#[trigger] sp[k1]).1 <= (#[trigger] sp[k2]).0
            &&& forall|m: int|
                0 <= m < s.len() && !is_hspace(#[trigger] s[m]) ==> exists|k: int|
                    0 <= k < sp.len() && (#[trigger] sp[k]).0 <= m < sp[k].1
        }),
{
    lemma_spans_from(s, letters, 0);
}

/// The empty input gives no tokens and no error, whatever counts as a letter.
pub proof fn lemma_empty_input(letters: Seq<bool>)
    ensures
        lex_with(Seq::<char>::empty(), letters) == Ok::<
            Seq<(TokenKind, Seq<char>)>,
            Seq<char>,
        >(seq![]),
{
}

/// An input of spaces, tabs and carriage returns alone gives no tokens and
/// no error.
pub proof fn lemma_blank_input(s: Seq<char>, letters: Seq<bool>)
    requires
        forall|k: int| 0 <= k < s.len() ==> is_hspace(#[trigger] s[k]),
    ensures
        lex_with(s, letters) == Ok::<Seq<(TokenKind, Seq<char>)>, Seq<char>>(seq![]),
{
    lemma_skip_hspace(s, 0);
    if skip_hspace(s, 0) < s.len() {
        assert(is_hspace(s[skip_hspace(s, 0)]));
    }
}

/// Where lexing succeeds, every token's text is non-empty, and the texts one
/// after the other are the input without its spaces, tabs and carriage
/// returns.
pub proof fn lemma_texts_rebuild_input(s: Seq<char>, letters: Seq<bool>)
    requires
        lex_with(s, letters) is Ok,
    ensures
        joined(lex_with(s, letters)->Ok_0) == strip_hspace(s),
        forall|k: int|
            0 <= k < (lex_with(s, letters)->Ok_0).len() ==> (#[trigger] (lex_with(
                s,
                letters,
            )->Ok_0)[k]).1.len() > 0,
{
    lemma_joined_from(s, letters, 0);
    assert(s.subrange(0, s.len() as int) =~= s);
}

proof fn lemma_digit_run_from(s: Seq<char>, letters: Seq<bool>, i: int, a: int)
    requires
        0 <= i <= a < s.len(),
        is_digit(s[a]),
        a == 0 || !is_digit(s[a - 1]),
        lex_from(s, letters, i) is Ok,
    ensures
        exists|k: int|
            0 <= k < (lex_from(s, letters, i)->Ok_0).len() && #[trigger] (lex_from(
                s,
                letters,
                i,
            )->Ok_0)[k] == (TokenKind::Number, s.subrange(a, digits_end(s, a))) && k
                < spans_from(s, letters, i).len() && spans_from(s, letters, i)[k] == (
                a,
                digits_end(s, a),
            ),
    decreases s.len() - i,
{
    lemma_skip_hspace(s, i);
    let j = skip_hspace(s, i);
    let toks = lex_from(s, letters, i)->Ok_0;
    let sp = spans_from(s, letters, i);
    if a < j {
        assert(is_hspace(s[a]));
    } else if a == j {
        assert(toks[0] == (TokenKind::Number, s.subrange(a, digits_end(s, a))));
        assert(sp[0] == (a, digits_end(s, a)));
    } else {
        let e = token_end(s, letters, j);
        lemma_token_end(s, letters, j);
        lemma_digits_end(s, j);
        lemma_alpha_end(s, letters, j);
        if a < e {
            if is_digit(s[j]) {
                assert(is_digit(s[a - 1]));
            } else if token_kind(s, letters, j) == Some(TokenKind::Let) {
                let text = s.subrange(j, e);
                assert(text == let_keyword());
                assert(text.len() == 3 && text[0] == 'L' && text[1] == 'E' && text[2] == 'T');
                assert(s[a] == text[a - j]);
            }
        } else {
            lemma_digit_run_from(s, letters, e, a);
            let rest = lex_from(s, letters, e)->Ok_0;
            let rsp = spans_from(s, letters, e);
            let k = choose|k: int|
                0 <= k < rest.len() && #[trigger] rest[k] == (
                    TokenKind::Number,
                    s.subrange(a, digits_end(s, a)),
                ) && k < rsp.len() && rsp[k] == (a, digits_end(s, a));
            assert(toks[k + 1] == rest[k]);
            assert(sp =~= seq![(j, e)] + rsp);
            assert(sp[k + 1] == rsp[k]);
        }
    }
}

/// Where lexing succeeds, a maximal run of digits is read as one `Number`
/// token whose text is the whole run and whose span is the run; no other
/// token covers the run's first digit.
pub proof fn lemma_digit_run_is_one_number(s: Seq<char>, letters: Seq<bool>, a: int)
    requires
        lex_with(s, letters) is Ok,
        0 <= a < s.len(),
        is_digit(s[a]),
        a == 0 || !is_digit(s[a - 1]),
    ensures
        exists|k: int|
            {
                &&& 0 <= k < (lex_with(s, letters)->Ok_0).len()
                &&& #[trigger] (lex_with(s, letters)->Ok_0)[k] == (
                    TokenKind::Number,
                    s.subrange(a, digits_end(s, a)),
                )
                &&& spans_from(s, letters, 0)[k] == (a, digits_end(s, a))
                &&& forall|k2: int|
                    0 <= k2 < spans_from(s, letters, 0).len() && (#[trigger] spans_from(
                        s,
                        letters,
                        0,
                    )[k2]).0 <= a < spans_from(s, letters, 0)[k2].1 ==> k2 == k
            },
{
    lemma_digit_run_from(s, letters, 0, a);
    lemma_token_spans(s, letters);
    let toks = lex_with(s, letters)->Ok_0;
    let sp = spans_from(s, letters, 0);
    let k = choose|k: int|
        0 <= k < toks.len() && #[trigger] toks[k] == (
            TokenKind::Number,
            s.subrange(a, digits_end(s, a)),
        ) && k < sp.len() && sp[k] == (a, digits_end(s, a));
    assert forall|k2: int| 0 <= k2 < sp.len() && (#[trigger] sp[k2]).0 <= a < sp[k2].1 implies k2
        == k by {
        if k2 < k {
            assert(sp[k2].1 <= sp[k].0);
        } else if k2 > k {
            assert(sp[k].1 <= sp[k2].0);
        }
    }
}

} // verus!
