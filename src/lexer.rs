//! The lexer: a cursor over the input that hands out one token at a time.
use vstd::prelude::*;
use vstd::string::*;

use crate::grammar::{
    alpha_end, alphabetic, digits_end, is_digit, is_hspace, lemma_alpha_end, lemma_alpha_end_at,
    lemma_digits_end_at, lemma_lex_from_skip, lemma_skip_hspace, lemma_skip_hspace_idem,
    lemma_token_end, let_keyword, letter_flags, lex_from, prepend, skip_hspace, token_end,
    token_kind,
};
use crate::token::{LexError, Token, TokenKind};

verus! {

/// Relies on char::is_alphabetic: whether `c` has the Alphabetic property,
/// which depends on `c` alone.
#[verifier::external_body]
fn char_is_alphabetic(c: char) -> (r: bool)
    ensures
        r == alphabetic(c),
{
    c.is_alphabetic()
}

/// Relies on String::push: appends `c` to the end of `s`.
#[verifier::external_body]
fn push_char(s: &mut String, c: char)
    ensures
        final(s)@ == old(s)@.push(c),
{
    s.push(c)
}

/// Whether `c` is a decimal digit.
fn char_is_digit(c: char) -> (r: bool)
    ensures
        r == is_digit(c),
{
    '0' <= c && c <= '9'
}

/// Whether `c` is a space, a tab or a carriage return.
fn char_is_hspace(c: char) -> (r: bool)
    ensures
        r == is_hspace(c),
{
    c == ' ' || c == '\t' || c == '\r'
}

/// The token that the keyword table gives for `string`, or the error that
/// names it where it is no keyword.
fn keyword_token_from_string(string: String) -> (r: Result<Token, LexError>)
    ensures
        string@ == let_keyword() ==> (r matches Ok(t) && t@ == (TokenKind::Let, string@)),
        string@ != let_keyword() ==> (r matches Err(e) && e@ == string@),
{
    let keyword = String::from_str("LET");
    proof {
        reveal_strlit("LET");
        assert(keyword@ =~= let_keyword());
    }
    if string == keyword {
        Ok(Token::Let(string))
    } else {
        Err(LexError::InvalidKeyword(string))
    }
}

/// The string that holds `c` alone.
fn single(c: char) -> (r: String)
    ensures
        r@ == seq![c],
{
    let mut s = String::new();
    push_char(&mut s, c);
    s
}

/// Where the scan stands: an index into the input and the character there.
#[derive(Debug)]
struct LexerState {
    current_position: usize,
    current_char: char,
}

/// Turns a sequence of characters into tokens.
#[derive(Debug)]
pub struct Lexer {
    source: Vec<char>,
    letters: Vec<bool>,
    is_finished: bool,
    state: LexerState,
}

impl Lexer {
    /// The characters the lexer reads.
    pub closed spec fn input(&self) -> Seq<char> {
        self.source@
    }

    /// For each character of the input, whether it counts as a letter.
    pub closed spec fn letters(&self) -> Seq<bool> {
        self.letters@
    }

    /// The index of the first character not yet read; the input's length
    /// once everything is read.
    pub closed spec fn cursor(&self) -> int {
        if self.is_finished {
            self.source@.len() as int
        } else {
            self.state.current_position as int
        }
    }

    /// The position stands on a character of the input and the current
    /// character is the one there, finished or not; a finished lexer stands on
    /// the last character, and an empty input leaves it finished at 0.
    pub closed spec fn wf(&self) -> bool {
        &&& self.source@.len() <= usize::MAX
        &&& self.letters@.len() == self.source@.len()
        &&& self.source@.len() == 0 ==> self.is_finished && self.state.current_position == 0
        &&& self.source@.len() > 0 ==> {
            &&& self.state.current_position < self.source@.len()
            &&& self.state.current_char == self.source@[self.state.current_position as int]
        }
        &&& self.is_finished ==> self.state.current_position + 1 >= self.source@.len()
    }

    /// A lexer positioned on the first character of `source`, or done at once
    /// where `source` is empty; a character counts as a letter where it has
    /// the Alphabetic property.
    pub fn create(source: Vec<char>) -> (r: Lexer)
        ensures
            r.wf(),
            r.input() == source@,
            r.letters() == letter_flags(source@),
            r.cursor() == 0,
    {
        let mut letters: Vec<bool> = Vec::new();
        let mut k: usize = 0;
        while k < source.len()
            invariant
                k <= source@.len(),
                letters@ == letter_flags(source@).subrange(0, k as int),
            decreases source@.len() - k,
        {
            letters.push(char_is_alphabetic(source[k]));
            k += 1;
            assert(letters@ =~= letter_flags(source@).subrange(0, k as int));
        }
        assert(letters@ =~= letter_flags(source@));
        Lexer::create_with_letters(source, letters)
    }

    /// A lexer positioned on the first character of `source`, or done at once
    /// where `source` is empty, where `letters[k]` tells whether `source[k]`
    /// counts as a letter.
    pub fn create_with_letters(source: Vec<char>, letters: Vec<bool>) -> (r: Lexer)
        requires
            letters@.len() == source@.len(),
        ensures
            r.wf(),
            r.input() == source@,
            r.letters() == letters@,
            r.cursor() == 0,
    {
        let (is_finished, state) = if source.len() > 0 {
            (false, LexerState { current_position: 0, current_char: source[0] })
        } else {
            (true, LexerState { current_position: 0, current_char: '\0' })
        };
        Lexer { source, letters, is_finished, state }
    }

    /// Steps to the next character, or marks the lexer done where there is
    /// none; then the position and the current character stay as they were.
    fn move_to_next_char(&mut self)
        requires
            old(self).wf(),
        ensures
            final(self).wf(),
            final(self).input() == old(self).input(),
            final(self).letters() == old(self).letters(),
            old(self).is_finished ==> final(self).is_finished,
            final(self).cursor() == if old(self).is_finished {
                old(self).cursor()
            } else {
                old(self).cursor() + 1
            },
            !final(self).is_finished ==> final(self).state.current_position == old(
                self,
            ).state.current_position + 1,
            final(self).is_finished ==> {
                &&& final(self).state.current_position == old(self).state.current_position
                &&& final(self).state.current_char == old(self).state.current_char
            },
    {
        match self.peek_next_char() {
            Some(next_char) => {
                let next_position = self.state.current_position + 1;
                self.state = LexerState {
                    current_position: next_position,
                    current_char: next_char,
                };
            },
            None => self.is_finished = true,
        }
    }

    /// The character after the current one, if any, without moving.
    fn peek_next_char(&self) -> (r: Option<char>)
        requires
            self.wf(),
        ensures
            self.state.current_position + 1 < self.source@.len() ==> r == Some(
                self.source@[self.state.current_position + 1],
            ),
            self.state.current_position + 1 >= self.source@.len() ==> r is None,
    {
        if self.state.current_position + 1 < self.source.len() {
            Some(self.source[self.state.current_position + 1])
        } else {
            None
        }
    }

    /// Skips spaces, tabs and carriage returns; a newline is not skipped.
    fn move_to_next_non_whitespace_char(&mut self)
        requires
            old(self).wf(),
        ensures
            final(self).wf(),
            final(self).input() == old(self).input(),
            final(self).letters() == old(self).letters(),
            final(self).cursor() == skip_hspace(old(self).input(), old(self).cursor()),
            old(self).state.current_position <= final(self).state.current_position,
            forall|k: int|
                old(self).state.current_position <= k < final(self).state.current_position
                    ==> is_hspace(#[trigger] old(self).input()[k]),
            old(self).is_finished ==> final(self).is_finished && final(self).state
                == old(self).state,
            !old(self).is_finished && final(self).is_finished ==> {
                &&& final(self).state.current_position + 1 == final(self).input().len()
                &&& forall|k: int|
                    old(self).state.current_position <= k < old(self).input().len()
                        ==> is_hspace(#[trigger] old(self).input()[k])
            },
    {
        let ghost s = self.input();
        let ghost letters = self.letters();
        let ghost start = self.cursor();
        while !self.is_finished && char_is_hspace(self.state.current_char)
            invariant
                self.wf(),
                self.input() == s,
                self.letters() == letters,
                s == old(self).input(),
                letters == old(self).letters(),
                start == old(self).cursor(),
                0 <= self.cursor() <= s.len(),
                skip_hspace(s, self.cursor()) == skip_hspace(s, start),
                old(self).state.current_position <= self.state.current_position,
                forall|k: int|
                    old(self).state.current_position <= k < self.state.current_position
                        ==> is_hspace(#[trigger] s[k]),
                old(self).is_finished ==> self.is_finished && self.state == old(self).state,
                !old(self).is_finished && self.is_finished ==> forall|k: int|
                    old(self).state.current_position <= k < s.len() ==> is_hspace(
                        #[trigger] s[k],
                    ),
            decreases s.len() - self.cursor(),
        {
            self.move_to_next_char();
        }
    }

    /// Reads the run of digits that starts at the current character and stays
    /// on its last digit.
    fn scan_number(&mut self) -> (r: String)
        requires
            old(self).wf(),
            !old(self).is_finished,
            is_digit(old(self).state.current_char),
        ensures
            final(self).wf(),
            !final(self).is_finished,
            final(self).input() == old(self).input(),
            final(self).letters() == old(self).letters(),
            final(self).cursor() + 1 == digits_end(old(self).input(), old(self).cursor()),
            r@ == old(self).input().subrange(
                old(self).cursor(),
                digits_end(old(self).input(), old(self).cursor()),
            ),
    {
        let ghost s = self.input();
        let ghost letters = self.letters();
        let ghost start = self.cursor();
        let mut number_string = single(self.state.current_char);
        loop
            invariant
                self.wf(),
                !self.is_finished,
                self.input() == s,
                self.letters() == letters,
                s == old(self).input(),
                letters == old(self).letters(),
                start == old(self).cursor(),
                0 <= start <= self.cursor() < s.len(),
                forall|k: int| start <= k <= self.cursor() ==> is_digit(#[trigger] s[k]),
                number_string@ == s.subrange(start, self.cursor() + 1),
            decreases s.len() - self.cursor(),
        {
            match self.peek_next_char() {
                Some(next_char) => {
                    if char_is_digit(next_char) {
                        self.move_to_next_char();
                        push_char(&mut number_string, self.state.current_char);
                        assert(number_string@ =~= s.subrange(start, self.cursor() + 1));
                    } else {
                        proof {
                            lemma_digits_end_at(s, start, self.cursor() + 1);
                        }
                        return number_string;
                    }
                },
                None => {
                    proof {
                        lemma_digits_end_at(s, start, self.cursor() + 1);
                    }
                    return number_string;
                },
            }
        }
    }

    /// Reads the run of letters that starts at the current character and stays
    /// on its last letter.
    fn scan_word(&mut self) -> (r: String)
        requires
            old(self).wf(),
            !old(self).is_finished,
            old(self).letters()[old(self).cursor()],
        ensures
            final(self).wf(),
            !final(self).is_finished,
            final(self).input() == old(self).input(),
            final(self).letters() == old(self).letters(),
            final(self).cursor() + 1 == alpha_end(
                old(self).input(),
                old(self).letters(),
                old(self).cursor(),
            ),
            r@ == old(self).input().subrange(
                old(self).cursor(),
                alpha_end(old(self).input(), old(self).letters(), old(self).cursor()),
            ),
    {
        let ghost s = self.input();
        let ghost letters = self.letters();
        let ghost start = self.cursor();
        let mut keyword_string = single(self.state.current_char);
        loop
            invariant
                self.wf(),
                !self.is_finished,
                self.input() == s,
                self.letters() == letters,
                s == old(self).input(),
                letters == old(self).letters(),
                start == old(self).cursor(),
                0 <= start <= self.cursor() < s.len(),
                forall|k: int| start <= k <= self.cursor() ==> #[trigger] letters[k],
                keyword_string@ == s.subrange(start, self.cursor() + 1),
            decreases s.len() - self.cursor(),
        {
            match self.peek_next_char() {
                Some(next_char) => {
                    if self.letters[self.state.current_position + 1] {
                        self.move_to_next_char();
                        push_char(&mut keyword_string, self.state.current_char);
                        assert(keyword_string@ =~= s.subrange(start, self.cursor() + 1));
                    } else {
                        proof {
                            lemma_alpha_end_at(s, letters, start, self.cursor() + 1);
                        }
                        return keyword_string;
                    }
                },
                None => {
                    proof {
                        lemma_alpha_end_at(s, letters, start, self.cursor() + 1);
                    }
                    return keyword_string;
                },
            }
        }
    }
    /// Reads the token that starts at the current character, then moves past
    /// it and past the whitespace that follows. A run of letters that is no
    /// keyword is an error, and the lexer is left where it was.
    fn get_token(&mut self) -> (r: Result<Token, LexError>)
        requires
            old(self).wf(),
            !old(self).is_finished,
        ensures
            final(self).wf(),
            final(self).input() == old(self).input(),
            final(self).letters() == old(self).letters(),
            final(self).state.current_position < final(self).input().len(),
            r is Ok ==> final(self).is_finished || final(self).state.current_position > old(
                self,
            ).state.current_position,
            ({
                let s = old(self).input();
                let letters = old(self).letters();
                let i = old(self).cursor();
                let text = s.subrange(i, token_end(s, letters, i));
                match r {
                    Ok(t) => {
                        &&& token_kind(s, letters, i) == Some(t@.0)
                        &&& t@.1 == text
                        &&& final(self).cursor() == skip_hspace(s, token_end(s, letters, i))
                    },
                    Err(e) => token_kind(s, letters, i) is None && e@ == text,
                }
            }),
    {
        let ghost s = self.input();
        let ghost letters = self.letters();
        let ghost i = self.cursor();
        proof {
            lemma_alpha_end(s, letters, i);
            lemma_alpha_end(s, letters, i + 1);
        }
        let c = self.state.current_char;
        let token = if c == '\n' {
            Token::Newline(single(c))
        } else if c == '+' {
            Token::Plus(single(c))
        } else if c == '-' {
            Token::Minus(single(c))
        } else if c == '*' {
            Token::Asterisk(single(c))
        } else if c == '=' {
            Token::EQ(single(c))
        } else if char_is_digit(c) {
            Token::Number(self.scan_number())
        } else if self.letters[self.state.current_position] {
            let next_is_alphabetic = match self.peek_next_char() {
                Some(_) => self.letters[self.state.current_position + 1],
                None => false,
            };
            if next_is_alphabetic {
                // A run of two or more letters must be a keyword.
                let keyword_string = self.scan_word();
                match keyword_token_from_string(keyword_string) {
                    Ok(token) => token,
                    Err(e) => return Err(e),
                }
            } else {
                // A lone letter is a variable.
                assert(seq![c] =~= s.subrange(i, i + 1));
                Token::Var(single(c))
            }
        } else {
            Token::InvalidToken(single(c))
        };
        assert(token@.1 =~= s.subrange(i, token_end(s, letters, i)));
        self.move_to_next_char();
        self.move_to_next_non_whitespace_char();
        proof {
            lemma_token_end(s, letters, i);
            lemma_skip_hspace(s, token_end(s, letters, i));
        }
        Ok(token)
    }

    /// Lexes from the cursor to the end of the input: all the tokens in the
    /// order of the input, or the error for the first run of letters that is no
    /// keyword, with no tokens. Spaces, tabs and carriage returns are skipped
    /// wherever they stand, before the first token too. Either way the lexer is
    /// done afterwards.
    pub fn run(&mut self) -> (r: Result<Vec<Token>, LexError>)
        requires
            old(self).wf(),
        ensures
            final(self).wf(),
            final(self).input() == old(self).input(),
            final(self).letters() == old(self).letters(),
            final(self).cursor() == old(self).input().len(),
            match r {
                Ok(tokens) => lex_from(
                    old(self).input(),
                    old(self).letters(),
                    old(self).cursor(),
                ) == Ok::<
                    Seq<(TokenKind, Seq<char>)>,
                    Seq<char>,
                >(tokens@.map_values(|t: Token| t@)),
                Err(e) => lex_from(
                    old(self).input(),
                    old(self).letters(),
                    old(self).cursor(),
                ) == Err::<
                    Seq<(TokenKind, Seq<char>)>,
                    Seq<char>,
                >(e@),
            },
    {
        let ghost s = self.input();
        let ghost letters = self.letters();
        let ghost start = self.cursor();
        let mut result: Vec<Token> = Vec::new();
        self.move_to_next_non_whitespace_char();
        proof {
            lemma_lex_from_skip(s, letters, start);
            lemma_skip_hspace(s, start);
            lemma_skip_hspace_idem(s, start);
            assert(result@.map_values(|t: Token| t@) =~= seq![]);
            assert(seq![] + Seq::<(TokenKind, Seq<char>)>::empty() =~= seq![]);
        }
        while !self.is_finished
            invariant
                self.wf(),
                self.input() == s,
                self.letters() == letters,
                s == old(self).input(),
                letters == old(self).letters(),
                start == old(self).cursor(),
                0 <= self.cursor() <= s.len(),
                skip_hspace(s, self.cursor()) == self.cursor(),
                lex_from(s, letters, start) == prepend(
                    result@.map_values(|t: Token| t@),
                    lex_from(s, letters, self.cursor()),
                ),
            decreases s.len() - self.cursor(),
        {
            let ghost i = self.cursor();
            let ghost before = result@.map_values(|t: Token| t@);
            proof {
                lemma_token_end(s, letters, i);
            }
            match self.get_token() {
                Ok(token) => {
                    let ghost t = token@;
                    result.push(token);
                    proof {
                        let e = token_end(s, letters, i);
                        lemma_lex_from_skip(s, letters, e);
                        lemma_skip_hspace(s, e);
                        lemma_skip_hspace_idem(s, e);
                        assert(result@.map_values(|t: Token| t@) =~= before.push(t));
                        match lex_from(s, letters, e) {
                            Ok(rest) => {
                                assert(before + (seq![t] + rest) =~= before.push(t) + rest);
                            },
                            Err(_) => {},
                        }
                    }
                },
                Err(e) => {
                    let last = self.source.len() - 1;
                    self.state = LexerState {
                        current_position: last,
                        current_char: self.source[last],
                    };
                    self.is_finished = true;
                    return Err(e);
                },
            }
        }
        Ok(result)
    }
}

} // verus!
