//! Cutting a statement into tokens.

use vstd::prelude::*;
use crate::tokens::{get_keyword_token, keyword_of, Operator, Token, TokenView};
use crate::text::lowercase_of;

verus! {

/// Whether a character can stand in an identifier: an ASCII letter or `_`.
pub open spec fn letter(ch: char) -> bool {
    ('a' <= ch && ch <= 'z') || ('A' <= ch && ch <= 'Z') || ch == '_'
}

/// Whether a character is an ASCII digit.
pub open spec fn digit(ch: char) -> bool {
    '0' <= ch && ch <= '9'
}

/// Whether a character is skipped between tokens: space, tab, line feed or
/// carriage return.
pub open spec fn blank(ch: char) -> bool {
    ch == ' ' || ch == '\t' || ch == '\n' || ch == '\r'
}

/// Whether a character can stand in an identifier.
pub fn is_letter(ch: char) -> (is: bool)
    ensures
        is == letter(ch),
{
    (ch >= 'a' && ch <= 'z') || (ch >= 'A' && ch <= 'Z') || ch == '_'
}

/// Whether a character is an ASCII digit.
pub fn is_digit(ch: char) -> (is: bool)
    ensures
        is == digit(ch),
{
    ch >= '0' && ch <= '9'
}

/// The character of an input at a position, and NUL behind its end.
pub open spec fn char_at(input: Seq<char>, pos: int) -> char {
    if 0 <= pos < input.len() {
        input[pos]
    } else {
        '\0'
    }
}

/// The first position from `pos` on whose character is not blank.
pub open spec fn skip_blanks(input: Seq<char>, pos: int) -> int
    decreases input.len() - pos,
{
    if 0 <= pos < input.len() && blank(input[pos]) {
        skip_blanks(input, pos + 1)
    } else {
        pos
    }
}

/// The first position from `pos` on whose character is no letter, or the
/// end of the input.
pub open spec fn letters_end(input: Seq<char>, pos: int) -> int
    decreases input.len() - pos,
{
    if 0 <= pos < input.len() && letter(input[pos]) {
        letters_end(input, pos + 1)
    } else {
        pos
    }
}

/// The first position from `pos` on whose character is no digit, or the end
/// of the input.
pub open spec fn digits_end(input: Seq<char>, pos: int) -> int
    decreases input.len() - pos,
{
    if 0 <= pos < input.len() && digit(input[pos]) {
        digits_end(input, pos + 1)
    } else {
        pos
    }
}

/// The token that starts at `pos`, where no blank stands, and the position
/// after it. A word of letters is a keyword where it spells one and an
/// identifier where it does not; a run of digits is an integer literal.
/// `!=`, `<=` and `>=` are one token each. NUL and the end of the input give
/// `EOF`, and the position then goes one past the character. A character
/// that starts no token gives `ILLEGAL`, and the position stays.
pub open spec fn token_at(input: Seq<char>, pos: int) -> (TokenView, int) {
    let ch = char_at(input, pos);
    let next = char_at(input, pos + 1);
    if ch == '=' {
        (TokenView::Operator(Operator::EQUALS), pos + 1)
    } else if ch == '+' {
        (TokenView::Operator(Operator::PLUS), pos + 1)
    } else if ch == '-' {
        (TokenView::Operator(Operator::MINUS), pos + 1)
    } else if ch == '!' {
        if next == '=' {
            (TokenView::Operator(Operator::NE), pos + 2)
        } else {
            (TokenView::Operator(Operator::BANG), pos + 1)
        }
    } else if ch == '/' {
        (TokenView::Operator(Operator::DIVIDE), pos + 1)
    } else if ch == '*' {
        (TokenView::Operator(Operator::ASTERISK), pos + 1)
    } else if ch == '<' {
        if next == '=' {
            (TokenView::Operator(Operator::LTorE), pos + 2)
        } else {
            (TokenView::Operator(Operator::LT), pos + 1)
        }
    } else if ch == '>' {
        if next == '=' {
            (TokenView::Operator(Operator::GTorE), pos + 2)
        } else {
            (TokenView::Operator(Operator::GT), pos + 1)
        }
    } else if ch == ';' {
        (TokenView::SEMICOLON(ch), pos + 1)
    } else if ch == '(' {
        (TokenView::LPAREN(ch), pos + 1)
    } else if ch == ')' {
        (TokenView::RPAREN(ch), pos + 1)
    } else if ch == ',' {
        (TokenView::COMMA(ch), pos + 1)
    } else if ch == '{' {
        (TokenView::LBRACE(ch), pos + 1)
    } else if ch == '}' {
        (TokenView::RBRACE(ch), pos + 1)
    } else if ch == '"' {
        (TokenView::QUOTE(ch), pos + 1)
    } else if ch == '\'' {
        (TokenView::SINGLEQUOTE(ch), pos + 1)
    } else if ch == '\0' {
        (TokenView::EOF, pos + 1)
    } else if letter(ch) {
        let word = input.subrange(pos, letters_end(input, pos));
        match keyword_of(lowercase_of(word), lowercase_of(lowercase_of(word))) {
            Some(keyword) => (keyword, letters_end(input, pos)),
            None => (TokenView::IDENT(word), letters_end(input, pos)),
        }
    } else if digit(ch) {
        (TokenView::INT(input.subrange(pos, digits_end(input, pos))), digits_end(input, pos))
    } else {
        (TokenView::ILLEGAL, pos)
    }
}

/// A lexer over the characters of a statement. `ch` is the character at
/// `position`, or NUL behind the end of the input; `read_position` is the
/// position after it.
pub struct Lexer {
    pub input: Vec<char>,
    pub position: usize,
    pub read_position: usize,
    pub ch: char,
}

impl Lexer {
    /// The input as a sequence of characters.
    pub open spec fn input(&self) -> Seq<char> {
        self.input@
    }

    /// Whether the lexer is in step: it looks at the character at
    /// `position`, `read_position` is one further, and the input leaves room
    /// for two positions behind its end.
    pub open spec fn wf(&self) -> bool {
        &&& self.read_position == self.position + 1
        &&& self.input().len() + 2 <= usize::MAX
        &&& self.ch == char_at(self.input(), self.position as int)
    }

    /// A lexer at the first character of an input.
    pub fn new(input: Vec<char>) -> (lexer: Lexer)
        requires
            input@.len() + 2 <= usize::MAX,
        ensures
            lexer.wf(),
            lexer.input() == input@,
            lexer.position == 0,
    {
        let mut lexer = Lexer { input, position: 0, read_position: 0, ch: '\0' };
        lexer.read_char();
        lexer
    }

    /// Steps to the next character; behind the end of the input the
    /// character is NUL.
    pub fn read_char(&mut self)
        requires
            old(self).read_position < usize::MAX,
            old(self).input().len() + 2 <= usize::MAX,
        ensures
            final(self).input() == old(self).input(),
            final(self).position == old(self).read_position,
            final(self).wf(),
    {
        if self.read_position >= self.input.len() {
            self.ch = '\0';
        } else {
            self.ch = self.input[self.read_position];
        }
        self.position = self.read_position;
        self.read_position += 1;
    }

    /// Steps over blanks.
    pub fn skip_whitespace(&mut self)
        requires
            old(self).wf(),
        ensures
            final(self).wf(),
            final(self).input() == old(self).input(),
            final(self).position == skip_blanks(old(self).input(), old(self).position as int),
            !blank(final(self).ch),
            final(self).position <= final(self).input().len() || final(self).position == old(
                self).position,
    {
        while self.ch == ' ' || self.ch == '\t' || self.ch == '\n' || self.ch == '\r'
            invariant
                self.wf(),
                self.input() == old(self).input(),
                skip_blanks(self.input(), self.position as int) == skip_blanks(
                    old(self).input(),
                    old(self).position as int,
                ),
                self.position <= self.input().len() || self.position == old(self).position,
            decreases self.input().len() - self.position,
        {
            self.read_char();
        }
    }

    /// The character after the one the lexer looks at, NUL behind the end.
    pub fn peek_char(&self) -> (ch: char)
        requires
            self.wf(),
        ensures
            ch == char_at(self.input(), self.position + 1),
    {
        if self.read_position >= self.input.len() {
            '\0'
        } else {
            self.input[self.read_position]
        }
    }

    /// Reads a word of letters from the position of the lexer on.
    fn read_identifier(&mut self) -> (word: Vec<char>)
        requires
            old(self).wf(),
            old(self).position <= old(self).input().len(),
        ensures
            final(self).wf(),
            final(self).input() == old(self).input(),
            final(self).position == letters_end(old(self).input(), old(self).position as int),
            old(self).position <= final(self).position <= old(self).input().len(),
            word@ == old(self).input().subrange(
                old(self).position as int,
                final(self).position as int,
            ),
    {
        let position = self.position;
        while self.position < self.input.len() && is_letter(self.ch)
            invariant
                self.wf(),
                self.input() == old(self).input(),
                position == old(self).position,
                position <= self.position <= self.input().len(),
                letters_end(self.input(), self.position as int) == letters_end(
                    old(self).input(),
                    old(self).position as int,
                ),
            decreases self.input().len() + 1 - self.position,
        {
            self.read_char();
        }
        let mut word: Vec<char> = Vec::new();
        let mut i = position;
        assert(self.input@.subrange(position as int, position as int) =~= Seq::<char>::empty());
        while i < self.position
            invariant
                position <= i <= self.position,
                self.position <= self.input@.len(),
                word@ == self.input@.subrange(position as int, i as int),
            decreases self.position - i,
        {
            word.push(self.input[i]);
            assert(word@ =~= self.input@.subrange(position as int, i + 1));
            i += 1;
        }
        word
    }

    /// Reads a run of digits from the position of the lexer on.
    fn read_number(&mut self) -> (digits: Vec<char>)
        requires
            old(self).wf(),
            old(self).position <= old(self).input().len(),
        ensures
            final(self).wf(),
            final(self).input() == old(self).input(),
            final(self).position == digits_end(old(self).input(), old(self).position as int),
            old(self).position <= final(self).position <= old(self).input().len(),
            digits@ == old(self).input().subrange(
                old(self).position as int,
                final(self).position as int,
            ),
    {
        let position = self.position;
        while self.position < self.input.len() && is_digit(self.ch)
            invariant
                self.wf(),
                self.input() == old(self).input(),
                position == old(self).position,
                position <= self.position <= self.input().len(),
                digits_end(self.input(), self.position as int) == digits_end(
                    old(self).input(),
                    old(self).position as int,
                ),
            decreases self.input().len() + 1 - self.position,
        {
            self.read_char();
        }
        let mut digits: Vec<char> = Vec::new();
        let mut i = position;
        assert(self.input@.subrange(position as int, position as int) =~= Seq::<char>::empty());
        while i < self.position
            invariant
                position <= i <= self.position,
                self.position <= self.input@.len(),
                digits@ == self.input@.subrange(position as int, i as int),
            decreases self.position - i,
        {
            digits.push(self.input[i]);
            assert(digits@ =~= self.input@.subrange(position as int, i + 1));
            i += 1;
        }
        digits
    }

    /// Steps over blanks and reads the token that follows. Behind the end
    /// of the input every token is `EOF`, and the position goes up by one
    /// each time; it must have room to.
    pub fn next_token(&mut self) -> (token: Token)
        requires
            old(self).wf(),
            old(self).read_position < usize::MAX,
        ensures
            final(self).wf(),
            final(self).input() == old(self).input(),
            (token@, final(self).position as int) == token_at(
                old(self).input(),
                skip_blanks(old(self).input(), old(self).position as int),
            ),
    {
        self.skip_whitespace();
        proof {
            lemma_skip_blanks_bound(old(self).input(), old(self).position as int);
        }
        let ch = self.ch;
        let tok: Token;
        if ch == '=' {
            tok = Token::Operator(Operator::EQUALS);
        } else if ch == '+' {
            tok = Token::Operator(Operator::PLUS);
        } else if ch == '-' {
            tok = Token::Operator(Operator::MINUS);
        } else if ch == '!' {
            if self.peek_char() == '=' {
                self.read_char();
                tok = Token::Operator(Operator::NE);
            } else {
                tok = Token::Operator(Operator::BANG);
            }
        } else if ch == '/' {
            tok = Token::Operator(Operator::DIVIDE);
        } else if ch == '*' {
            tok = Token::Operator(Operator::ASTERISK);
        } else if ch == '<' {
            if self.peek_char() == '=' {
                self.read_char();
                tok = Token::Operator(Operator::LTorE);
            } else {
                tok = Token::Operator(Operator::LT);
            }
        } else if ch == '>' {
            if self.peek_char() == '=' {
                self.read_char();
                tok = Token::Operator(Operator::GTorE);
            } else {
                tok = Token::Operator(Operator::GT);
            }
        } else if ch == ';' {
            tok = Token::SEMICOLON(ch);
        } else if ch == '(' {
            tok = Token::LPAREN(ch);
        } else if ch == ')' {
            tok = Token::RPAREN(ch);
        } else if ch == ',' {
            tok = Token::COMMA(ch);
        } else if ch == '{' {
            tok = Token::LBRACE(ch);
        } else if ch == '}' {
            tok = Token::RBRACE(ch);
        } else if ch == '"' {
            tok = Token::QUOTE(ch);
        } else if ch == '\'' {
            tok = Token::SINGLEQUOTE(ch);
        } else if ch == '\0' {
            tok = Token::EOF;
        } else if is_letter(ch) {
            let ident = self.read_identifier();
            return match get_keyword_token(&ident) {
                Ok(keyword_token) => keyword_token,
                Err(_) => Token::IDENT(ident),
            };
        } else if is_digit(ch) {
            let digits = self.read_number();
            proof {
                lemma_digits_end_bound(
                    old(self).input(),
                    skip_blanks(old(self).input(), old(self).position as int),
                );
            }
            return Token::INT(digits);
        } else {
            return Token::ILLEGAL;
        }
        self.read_char();
        tok
    }
}

/// Stepping over blanks goes forward, and not past the end of the input
/// unless it starts there.
pub proof fn lemma_skip_blanks_bound(input: Seq<char>, pos: int)
    requires
        0 <= pos,
    ensures
        pos <= skip_blanks(input, pos),
        skip_blanks(input, pos) <= input.len() || skip_blanks(input, pos) == pos,
        !blank(char_at(input, skip_blanks(input, pos))),
    decreases input.len() - pos,
{
    if pos < input.len() && blank(input[pos]) {
        lemma_skip_blanks_bound(input, pos + 1);
    }
}

/// A run of digits ends within the input.
pub proof fn lemma_digits_end_bound(input: Seq<char>, pos: int)
    requires
        0 <= pos <= input.len(),
    ensures
        pos <= digits_end(input, pos) <= input.len(),
        pos < input.len() && digit(input[pos]) ==> pos < digits_end(input, pos),
    decreases input.len() - pos,
{
    if pos < input.len() && digit(input[pos]) {
        lemma_digits_end_bound(input, pos + 1);
    }
}

/// A word of letters ends within the input.
pub proof fn lemma_letters_end_bound(input: Seq<char>, pos: int)
    requires
        0 <= pos <= input.len(),
    ensures
        pos <= letters_end(input, pos) <= input.len(),
        pos < input.len() && letter(input[pos]) ==> pos < letters_end(input, pos),
    decreases input.len() - pos,
{
    if pos < input.len() && letter(input[pos]) {
        lemma_letters_end_bound(input, pos + 1);
    }
}

/// The tokens of an input from `pos` on, up to the first `EOF`; they end
/// early at a character that starts no token.
pub open spec fn tokens_from(input: Seq<char>, pos: int) -> Seq<TokenView>
    decreases input.len() - pos,
{
    let start = skip_blanks(input, pos);
    let (token, next) = token_at(input, start);
    if token is EOF || token is ILLEGAL || next <= pos || pos < 0 || input.len() < next {
        Seq::<TokenView>::empty()
    } else {
        seq![token] + tokens_from(input, next)
    }
}

/// Whether an input can be cut into tokens from `pos` on: no character that
/// starts no token is met before the first `EOF`.
pub open spec fn lexable_from(input: Seq<char>, pos: int) -> bool
    decreases input.len() - pos,
{
    let start = skip_blanks(input, pos);
    let (token, next) = token_at(input, start);
    if token is ILLEGAL {
        false
    } else if token is EOF || next <= pos || pos < 0 || input.len() < next {
        true
    } else {
        lexable_from(input, next)
    }
}

/// A token that is neither `EOF` nor `ILLEGAL` ends behind where it starts,
/// and within the input.
pub proof fn lemma_token_advances(input: Seq<char>, pos: int)
    requires
        0 <= pos,
    ensures
        !(token_at(input, pos).0 is EOF) && !(token_at(input, pos).0 is ILLEGAL) ==> pos
            < token_at(input, pos).1 <= input.len(),
{
    let ch = char_at(input, pos);
    if pos < input.len() {
        lemma_letters_end_bound(input, pos);
        lemma_digits_end_bound(input, pos);
        if ch == '!' || ch == '<' || ch == '>' {
            if char_at(input, pos + 1) == '=' {
                assert(pos + 1 < input.len());
            }
        }
    }
}

/// The characters of a string, in order.
pub(crate) fn chars_of(s: &str) -> (chars: Vec<char>)
    ensures
        chars@ == s@,
{
    broadcast use vstd::string::group_string_axioms;

    let mut chars: Vec<char> = Vec::new();
    for c in it: s.chars()
        invariant
            chars@.len() == it.index(),
            forall|j: int| 0 <= j < chars@.len() ==> chars@[j] == #[trigger] it.seq()[j],
    {
        chars.push(c);
    }
    assert(chars@ =~= s@);
    chars
}

/// Cuts an input into tokens, up to the first `EOF`, or gives nothing where
/// a character is met that starts no token, or where the input is too long
/// to be indexed.
pub fn tokenize(input: &str) -> (found: Option<Vec<Token>>)
    ensures
        match found {
            Some(tokens) => lexable_from(input@, 0) && token_views(tokens@) == tokens_from(
                input@,
                0,
            ) && input@.len() + 2 <= usize::MAX,
            None => !lexable_from(input@, 0) || input@.len() + 2 > usize::MAX,
        },
{
    let chars = chars_of(input);
    if chars.len() > usize::MAX - 2 {
        return None;
    }
    let mut l = Lexer::new(chars);
    let mut tokens: Vec<Token> = Vec::new();
    let ghost mut start: int = 0;
    assert(token_views(tokens@) =~= Seq::<TokenView>::empty());
    loop
        invariant
            l.wf(),
            l.input() == input@,
            0 <= l.position <= l.input().len(),
            lexable_from(input@, 0) == lexable_from(input@, l.position as int),
            tokens_from(input@, 0) == token_views(tokens@) + tokens_from(
                input@,
                l.position as int,
            ),
        decreases l.input().len() - l.position,
    {
        let ghost pos = l.position as int;
        let ghost done = token_views(tokens@);
        proof {
            lemma_skip_blanks_bound(input@, pos);
            lemma_token_advances(input@, skip_blanks(input@, pos));
        }
        let token = l.next_token();
        match token {
            Token::EOF => {
                assert(tokens_from(input@, pos) =~= Seq::<TokenView>::empty());
                assert(done + Seq::<TokenView>::empty() =~= done);
                return Some(tokens);
            },
            Token::ILLEGAL => {
                return None;
            },
            _ => {
                tokens.push(token);
                proof {
                    assert(token_views(tokens@) =~= done.push(token@));
                    assert(done + (seq![token@] + tokens_from(input@, l.position as int))
                        =~= done.push(token@) + tokens_from(input@, l.position as int));
                }
            },
        }
    }
}

/// The tokens of a list as mathematical values.
pub open spec fn token_views(tokens: Seq<Token>) -> Seq<TokenView> {
    Seq::new(tokens.len(), |i: int| tokens[i]@)
}

/// Cuts an input into tokens, up to the first `EOF`. The input must hold no
/// character that starts no token before that, and must not be too long to
/// be indexed.
pub fn get_tokens(input: &str) -> (tokens: Vec<Token>)
    requires
        lexable_from(input@, 0),
        input@.len() + 2 <= usize::MAX,
    ensures
        token_views(tokens@) == tokens_from(input@, 0),
{
    match tokenize(input) {
        Some(tokens) => tokens,
        None => Vec::new(),
    }
}

} // verus!
