//! Character-level scanner: turns source text into a stream of tokens, one
//! call at a time. The specification side models the scan as functions over
//! the input character sequence: `token_at` gives the token starting at a
//! position together with the position after it, and `tokens_from` gives the
//! whole remaining token stream, ending in the end-of-input token.

use vstd::prelude::*;

use crate::tokens::{spec_lookup_ident, Token, TokenView};

verus! {

/// The whitespace characters skipped between tokens.
pub open spec fn is_whitespace_char(c: char) -> bool {
    c == ' ' || c == '\t' || c == '\n' || c == '\r'
}

/// The characters an identifier or keyword is made of.
pub open spec fn is_letter_char(c: char) -> bool {
    ('a' <= c && c <= 'z') || ('A' <= c && c <= 'Z') || c == '_'
}

/// The decimal digits.
pub open spec fn is_digit_char(c: char) -> bool {
    '0' <= c && c <= '9'
}

/// The first position at or after `pos` that does not hold whitespace.
pub open spec fn ws_end(input: Seq<char>, pos: int) -> int
    decreases input.len() - pos,
{
    if 0 <= pos < input.len() && is_whitespace_char(input[pos]) {
        ws_end(input, pos + 1)
    } else {
        pos
    }
}

/// The first position at or after `pos` that does not hold a letter: the end
/// of the maximal identifier run starting at `pos`.
pub open spec fn letters_end(input: Seq<char>, pos: int) -> int
    decreases input.len() - pos,
{
    if 0 <= pos < input.len() && is_letter_char(input[pos]) {
        letters_end(input, pos + 1)
    } else {
        pos
    }
}

/// The first position at or after `pos` that does not hold a digit: the end
/// of the maximal digit run starting at `pos`.
pub open spec fn digits_end(input: Seq<char>, pos: int) -> int
    decreases input.len() - pos,
{
    if 0 <= pos < input.len() && is_digit_char(input[pos]) {
        digits_end(input, pos + 1)
    } else {
        pos
    }
}

pub proof fn lemma_ws_end(input: Seq<char>, pos: int)
    ensures
        pos <= ws_end(input, pos),
        pos <= input.len() ==> ws_end(input, pos) <= input.len(),
    decreases input.len() - pos,
{
    if 0 <= pos < input.len() && is_whitespace_char(input[pos]) {
        lemma_ws_end(input, pos + 1);
    }
}

pub proof fn lemma_letters_end(input: Seq<char>, pos: int)
    ensures
        pos <= letters_end(input, pos),
        pos <= input.len() ==> letters_end(input, pos) <= input.len(),
    decreases input.len() - pos,
{
    if 0 <= pos < input.len() && is_letter_char(input[pos]) {
        lemma_letters_end(input, pos + 1);
    }
}

pub proof fn lemma_digits_end(input: Seq<char>, pos: int)
    ensures
        pos <= digits_end(input, pos),
        pos <= input.len() ==> digits_end(input, pos) <= input.len(),
    decreases input.len() - pos,
{
    if 0 <= pos < input.len() && is_digit_char(input[pos]) {
        lemma_digits_end(input, pos + 1);
    }
}

/// The token whose first character (after leading whitespace) sits at `pos`,
/// together with the scanner position after that token has been consumed.
/// At end of input the token is the end-of-input marker and the position does
/// not move, so the marker is produced again by every later call.
pub open spec fn token_at(input: Seq<char>, pos: int) -> (TokenView, int) {
    let p = ws_end(input, pos);
    if !(0 <= p < input.len()) {
        (TokenView::Eof, p)
    } else {
        let c = input[p];
        if c == '=' {
            if p + 1 < input.len() && input[p + 1] == '=' {
                (TokenView::Eq, p + 2)
            } else {
                (TokenView::Assign, p + 1)
            }
        } else if c == '!' {
            if p + 1 < input.len() && input[p + 1] == '=' {
                (TokenView::NotEq, p + 2)
            } else {
                (TokenView::Bang, p + 1)
            }
        } else if c == ';' {
            (TokenView::SemiColon, p + 1)
        } else if c == '(' {
            (TokenView::LParen, p + 1)
        } else if c == ')' {
            (TokenView::RParen, p + 1)
        } else if c == ',' {
            (TokenView::Comma, p + 1)
        } else if c == '+' {
            (TokenView::Plus, p + 1)
        } else if c == '-' {
            (TokenView::Minus, p + 1)
        } else if c == '*' {
            (TokenView::Asterisk, p + 1)
        } else if c == '/' {
            (TokenView::Slash, p + 1)
        } else if c == '<' {
            (TokenView::Lt, p + 1)
        } else if c == '>' {
            (TokenView::Gt, p + 1)
        } else if c == '{' {
            (TokenView::LBrace, p + 1)
        } else if c == '}' {
            (TokenView::RBrace, p + 1)
        } else if is_letter_char(c) {
            let e = letters_end(input, p);
            (spec_lookup_ident(input.subrange(p, e)), e)
        } else if is_digit_char(c) {
            let e = digits_end(input, p);
            (TokenView::Int(input.subrange(p, e)), e)
        } else {
            (TokenView::Illegal(seq![c]), p + 1)
        }
    }
}

pub proof fn lemma_token_at_bounds(input: Seq<char>, pos: int)
    requires
        0 <= pos <= input.len(),
    ensures
        pos <= token_at(input, pos).1 <= input.len(),
        !(token_at(input, pos).0 is Eof) ==> pos < token_at(input, pos).1,
{
    lemma_ws_end(input, pos);
    let p = ws_end(input, pos);
    if 0 <= p < input.len() {
        let c = input[p];
        if is_letter_char(c) {
            lemma_letters_end(input, p + 1);
            assert(letters_end(input, p) == letters_end(input, p + 1));
        } else if is_digit_char(c) && c != '=' && c != '!' && c != ';' && c != '(' && c != ')'
            && c != ',' && c != '+' && c != '-' && c != '*' && c != '/' && c != '<' && c != '>'
            && c != '{' && c != '}' {
            lemma_digits_end(input, p + 1);
            assert(digits_end(input, p) == digits_end(input, p + 1));
        }
    }
}

/// A run of letters over `[p, e)` with no letter at `e` is maximal: the scan
/// of letters from `p` ends exactly at `e`.
pub proof fn lemma_letters_end_run(s: Seq<char>, p: int, e: int)
    requires
        0 <= p <= e <= s.len(),
        forall|k: int| p <= k < e ==> is_letter_char(s[k]),
        e == s.len() || !is_letter_char(s[e]),
    ensures
        letters_end(s, p) == e,
    decreases e - p,
{
    if p < e {
        lemma_letters_end_run(s, p + 1, e);
    }
}

/// A run of digits over `[p, e)` with no digit at `e` is maximal: the scan of
/// digits from `p` ends exactly at `e`.
pub proof fn lemma_digits_end_run(s: Seq<char>, p: int, e: int)
    requires
        0 <= p <= e <= s.len(),
        forall|k: int| p <= k < e ==> is_digit_char(s[k]),
        e == s.len() || !is_digit_char(s[e]),
    ensures
        digits_end(s, p) == e,
    decreases e - p,
{
    if p < e {
        lemma_digits_end_run(s, p + 1, e);
    }
}

/// The token stream from `pos` to the end of the input, with the end-of-input
/// marker as its last element.
pub open spec fn tokens_from(input: Seq<char>, pos: int) -> Seq<TokenView>
    decreases input.len() - pos,
        when 0 <= pos <= input.len()
        via tokens_from_decreases
{
    let (t, np) = token_at(input, pos);
    if t is Eof {
        seq![t]
    } else {
        seq![t] + tokens_from(input, np)
    }
}

#[via_fn]
proof fn tokens_from_decreases(input: Seq<char>, pos: int) {
    lemma_token_at_bounds(input, pos);
}

/// A well-formed token stream: non-empty, and the end-of-input marker stands
/// exactly at its last position.
pub open spec fn wf_tokens(toks: Seq<TokenView>) -> bool {
    &&& toks.len() >= 1
    &&& forall|j: int| 0 <= j < toks.len() ==> ((toks[j] is Eof) <==> j == toks.len() - 1)
}

pub proof fn lemma_tokens_from_wf(input: Seq<char>, pos: int)
    requires
        0 <= pos <= input.len(),
    ensures
        wf_tokens(tokens_from(input, pos)),
    decreases input.len() - pos,
{
    lemma_token_at_bounds(input, pos);
    let (t, np) = token_at(input, pos);
    if !(t is Eof) {
        lemma_tokens_from_wf(input, np);
        let rest = tokens_from(input, np);
        let whole = tokens_from(input, pos);
        assert(whole == seq![t] + rest);
        assert forall|j: int| 0 <= j < whole.len() implies ((whole[j] is Eof) <==> j
            == whole.len() - 1) by {
            if j >= 1 {
                assert(whole[j] == rest[j - 1]);
            }
        }
    }
}

/// Once the scan has reached end of input, it stays there: the token at the
/// resulting position is the end-of-input marker again, at the same position.
pub proof fn lemma_eof_idempotent(input: Seq<char>, pos: int)
    requires
        0 <= pos,
        token_at(input, pos).0 is Eof,
    ensures
        token_at(input, token_at(input, pos).1).0 is Eof,
        token_at(input, token_at(input, pos).1).1 == token_at(input, pos).1,
{
    lemma_ws_end(input, pos);
    let q = token_at(input, pos).1;
    assert(q == ws_end(input, pos));
    assert(q >= input.len());
    assert(ws_end(input, q) == q);
}

/// Relies on String::push: appends the character at the end of the string.
#[verifier::external_body]
fn push_char(s: &mut String, c: char)
    ensures
        final(s)@ == old(s)@.push(c),
{
    s.push(c);
}

/// Source text of the shape `let <ident> = <int>;` — one identifier run that
/// the keyword table does not claim, one decimal digit run — lexes to exactly
/// the six tokens of a `let` statement over an integer literal.
pub proof fn lemma_let_source_tokens(x: Seq<char>, n: Seq<char>)
    requires
        x.len() > 0,
        forall|k: int| 0 <= k < x.len() ==> is_letter_char(x[k]),
        spec_lookup_ident(x) == TokenView::Ident(x),
        n.len() > 0,
        forall|k: int| 0 <= k < n.len() ==> is_digit_char(n[k]),
    ensures
        tokens_from("let "@ + x + " = "@ + n + ";"@, 0) == seq![
            TokenView::Let,
            TokenView::Ident(x),
            TokenView::Assign,
            TokenView::Int(n),
            TokenView::SemiColon,
            TokenView::Eof,
        ],
{
    reveal_strlit("let ");
    reveal_strlit(" = ");
    reveal_strlit(";");
    reveal_strlit("fn");
    reveal_strlit("let");
    reveal_strlit("true");
    reveal_strlit("false");
    reveal_strlit("if");
    reveal_strlit("else");
    reveal_strlit("return");
    let input = "let "@ + x + " = "@ + n + ";"@;
    let lx = x.len() as int;
    let ln = n.len() as int;
    assert(input.len() == 8 + lx + ln);
    assert(input[0] == 'l');
    assert(input[1] == 'e');
    assert(input[2] == 't');
    assert(input[3] == ' ');
    assert(forall|k: int| 0 <= k < lx ==> input[4 + k] == x[k]);
    assert(input[4 + lx] == ' ');
    assert(input[5 + lx] == '=');
    assert(input[6 + lx] == ' ');
    assert(forall|k: int| 0 <= k < ln ==> input[7 + lx + k] == n[k]);
    assert(input[7 + lx + ln] == ';');

    // `let`
    lemma_letters_end_run(input, 0, 3);
    assert(input.subrange(0, 3) =~= "let"@);
    assert(ws_end(input, 0) == 0);
    assert(token_at(input, 0) == (TokenView::Let, 3int));

    // the identifier
    assert(ws_end(input, 3) == ws_end(input, 4));
    assert(ws_end(input, 4) == 4);
    lemma_letters_end_run(input, 4, 4 + lx);
    assert(input.subrange(4, 4 + lx) =~= x);
    assert(token_at(input, 3) == (TokenView::Ident(x), 4 + lx));

    // `=`
    assert(ws_end(input, 4 + lx) == ws_end(input, 5 + lx));
    assert(ws_end(input, 5 + lx) == 5 + lx);
    assert(token_at(input, 4 + lx) == (TokenView::Assign, 6 + lx));

    // the integer literal
    assert(ws_end(input, 6 + lx) == ws_end(input, 7 + lx));
    assert(ws_end(input, 7 + lx) == 7 + lx);
    lemma_digits_end_run(input, 7 + lx, 7 + lx + ln);
    assert(input.subrange(7 + lx, 7 + lx + ln) =~= n);
    assert(token_at(input, 6 + lx) == (TokenView::Int(n), 7 + lx + ln));

    // `;`, then the end marker
    assert(ws_end(input, 7 + lx + ln) == 7 + lx + ln);
    assert(token_at(input, 7 + lx + ln) == (TokenView::SemiColon, 8 + lx + ln));
    assert(ws_end(input, 8 + lx + ln) == 8 + lx + ln);
    assert(token_at(input, 8 + lx + ln) == (TokenView::Eof, 8 + lx + ln));

    // assemble the stream, last token first
    assert(tokens_from(input, 8 + lx + ln) == seq![TokenView::Eof]);
    assert(tokens_from(input, 7 + lx + ln) =~= seq![TokenView::SemiColon, TokenView::Eof]);
    assert(tokens_from(input, 6 + lx) =~= seq![
        TokenView::Int(n),
        TokenView::SemiColon,
        TokenView::Eof,
    ]);
    assert(tokens_from(input, 4 + lx) =~= seq![
        TokenView::Assign,
        TokenView::Int(n),
        TokenView::SemiColon,
        TokenView::Eof,
    ]);
    assert(tokens_from(input, 3) =~= seq![
        TokenView::Ident(x),
        TokenView::Assign,
        TokenView::Int(n),
        TokenView::SemiColon,
        TokenView::Eof,
    ]);
    assert(tokens_from(input, 0) =~= seq![
        TokenView::Let,
        TokenView::Ident(x),
        TokenView::Assign,
        TokenView::Int(n),
        TokenView::SemiColon,
        TokenView::Eof,
    ]);
}

/// Source text of the shape `return <int>;` lexes to exactly the four tokens
/// of a `return` statement over an integer literal.
pub proof fn lemma_return_source_tokens(n: Seq<char>)
    requires
        n.len() > 0,
        forall|k: int| 0 <= k < n.len() ==> is_digit_char(n[k]),
    ensures
        tokens_from("return "@ + n + ";"@, 0) == seq![
            TokenView::Return,
            TokenView::Int(n),
            TokenView::SemiColon,
            TokenView::Eof,
        ],
{
    reveal_strlit("return ");
    reveal_strlit(";");
    reveal_strlit("fn");
    reveal_strlit("let");
    reveal_strlit("true");
    reveal_strlit("false");
    reveal_strlit("if");
    reveal_strlit("else");
    reveal_strlit("return");
    let input = "return "@ + n + ";"@;
    let ln = n.len() as int;
    assert(input.len() == 8 + ln);
    assert(input[0] == 'r');
    assert(input[1] == 'e');
    assert(input[2] == 't');
    assert(input[3] == 'u');
    assert(input[4] == 'r');
    assert(input[5] == 'n');
    assert(input[6] == ' ');
    assert(forall|k: int| 0 <= k < ln ==> input[7 + k] == n[k]);
    assert(input[7 + ln] == ';');

    // `return`
    lemma_letters_end_run(input, 0, 6);
    assert(input.subrange(0, 6) =~= "return"@);
    assert(ws_end(input, 0) == 0);
    assert(token_at(input, 0) == (TokenView::Return, 6int));

    // the integer literal
    assert(ws_end(input, 6) == ws_end(input, 7));
    assert(ws_end(input, 7) == 7);
    lemma_digits_end_run(input, 7, 7 + ln);
    assert(input.subrange(7, 7 + ln) =~= n);
    assert(token_at(input, 6) == (TokenView::Int(n), 7 + ln));

    // `;`, then the end marker
    assert(ws_end(input, 7 + ln) == 7 + ln);
    assert(token_at(input, 7 + ln) == (TokenView::SemiColon, 8 + ln));
    assert(ws_end(input, 8 + ln) == 8 + ln);
    assert(token_at(input, 8 + ln) == (TokenView::Eof, 8 + ln));

    // assemble the stream, last token first
    assert(tokens_from(input, 8 + ln) == seq![TokenView::Eof]);
    assert(tokens_from(input, 7 + ln) =~= seq![TokenView::SemiColon, TokenView::Eof]);
    assert(tokens_from(input, 6) =~= seq![
        TokenView::Int(n),
        TokenView::SemiColon,
        TokenView::Eof,
    ]);
    assert(tokens_from(input, 0) =~= seq![
        TokenView::Return,
        TokenView::Int(n),
        TokenView::SemiColon,
        TokenView::Eof,
    ]);
}

/// Scanner state: the input as a sequence of characters, the position of the
/// character under examination, a read cursor always one character ahead of
/// it, and the character under examination itself, or `None` once the input
/// is exhausted. When the whole input has been consumed the scanner rests
/// with the position on the input's length and the read cursor one past it;
/// it does not count the calls made after that, which is its one departure
/// from a cursor that would otherwise grow without bound.
pub struct Lexer {
    pub input: Vec<char>,
    pub position: usize,
    pub read_position: usize,
    pub ch: Option<char>,
}

impl Lexer {
    /// The scanner invariant: the read cursor is one past the current
    /// position in every state, and `ch` holds the character at the current
    /// position while one remains. At the end of the input the scanner rests
    /// with the position on the input's length; it does not count the calls
    /// made after that, which is the one departure from a cursor that would
    /// grow without bound.
    pub open spec fn wf(&self) -> bool {
        &&& self.input@.len() < usize::MAX
        &&& self.position <= self.input@.len() as int
        &&& self.read_position == self.position + 1
        &&& self.ch == (if self.position < self.input@.len() {
            Some(self.input@[self.position as int])
        } else {
            None::<char>
        })
    }

    /// Build a scanner over the given source text and load its first
    /// character. The input must leave room for the read cursor, which stands
    /// one past the end once the whole input is consumed.
    pub fn new(input: &String) -> (l: Lexer)
        requires
            input@.len() < usize::MAX,
        ensures
            l.wf(),
            l.input@ == input@,
            l.position == 0,
    {
        let n = input.as_str().unicode_len();
        let mut input_chars: Vec<char> = Vec::new();
        let mut i: usize = 0;
        while i < n
            invariant
                i <= n,
                n == input@.len(),
                input_chars@.len() == i as int,
                forall|j: int| 0 <= j < i as int ==> input_chars@[j] == input@[j],
            decreases n - i,
        {
            let c = input.as_str().get_char(i);
            input_chars.push(c);
            i = i + 1;
        }
        assert(input_chars@ =~= input@);

        let mut l = Lexer { input: input_chars, position: 0, read_position: 0, ch: None };
        l.read_char();
        l
    }

    /// Advance by one character: the read cursor's character (or the
    /// end-of-input sentinel) becomes current and both cursors move on, so
    /// that the read cursor stays one past the position. Once the read cursor
    /// stands one past the end of the input, the scanner rests there and only
    /// the end-of-input sentinel remains current.
    pub fn read_char(&mut self)
        requires
            old(self).input@.len() < usize::MAX,
            old(self).read_position <= old(self).input@.len() || old(self).wf(),
        ensures
            final(self).wf(),
            final(self).input == old(self).input,
            old(self).read_position <= old(self).input@.len() ==> final(self).position == old(
                self,
            ).read_position && final(self).read_position == old(self).read_position + 1,
            old(self).read_position > old(self).input@.len() ==> *final(self) == *old(self),
    {
        if self.read_position <= self.input.len() {
            if self.read_position < self.input.len() {
                self.ch = Some(self.input[self.read_position]);
            } else {
                self.ch = None;
            }
            self.position = self.read_position;
            self.read_position = self.read_position + 1;
        }
    }

    /// Move past whitespace, up to the next token's first character or the
    /// end of the input.
    pub fn skip_white_space(&mut self)
        requires
            old(self).wf(),
        ensures
            final(self).wf(),
            final(self).input == old(self).input,
            final(self).position as int == ws_end(old(self).input@, old(self).position as int),
    {
        while self.ch_is_whitespace()
            invariant
                self.wf(),
                self.input == old(self).input,
                ws_end(self.input@, self.position as int) == ws_end(
                    old(self).input@,
                    old(self).position as int,
                ),
            decreases self.input@.len() - self.position,
        {
            self.read_char();
        }
    }

    /// Whether the character under examination is whitespace.
    fn ch_is_whitespace(&self) -> (r: bool)
        ensures
            r == (self.ch is Some && is_whitespace_char(self.ch->0)),
    {
        match self.ch {
            Some(c) => c == ' ' || c == '\t' || c == '\n' || c == '\r',
            None => false,
        }
    }

    /// Whether a character can be part of an identifier or keyword.
    pub fn is_letter(letter: char) -> (r: bool)
        ensures
            r == is_letter_char(letter),
    {
        ('a' <= letter && letter <= 'z') || ('A' <= letter && letter <= 'Z') || letter == '_'
    }

    /// Whether a character is a decimal digit.
    pub fn is_digit(character: char) -> (r: bool)
        ensures
            r == is_digit_char(character),
    {
        '0' <= character && character <= '9'
    }

    /// The next token of the stream. Whitespace before it is skipped, the
    /// token's characters are consumed, and the scanner moves one character
    /// past the token, as `token_at` describes. After the end of the input
    /// every call yields the end-of-input marker again.
    pub fn next_token(&mut self) -> (t: Token)
        requires
            old(self).wf(),
        ensures
            final(self).wf(),
            final(self).input == old(self).input,
            t@ == token_at(old(self).input@, old(self).position as int).0,
            final(self).position as int == token_at(
                old(self).input@,
                old(self).position as int,
            ).1,
    {
        self.skip_white_space();

        let token: Token = match self.ch {
            None => Token::Eof,
            Some(c) => {
                if c == '=' {
                    if self.next_char_is_eq() {
                        self.read_char();
                        Token::Eq
                    } else {
                        Token::Assign
                    }
                } else if c == ';' {
                    Token::SemiColon
                } else if c == '(' {
                    Token::LParen
                } else if c == ')' {
                    Token::RParen
                } else if c == ',' {
                    Token::Comma
                } else if c == '+' {
                    Token::Plus
                } else if c == '-' {
                    Token::Minus
                } else if c == '*' {
                    Token::Asterisk
                } else if c == '!' {
                    if self.next_char_is_eq() {
                        self.read_char();
                        Token::NotEq
                    } else {
                        Token::Bang
                    }
                } else if c == '/' {
                    Token::Slash
                } else if c == '<' {
                    Token::Lt
                } else if c == '>' {
                    Token::Gt
                } else if c == '{' {
                    Token::LBrace
                } else if c == '}' {
                    Token::RBrace
                } else if Self::is_letter(c) {
                    let literal = self.read_identifier();
                    Token::lookup_ident(&literal)
                } else if Self::is_digit(c) {
                    let literal = self.read_number();
                    Token::Int(literal)
                } else {
                    let mut s = String::new();
                    push_char(&mut s, c);
                    proof {
                        assert(s@ =~= seq![c]);
                    }
                    Token::Illegal(s)
                }
            },
        };

        self.read_char();
        token
    }

    /// Read the maximal identifier run that starts at the current position.
    /// The scanner is left on the run's last character, so that the caller's
    /// closing advance moves just past the run.
    pub fn read_identifier(&mut self) -> (r: String)
        requires
            old(self).wf(),
            old(self).position < old(self).input@.len(),
            is_letter_char(old(self).input@[old(self).position as int]),
        ensures
            final(self).wf(),
            final(self).input == old(self).input,
            final(self).position as int == letters_end(
                old(self).input@,
                old(self).position as int,
            ) - 1,
            old(self).position < letters_end(old(self).input@, old(self).position as int)
                <= old(self).input@.len(),
            r@ == old(self).input@.subrange(
                old(self).position as int,
                letters_end(old(self).input@, old(self).position as int),
            ),
    {
        let position = self.position;
        proof {
            lemma_letters_end(self.input@, self.position as int);
        }
        while self.read_position < self.input.len() && Self::is_letter(
            self.input[self.read_position],
        )
            invariant
                self.wf(),
                self.input == old(self).input,
                position <= self.position < self.input@.len(),
                is_letter_char(self.input@[self.position as int]),
                letters_end(self.input@, position as int) == letters_end(
                    self.input@,
                    self.position as int,
                ),
            decreases self.input@.len() - self.position,
        {
            self.read_char();
        }
        proof {
            let e = letters_end(self.input@, position as int);
            assert(letters_end(self.input@, self.position as int) == letters_end(
                self.input@,
                self.position as int + 1,
            ));
            assert(letters_end(self.input@, self.position as int + 1) == self.position + 1);
            assert(self.read_position == e);
        }

        let end = self.read_position;
        let mut literal = String::new();
        let mut i = position;
        while i < end
            invariant
                position <= i <= end,
                end <= self.input@.len(),
                literal@ == self.input@.subrange(position as int, i as int),
            decreases end - i,
        {
            let c = self.input[i];
            push_char(&mut literal, c);
            proof {
                assert(self.input@.subrange(position as int, i + 1) =~= self.input@.subrange(
                    position as int,
                    i as int,
                ).push(c));
            }
            i = i + 1;
        }
        literal
    }

    /// Read the maximal digit run that starts at the current position, as its
    /// literal text. The scanner is left on the run's last character, so that
    /// the caller's closing advance moves just past the run.
    pub fn read_number(&mut self) -> (r: String)
        requires
            old(self).wf(),
            old(self).position < old(self).input@.len(),
            is_digit_char(old(self).input@[old(self).position as int]),
        ensures
            final(self).wf(),
            final(self).input == old(self).input,
            final(self).position as int == digits_end(
                old(self).input@,
                old(self).position as int,
            ) - 1,
            old(self).position < digits_end(old(self).input@, old(self).position as int)
                <= old(self).input@.len(),
            r@ == old(self).input@.subrange(
                old(self).position as int,
                digits_end(old(self).input@, old(self).position as int),
            ),
    {
        let position = self.position;
        proof {
            lemma_digits_end(self.input@, self.position as int);
        }
        while self.read_position < self.input.len() && Self::is_digit(
            self.input[self.read_position],
        )
            invariant
                self.wf(),
                self.input == old(self).input,
                position <= self.position < self.input@.len(),
                is_digit_char(self.input@[self.position as int]),
                digits_end(self.input@, position as int) == digits_end(
                    self.input@,
                    self.position as int,
                ),
            decreases self.input@.len() - self.position,
        {
            self.read_char();
        }
        proof {
            let e = digits_end(self.input@, position as int);
            assert(digits_end(self.input@, self.position as int) == digits_end(
                self.input@,
                self.position as int + 1,
            ));
            assert(digits_end(self.input@, self.position as int + 1) == self.position + 1);
            assert(self.read_position == e);
        }

        let end = self.read_position;
        let mut literal = String::new();
        let mut i = position;
        while i < end
            invariant
                position <= i <= end,
                end <= self.input@.len(),
                literal@ == self.input@.subrange(position as int, i as int),
            decreases end - i,
        {
            let c = self.input[i];
            push_char(&mut literal, c);
            proof {
                assert(self.input@.subrange(position as int, i + 1) =~= self.input@.subrange(
                    position as int,
                    i as int,
                ).push(c));
            }
            i = i + 1;
        }
        literal
    }

    /// Whether the character after the current one is `=`; used to pick the
    /// two-character operators. At the end of the input there is no such
    /// character, so the answer is no.
    pub fn next_char_is_eq(&self) -> (r: bool)
        requires
            self.wf(),
        ensures
            r == (self.position + 1 < self.input@.len() && self.input@[self.position as int + 1]
                == '='),
    {
        self.read_position < self.input.len() && self.input[self.read_position] == '='
    }
}

} // verus!
