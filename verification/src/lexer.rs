//! The lexer: turns source text into tokens, one per call.
//!
//! The model of a lexer is the sequence of tokens that it has yet to yield.
//! `tokens_of` gives that sequence for a whole text.

use vstd::prelude::*;
use crate::text::push_char;
use crate::token::{keyword_or_ident, lookup_ident, Token, TokenModel};

verus! {

/// The classes of characters that the lexer scans runs of.
#[derive(Debug, Clone, Copy, PartialEq, Eq)]
pub enum CharClass {
    /// Blanks between tokens: space, tab, newline, carriage return.
    Space,
    /// What a name continues with: ASCII letters, digits and the underscore.
    Name,
    /// ASCII digits.
    Digit,
    /// Anything but the double quote: the inside of a string literal.
    Unquoted,
}

pub open spec fn is_space(c: char) -> bool {
    c == ' ' || c == '\t' || c == '\n' || c == '\r'
}

pub open spec fn is_letter(c: char) -> bool {
    ('a' <= c && c <= 'z') || ('A' <= c && c <= 'Z')
}

pub open spec fn is_digit(c: char) -> bool {
    '0' <= c && c <= '9'
}

pub open spec fn in_class(k: CharClass, c: char) -> bool {
    match k {
        CharClass::Space => is_space(c),
        CharClass::Name => is_letter(c) || is_digit(c) || c == '_',
        CharClass::Digit => is_digit(c),
        CharClass::Unquoted => c != '"',
    }
}

/// The value of a digit character.
pub open spec fn digit_value(c: char) -> int {
    if c == '0' {
        0
    } else if c == '1' {
        1
    } else if c == '2' {
        2
    } else if c == '3' {
        3
    } else if c == '4' {
        4
    } else if c == '5' {
        5
    } else if c == '6' {
        6
    } else if c == '7' {
        7
    } else if c == '8' {
        8
    } else {
        9
    }
}

/// The number that a sequence of digits writes in base ten.
pub open spec fn decimal_value(digits: Seq<char>) -> nat
    decreases digits.len(),
{
    if digits.len() == 0 {
        0
    } else {
        (decimal_value(digits.drop_last()) * 10 + digit_value(digits.last())) as nat
    }
}

/// The end of the longest run of characters of class `k` that starts at `p`.
pub open spec fn run_end(s: Seq<char>, p: int, k: CharClass) -> int
    decreases s.len() - p,
{
    if 0 <= p < s.len() && in_class(k, s[p]) {
        run_end(s, p + 1, k)
    } else {
        p
    }
}

/// The token of a character that is a token by itself.
pub open spec fn single_char_token(c: char) -> TokenModel {
    if c == '+' {
        TokenModel::Plus
    } else if c == '-' {
        TokenModel::Minus
    } else if c == '/' {
        TokenModel::Slash
    } else if c == '*' {
        TokenModel::Asterisk
    } else if c == '<' {
        TokenModel::Lt
    } else if c == '>' {
        TokenModel::Gt
    } else if c == ';' {
        TokenModel::Semicolon
    } else if c == ':' {
        TokenModel::Colon
    } else if c == ',' {
        TokenModel::Comma
    } else if c == '(' {
        TokenModel::LParen
    } else if c == ')' {
        TokenModel::RParen
    } else if c == '{' {
        TokenModel::LBrace
    } else if c == '}' {
        TokenModel::RBrace
    } else if c == '[' {
        TokenModel::LBracket
    } else if c == ']' {
        TokenModel::RBracket
    } else {
        TokenModel::Illegal
    }
}

/// The first token of `s` at or after position `p`, and the position behind it.
///
/// Blanks are skipped. A letter starts a name, which runs over letters, digits
/// and underscores and is a keyword or an identifier. A digit starts a number.
/// A double quote starts a string, which runs to the next double quote or to
/// the end of the text. `==` and `!=` are taken before `=` and `!`. Any other
/// character is a token by itself, an illegal one if it has no meaning.
pub open spec fn token_at(s: Seq<char>, p: int) -> (TokenModel, int) {
    let start = run_end(s, p, CharClass::Space);
    if !(0 <= start < s.len()) {
        (TokenModel::Eof, start)
    } else {
        let c = s[start];
        if is_letter(c) {
            let end = run_end(s, start, CharClass::Name);
            (keyword_or_ident(s.subrange(start, end)), end)
        } else if is_digit(c) {
            let end = run_end(s, start, CharClass::Digit);
            (TokenModel::Int(decimal_value(s.subrange(start, end)) as int), end)
        } else if c == '"' {
            let end = run_end(s, start + 1, CharClass::Unquoted);
            (
                TokenModel::String(s.subrange(start + 1, end)),
                if end < s.len() {
                    end + 1
                } else {
                    end
                },
            )
        } else if c == '=' {
            if start + 1 < s.len() && s[start + 1] == '=' {
                (TokenModel::Eq, start + 2)
            } else {
                (TokenModel::Assign, start + 1)
            }
        } else if c == '!' {
            if start + 1 < s.len() && s[start + 1] == '=' {
                (TokenModel::NotEq, start + 2)
            } else {
                (TokenModel::Bang, start + 1)
            }
        } else {
            (single_char_token(c), start + 1)
        }
    }
}

/// A run ends at or after its start, inside the text, at a character that is
/// not of the class; everything before that is.
pub proof fn lemma_run_end(s: Seq<char>, p: int, k: CharClass)
    requires
        0 <= p <= s.len(),
    ensures
        p <= run_end(s, p, k) <= s.len(),
        forall|i: int| p <= i < run_end(s, p, k) ==> in_class(k, #[trigger] s[i]),
        run_end(s, p, k) < s.len() ==> !in_class(k, s[run_end(s, p, k)]),
    decreases s.len() - p,
{
    if p < s.len() && in_class(k, s[p]) {
        lemma_run_end(s, p + 1, k);
    }
}

/// A token that is not the end of the input takes at least one character.
pub proof fn lemma_token_advances(s: Seq<char>, p: int)
    requires
        0 <= p <= s.len(),
    ensures
        p <= token_at(s, p).1 <= s.len(),
        !(token_at(s, p).0 is Eof) ==> p < token_at(s, p).1,
        token_at(s, p).0 is Eof ==> token_at(s, p).1 == s.len(),
{
    let start = run_end(s, p, CharClass::Space);
    lemma_run_end(s, p, CharClass::Space);
    if start < s.len() {
        let c = s[start];
        lemma_run_end(s, start, CharClass::Name);
        lemma_run_end(s, start, CharClass::Digit);
        lemma_run_end(s, start + 1, CharClass::Unquoted);
        if is_letter(c) {
            assert(in_class(CharClass::Name, s[start]));
            lemma_keyword_or_ident_not_eof(s.subrange(start, run_end(s, start, CharClass::Name)));
        } else if is_digit(c) {
            assert(in_class(CharClass::Digit, s[start]));
        }
    }
}

/// A scanned name is never the end-of-input token.
pub proof fn lemma_keyword_or_ident_not_eof(name: Seq<char>)
    ensures
        !(keyword_or_ident(name) is Eof),
{
}

/// The tokens of `s` from position `p` on, up to the end of the input.
pub open spec fn tokens_from(s: Seq<char>, p: int) -> Seq<TokenModel>
    decreases s.len() - p,
{
    if 0 <= p <= s.len() {
        let (t, q) = token_at(s, p);
        if t is Eof {
            Seq::empty()
        } else {
            proof {
                lemma_token_advances(s, p);
            }
            seq![t] + tokens_from(s, q)
        }
    } else {
        Seq::empty()
    }
}

/// The tokens of a whole text.
pub open spec fn tokens_of(s: Seq<char>) -> Seq<TokenModel> {
    tokens_from(s, 0)
}

/// The token at index `i` of a token sequence, and the end-of-input token
/// behind its end.
pub open spec fn token_or_eof(ts: Seq<TokenModel>, i: int) -> TokenModel {
    if 0 <= i < ts.len() {
        ts[i]
    } else {
        TokenModel::Eof
    }
}

/// Whether an integer literal's value can be held in 64 bits. Every other
/// token fits.
pub open spec fn literal_fits(t: TokenModel) -> bool {
    t is Int ==> t->Int_0 <= i64::MAX
}

/// Whether every integer literal among `ts` can be held in 64 bits.
pub open spec fn literals_fit(ts: Seq<TokenModel>) -> bool {
    forall|i: int| 0 <= i < ts.len() ==> literal_fits(#[trigger] ts[i])
}

/// A lexer over a source text.
#[derive(Debug)]
pub struct Lexer {
    /// The source text, one entry per Unicode scalar value.
    input: Vec<char>,
    /// The position of the next character to look at.
    position: usize,
}

impl View for Lexer {
    type V = Seq<TokenModel>;

    /// The tokens that the lexer has yet to yield.
    closed spec fn view(&self) -> Seq<TokenModel> {
        tokens_from(self.input@, self.position as int)
    }
}

pub fn is_space_char(c: char) -> (r: bool)
    ensures
        r == is_space(c),
{
    c == ' ' || c == '\t' || c == '\n' || c == '\r'
}

pub fn is_letter_char(c: char) -> (r: bool)
    ensures
        r == is_letter(c),
{
    ('a' <= c && c <= 'z') || ('A' <= c && c <= 'Z')
}

pub fn is_digit_char(c: char) -> (r: bool)
    ensures
        r == is_digit(c),
{
    '0' <= c && c <= '9'
}

pub fn char_in_class(k: CharClass, c: char) -> (r: bool)
    ensures
        r == in_class(k, c),
{
    match k {
        CharClass::Space => is_space_char(c),
        CharClass::Name => is_letter_char(c) || is_digit_char(c) || c == '_',
        CharClass::Digit => is_digit_char(c),
        CharClass::Unquoted => c != '"',
    }
}

fn digit_of_char(c: char) -> (d: i64)
    requires
        is_digit(c),
    ensures
        d == digit_value(c),
        0 <= d <= 9,
{
    if c == '0' {
        0
    } else if c == '1' {
        1
    } else if c == '2' {
        2
    } else if c == '3' {
        3
    } else if c == '4' {
        4
    } else if c == '5' {
        5
    } else if c == '6' {
        6
    } else if c == '7' {
        7
    } else if c == '8' {
        8
    } else {
        9
    }
}

/// The characters of a text.
pub fn chars_of(text: &str) -> (chars: Vec<char>)
    ensures
        chars@ == text@,
{
    let mut chars: Vec<char> = Vec::new();
    for c in it: text.chars()
        invariant
            chars@.len() == it.index(),
            it.seq() == text@,
            forall|j: int| 0 <= j < chars@.len() ==> chars@[j] == text@[j],
    {
        chars.push(c);
    }
    assert(chars@ =~= text@);
    chars
}

/// The end of the run of class `k` that starts at `start`.
fn scan_run(input: &Vec<char>, start: usize, k: CharClass) -> (end: usize)
    requires
        start <= input@.len(),
    ensures
        end == run_end(input@, start as int, k),
        start <= end <= input@.len(),
{
    let mut end = start;
    while end < input.len() && char_in_class(k, input[end])
        invariant
            start <= end <= input@.len(),
            run_end(input@, start as int, k) == run_end(input@, end as int, k),
        decreases input@.len() - end,
    {
        end += 1;
    }
    end
}

/// The characters of `input` from `start` up to `end`, as a string.
fn copy_range(input: &Vec<char>, start: usize, end: usize) -> (text: String)
    requires
        start <= end <= input@.len(),
    ensures
        text@ == input@.subrange(start as int, end as int),
{
    let mut text = String::new();
    let mut i = start;
    while i < end
        invariant
            start <= i <= end <= input@.len(),
            text@ == input@.subrange(start as int, i as int),
        decreases end - i,
    {
        push_char(&mut text, input[i]);
        i += 1;
        assert(text@ =~= input@.subrange(start as int, i as int));
    }
    text
}

/// Adding a digit to a numeral multiplies its value by ten and adds the digit.
proof fn lemma_decimal_value_step(s: Seq<char>, start: int, end: int)
    requires
        0 <= start <= end < s.len(),
    ensures
        decimal_value(s.subrange(start, end + 1)) == decimal_value(s.subrange(start, end)) * 10
            + digit_value(s[end]),
{
    let longer = s.subrange(start, end + 1);
    assert(longer.drop_last() =~= s.subrange(start, end));
    assert(longer.last() == s[end]);
}

/// The value of the number whose digits start at `start`, where it can be held
/// in 64 bits, and the position behind its digits.
fn scan_number(input: &Vec<char>, start: usize) -> (r: (Option<i64>, usize))
    requires
        start <= input@.len(),
    ensures
        r.1 == run_end(input@, start as int, CharClass::Digit),
        start <= r.1 <= input@.len(),
        match r.0 {
            Some(v) => v == decimal_value(input@.subrange(start as int, r.1 as int)),
            None => decimal_value(input@.subrange(start as int, r.1 as int)) > i64::MAX,
        },
{
    let mut end = start;
    let mut value: Option<i64> = Some(0);
    assert(input@.subrange(start as int, start as int) =~= Seq::<char>::empty());
    while end < input.len() && is_digit_char(input[end])
        invariant
            start <= end <= input@.len(),
            run_end(input@, start as int, CharClass::Digit) == run_end(
                input@,
                end as int,
                CharClass::Digit,
            ),
            match value {
                Some(v) => 0 <= v && v == decimal_value(input@.subrange(start as int, end as int)),
                None => decimal_value(input@.subrange(start as int, end as int)) > i64::MAX,
            },
        decreases input@.len() - end,
    {
        let d = digit_of_char(input[end]);
        proof {
            lemma_decimal_value_step(input@, start as int, end as int);
        }
        value =
        match value {
            Some(v) => match v.checked_mul(10) {
                Some(m) => m.checked_add(d),
                None => None,
            },
            None => None,
        };
        end += 1;
    }
    (value, end)
}

impl Lexer {
    /// The lexer never stands behind the end of its text.
    pub closed spec fn wf(&self) -> bool {
        self.position <= self.input@.len()
    }

    /// Whether the next token, if it is an integer literal, can be held in 64
    /// bits.
    pub open spec fn next_fits(&self) -> bool {
        literal_fits(token_or_eof(self@, 0))
    }

    /// A lexer at the start of `input`.
    pub fn new(input: &str) -> (lexer: Lexer)
        ensures
            lexer.wf(),
            lexer@ == tokens_of(input@),
    {
        Lexer { input: chars_of(input), position: 0 }
    }

    /// The character under the cursor, if the text has not ended.
    fn ch(&self) -> (c: Option<char>)
        requires
            self.wf(),
        ensures
            c == if self.position < self.input@.len() {
                Some(self.input@[self.position as int])
            } else {
                None::<char>
            },
    {
        if self.position < self.input.len() {
            Some(self.input[self.position])
        } else {
            None
        }
    }

    /// Moves the cursor to the next character, unless the text has ended.
    fn read_char(&mut self)
        requires
            old(self).wf(),
        ensures
            final(self).wf(),
            final(self).input == old(self).input,
            final(self).position == if old(self).position < old(self).input@.len() {
                old(self).position + 1
            } else {
                old(self).position as int
            },
    {
        if self.position < self.input.len() {
            self.position += 1;
        }
    }

    /// The character behind the one under the cursor, if there is one.
    fn peek_char(&self) -> (c: Option<char>)
        requires
            self.wf(),
        ensures
            c == if self.position + 1 < self.input@.len() {
                Some(self.input@[self.position + 1])
            } else {
                None::<char>
            },
    {
        if self.position < self.input.len() && self.position + 1 < self.input.len() {
            Some(self.input[self.position + 1])
        } else {
            None
        }
    }

    /// Reads the name under the cursor and moves behind it.
    fn read_indentifier(&mut self) -> (name: String)
        requires
            old(self).wf(),
        ensures
            final(self).wf(),
            final(self).input == old(self).input,
            final(self).position == run_end(
                old(self).input@,
                old(self).position as int,
                CharClass::Name,
            ),
            name@ == old(self).input@.subrange(
                old(self).position as int,
                final(self).position as int,
            ),
    {
        let start = self.position;
        let end = scan_run(&self.input, start, CharClass::Name);
        self.position = end;
        copy_range(&self.input, start, end)
    }

    /// Reads the number under the cursor and moves behind it. The value is
    /// `None` where it cannot be held in 64 bits.
    fn read_number(&mut self) -> (value: Option<i64>)
        requires
            old(self).wf(),
        ensures
            final(self).wf(),
            final(self).input == old(self).input,
            final(self).position == run_end(
                old(self).input@,
                old(self).position as int,
                CharClass::Digit,
            ),
            match value {
                Some(v) => v == decimal_value(
                    old(self).input@.subrange(
                        old(self).position as int,
                        final(self).position as int,
                    ),
                ),
                None => decimal_value(
                    old(self).input@.subrange(
                        old(self).position as int,
                        final(self).position as int,
                    ),
                ) > i64::MAX,
            },
    {
        let (value, end) = scan_number(&self.input, self.position);
        self.position = end;
        value
    }

    /// Reads the string literal whose opening quote is under the cursor, and
    /// moves behind its closing quote, or to the end of the text where there
    /// is none.
    fn read_string(&mut self) -> (value: String)
        requires
            old(self).wf(),
            old(self).position < old(self).input@.len(),
        ensures
            final(self).wf(),
            final(self).input == old(self).input,
            value@ == old(self).input@.subrange(
                old(self).position + 1,
                run_end(old(self).input@, old(self).position + 1, CharClass::Unquoted),
            ),
            final(self).position == ({
                let end = run_end(old(self).input@, old(self).position + 1, CharClass::Unquoted);
                if end < old(self).input@.len() {
                    end + 1
                } else {
                    end
                }
            }),
    {
        let length = self.input.len();
        assert(self.position < length);
        let start = self.position + 1;
        let end = scan_run(&self.input, start, CharClass::Unquoted);
        let value = copy_range(&self.input, start, end);
        self.position = if end < self.input.len() {
            end + 1
        } else {
            end
        };
        value
    }

    /// Whether the next token, if it is an integer literal, can be held in 64
    /// bits: what `next_token` asks for.
    pub fn next_literal_fits(&self) -> (fits: bool)
        requires
            self.wf(),
        ensures
            fits == self.next_fits(),
    {
        let start = scan_run(&self.input, self.position, CharClass::Space);
        proof {
            lemma_token_advances(self.input@, self.position as int);
            lemma_keyword_or_ident_not_int(
                self.input@.subrange(
                    start as int,
                    run_end(self.input@, start as int, CharClass::Name),
                ),
            );
        }
        if start < self.input.len() && is_digit_char(self.input[start]) {
            let (value, _end) = scan_number(&self.input, start);
            value.is_some()
        } else {
            true
        }
    }

    /// Yields the next token and moves behind it. At the end of the text it
    /// yields the end-of-input token, again and again.
    pub fn next_token(&mut self) -> (token: Token)
        requires
            old(self).wf(),
            old(self).next_fits(),
        ensures
            final(self).wf(),
            token@ == token_or_eof(old(self)@, 0),
            token@ is Eof <==> old(self)@.len() == 0,
            final(self)@ == if old(self)@.len() > 0 {
                old(self)@.skip(1)
            } else {
                old(self)@
            },
    {
        let ghost s = self.input@;
        let ghost p = self.position as int;
        proof {
            lemma_token_advances(s, p);
        }
        // skip the blanks before the token
        self.position = scan_run(&self.input, self.position, CharClass::Space);
        let token = match self.ch() {
            None => {
                proof {
                    lemma_token_advances(s, self.position as int);
                }
                Token::Eof
            },
            Some(c) => {
                if is_letter_char(c) {
                    let name = self.read_indentifier();
                    lookup_ident(name.as_str())
                } else if is_digit_char(c) {
                    match self.read_number() {
                        Some(value) => Token::Int(value),
                        None => {
                            // cannot happen: the number fits, as the caller
                            // has made sure
                            proof {
                                assert(false);
                            }
                            Token::Illegal
                        },
                    }
                } else if c == '"' {
                    Token::String(self.read_string())
                } else if c == '=' {
                    if self.peek_char() == Some('=') {
                        self.read_char();
                        self.read_char();
                        Token::Eq
                    } else {
                        self.read_char();
                        Token::Assign
                    }
                } else if c == '!' {
                    if self.peek_char() == Some('=') {
                        self.read_char();
                        self.read_char();
                        Token::NotEq
                    } else {
                        self.read_char();
                        Token::Bang
                    }
                } else {
                    self.read_char();
                    if c == '+' {
                        Token::Plus
                    } else if c == '-' {
                        Token::Minus
                    } else if c == '/' {
                        Token::Slash
                    } else if c == '*' {
                        Token::Asterisk
                    } else if c == '<' {
                        Token::Lt
                    } else if c == '>' {
                        Token::Gt
                    } else if c == ';' {
                        Token::Semicolon
                    } else if c == ':' {
                        Token::Colon
                    } else if c == ',' {
                        Token::Comma
                    } else if c == '(' {
                        Token::LParen
                    } else if c == ')' {
                        Token::RParen
                    } else if c == '{' {
                        Token::LBrace
                    } else if c == '}' {
                        Token::RBrace
                    } else if c == '[' {
                        Token::LBracket
                    } else if c == ']' {
                        Token::RBracket
                    } else {
                        Token::Illegal
                    }
                }
            },
        };
        proof {
            assert(token@ == token_at(s, p).0);
            assert(self.position as int == token_at(s, p).1);
            if !(token@ is Eof) {
                assert(tokens_from(s, p) == seq![token@] + tokens_from(s, token_at(s, p).1));
                assert(tokens_from(s, p).skip(1) =~= tokens_from(s, token_at(s, p).1));
            }
        }
        token
    }
}

/// A scanned name is never an integer literal.
pub proof fn lemma_keyword_or_ident_not_int(name: Seq<char>)
    ensures
        !(keyword_or_ident(name) is Int),
{
}

/// Whether every integer literal of `input` can be held in 64 bits: what
/// parsing asks of a text.
pub fn literals_in_range(input: &str) -> (ok: bool)
    ensures
        ok == literals_fit(tokens_of(input@)),
{
    let mut lexer = Lexer::new(input);
    loop
        invariant
            lexer.wf(),
            literals_fit(tokens_of(input@)) == literals_fit(lexer@),
        decreases lexer@.len(),
    {
        if !lexer.next_literal_fits() {
            return false;
        }
        let ghost before = lexer@;
        let token = lexer.next_token();
        match token {
            Token::Eof => {
                return true;
            },
            _ => {
                assert(forall|i: int|
                    0 <= i < lexer@.len() ==> #[trigger] lexer@[i] == before[i + 1]);
                assert(literals_fit(before) == literals_fit(lexer@)) by {
                    if literals_fit(lexer@) {
                        assert forall|i: int| 0 <= i < before.len() implies literal_fits(
                            #[trigger] before[i],
                        ) by {
                            if i > 0 {
                                assert(before[i] == lexer@[i - 1]);
                            }
                        }
                    }
                }
            },
        }
    }
}

} // verus!
