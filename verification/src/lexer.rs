//! Lexical analysis: source text to tokens.

use vstd::prelude::*;
use vstd::string::*;
use vstd::std_specs::cmp::PartialEqSpecImpl;
use vstd::std_specs::convert::FromSpecImpl;

verus! {

/// A lexical token.
#[derive(Debug, Clone)]
pub enum Token {
    OpenBrace,
    CloseBrace,
    OpenParen,
    CloseParen,
    Semicolon,
    IntKeyword,
    ReturnKeyword,
    Identifier(String),
    IntegerLiteral(i32),
    Negation,
    BitwiseComplement,
    LogicalNegation,
    Addition,
    Multiplication,
    Division,
    Decrement,
    Remainder,
    BitwiseXor,
    BitwiseAnd,
    BitwiseOr,
    LogicalAnd,
    LogicalOr,
    LeftShift,
    RightShift,
    LessThan,
    GreaterThan,
    LessThanEqual,
    GreaterThanEqual,
    NotEqual,
    Equal,
    Assign,
}

/// The mathematical value of a [`Token`]: an identifier is its sequence of
/// characters.
pub enum TokenView {
    OpenBrace,
    CloseBrace,
    OpenParen,
    CloseParen,
    Semicolon,
    IntKeyword,
    ReturnKeyword,
    Identifier(Seq<char>),
    IntegerLiteral(i32),
    Negation,
    BitwiseComplement,
    LogicalNegation,
    Addition,
    Multiplication,
    Division,
    Decrement,
    Remainder,
    BitwiseXor,
    BitwiseAnd,
    BitwiseOr,
    LogicalAnd,
    LogicalOr,
    LeftShift,
    RightShift,
    LessThan,
    GreaterThan,
    LessThanEqual,
    GreaterThanEqual,
    NotEqual,
    Equal,
    Assign,
}

impl View for Token {
    type V = TokenView;

    open spec fn view(&self) -> TokenView {
        match *self {
            Token::OpenBrace => TokenView::OpenBrace,
            Token::CloseBrace => TokenView::CloseBrace,
            Token::OpenParen => TokenView::OpenParen,
            Token::CloseParen => TokenView::CloseParen,
            Token::Semicolon => TokenView::Semicolon,
            Token::IntKeyword => TokenView::IntKeyword,
            Token::ReturnKeyword => TokenView::ReturnKeyword,
            Token::Identifier(name) => TokenView::Identifier(name@),
            Token::IntegerLiteral(value) => TokenView::IntegerLiteral(value),
            Token::Negation => TokenView::Negation,
            Token::BitwiseComplement => TokenView::BitwiseComplement,
            Token::LogicalNegation => TokenView::LogicalNegation,
            Token::Addition => TokenView::Addition,
            Token::Multiplication => TokenView::Multiplication,
            Token::Division => TokenView::Division,
            Token::Decrement => TokenView::Decrement,
            Token::Remainder => TokenView::Remainder,
            Token::BitwiseXor => TokenView::BitwiseXor,
            Token::BitwiseAnd => TokenView::BitwiseAnd,
            Token::BitwiseOr => TokenView::BitwiseOr,
            Token::LogicalAnd => TokenView::LogicalAnd,
            Token::LogicalOr => TokenView::LogicalOr,
            Token::LeftShift => TokenView::LeftShift,
            Token::RightShift => TokenView::RightShift,
            Token::LessThan => TokenView::LessThan,
            Token::GreaterThan => TokenView::GreaterThan,
            Token::LessThanEqual => TokenView::LessThanEqual,
            Token::GreaterThanEqual => TokenView::GreaterThanEqual,
            Token::NotEqual => TokenView::NotEqual,
            Token::Equal => TokenView::Equal,
            Token::Assign => TokenView::Assign,
        }
    }
}

/// The values of a sequence of tokens.
pub open spec fn token_views(tokens: Seq<Token>) -> Seq<TokenView> {
    tokens.map_values(|t: Token| t@)
}

impl PartialEq for Token {
    /// Two tokens are equal when they are the same kind of token and carry the
    /// same name or number.
    fn eq(&self, other: &Token) -> (equal: bool) {
        match (self, other) {
            (Token::OpenBrace, Token::OpenBrace) => true,
            (Token::CloseBrace, Token::CloseBrace) => true,
            (Token::OpenParen, Token::OpenParen) => true,
            (Token::CloseParen, Token::CloseParen) => true,
            (Token::Semicolon, Token::Semicolon) => true,
            (Token::IntKeyword, Token::IntKeyword) => true,
            (Token::ReturnKeyword, Token::ReturnKeyword) => true,
            (Token::Identifier(a), Token::Identifier(b)) => *a == *b,
            (Token::IntegerLiteral(a), Token::IntegerLiteral(b)) => *a == *b,
            (Token::Negation, Token::Negation) => true,
            (Token::BitwiseComplement, Token::BitwiseComplement) => true,
            (Token::LogicalNegation, Token::LogicalNegation) => true,
            (Token::Addition, Token::Addition) => true,
            (Token::Multiplication, Token::Multiplication) => true,
            (Token::Division, Token::Division) => true,
            (Token::Decrement, Token::Decrement) => true,
            (Token::Remainder, Token::Remainder) => true,
            (Token::BitwiseXor, Token::BitwiseXor) => true,
            (Token::BitwiseAnd, Token::BitwiseAnd) => true,
            (Token::BitwiseOr, Token::BitwiseOr) => true,
            (Token::LogicalAnd, Token::LogicalAnd) => true,
            (Token::LogicalOr, Token::LogicalOr) => true,
            (Token::LeftShift, Token::LeftShift) => true,
            (Token::RightShift, Token::RightShift) => true,
            (Token::LessThan, Token::LessThan) => true,
            (Token::GreaterThan, Token::GreaterThan) => true,
            (Token::LessThanEqual, Token::LessThanEqual) => true,
            (Token::GreaterThanEqual, Token::GreaterThanEqual) => true,
            (Token::NotEqual, Token::NotEqual) => true,
            (Token::Equal, Token::Equal) => true,
            (Token::Assign, Token::Assign) => true,
            _ => false,
        }
    }
}

impl PartialEqSpecImpl for Token {
    open spec fn obeys_eq_spec() -> bool {
        true
    }

    open spec fn eq_spec(&self, other: &Token) -> bool {
        self@ == other@
    }
}

/// Whether `c` is white space: a character with the Unicode property White_Space.
pub open spec fn is_whitespace(c: char) -> bool {
    ||| '\u{9}' <= c <= '\u{d}'
    ||| c == ' '
    ||| c == '\u{85}'
    ||| c == '\u{a0}'
    ||| c == '\u{1680}'
    ||| '\u{2000}' <= c <= '\u{200a}'
    ||| c == '\u{2028}'
    ||| c == '\u{2029}'
    ||| c == '\u{202f}'
    ||| c == '\u{205f}'
    ||| c == '\u{3000}'
}

/// Whether `c` is an ASCII letter.
pub open spec fn is_letter(c: char) -> bool {
    ('a' <= c <= 'z') || ('A' <= c <= 'Z')
}

/// Whether `c` is an ASCII decimal digit.
pub open spec fn is_digit(c: char) -> bool {
    '0' <= c <= '9'
}

/// Whether `c` may continue an identifier: a letter, a digit or an underscore.
pub open spec fn is_word(c: char) -> bool {
    is_letter(c) || is_digit(c) || c == '_'
}

/// The end of the longest run of identifier characters that starts at `i`.
pub open spec fn word_end(s: Seq<char>, i: int) -> int
    decreases s.len() - i,
{
    if 0 <= i < s.len() && is_word(s[i]) {
        word_end(s, i + 1)
    } else {
        i
    }
}

/// The end of the longest run of digits that starts at `i`.
pub open spec fn number_end(s: Seq<char>, i: int) -> int
    decreases s.len() - i,
{
    if 0 <= i < s.len() && is_digit(s[i]) {
        number_end(s, i + 1)
    } else {
        i
    }
}

/// The number that a sequence of digits writes in base ten.
pub open spec fn digits_value(s: Seq<char>) -> nat
    decreases s.len(),
{
    if s.len() == 0 {
        0
    } else {
        digits_value(s.drop_last()) * 10 + (s.last() as int - '0' as int) as nat
    }
}

/// The value of an integer literal: the number it writes, or 0 where that number
/// is too large for an `i32`.
pub open spec fn literal_value(s: Seq<char>) -> i32 {
    if digits_value(s) <= i32::MAX {
        digits_value(s) as i32
    } else {
        0
    }
}

/// The token for a run of identifier characters: a keyword or an identifier.
pub open spec fn word_token(text: Seq<char>) -> TokenView {
    if text == "int"@ {
        TokenView::IntKeyword
    } else if text == "return"@ {
        TokenView::ReturnKeyword
    } else {
        TokenView::Identifier(text)
    }
}

/// Whether a lexeme can start with `c`.
pub open spec fn starts_lexeme(c: char) -> bool {
    ||| is_whitespace(c)
    ||| is_letter(c)
    ||| is_digit(c)
    ||| c == '{' || c == '}' || c == '(' || c == ')' || c == ';'
    ||| c == '-' || c == '&' || c == '<' || c == '>' || c == '=' || c == '|'
    ||| c == '^' || c == '~' || c == '!' || c == '+' || c == '*' || c == '/' || c == '%'
}

/// Whether the character after position `i` is `d`.
pub open spec fn follows(s: Seq<char>, i: int, d: char) -> bool {
    i + 1 < s.len() && s[i + 1] == d
}

/// The token of the lexeme that starts at `i`, or `None` for white space.
pub open spec fn lexeme_token(s: Seq<char>, i: int) -> Option<TokenView>
    recommends
        0 <= i < s.len(),
        starts_lexeme(s[i]),
{
    let c = s[i];
    if is_whitespace(c) {
        None
    } else if c == '{' {
        Some(TokenView::OpenBrace)
    } else if c == '}' {
        Some(TokenView::CloseBrace)
    } else if c == '(' {
        Some(TokenView::OpenParen)
    } else if c == ')' {
        Some(TokenView::CloseParen)
    } else if c == ';' {
        Some(TokenView::Semicolon)
    } else if c == '-' {
        Some(if follows(s, i, '-') { TokenView::Decrement } else { TokenView::Negation })
    } else if c == '&' {
        Some(if follows(s, i, '&') { TokenView::LogicalAnd } else { TokenView::BitwiseAnd })
    } else if c == '<' {
        Some(
            if follows(s, i, '<') {
                TokenView::LeftShift
            } else if follows(s, i, '=') {
                TokenView::LessThanEqual
            } else {
                TokenView::LessThan
            },
        )
    } else if c == '>' {
        Some(
            if follows(s, i, '>') {
                TokenView::RightShift
            } else if follows(s, i, '=') {
                TokenView::GreaterThanEqual
            } else {
                TokenView::GreaterThan
            },
        )
    } else if c == '=' {
        Some(if follows(s, i, '=') { TokenView::Equal } else { TokenView::Assign })
    } else if c == '|' {
        Some(if follows(s, i, '|') { TokenView::LogicalOr } else { TokenView::BitwiseOr })
    } else if c == '^' {
        Some(TokenView::BitwiseXor)
    } else if c == '~' {
        Some(TokenView::BitwiseComplement)
    } else if c == '!' {
        Some(if follows(s, i, '=') { TokenView::NotEqual } else { TokenView::LogicalNegation })
    } else if c == '+' {
        Some(TokenView::Addition)
    } else if c == '*' {
        Some(TokenView::Multiplication)
    } else if c == '/' {
        Some(TokenView::Division)
    } else if c == '%' {
        Some(TokenView::Remainder)
    } else if is_letter(c) {
        Some(word_token(s.subrange(i, word_end(s, i))))
    } else {
        Some(TokenView::IntegerLiteral(literal_value(s.subrange(i, number_end(s, i)))))
    }
}

/// The number of characters in the lexeme that starts at `i`, less one.
pub open spec fn lexeme_tail(s: Seq<char>, i: int) -> nat
    recommends
        0 <= i < s.len(),
        starts_lexeme(s[i]),
{
    let c = s[i];
    if is_letter(c) {
        (word_end(s, i + 1) - (i + 1)) as nat
    } else if is_digit(c) {
        (number_end(s, i + 1) - (i + 1)) as nat
    } else if (c == '-' && follows(s, i, '-')) || (c == '&' && follows(s, i, '&')) || (c == '|' && follows(s, i, '|'))
        || (c == '<' && (follows(s, i, '<') || follows(s, i, '='))) || (c == '>' && (follows(s, i, '>') || follows(s, i, '='))) || (c == '=' && follows(s, i, '=')) || (c == '!' && follows(s, i, '=')) {
        1
    } else {
        0
    }
}

/// The tokens of `s` from position `i` on, or the first character that starts no
/// lexeme, with its position.
pub open spec fn lex_from(s: Seq<char>, i: int) -> Result<Seq<TokenView>, (char, int)>
    decreases
            (if i < s.len() {
                s.len() - i
            } else {
                0
            }),
{
    if i < 0 || i >= s.len() {
        Ok(Seq::empty())
    } else if !starts_lexeme(s[i]) {
        Err((s[i], i))
    } else {
        match lex_from(s, i + 1 + lexeme_tail(s, i)) {
            Ok(rest) => match lexeme_token(s, i) {
                Some(token) => Ok(seq![token] + rest),
                None => Ok(rest),
            },
            Err(e) => Err(e),
        }
    }
}

/// The tokens of a source text.
pub open spec fn lex_spec(s: Seq<char>) -> Result<Seq<TokenView>, (char, int)> {
    lex_from(s, 0)
}

/// The error type of `std::io`, which a caller that reads the source from a file
/// may have to report. Nothing is stated of it: it is only carried.
#[verifier::external_type_specification]
#[verifier::external_body]
pub struct ExIoError(std::io::Error);

/// Why lexing failed.
#[derive(Debug)]
pub enum LexError {
    /// The source could not be read.
    IoError(std::io::Error),
    /// A character that starts no token, with its position, counted in
    /// characters from the start of the source.
    UnknownToken(char, usize),
}

impl From<std::io::Error> for LexError {
    /// The error for a source that could not be read.
    fn from(e: std::io::Error) -> (error: LexError) {
        LexError::IoError(e)
    }
}

impl FromSpecImpl<std::io::Error> for LexError {
    open spec fn obeys_from_spec() -> bool {
        true
    }

    open spec fn from_spec(e: std::io::Error) -> LexError {
        LexError::IoError(e)
    }
}

/// The prefix `acc` put in front of the tokens of a result.
pub open spec fn prefixed(acc: Seq<TokenView>, rest: Result<Seq<TokenView>, (char, int)>) -> Result<
    Seq<TokenView>,
    (char, int),
> {
    match rest {
        Ok(tokens) => Ok(acc + tokens),
        Err(e) => Err(e),
    }
}

/// A run of identifier characters that cannot be extended ends where `word_end`
/// says.
pub proof fn lemma_word_end(s: Seq<char>, start: int, end: int)
    requires
        0 <= start <= end <= s.len(),
        forall|j: int| start <= j < end ==> is_word(#[trigger] s[j]),
        end < s.len() ==> !is_word(s[end]),
    ensures
        word_end(s, start) == end,
    decreases end - start,
{
    if start < end {
        lemma_word_end(s, start + 1, end);
    }
}

/// A run of digits that cannot be extended ends where `number_end` says.
pub proof fn lemma_number_end(s: Seq<char>, start: int, end: int)
    requires
        0 <= start <= end <= s.len(),
        forall|j: int| start <= j < end ==> is_digit(#[trigger] s[j]),
        end < s.len() ==> !is_digit(s[end]),
    ensures
        number_end(s, start) == end,
    decreases end - start,
{
    if start < end {
        lemma_number_end(s, start + 1, end);
    }
}

/// Whether `c` is white space.
fn whitespace(c: char) -> (b: bool)
    ensures
        b == is_whitespace(c),
{
    (c >= '\u{9}' && c <= '\u{d}') || c == ' ' || c == '\u{85}' || c == '\u{a0}' || c
        == '\u{1680}' || (c >= '\u{2000}' && c <= '\u{200a}') || c == '\u{2028}' || c
        == '\u{2029}' || c == '\u{202f}' || c == '\u{205f}' || c == '\u{3000}'
}

/// Whether `c` is an ASCII letter.
fn letter(c: char) -> (b: bool)
    ensures
        b == is_letter(c),
{
    (c >= 'a' && c <= 'z') || (c >= 'A' && c <= 'Z')
}

/// Whether `c` is an ASCII decimal digit.
fn digit(c: char) -> (b: bool)
    ensures
        b == is_digit(c),
{
    c >= '0' && c <= '9'
}

/// Whether `c` may continue an identifier.
fn word(c: char) -> (b: bool)
    ensures
        b == is_word(c),
{
    letter(c) || digit(c) || c == '_'
}

/// Returns where the longest run of characters that satisfy `predicate` ends, for
/// the run that starts at `start`.
pub fn consume_while<F: Fn(char) -> bool>(chars: &Vec<char>, start: usize, predicate: F) -> (end:
    usize)
    requires
        start <= chars.len(),
        forall|c: char| predicate.requires((c,)),
    ensures
        start <= end <= chars.len(),
        forall|j: int| start <= j < end ==> predicate.ensures((#[trigger] chars[j],), true),
        end < chars.len() ==> predicate.ensures((chars[end as int],), false),
{
    let mut end: usize = start;
    while end < chars.len()
        invariant
            start <= end <= chars.len(),
            forall|c: char| predicate.requires((c,)),
            forall|j: int| start <= j < end ==> predicate.ensures((#[trigger] chars[j],), true),
        decreases chars.len() - end,
    {
        if predicate(chars[end]) {
            end = end + 1;
        } else {
            return end;
        }
    }
    end
}

/// Reads the digits in `chars[start..end]` as an integer literal.
fn read_literal(chars: &Vec<char>, start: usize, end: usize) -> (value: i32)
    requires
        start <= end <= chars.len(),
        forall|j: int| start <= j < end ==> is_digit(#[trigger] chars[j]),
    ensures
        value == literal_value(chars@.subrange(start as int, end as int)),
{
    let mut value: i32 = 0;
    let mut fits: bool = true;
    let mut j: usize = start;
    while j < end
        invariant
            start <= j <= end <= chars.len(),
            forall|k: int| start <= k < end ==> is_digit(#[trigger] chars[k]),
            0 <= value,
            fits ==> value == digits_value(chars@.subrange(start as int, j as int)),
            !fits ==> digits_value(chars@.subrange(start as int, j as int)) > i32::MAX,
        decreases end - j,
    {
        let d: i32 = (chars[j] as u32 - '0' as u32) as i32;
        proof {
            let longer = chars@.subrange(start as int, j + 1);
            assert(longer.drop_last() =~= chars@.subrange(start as int, j as int));
            assert(longer.last() == chars[j as int]);
            assert(is_digit(chars[j as int]));
        }
        if fits {
            if value > (i32::MAX - d) / 10 {
                fits = false;
            } else {
                value = value * 10 + d;
            }
        }
        j = j + 1;
    }
    if fits {
        value
    } else {
        0
    }
}

/// Whether the character after position `pos` is `d`.
fn next_is(chars: &Vec<char>, pos: usize, d: char) -> (b: bool)
    requires
        pos < chars.len(),
    ensures
        b == follows(chars@, pos as int, d),
{
    pos + 1 < chars.len() && chars[pos + 1] == d
}

/// Reads the lexeme that starts at `pos`: its token, unless it is white space,
/// and the position after it. `None` where no lexeme starts with that character.
fn read_lexeme(source: &str, chars: &Vec<char>, pos: usize) -> (lexeme: Option<
    (Option<Token>, usize),
>)
    requires
        chars@ == source@,
        pos < chars.len(),
    ensures
        lexeme is Some <==> starts_lexeme(chars[pos as int]),
        lexeme matches Some((token, next)) ==> {
            &&& next == pos + 1 + lexeme_tail(chars@, pos as int)
            &&& next <= chars.len()
            &&& match token {
                Some(t) => lexeme_token(chars@, pos as int) == Some(t@),
                None => lexeme_token(chars@, pos as int) is None,
            }
        },
{
    let c = chars[pos];
    if whitespace(c) {
        Some((None, pos + 1))
    } else if c == '{' {
        Some((Some(Token::OpenBrace), pos + 1))
    } else if c == '}' {
        Some((Some(Token::CloseBrace), pos + 1))
    } else if c == '(' {
        Some((Some(Token::OpenParen), pos + 1))
    } else if c == ')' {
        Some((Some(Token::CloseParen), pos + 1))
    } else if c == ';' {
        Some((Some(Token::Semicolon), pos + 1))
    } else if c == '-' {
        if next_is(chars, pos, '-') {
            Some((Some(Token::Decrement), pos + 2))
        } else {
            Some((Some(Token::Negation), pos + 1))
        }
    } else if c == '&' {
        if next_is(chars, pos, '&') {
            Some((Some(Token::LogicalAnd), pos + 2))
        } else {
            Some((Some(Token::BitwiseAnd), pos + 1))
        }
    } else if c == '<' {
        if next_is(chars, pos, '<') {
            Some((Some(Token::LeftShift), pos + 2))
        } else if next_is(chars, pos, '=') {
            Some((Some(Token::LessThanEqual), pos + 2))
        } else {
            Some((Some(Token::LessThan), pos + 1))
        }
    } else if c == '>' {
        if next_is(chars, pos, '>') {
            Some((Some(Token::RightShift), pos + 2))
        } else if next_is(chars, pos, '=') {
            Some((Some(Token::GreaterThanEqual), pos + 2))
        } else {
            Some((Some(Token::GreaterThan), pos + 1))
        }
    } else if c == '=' {
        if next_is(chars, pos, '=') {
            Some((Some(Token::Equal), pos + 2))
        } else {
            Some((Some(Token::Assign), pos + 1))
        }
    } else if c == '|' {
        if next_is(chars, pos, '|') {
            Some((Some(Token::LogicalOr), pos + 2))
        } else {
            Some((Some(Token::BitwiseOr), pos + 1))
        }
    } else if c == '^' {
        Some((Some(Token::BitwiseXor), pos + 1))
    } else if c == '~' {
        Some((Some(Token::BitwiseComplement), pos + 1))
    } else if c == '!' {
        if next_is(chars, pos, '=') {
            Some((Some(Token::NotEqual), pos + 2))
        } else {
            Some((Some(Token::LogicalNegation), pos + 1))
        }
    } else if c == '+' {
        Some((Some(Token::Addition), pos + 1))
    } else if c == '*' {
        Some((Some(Token::Multiplication), pos + 1))
    } else if c == '/' {
        Some((Some(Token::Division), pos + 1))
    } else if c == '%' {
        Some((Some(Token::Remainder), pos + 1))
    } else if letter(c) {
        let end = consume_while(
            chars,
            pos,
            word,
        );
        proof {
            lemma_word_end(chars@, pos as int, end as int);
        }
        let text = String::from_str(source.substring_char(pos, end));
        let token = if text == String::from_str("int") {
            Token::IntKeyword
        } else if text == String::from_str("return") {
            Token::ReturnKeyword
        } else {
            Token::Identifier(text)
        };
        Some((Some(token), end))
    } else if digit(c) {
        let end = consume_while(
            chars,
            pos,
            digit,
        );
        proof {
            lemma_number_end(chars@, pos as int, end as int);
        }
        Some((Some(Token::IntegerLiteral(read_literal(chars, pos, end))), end))
    } else {
        None
    }
}

/// Splits a source text into tokens.
///
/// White space separates tokens and is dropped. A letter starts a keyword or an
/// identifier, which runs on over letters, digits and underscores; a digit starts
/// an integer literal, which runs on over digits. The operators of two characters
/// are preferred to those of one. The first character that starts none of these
/// ends the lexing with `LexError::UnknownToken`.
pub fn lex(source: &str) -> (result: Result<Vec<Token>, LexError>)
    ensures
        match lex_spec(source@) {
            Ok(tokens) => result matches Ok(found) && token_views(found@) == tokens,
            Err((c, pos)) => result matches Err(LexError::UnknownToken(d, at)) && d == c && at
                == pos,
        },
{
    let mut chars: Vec<char> = Vec::new();
    for c in it: source.chars()
        invariant
            it.seq() == source@,
            chars@ == it.seq().subrange(0, it.index() as int),
    {
        chars.push(c);
        assert(chars@ =~= it.seq().subrange(0, it.index() + 1));
    }
    assert(chars@ =~= source@);
    let mut tokens: Vec<Token> = Vec::new();
    let mut pos: usize = 0;
    assert(token_views(tokens@) =~= Seq::empty());
    assert(prefixed(Seq::empty(), lex_from(chars@, 0)) == lex_from(chars@, 0)) by {
        match lex_from(chars@, 0) {
            Ok(rest) => {
                assert(Seq::<TokenView>::empty() + rest =~= rest);
            },
            Err(_) => {},
        }
    }
    while pos < chars.len()
        invariant
            chars@ == source@,
            pos <= chars.len(),
            lex_from(chars@, 0) == prefixed(token_views(tokens@), lex_from(chars@, pos as int)),
        decreases chars.len() - pos,
    {
        let ghost seen = token_views(tokens@);
        match read_lexeme(source, &chars, pos) {
            None => {
                return Err(LexError::UnknownToken(chars[pos], pos));
            },
            Some((token, next)) => {
                match token {
                    Some(t) => {
                        tokens.push(t);
                        proof {
                            assert(token_views(tokens@) =~= seen.push(t@));
                            match lex_from(chars@, next as int) {
                                Ok(rest) => {
                                    assert(seen.push(t@) + rest =~= seen + (seq![t@] + rest));
                                },
                                Err(_) => {},
                            }
                        }
                    },
                    None => {},
                }
                pos = next;
            },
        }
    }
    assert(token_views(tokens@) + Seq::empty() =~= token_views(tokens@));
    Ok(tokens)
}

/// The text that `std`'s `Debug` formatting gives for a string: the string between
/// double quotes, with the characters that need it escaped.
pub uninterp spec fn debug_quoted(s: Seq<char>) -> Seq<char>;

/// Formats a string with `std`'s `Debug` formatting for `str`, by `format!("{:?}", ..)`.
/// The result is a function of the string's characters alone; nothing more is
/// claimed of it here.
#[verifier::external_body]
fn quote(s: &str) -> (quoted: String)
    ensures
        quoted@ == debug_quoted(s@),
{
    format!("{:?}", s)
}

/// The name of a token's kind, followed, where the token carries a name or a
/// number, by that value in parentheses: a number in decimal, a name as
/// `debug_quoted` gives it.
pub open spec fn token_text(token: TokenView) -> Seq<char> {
    match token {
        TokenView::Identifier(name) => identifier_text_spec(debug_quoted(name)),
        TokenView::IntegerLiteral(value) => "IntegerLiteral("@ + crate::text::decimal(value as int)
            + ")"@,
        TokenView::OpenBrace => "OpenBrace"@,
        TokenView::CloseBrace => "CloseBrace"@,
        TokenView::OpenParen => "OpenParen"@,
        TokenView::CloseParen => "CloseParen"@,
        TokenView::Semicolon => "Semicolon"@,
        TokenView::IntKeyword => "IntKeyword"@,
        TokenView::ReturnKeyword => "ReturnKeyword"@,
        TokenView::Negation => "Negation"@,
        TokenView::BitwiseComplement => "BitwiseComplement"@,
        TokenView::LogicalNegation => "LogicalNegation"@,
        TokenView::Addition => "Addition"@,
        TokenView::Multiplication => "Multiplication"@,
        TokenView::Division => "Division"@,
        TokenView::Decrement => "Decrement"@,
        TokenView::Remainder => "Remainder"@,
        TokenView::BitwiseXor => "BitwiseXor"@,
        TokenView::BitwiseAnd => "BitwiseAnd"@,
        TokenView::BitwiseOr => "BitwiseOr"@,
        TokenView::LogicalAnd => "LogicalAnd"@,
        TokenView::LogicalOr => "LogicalOr"@,
        TokenView::LeftShift => "LeftShift"@,
        TokenView::RightShift => "RightShift"@,
        TokenView::LessThan => "LessThan"@,
        TokenView::GreaterThan => "GreaterThan"@,
        TokenView::LessThanEqual => "LessThanEqual"@,
        TokenView::GreaterThanEqual => "GreaterThanEqual"@,
        TokenView::NotEqual => "NotEqual"@,
        TokenView::Equal => "Equal"@,
        TokenView::Assign => "Assign"@,
    }
}

/// The text of an identifier token whose quoted name is `quoted`.
pub open spec fn identifier_text_spec(quoted: Seq<char>) -> Seq<char> {
    "Identifier("@ + quoted + ")"@
}

/// Builds the text of an identifier token from its quoted name.
pub fn identifier_text(quoted: &str) -> (text: String)
    ensures
        text@ == identifier_text_spec(quoted@),
{
    let mut text = String::from_str("Identifier(");
    text.append(quoted);
    text.append(")");
    text
}

impl Token {
    /// The text that describes the token in an error.
    pub fn describe(&self) -> (text: String)
        ensures
            text@ == token_text(self@),
    {
        match self {
            Token::Identifier(name) => {
                let quoted = quote(name.as_str());
                identifier_text(quoted.as_str())
            },
            Token::IntegerLiteral(value) => {
                let mut text = String::from_str("IntegerLiteral(");
                crate::text::push_decimal(&mut text, *value);
                text.append(")");
                text
            },
            Token::OpenBrace => String::from_str("OpenBrace"),
            Token::CloseBrace => String::from_str("CloseBrace"),
            Token::OpenParen => String::from_str("OpenParen"),
            Token::CloseParen => String::from_str("CloseParen"),
            Token::Semicolon => String::from_str("Semicolon"),
            Token::IntKeyword => String::from_str("IntKeyword"),
            Token::ReturnKeyword => String::from_str("ReturnKeyword"),
            Token::Negation => String::from_str("Negation"),
            Token::BitwiseComplement => String::from_str("BitwiseComplement"),
            Token::LogicalNegation => String::from_str("LogicalNegation"),
            Token::Addition => String::from_str("Addition"),
            Token::Multiplication => String::from_str("Multiplication"),
            Token::Division => String::from_str("Division"),
            Token::Decrement => String::from_str("Decrement"),
            Token::Remainder => String::from_str("Remainder"),
            Token::BitwiseXor => String::from_str("BitwiseXor"),
            Token::BitwiseAnd => String::from_str("BitwiseAnd"),
            Token::BitwiseOr => String::from_str("BitwiseOr"),
            Token::LogicalAnd => String::from_str("LogicalAnd"),
            Token::LogicalOr => String::from_str("LogicalOr"),
            Token::LeftShift => String::from_str("LeftShift"),
            Token::RightShift => String::from_str("RightShift"),
            Token::LessThan => String::from_str("LessThan"),
            Token::GreaterThan => String::from_str("GreaterThan"),
            Token::LessThanEqual => String::from_str("LessThanEqual"),
            Token::GreaterThanEqual => String::from_str("GreaterThanEqual"),
            Token::NotEqual => String::from_str("NotEqual"),
            Token::Equal => String::from_str("Equal"),
            Token::Assign => String::from_str("Assign"),
        }
    }
}

} // verus!
