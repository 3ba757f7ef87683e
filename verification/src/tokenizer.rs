//! The position-tracking lexer: source text is first spread into a sequence
//! of positioned characters (row and column, both 1-based), and the lexer
//! then produces one positioned token or one positioned error per call,
//! consuming characters forward with at most one character of lookahead.
//!
//! The whole lexer is specified by the recursive functions [`next_lex`] and
//! [`lex_all`] over sequences of positioned characters; every executable
//! function here is proved to agree with them exactly.

use vstd::prelude::*;

use crate::cursor::Cursor;
use crate::error::{CompileError, CompileErrorEnum, SpecError, SpecErrorKind};
use crate::text::{chars_eq_str, chars_to_string};

verus! {

/// A closed set of token kinds: keywords, chain operators, arithmetic and
/// comparison operators, punctuation, and literals.
///
/// A float literal carries its source text (the digits with the one decimal
/// point), so that no precision is lost and any consumer may interpret it.
#[derive(Debug, Clone, PartialEq)]
pub enum TokenEnum {
    KWFunc,
    KWData,
    KWUsing,
    KWObject,
    KWEnum,
    KWRef,
    KWMut,
    KWPub,
    /// `|?`
    PipeMatch,
    /// `|>`
    PipeNext,
    /// `|=`
    PipeSet,
    /// `|!`
    PipeError,
    /// `|.`
    PipeReturn,
    /// `\?`
    PipeMatchEnd,
    LessThen,
    GreaterThen,
    Plus,
    Minus,
    Times,
    Divide,
    Power,
    Modulo,
    /// `->`
    Arrow,
    /// `||`
    Or,
    OpenBrace,
    CloseBrace,
    OpenCurlyBrace,
    CloseCurlyBrace,
    DoubleColon,
    Colon,
    SemiColon,
    Period,
    Comma,
    Identifier(String),
    Bool(bool),
    Integer(i128),
    Float(String),
    String(String),
}

/// The mathematical model of a token kind: literal payloads are sequences
/// of characters or unbounded integers.
pub enum TokenKind {
    KWFunc,
    KWData,
    KWUsing,
    KWObject,
    KWEnum,
    KWRef,
    KWMut,
    KWPub,
    PipeMatch,
    PipeNext,
    PipeSet,
    PipeError,
    PipeReturn,
    PipeMatchEnd,
    LessThen,
    GreaterThen,
    Plus,
    Minus,
    Times,
    Divide,
    Power,
    Modulo,
    Arrow,
    Or,
    OpenBrace,
    CloseBrace,
    OpenCurlyBrace,
    CloseCurlyBrace,
    DoubleColon,
    Colon,
    SemiColon,
    Period,
    Comma,
    Identifier(Seq<char>),
    Bool(bool),
    Integer(int),
    Float(Seq<char>),
    String(Seq<char>),
}

impl View for TokenEnum {
    type V = TokenKind;

    open spec fn view(&self) -> TokenKind {
        match self {
            TokenEnum::KWFunc => TokenKind::KWFunc,
            TokenEnum::KWData => TokenKind::KWData,
            TokenEnum::KWUsing => TokenKind::KWUsing,
            TokenEnum::KWObject => TokenKind::KWObject,
            TokenEnum::KWEnum => TokenKind::KWEnum,
            TokenEnum::KWRef => TokenKind::KWRef,
            TokenEnum::KWMut => TokenKind::KWMut,
            TokenEnum::KWPub => TokenKind::KWPub,
            TokenEnum::PipeMatch => TokenKind::PipeMatch,
            TokenEnum::PipeNext => TokenKind::PipeNext,
            TokenEnum::PipeSet => TokenKind::PipeSet,
            TokenEnum::PipeError => TokenKind::PipeError,
            TokenEnum::PipeReturn => TokenKind::PipeReturn,
            TokenEnum::PipeMatchEnd => TokenKind::PipeMatchEnd,
            TokenEnum::LessThen => TokenKind::LessThen,
            TokenEnum::GreaterThen => TokenKind::GreaterThen,
            TokenEnum::Plus => TokenKind::Plus,
            TokenEnum::Minus => TokenKind::Minus,
            TokenEnum::Times => TokenKind::Times,
            TokenEnum::Divide => TokenKind::Divide,
            TokenEnum::Power => TokenKind::Power,
            TokenEnum::Modulo => TokenKind::Modulo,
            TokenEnum::Arrow => TokenKind::Arrow,
            TokenEnum::Or => TokenKind::Or,
            TokenEnum::OpenBrace => TokenKind::OpenBrace,
            TokenEnum::CloseBrace => TokenKind::CloseBrace,
            TokenEnum::OpenCurlyBrace => TokenKind::OpenCurlyBrace,
            TokenEnum::CloseCurlyBrace => TokenKind::CloseCurlyBrace,
            TokenEnum::DoubleColon => TokenKind::DoubleColon,
            TokenEnum::Colon => TokenKind::Colon,
            TokenEnum::SemiColon => TokenKind::SemiColon,
            TokenEnum::Period => TokenKind::Period,
            TokenEnum::Comma => TokenKind::Comma,
            TokenEnum::Identifier(s) => TokenKind::Identifier(s@),
            TokenEnum::Bool(b) => TokenKind::Bool(*b),
            TokenEnum::Integer(v) => TokenKind::Integer(*v as int),
            TokenEnum::Float(s) => TokenKind::Float(s@),
            TokenEnum::String(s) => TokenKind::String(s@),
        }
    }
}

/// A positioned token: `row` and `column` (1-based) identify the first
/// character of the lexeme.
#[derive(Debug, Clone, PartialEq)]
pub struct Token {
    pub row: usize,
    pub column: usize,
    pub token: TokenEnum,
}

/// The mathematical model of a positioned token.
pub struct SpecToken {
    pub row: int,
    pub column: int,
    pub token: TokenKind,
}

impl View for Token {
    type V = SpecToken;

    open spec fn view(&self) -> SpecToken {
        SpecToken { row: self.row as int, column: self.column as int, token: self.token@ }
    }
}

/// One positioned character of the source text.
#[derive(Debug, Clone, Copy, PartialEq, Eq, Structural)]
pub struct TokenIterItem {
    pub ch: char,
    pub row: usize,
    pub column: usize,
}

/// The row (1-based) of the character at position `i` of a text: one more
/// than the number of line breaks before it.
pub open spec fn row_at(s: Seq<char>, i: int) -> int
    decreases i,
{
    if i <= 0 {
        1
    } else {
        row_at(s, i - 1) + if s[i - 1] == '\n' {
            1int
        } else {
            0int
        }
    }
}

/// The column (1-based) of the character at position `i` of a text: it
/// counts from the start of the text or from the last line break.
pub open spec fn col_at(s: Seq<char>, i: int) -> int
    decreases i,
{
    if i <= 0 {
        1
    } else if s[i - 1] == '\n' {
        1
    } else {
        col_at(s, i - 1) + 1
    }
}

/// Rows never decrease along the text, and the column resets to 1 right
/// after a line break and otherwise grows by 1: the position enumeration is
/// monotone.
pub proof fn lemma_positions_monotone(s: Seq<char>, i: int)
    requires
        i >= 0,
    ensures
        row_at(s, i + 1) >= row_at(s, i),
        1 <= col_at(s, i),
        1 <= row_at(s, i),
    decreases i,
{
    if i > 0 {
        lemma_positions_monotone(s, i - 1);
    }
}

/// Whether the position `(r1, c1)` comes no later than `(r2, c2)`: on an
/// earlier row, or on the same row at no later a column.
pub open spec fn pos_le(r1: int, c1: int, r2: int, c2: int) -> bool {
    r1 < r2 || (r1 == r2 && c1 <= c2)
}

/// The position enumeration never moves backwards: the position assigned to
/// a later character never precedes that of an earlier one. Every token's
/// row and column come from this enumeration, so the positions of the
/// produced tokens never decrease along the input.
pub proof fn lemma_enumeration_monotone(s: Seq<char>, i: int, j: int)
    requires
        0 <= i <= j,
    ensures
        pos_le(row_at(s, i), col_at(s, i), row_at(s, j), col_at(s, j)),
    decreases j - i,
{
    if i < j {
        lemma_enumeration_monotone(s, i, j - 1);
        lemma_positions_monotone(s, j - 1);
    }
}

/// Whether `c` is whitespace (the Unicode `White_Space` set).
pub open spec fn is_space(c: char) -> bool {
    let u = c as u32;
    ||| (9 <= u <= 13)
    ||| u == 32
    ||| u == 133
    ||| u == 160
    ||| u == 0x1680
    ||| (0x2000 <= u <= 0x200A)
    ||| u == 0x2028
    ||| u == 0x2029
    ||| u == 0x202F
    ||| u == 0x205F
    ||| u == 0x3000
}

/// Whether `c` is an ASCII decimal digit.
pub open spec fn is_digit(c: char) -> bool {
    48 <= c as u32 <= 57
}

/// Whether `c` may start an identifier: an ASCII letter or an underscore.
pub open spec fn is_ident_start(c: char) -> bool {
    let u = c as u32;
    ||| (65 <= u <= 90)
    ||| (97 <= u <= 122)
    ||| u == 95
}

/// Whether `c` may continue an identifier.
pub open spec fn is_ident_char(c: char) -> bool {
    is_ident_start(c) || is_digit(c)
}

/// Executable test for [`is_space`].
pub fn is_space_char(c: char) -> (r: bool)
    ensures
        r == is_space(c),
{
    let u = c as u32;
    (9 <= u && u <= 13) || u == 32 || u == 133 || u == 160 || u == 0x1680 || (0x2000 <= u && u
        <= 0x200A) || u == 0x2028 || u == 0x2029 || u == 0x202F || u == 0x205F || u == 0x3000
}

/// Executable test for [`is_digit`].
pub fn is_digit_char(c: char) -> (r: bool)
    ensures
        r == is_digit(c),
{
    let u = c as u32;
    48 <= u && u <= 57
}

/// Executable test for [`is_ident_start`].
pub fn is_ident_start_char(c: char) -> (r: bool)
    ensures
        r == is_ident_start(c),
{
    let u = c as u32;
    (65 <= u && u <= 90) || (97 <= u && u <= 122) || u == 95
}

/// Executable test for [`is_ident_char`].
pub fn is_ident_char_char(c: char) -> (r: bool)
    ensures
        r == is_ident_char(c),
{
    is_ident_start_char(c) || is_digit_char(c)
}


/// Spreads source text into positioned characters: item `i` carries the
/// `i`-th character of the text and its 1-based row and column, computed by
/// scanning the whole stream with a counter that steps per character and
/// resets at every line break.
pub fn scan(source_code: &str) -> (items: Vec<TokenIterItem>)
    requires
        source_code@.len() < usize::MAX,
    ensures
        items@.len() == source_code@.len(),
        forall|i: int|
            0 <= i < items@.len() ==> {
                &&& (#[trigger] items@[i]).ch == source_code@[i]
                &&& items@[i].row as int == row_at(source_code@, i)
                &&& items@[i].column as int == col_at(source_code@, i)
            },
{
    let n = source_code.unicode_len();
    let mut items: Vec<TokenIterItem> = Vec::new();
    let mut row: usize = 1;
    let mut column: usize = 1;
    let mut i: usize = 0;
    while i < n
        invariant
            0 <= i <= n,
            n == source_code@.len() < usize::MAX,
            items@.len() == i,
            row as int == row_at(source_code@, i as int),
            column as int == col_at(source_code@, i as int),
            row <= i + 1,
            column <= i + 1,
            forall|k: int|
                0 <= k < i ==> {
                    &&& (#[trigger] items@[k]).ch == source_code@[k]
                    &&& items@[k].row as int == row_at(source_code@, k)
                    &&& items@[k].column as int == col_at(source_code@, k)
                },
        decreases n - i,
    {
        let c = source_code.get_char(i);
        items.push(TokenIterItem { ch: c, row, column });
        if c == '\n' {
            row = row + 1;
            column = 1;
        } else {
            column = column + 1;
        }
        i += 1;
    }
    items
}

/// The number of leading identifier characters.
pub open spec fn ident_len(s: Seq<TokenIterItem>) -> nat
    decreases s.len(),
{
    if s.len() > 0 && is_ident_char(s[0].ch) {
        1 + ident_len(s.skip(1))
    } else {
        0
    }
}

/// The characters of the first `n` items.
pub open spec fn chars_of(s: Seq<TokenIterItem>, n: nat) -> Seq<char> {
    Seq::new(n, |i: int| s[i].ch)
}

/// The keyword table: the words that lex as keywords or boolean literals;
/// any other word is an identifier.
pub open spec fn keyword_kind(w: Seq<char>) -> TokenKind {
    if w == "data"@ {
        TokenKind::KWData
    } else if w == "func"@ {
        TokenKind::KWFunc
    } else if w == "using"@ {
        TokenKind::KWUsing
    } else if w == "object"@ {
        TokenKind::KWObject
    } else if w == "enum"@ {
        TokenKind::KWEnum
    } else if w == "ref"@ {
        TokenKind::KWRef
    } else if w == "mut"@ {
        TokenKind::KWMut
    } else if w == "true"@ {
        TokenKind::Bool(true)
    } else if w == "false"@ {
        TokenKind::Bool(false)
    } else {
        TokenKind::Identifier(w)
    }
}

/// The number of leading numeric-literal characters: digits, and at most
/// one decimal point (`seen` records whether one was consumed already); a
/// second point is left for the next token.
pub open spec fn num_len(s: Seq<TokenIterItem>, seen: bool) -> nat
    decreases s.len(),
{
    if s.len() == 0 {
        0
    } else if is_digit(s[0].ch) {
        1 + num_len(s.skip(1), seen)
    } else if s[0].ch == '.' && !seen {
        1 + num_len(s.skip(1), true)
    } else {
        0
    }
}

/// Whether a lexeme holds a decimal point.
pub open spec fn has_dot(w: Seq<char>) -> bool {
    exists|i: int| 0 <= i < w.len() && w[i] == '.'
}

/// The value of a run of decimal digits.
pub open spec fn digits_val(w: Seq<char>) -> int
    decreases w.len(),
{
    if w.len() == 0 {
        0
    } else {
        digits_val(w.drop_last()) * 10 + (w.last() as u32 - 48)
    }
}

/// Scans a string literal body: the content gathered up to the closing
/// quote, the number of items consumed (closing quote included), and whether
/// the closing quote was found at all. A backslash escapes the next
/// character, which is taken verbatim.
pub open spec fn str_scan(s: Seq<TokenIterItem>, escape: bool) -> (Seq<char>, nat, bool)
    decreases s.len(),
{
    if s.len() == 0 {
        (Seq::empty(), 0, false)
    } else if escape {
        let (cs, n, cl) = str_scan(s.skip(1), false);
        (seq![s[0].ch] + cs, n + 1, cl)
    } else if s[0].ch == '\\' {
        let (cs, n, cl) = str_scan(s.skip(1), true);
        (cs, n + 1, cl)
    } else if s[0].ch == '"' {
        (Seq::empty(), 1, true)
    } else {
        let (cs, n, cl) = str_scan(s.skip(1), false);
        (seq![s[0].ch] + cs, n + 1, cl)
    }
}

/// The number of leading items before a line break.
pub open spec fn to_newline(s: Seq<TokenIterItem>) -> nat
    decreases s.len(),
{
    if s.len() == 0 || s[0].ch == '\n' {
        0
    } else {
        1 + to_newline(s.skip(1))
    }
}

/// No more items lie before a line break than there are items.
pub proof fn lemma_to_newline_bound(s: Seq<TokenIterItem>)
    ensures
        to_newline(s) <= s.len(),
    decreases s.len(),
{
    if s.len() > 0 && s[0].ch != '\n' {
        lemma_to_newline_bound(s.skip(1));
    }
}

/// A positioned error at item `it`.
pub open spec fn err_at(it: TokenIterItem, kind: SpecErrorKind) -> SpecError {
    SpecError { row: it.row as int, column: it.column as int, error: kind }
}

/// A positioned token at item `it`.
pub open spec fn tok_at(it: TokenIterItem, kind: TokenKind) -> SpecToken {
    SpecToken { row: it.row as int, column: it.column as int, token: kind }
}

/// The diagnostic description of an unexpected character.
pub open spec fn unexpected_desc(c: char) -> Seq<char> {
    "Unexpected character '"@ + seq![c] + seq!['\'']
}

/// The diagnostic description of input that ends right after a `|`.
pub open spec fn pipe_eof_desc() -> Seq<char> {
    "Expected '>', '=', '?', '!', '.' or '|', found end of input"@
}

/// The diagnostic description of input that ends right after a backslash.
pub open spec fn ends_eof_desc() -> Seq<char> {
    "Expected '?', found end of input"@
}

/// The diagnostic description of an integer literal beyond 128 bits.
pub open spec fn int_range_desc() -> Seq<char> {
    "Integer literal too large for 128 bits"@
}

/// The chain operator selected by the character after a `|`, if any.
pub open spec fn pipe_kind(c: char) -> Option<TokenKind> {
    if c == '>' {
        Some(TokenKind::PipeNext)
    } else if c == '=' {
        Some(TokenKind::PipeSet)
    } else if c == '?' {
        Some(TokenKind::PipeMatch)
    } else if c == '!' {
        Some(TokenKind::PipeError)
    } else if c == '.' {
        Some(TokenKind::PipeReturn)
    } else if c == '|' {
        Some(TokenKind::Or)
    } else {
        None
    }
}

/// The token kind of a single-character punctuation or operator, if the
/// character is one (the characters that need lookahead are not listed).
pub open spec fn singles_kind(c: char) -> Option<TokenKind> {
    if c == ';' {
        Some(TokenKind::SemiColon)
    } else if c == '.' {
        Some(TokenKind::Period)
    } else if c == '(' {
        Some(TokenKind::OpenBrace)
    } else if c == ')' {
        Some(TokenKind::CloseBrace)
    } else if c == '{' {
        Some(TokenKind::OpenCurlyBrace)
    } else if c == '}' {
        Some(TokenKind::CloseCurlyBrace)
    } else if c == '+' {
        Some(TokenKind::Plus)
    } else if c == '*' {
        Some(TokenKind::Times)
    } else if c == '%' {
        Some(TokenKind::Modulo)
    } else if c == '^' {
        Some(TokenKind::Power)
    } else if c == '<' {
        Some(TokenKind::LessThen)
    } else if c == '>' {
        Some(TokenKind::GreaterThen)
    } else if c == ',' {
        Some(TokenKind::Comma)
    } else {
        None
    }
}

/// One step of the lexer, at the first non-whitespace item: the token or
/// error produced and the items left over, or nothing if a trailing comment
/// ran to the end of the input.
pub open spec fn lex_at(s: Seq<TokenIterItem>) -> Option<
    (Result<SpecToken, SpecError>, Seq<TokenIterItem>),
>
    recommends
        s.len() > 0,
        !is_space(s[0].ch),
    decreases s.len(), 0int,
    via lex_at_decreases
{
    let it = s[0];
    let c = it.ch;
    if c == '|' {
        if s.len() < 2 {
            Some((Err(err_at(it, SpecErrorKind::ExpectedPipe(pipe_eof_desc()))), s.skip(1)))
        } else {
            match pipe_kind(s[1].ch) {
                Some(kind) => Some((Ok(tok_at(it, kind)), s.skip(2))),
                None => Some(
                    (
                        Err(err_at(s[1], SpecErrorKind::ExpectedPipe(unexpected_desc(s[1].ch)))),
                        s.skip(2),
                    ),
                ),
            }
        }
    } else if c == '\\' {
        if s.len() < 2 {
            Some((Err(err_at(it, SpecErrorKind::ExpectedPipe(ends_eof_desc()))), s.skip(1)))
        } else if s[1].ch == '?' {
            Some((Ok(tok_at(it, TokenKind::PipeMatchEnd)), s.skip(2)))
        } else {
            Some(
                (
                    Err(err_at(s[1], SpecErrorKind::ExpectedPipe(unexpected_desc(s[1].ch)))),
                    s.skip(2),
                ),
            )
        }
    } else if c == ':' {
        if s.len() >= 2 && s[1].ch == ':' {
            Some((Ok(tok_at(it, TokenKind::DoubleColon)), s.skip(2)))
        } else {
            Some((Ok(tok_at(it, TokenKind::Colon)), s.skip(1)))
        }
    } else if c == '-' {
        if s.len() >= 2 && s[1].ch == '>' {
            Some((Ok(tok_at(it, TokenKind::Arrow)), s.skip(2)))
        } else {
            Some((Ok(tok_at(it, TokenKind::Minus)), s.skip(1)))
        }
    } else if c == '/' {
        if s.len() >= 2 && s[1].ch == '/' {
            next_lex(s.skip(2 + to_newline(s.skip(2)) as int))
        } else {
            Some((Ok(tok_at(it, TokenKind::Divide)), s.skip(1)))
        }
    } else if singles_kind(c) is Some {
        Some((Ok(tok_at(it, singles_kind(c)->Some_0)), s.skip(1)))
    } else if c == '"' {
        let (content, consumed, closed) = str_scan(s.skip(1), false);
        if closed {
            Some((Ok(tok_at(it, TokenKind::String(content))), s.skip(1 + consumed as int)))
        } else {
            Some((Err(err_at(it, SpecErrorKind::UnclosedString)), s.skip(1 + consumed as int)))
        }
    } else if is_ident_start(c) {
        let n = ident_len(s);
        Some((Ok(tok_at(it, keyword_kind(chars_of(s, n)))), s.skip(n as int)))
    } else if is_digit(c) {
        let n = num_len(s, false);
        let w = chars_of(s, n);
        if has_dot(w) {
            Some((Ok(tok_at(it, TokenKind::Float(w))), s.skip(n as int)))
        } else if digits_val(w) <= i128::MAX {
            Some((Ok(tok_at(it, TokenKind::Integer(digits_val(w)))), s.skip(n as int)))
        } else {
            Some((Err(err_at(it, SpecErrorKind::ExpectedPipe(int_range_desc()))), s.skip(n as int)))
        }
    } else {
        Some((Err(err_at(it, SpecErrorKind::ExpectedPipe(unexpected_desc(c)))), s.skip(1)))
    }
}

#[via_fn]
proof fn lex_at_decreases(s: Seq<TokenIterItem>) {
    if s.len() >= 2 {
        lemma_to_newline_bound(s.skip(2));
    }
}

/// The lexer's next result: whitespace is skipped, then one token or error
/// is produced; `None` when only whitespace (or a trailing comment) is left.
pub open spec fn next_lex(s: Seq<TokenIterItem>) -> Option<
    (Result<SpecToken, SpecError>, Seq<TokenIterItem>),
>
    decreases s.len(), 1int,
{
    if s.len() == 0 {
        None
    } else if is_space(s[0].ch) {
        next_lex(s.skip(1))
    } else {
        lex_at(s)
    }
}

/// Every produced token or error consumes at least one item.
pub proof fn lemma_next_lex_consumes(s: Seq<TokenIterItem>)
    ensures
        next_lex(s) matches Some((res, rest)) ==> rest.len() < s.len(),
    decreases s.len(),
{
    if s.len() == 0 {
    } else if is_space(s[0].ch) {
        lemma_next_lex_consumes(s.skip(1));
    } else {
        let it = s[0];
        let c = it.ch;
        if c == '/' && s.len() >= 2 && s[1].ch == '/' {
            lemma_to_newline_bound(s.skip(2));
            lemma_next_lex_consumes(s.skip(2 + to_newline(s.skip(2)) as int));
            assert(lex_at(s) matches Some((res, rest)) ==> rest.len() < s.len());
        } else if c == '"' {
            lemma_str_scan_bound(s.skip(1), false);
            assert(lex_at(s) matches Some((res, rest)) ==> rest.len() < s.len());
        } else if is_ident_start(c) {
            lemma_ident_len_bound(s);
            assert(ident_len(s) >= 1);
            assert(lex_at(s) matches Some((res, rest)) ==> rest.len() < s.len());
        } else if is_digit(c) {
            lemma_num_len_bound(s, false);
            assert(num_len(s, false) >= 1);
            assert(lex_at(s) matches Some((res, rest)) ==> rest.len() < s.len());
        } else {
            assert(lex_at(s) matches Some((res, rest)) ==> rest.len() < s.len());
        }
    }
}

/// The identifier prefix is no longer than the input.
pub proof fn lemma_ident_len_bound(s: Seq<TokenIterItem>)
    ensures
        ident_len(s) <= s.len(),
    decreases s.len(),
{
    if s.len() > 0 && is_ident_char(s[0].ch) {
        lemma_ident_len_bound(s.skip(1));
    }
}

/// The numeric prefix is no longer than the input.
pub proof fn lemma_num_len_bound(s: Seq<TokenIterItem>, seen: bool)
    ensures
        num_len(s, seen) <= s.len(),
    decreases s.len(),
{
    if s.len() > 0 {
        if is_digit(s[0].ch) {
            lemma_num_len_bound(s.skip(1), seen);
        } else if s[0].ch == '.' && !seen {
            lemma_num_len_bound(s.skip(1), true);
        }
    }
}

/// A string-literal scan consumes no more items than there are.
pub proof fn lemma_str_scan_bound(s: Seq<TokenIterItem>, escape: bool)
    ensures
        str_scan(s, escape).1 <= s.len(),
    decreases s.len(),
{
    if s.len() > 0 {
        if escape {
            lemma_str_scan_bound(s.skip(1), false);
        } else if s[0].ch == '\\' {
            lemma_str_scan_bound(s.skip(1), true);
        } else if s[0].ch == '"' {
        } else {
            lemma_str_scan_bound(s.skip(1), false);
        }
    }
}

/// The whole lexer: the ordered sequence of tokens and errors that the
/// input lexes to.
pub open spec fn lex_all(s: Seq<TokenIterItem>) -> Seq<Result<SpecToken, SpecError>>
    decreases s.len(),
    via lex_all_decreases
{
    match next_lex(s) {
        None => Seq::empty(),
        Some((res, rest)) => seq![res] + lex_all(rest),
    }
}

#[via_fn]
proof fn lex_all_decreases(s: Seq<TokenIterItem>) {
    lemma_next_lex_consumes(s);
}

/// The model of one produced result.
pub open spec fn res_view(r: Result<Token, CompileError>) -> Result<SpecToken, SpecError> {
    match r {
        Ok(t) => Ok(t@),
        Err(e) => Err(e@),
    }
}


/// The message of a character-level error: what was found.
fn unexpected_desc_string(c: char) -> (s: String)
    ensures
        s@ == unexpected_desc(c),
{
    let mut out = String::new();
    out.append("Unexpected character '");
    let mut v: Vec<char> = Vec::new();
    v.push(c);
    let mid = chars_to_string(&v);
    out.append(mid.as_str());
    out.append("'");
    proof {
        reveal_strlit("'");
        assert(out@ =~= unexpected_desc(c));
    }
    out
}

/// The single-character token of `c`, where `c` is a punctuation or
/// operator character that needs no lookahead.
fn single_token(c: char) -> (r: Option<TokenEnum>)
    ensures
        match r {
            Some(t) => singles_kind(c) == Some(t@),
            None => singles_kind(c) is None,
        },
{
    if c == ';' {
        Some(TokenEnum::SemiColon)
    } else if c == '.' {
        Some(TokenEnum::Period)
    } else if c == '(' {
        Some(TokenEnum::OpenBrace)
    } else if c == ')' {
        Some(TokenEnum::CloseBrace)
    } else if c == '{' {
        Some(TokenEnum::OpenCurlyBrace)
    } else if c == '}' {
        Some(TokenEnum::CloseCurlyBrace)
    } else if c == '+' {
        Some(TokenEnum::Plus)
    } else if c == '*' {
        Some(TokenEnum::Times)
    } else if c == '%' {
        Some(TokenEnum::Modulo)
    } else if c == '^' {
        Some(TokenEnum::Power)
    } else if c == '<' {
        Some(TokenEnum::LessThen)
    } else if c == '>' {
        Some(TokenEnum::GreaterThen)
    } else if c == ',' {
        Some(TokenEnum::Comma)
    } else {
        None
    }
}

/// Reads the one character that must follow a `|` and maps it to the chain
/// operator it selects; positioned at the `|` that was already consumed.
fn get_chain_operator(cursor: &mut Cursor<TokenIterItem>, column: usize, row: usize) -> (r: Result<
    Token,
    CompileError,
>)
    ensures
        ({
            let s1 = old(cursor)@;
            if s1.len() == 0 {
                &&& final(cursor)@ == s1
                &&& r matches Err(e) && e@ == SpecError {
                    row: row as int,
                    column: column as int,
                    error: SpecErrorKind::ExpectedPipe(pipe_eof_desc()),
                }
            } else {
                &&& final(cursor)@ == s1.skip(1)
                &&& match pipe_kind(s1[0].ch) {
                    Some(kind) => r matches Ok(t) && t@ == SpecToken {
                        row: row as int,
                        column: column as int,
                        token: kind,
                    },
                    None => r matches Err(e) && e@ == err_at(
                        s1[0],
                        SpecErrorKind::ExpectedPipe(unexpected_desc(s1[0].ch)),
                    ),
                }
            }
        }),
{
    match cursor.next() {
        None => {
            let mut desc = String::new();
            desc.append("Expected '>', '=', '?', '!', '.' or '|', found end of input");
            proof {
                assert(desc@ =~= pipe_eof_desc());
            }
            Err(CompileError::new(row, column, CompileErrorEnum::ExpectedPipe(desc)))
        },
        Some(it) => {
            let kind = if it.ch == '>' {
                Some(TokenEnum::PipeNext)
            } else if it.ch == '=' {
                Some(TokenEnum::PipeSet)
            } else if it.ch == '?' {
                Some(TokenEnum::PipeMatch)
            } else if it.ch == '!' {
                Some(TokenEnum::PipeError)
            } else if it.ch == '.' {
                Some(TokenEnum::PipeReturn)
            } else if it.ch == '|' {
                Some(TokenEnum::Or)
            } else {
                None
            };
            match kind {
                Some(token) => Ok(Token { row, column, token }),
                None => {
                    let desc = unexpected_desc_string(it.ch);
                    Err(CompileError::new(it.row, it.column, CompileErrorEnum::ExpectedPipe(desc)))
                },
            }
        },
    }
}

/// Reads the one character that must follow a backslash, producing the
/// match-end operator; positioned at the backslash that was already
/// consumed.
fn get_ends(cursor: &mut Cursor<TokenIterItem>, column: usize, row: usize) -> (r: Result<
    Token,
    CompileError,
>)
    ensures
        ({
            let s1 = old(cursor)@;
            if s1.len() == 0 {
                &&& final(cursor)@ == s1
                &&& r matches Err(e) && e@ == SpecError {
                    row: row as int,
                    column: column as int,
                    error: SpecErrorKind::ExpectedPipe(ends_eof_desc()),
                }
            } else {
                &&& final(cursor)@ == s1.skip(1)
                &&& if s1[0].ch == '?' {
                    r matches Ok(t) && t@ == SpecToken {
                        row: row as int,
                        column: column as int,
                        token: TokenKind::PipeMatchEnd,
                    }
                } else {
                    r matches Err(e) && e@ == err_at(
                        s1[0],
                        SpecErrorKind::ExpectedPipe(unexpected_desc(s1[0].ch)),
                    )
                }
            }
        }),
{
    match cursor.next() {
        None => {
            let mut desc = String::new();
            desc.append("Expected '?', found end of input");
            proof {
                assert(desc@ =~= ends_eof_desc());
            }
            Err(CompileError::new(row, column, CompileErrorEnum::ExpectedPipe(desc)))
        },
        Some(it) => {
            if it.ch == '?' {
                Ok(Token { row, column, token: TokenEnum::PipeMatchEnd })
            } else {
                let desc = unexpected_desc_string(it.ch);
                Err(CompileError::new(it.row, it.column, CompileErrorEnum::ExpectedPipe(desc)))
            }
        },
    }
}

/// One character of lookahead after a colon: a second colon selects the
/// double colon (and is consumed), anything else leaves a plain colon.
fn get_colon(cursor: &mut Cursor<TokenIterItem>, column: usize, row: usize) -> (r: Token)
    ensures
        ({
            let s1 = old(cursor)@;
            if s1.len() > 0 && s1[0].ch == ':' {
                &&& final(cursor)@ == s1.skip(1)
                &&& r@ == SpecToken {
                    row: row as int,
                    column: column as int,
                    token: TokenKind::DoubleColon,
                }
            } else {
                &&& final(cursor)@ == s1
                &&& r@ == SpecToken { row: row as int, column: column as int, token: TokenKind::Colon }
            }
        }),
{
    let double = match cursor.peek() {
        Some(it) => it.ch == ':',
        None => false,
    };
    if double {
        let _ = cursor.next();
        Token { row, column, token: TokenEnum::DoubleColon }
    } else {
        Token { row, column, token: TokenEnum::Colon }
    }
}

/// One character of lookahead after a minus: a `>` selects the arrow (and
/// is consumed), anything else leaves a minus.
fn get_minus(cursor: &mut Cursor<TokenIterItem>, column: usize, row: usize) -> (r: Token)
    ensures
        ({
            let s1 = old(cursor)@;
            if s1.len() > 0 && s1[0].ch == '>' {
                &&& final(cursor)@ == s1.skip(1)
                &&& r@ == SpecToken {
                    row: row as int,
                    column: column as int,
                    token: TokenKind::Arrow,
                }
            } else {
                &&& final(cursor)@ == s1
                &&& r@ == SpecToken { row: row as int, column: column as int, token: TokenKind::Minus }
            }
        }),
{
    let arrow = match cursor.peek() {
        Some(it) => it.ch == '>',
        None => false,
    };
    if arrow {
        let _ = cursor.next();
        Token { row, column, token: TokenEnum::Arrow }
    } else {
        Token { row, column, token: TokenEnum::Minus }
    }
}


/// The value of a run of digits is never negative.
proof fn lemma_digits_val_nonneg(w: Seq<char>)
    requires
        forall|k: int| 0 <= k < w.len() ==> is_digit(#[trigger] w[k]),
    ensures
        digits_val(w) >= 0,
    decreases w.len(),
{
    if w.len() > 0 {
        assert(forall|k: int|
            0 <= k < w.drop_last().len() ==> is_digit(#[trigger] w.drop_last()[k]));
        lemma_digits_val_nonneg(w.drop_last());
    }
}

/// Greedily consumes the identifier characters that follow `current` (the
/// identifier's first character, already consumed, at `row`/`column`), and
/// classifies the word against the keyword table.
fn get_identifier(
    cursor: &mut Cursor<TokenIterItem>,
    current: char,
    column: usize,
    row: usize,
) -> (r: Token)
    ensures
        final(cursor)@ == old(cursor)@.skip(ident_len(old(cursor)@) as int),
        r@ == (SpecToken {
            row: row as int,
            column: column as int,
            token: keyword_kind(
                seq![current] + chars_of(old(cursor)@, ident_len(old(cursor)@)),
            ),
        }),
{
    let ghost s1 = old(cursor)@;
    let mut w: Vec<char> = Vec::new();
    w.push(current);
    let ghost mut j: int = 0;
    proof {
        assert(cursor@ == s1.skip(0));
        assert(w@ =~= seq![current] + chars_of(s1, 0));
    }
    loop
        invariant
            0 <= j <= s1.len(),
            cursor@ == s1.skip(j),
            w@ == seq![current] + chars_of(s1, j as nat),
            ident_len(s1) == j + ident_len(cursor@),
        ensures
            cursor@ == s1.skip(ident_len(s1) as int),
            w@ == seq![current] + chars_of(s1, ident_len(s1)),
        decreases s1.len() - j,
    {
        let go = match cursor.peek() {
            Some(it) => is_ident_char_char(it.ch),
            None => false,
        };
        if !go {
            proof {
                assert(ident_len(cursor@) == 0);
            }
            break;
        }
        let it = cursor.next().unwrap();
        w.push(it.ch);
        proof {
            assert(s1.skip(j)[0] == s1[j]);
            assert(s1.skip(j).skip(1) =~= s1.skip(j + 1));
            assert(ident_len(s1.skip(j)) == 1 + ident_len(s1.skip(j + 1)));
            j = j + 1;
            assert(w@ =~= seq![current] + chars_of(s1, j as nat));
        }
    }
    let token = if chars_eq_str(&w, "data") {
        TokenEnum::KWData
    } else if chars_eq_str(&w, "func") {
        TokenEnum::KWFunc
    } else if chars_eq_str(&w, "using") {
        TokenEnum::KWUsing
    } else if chars_eq_str(&w, "object") {
        TokenEnum::KWObject
    } else if chars_eq_str(&w, "enum") {
        TokenEnum::KWEnum
    } else if chars_eq_str(&w, "ref") {
        TokenEnum::KWRef
    } else if chars_eq_str(&w, "mut") {
        TokenEnum::KWMut
    } else if chars_eq_str(&w, "true") {
        TokenEnum::Bool(true)
    } else if chars_eq_str(&w, "false") {
        TokenEnum::Bool(false)
    } else {
        TokenEnum::Identifier(chars_to_string(&w))
    };
    Token { row, column, token }
}

/// Greedily consumes the digits, and at most one decimal point, that follow
/// `current` (the literal's first digit, already consumed, at
/// `row`/`column`). A run with a point is a float literal carrying its
/// text; a run without one is an integer, or an error if its value exceeds
/// the 128-bit signed range.
fn get_number(
    cursor: &mut Cursor<TokenIterItem>,
    current: char,
    column: usize,
    row: usize,
) -> (r: Result<Token, CompileError>)
    requires
        is_digit(current),
    ensures
        final(cursor)@ == old(cursor)@.skip(num_len(old(cursor)@, false) as int),
        ({
            let w = seq![current] + chars_of(old(cursor)@, num_len(old(cursor)@, false));
            if has_dot(w) {
                r matches Ok(t) && t@ == SpecToken {
                    row: row as int,
                    column: column as int,
                    token: TokenKind::Float(w),
                }
            } else if digits_val(w) <= i128::MAX {
                r matches Ok(t) && t@ == SpecToken {
                    row: row as int,
                    column: column as int,
                    token: TokenKind::Integer(digits_val(w)),
                }
            } else {
                r matches Err(e) && e@ == SpecError {
                    row: row as int,
                    column: column as int,
                    error: SpecErrorKind::ExpectedPipe(int_range_desc()),
                }
            }
        }),
{
    let ghost s1 = old(cursor)@;
    let mut w: Vec<char> = Vec::new();
    w.push(current);
    let mut found_decimal = false;
    let ghost mut j: int = 0;
    proof {
        assert(cursor@ == s1.skip(0));
        assert(w@ =~= seq![current] + chars_of(s1, 0));
        assert(!has_dot(w@));
    }
    loop
        invariant
            0 <= j <= s1.len(),
            cursor@ == s1.skip(j),
            w@ == seq![current] + chars_of(s1, j as nat),
            num_len(s1, false) == j + num_len(cursor@, found_decimal),
            found_decimal == has_dot(w@),
            forall|k: int| 0 <= k < w@.len() ==> is_digit(#[trigger] w@[k]) || w@[k] == '.',
        ensures
            cursor@ == s1.skip(num_len(s1, false) as int),
            w@ == seq![current] + chars_of(s1, num_len(s1, false)),
            found_decimal == has_dot(w@),
            forall|k: int| 0 <= k < w@.len() ==> is_digit(#[trigger] w@[k]) || w@[k] == '.',
        decreases s1.len() - j,
    {
        let (take_it, c) = match cursor.peek() {
            Some(it) => {
                if is_digit_char(it.ch) {
                    (true, it.ch)
                } else if it.ch == '.' && !found_decimal {
                    (true, it.ch)
                } else {
                    (false, ' ')
                }
            },
            None => (false, ' '),
        };
        if !take_it {
            proof {
                assert(num_len(cursor@, found_decimal) == 0);
            }
            break;
        }
        let it = cursor.next().unwrap();
        w.push(it.ch);
        if it.ch == '.' {
            found_decimal = true;
        }
        proof {
            assert(s1.skip(j)[0] == s1[j]);
            assert(s1.skip(j).skip(1) =~= s1.skip(j + 1));
            j = j + 1;
            assert(w@ =~= seq![current] + chars_of(s1, j as nat));
            assert(w@.last() == it.ch);
            if it.ch == '.' {
                assert(has_dot(w@));
            } else {
                assert(forall|k: int| 0 <= k < w@.len() - 1 ==> w@[k] == w@.drop_last()[k]);
                assert(has_dot(w@) == has_dot(w@.drop_last())) by {
                    if has_dot(w@) {
                        let i = choose|i: int| 0 <= i < w@.len() && w@[i] == '.';
                        assert(i < w@.len() - 1);
                        assert(w@.drop_last()[i] == '.');
                    } else {
                        if has_dot(w@.drop_last()) {
                            let i = choose|i: int|
                                0 <= i < w@.drop_last().len() && w@.drop_last()[i] == '.';
                            assert(w@[i] == '.');
                        }
                    }
                }
                assert(w@.drop_last() =~= seq![current] + chars_of(s1, (j - 1) as nat));
            }
        }
    }
    if found_decimal {
        return Ok(Token { row, column, token: TokenEnum::Float(chars_to_string(&w)) });
    }
    // every collected character is a digit; accumulate the value, watching
    // for the 128-bit range
    let mut val: i128 = 0;
    let mut over = false;
    let mut k: usize = 0;
    proof {
        assert(w@.take(0) =~= Seq::<char>::empty());
    }
    while k < w.len()
        invariant
            0 <= k <= w@.len(),
            forall|i: int| 0 <= i < w@.len() ==> is_digit(#[trigger] w@[i]),
            !over ==> 0 <= val && val == digits_val(w@.take(k as int)),
            over ==> digits_val(w@.take(k as int)) > i128::MAX,
        decreases w@.len() - k,
    {
        let c = w[k];
        let d = ((c as u32) - 48) as i128;
        proof {
            assert(is_digit(w@[k as int]));
            assert(0 <= d <= 9);
            assert(w@.take(k as int + 1).drop_last() =~= w@.take(k as int));
            assert(w@.take(k as int + 1).last() == w@[k as int]);
        }
        if over {
            proof {
                lemma_digits_val_nonneg(w@.take(k as int));
                assert(digits_val(w@.take(k as int + 1)) == digits_val(w@.take(k as int)) * 10
                    + d);
                assert(digits_val(w@.take(k as int)) * 10 > i128::MAX * 10 - 10) by {
                    assert(digits_val(w@.take(k as int)) >= i128::MAX + 1);
                    assert(digits_val(w@.take(k as int)) * 10 >= (i128::MAX + 1) * 10) by (nonlinear_arith)
                        requires
                            digits_val(w@.take(k as int)) >= i128::MAX + 1,
                    ;
                }
            }
        } else if val > (i128::MAX - d) / 10 {
            proof {
                let q = (i128::MAX - d) / 10;
                assert(i128::MAX - d == 10 * q + (i128::MAX - d) % 10);
                assert(0 <= (i128::MAX - d) % 10 < 10);
                assert(val * 10 >= (q + 1) * 10) by (nonlinear_arith)
                    requires
                        val >= q + 1,
                ;
                assert(val * 10 + d > i128::MAX);
            }
            over = true;
        } else {
            proof {
                let q = (i128::MAX - d) / 10;
                assert(i128::MAX - d == 10 * q + (i128::MAX - d) % 10);
                assert(val * 10 <= q * 10) by (nonlinear_arith)
                    requires
                        val <= q,
                        val >= 0,
                ;
                assert(val * 10 + d <= i128::MAX);
            }
            val = val * 10 + d;
        }
        k += 1;
    }
    proof {
        assert(w@.take(w@.len() as int) =~= w@);
    }
    if over {
        let mut desc = String::new();
        desc.append("Integer literal too large for 128 bits");
        proof {
            assert(desc@ =~= int_range_desc());
        }
        Err(CompileError::new(row, column, CompileErrorEnum::ExpectedPipe(desc)))
    } else {
        Ok(Token { row, column, token: TokenEnum::Integer(val) })
    }
}

/// Accumulates a string literal after its opening quote (already consumed,
/// at `row`/`column`): characters up to an unescaped closing quote, a
/// backslash escaping the next character verbatim. An input that ends first
/// fails with an unclosed-string error at the opening quote.
#[verifier::loop_isolation(false)]
fn get_string(cursor: &mut Cursor<TokenIterItem>, column: usize, row: usize) -> (r: Result<
    Token,
    CompileError,
>)
    ensures
        final(cursor)@ == old(cursor)@.skip(str_scan(old(cursor)@, false).1 as int),
        ({
            let (content, consumed, closed) = str_scan(old(cursor)@, false);
            if closed {
                r matches Ok(t) && t@ == SpecToken {
                    row: row as int,
                    column: column as int,
                    token: TokenKind::String(content),
                }
            } else {
                r matches Err(e) && e@ == SpecError {
                    row: row as int,
                    column: column as int,
                    error: SpecErrorKind::UnclosedString,
                }
            }
        }),
{
    let ghost s1 = old(cursor)@;
    let mut w: Vec<char> = Vec::new();
    let mut escape = false;
    let ghost mut j: int = 0;
    proof {
        assert(cursor@ == s1.skip(0));
        assert(w@ + str_scan(cursor@, false).0 =~= str_scan(s1, false).0);
    }
    loop
        invariant
            0 <= j <= s1.len(),
            cursor@ == s1.skip(j),
            str_scan(s1, false).0 == w@ + str_scan(cursor@, escape).0,
            str_scan(s1, false).1 == j + str_scan(cursor@, escape).1,
            str_scan(s1, false).2 == str_scan(cursor@, escape).2,
        decreases s1.len() - j,
    {
        match cursor.peek() {
            None => {
                proof {
                    assert(str_scan(cursor@, escape).1 == 0);
                }
                return Err(
                    CompileError::new(row, column, CompileErrorEnum::UnclosedString),
                );
            },
            Some(_) => {},
        }
        let it = cursor.next().unwrap();
        let ghost pre = s1.skip(j);
        proof {
            assert(pre[0] == s1[j]);
            assert(pre.skip(1) =~= s1.skip(j + 1));
        }
        if escape {
            w.push(it.ch);
            escape = false;
            proof {
                assert(str_scan(pre, true).0 == seq![pre[0].ch] + str_scan(pre.skip(1), false).0);
                j = j + 1;
                assert(str_scan(s1, false).0 =~= w@ + str_scan(cursor@, escape).0);
            }
        } else if it.ch == '\\' {
            escape = true;
            proof {
                assert(str_scan(pre, false).0 == str_scan(pre.skip(1), true).0);
                j = j + 1;
                assert(str_scan(s1, false).0 =~= w@ + str_scan(cursor@, escape).0);
            }
        } else if it.ch == '"' {
            proof {
                assert(str_scan(pre, false) == (Seq::<char>::empty(), 1nat, true));
                assert(str_scan(s1, false).0 =~= w@);
                assert(str_scan(s1, false).1 == j + 1);
                assert(str_scan(s1, false).2 == true);
                assert(cursor@ == s1.skip(j + 1));
            }
            return Ok(
                Token { row, column, token: TokenEnum::String(chars_to_string(&w)) },
            );
        } else {
            w.push(it.ch);
            proof {
                assert(str_scan(pre, false).0 == seq![pre[0].ch] + str_scan(pre.skip(1), false).0);
                j = j + 1;
                assert(str_scan(s1, false).0 =~= w@ + str_scan(cursor@, escape).0);
            }
        }
    }
}


/// One character of lookahead after a slash: a second slash starts a
/// comment, which is discarded up to (not including) the next line break,
/// and lexing resumes with the next real token; anything else leaves a
/// divide operator at the already consumed slash.
fn get_slash(cursor: &mut Cursor<TokenIterItem>, column: usize, row: usize) -> (r: Option<
    Result<Token, CompileError>,
>)
    ensures
        ({
            let s1 = old(cursor)@;
            if s1.len() > 0 && s1[0].ch == '/' {
                match next_lex(s1.skip(1 + to_newline(s1.skip(1)) as int)) {
                    None => r is None && final(cursor)@.len() == 0,
                    Some((res, rest)) => {
                        &&& r matches Some(rr) && res_view(rr) == res
                        &&& final(cursor)@ == rest
                    },
                }
            } else {
                &&& final(cursor)@ == s1
                &&& r matches Some(rr) && rr matches Ok(t) && t@ == (SpecToken {
                    row: row as int,
                    column: column as int,
                    token: TokenKind::Divide,
                })
            }
        }),
    decreases old(cursor)@.len(), 0int,
{
    let ghost s1 = old(cursor)@;
    let is_comment = match cursor.peek() {
        Some(it) => it.ch == '/',
        None => false,
    };
    if !is_comment {
        return Some(Ok(Token { row, column, token: TokenEnum::Divide }));
    }
    let _ = cursor.next();
    let ghost mut j: int = 0;
    proof {
        assert(cursor@ =~= s1.skip(1));
    }
    loop
        invariant
            0 <= j,
            1 + j <= s1.len(),
            cursor@ == s1.skip(1 + j),
            to_newline(s1.skip(1)) == j + to_newline(cursor@),
        ensures
            cursor@ == s1.skip(1 + to_newline(s1.skip(1)) as int),
        decreases cursor@.len(),
    {
        let go = match cursor.peek() {
            Some(it) => it.ch != '\n',
            None => false,
        };
        if !go {
            proof {
                assert(to_newline(cursor@) == 0);
            }
            break;
        }
        let _ = cursor.next();
        proof {
            assert(s1.skip(1 + j)[0] == s1[1 + j]);
            assert(s1.skip(1 + j).skip(1) =~= s1.skip(1 + j + 1));
            assert(to_newline(s1.skip(1 + j)) == 1 + to_newline(s1.skip(1 + j + 1)));
            j = j + 1;
        }
    }
    get_next(cursor)
}

/// Produces the next token or error after the cursor's position, skipping
/// whitespace and comments, or `None` when nothing but whitespace (or a
/// trailing comment) is left. The produced sequence follows the
/// specification [`next_lex`] exactly.
pub fn get_next(cursor: &mut Cursor<TokenIterItem>) -> (r: Option<Result<Token, CompileError>>)
    ensures
        ({
            match next_lex(old(cursor)@) {
                None => r is None && final(cursor)@.len() == 0,
                Some((res, rest)) => {
                    &&& r matches Some(rr) && res_view(rr) == res
                    &&& final(cursor)@ == rest
                },
            }
        }),
    decreases old(cursor)@.len(), 1int,
{
    let ghost orig = old(cursor)@;
    loop
        invariant
            next_lex(orig) == next_lex(cursor@),
            cursor@.len() <= orig.len(),
        ensures
            next_lex(orig) == next_lex(cursor@),
            cursor@.len() <= orig.len(),
            cursor@.len() == 0 || !is_space(cursor@[0].ch),
        decreases cursor@.len(),
    {
        let go = match cursor.peek() {
            Some(it) => is_space_char(it.ch),
            None => false,
        };
        if !go {
            break;
        }
        let ghost prev = cursor@;
        let _ = cursor.next();
        proof {
            assert(next_lex(prev) == next_lex(prev.skip(1)));
        }
    }
    let ghost t = cursor@;
    let first = cursor.next();
    let it = match first {
        None => {
            return None;
        },
        Some(it) => it,
    };
    proof {
        assert(t.len() > 0 && !is_space(t[0].ch));
        assert(next_lex(old(cursor)@) == lex_at(t));
        assert(cursor@ == t.skip(1));
        assert(t.len() >= 2 ==> t.skip(1)[0] == t[1]);
        assert(t.len() >= 2 ==> t.skip(1).skip(1) =~= t.skip(2));
        assert(it == t[0]);
    }
    if it.ch == '|' {
        Some(get_chain_operator(cursor, it.column, it.row))
    } else if it.ch == '\\' {
        Some(get_ends(cursor, it.column, it.row))
    } else if it.ch == ':' {
        Some(Ok(get_colon(cursor, it.column, it.row)))
    } else if it.ch == '-' {
        Some(Ok(get_minus(cursor, it.column, it.row)))
    } else if it.ch == '/' {
        let r = get_slash(cursor, it.column, it.row);
        proof {
            if t.len() >= 2 && t[1].ch == '/' {
                lemma_to_newline_bound(t.skip(2));
                assert(t.skip(1).skip(1) == t.skip(2));
                assert(to_newline(t.skip(1).skip(1)) == to_newline(t.skip(2)));
                assert(t.skip(1).skip(1 + to_newline(t.skip(1).skip(1)) as int) =~= t.skip(
                    2 + to_newline(t.skip(2)) as int,
                ));
            }
        }
        r
    } else {
        match single_token(it.ch) {
            Some(token) => Some(Ok(Token { row: it.row, column: it.column, token })),
            None => {
                if it.ch == '"' {
                    let res = get_string(cursor, it.column, it.row);
                    proof {
                        lemma_str_scan_bound(t.skip(1), false);
                        assert(t.skip(1).skip(str_scan(t.skip(1), false).1 as int) =~= t.skip(
                            1 + str_scan(t.skip(1), false).1 as int,
                        ));
                    }
                    Some(res)
                } else if is_ident_start_char(it.ch) {
                    let tok = get_identifier(cursor, it.ch, it.column, it.row);
                    proof {
                        assert(t.len() > 0);
                        assert(is_ident_char(t[0].ch));
                        lemma_ident_len_bound(t.skip(1));
                        assert(ident_len(t) == 1 + ident_len(t.skip(1)));
                        assert(chars_of(t, ident_len(t)) =~= seq![it.ch] + chars_of(
                            t.skip(1),
                            ident_len(t.skip(1)),
                        ));
                        assert(t.skip(1).skip(ident_len(t.skip(1)) as int) =~= t.skip(
                            ident_len(t) as int,
                        ));
                    }
                    Some(Ok(tok))
                } else if is_digit_char(it.ch) {
                    let res = get_number(cursor, it.ch, it.column, it.row);
                    proof {
                        assert(t.len() > 0);
                        assert(is_digit(t[0].ch));
                        lemma_num_len_bound(t.skip(1), false);
                        assert(num_len(t, false) == 1 + num_len(t.skip(1), false));
                        assert(chars_of(t, num_len(t, false)) =~= seq![it.ch] + chars_of(
                            t.skip(1),
                            num_len(t.skip(1), false),
                        ));
                        assert(t.skip(1).skip(num_len(t.skip(1), false) as int) =~= t.skip(
                            num_len(t, false) as int,
                        ));
                    }
                    Some(res)
                } else {
                    let desc = unexpected_desc_string(it.ch);
                    Some(
                        Err(
                            CompileError::new(
                                it.row,
                                it.column,
                                CompileErrorEnum::ExpectedPipe(desc),
                            ),
                        ),
                    )
                }
            },
        }
    }
}

/// A restartable, finite producer of tokens and errors over positioned
/// characters: each call to [`Tokenize::next`] hands out the next token or
/// error and consumes exactly its characters.
pub struct Tokenize {
    cursor: Cursor<TokenIterItem>,
}

impl View for Tokenize {
    type V = Seq<TokenIterItem>;

    closed spec fn view(&self) -> Seq<TokenIterItem> {
        self.cursor@
    }
}

impl Tokenize {
    /// The next token or error, or `None` when only whitespace (or a
    /// trailing comment) is left; follows [`next_lex`] exactly.
    pub fn next(&mut self) -> (r: Option<Result<Token, CompileError>>)
        ensures
            ({
                match next_lex(old(self)@) {
                    None => r is None && final(self)@.len() == 0,
                    Some((res, rest)) => {
                        &&& r matches Some(rr) && res_view(rr) == res
                        &&& final(self)@ == rest
                    },
                }
            }),
    {
        get_next(&mut self.cursor)
    }

    /// All remaining tokens and errors, in order: exactly [`lex_all`] of the
    /// remaining characters.
    pub fn collect_all(&mut self) -> (results: Vec<Result<Token, CompileError>>)
        ensures
            results@.map_values(|r: Result<Token, CompileError>| res_view(r)) == lex_all(
                old(self)@,
            ),
            final(self)@.len() == 0,
    {
        let mut results: Vec<Result<Token, CompileError>> = Vec::new();
        proof {
            assert(results@.map_values(|r: Result<Token, CompileError>| res_view(r)) =~= Seq::<
                Result<SpecToken, SpecError>,
            >::empty());
        }
        loop
            invariant
                lex_all(old(self)@) == results@.map_values(
                    |r: Result<Token, CompileError>| res_view(r),
                ) + lex_all(self@),
            ensures
                lex_all(old(self)@) == results@.map_values(
                    |r: Result<Token, CompileError>| res_view(r),
                ),
                self@.len() == 0,
            decreases self@.len(),
        {
            let ghost prev = self@;
            proof {
                lemma_next_lex_consumes(prev);
            }
            match self.next() {
                None => {
                    proof {
                        assert(lex_all(prev) =~= Seq::<Result<SpecToken, SpecError>>::empty());
                    }
                    break;
                },
                Some(rr) => {
                    results.push(rr);
                    proof {
                        let f = |r: Result<Token, CompileError>| res_view(r);
                        assert(results@.map_values(f) =~= results@.drop_last().map_values(f)
                            + seq![res_view(rr)]);
                        assert(lex_all(prev) == seq![res_view(rr)] + lex_all(self@));
                    }
                },
            }
        }
        proof {
            assert(results@.map_values(|r: Result<Token, CompileError>| res_view(r)) =~= lex_all(
                old(self)@,
            ));
        }
        results
    }
}

/// Turns positioned characters into a token producer.
pub trait TokenizeExt {
    /// Wraps these positioned characters in a lexer.
    fn tokenize(self) -> Tokenize;
}

impl TokenizeExt for Vec<TokenIterItem> {
    fn tokenize(self) -> (r: Tokenize)
        ensures
            r@ == self@,
    {
        Tokenize { cursor: Cursor::new(self) }
    }
}

/// Lexes source text: the text is spread into positioned characters (1-based
/// rows and columns, the column resetting at every line break), and the
/// returned producer hands out one token or error per call, as [`next_lex`]
/// prescribes.
pub fn tokenize(source_code: &str) -> (r: Tokenize)
    requires
        source_code@.len() < usize::MAX,
    ensures
        r@.len() == source_code@.len(),
        forall|i: int|
            0 <= i < r@.len() ==> {
                &&& (#[trigger] r@[i]).ch == source_code@[i]
                &&& r@[i].row as int == row_at(source_code@, i)
                &&& r@[i].column as int == col_at(source_code@, i)
            },
{
    Tokenize { cursor: Cursor::new(scan(source_code)) }
}


/// Whether every character is whitespace or single-character punctuation.
pub open spec fn punct_or_space(s: Seq<TokenIterItem>) -> bool {
    forall|i: int|
        0 <= i < s.len() ==> is_space(#[trigger] s[i].ch) || singles_kind(s[i].ch) is Some
}

/// The items that are not whitespace, in order.
pub open spec fn punct_items(s: Seq<TokenIterItem>) -> Seq<TokenIterItem>
    decreases s.len(),
{
    if s.len() == 0 {
        Seq::empty()
    } else if is_space(s[0].ch) {
        punct_items(s.skip(1))
    } else {
        seq![s[0]] + punct_items(s.skip(1))
    }
}

/// Over source text of whitespace and single-character punctuation alone,
/// the lexer produces exactly one token per punctuation character, each a
/// plain success, whose row and column are exactly those the per-character
/// enumeration assigned to that character (as [`tokenize`] and [`scan`]
/// ensure of every item they hand the lexer).
pub proof fn lemma_punct_positions(s: Seq<TokenIterItem>)
    requires
        punct_or_space(s),
    ensures
        lex_all(s).len() == punct_items(s).len(),
        forall|k: int|
            0 <= k < punct_items(s).len() ==> #[trigger] lex_all(s)[k] == Ok::<
                SpecToken,
                SpecError,
            >(tok_at(punct_items(s)[k], singles_kind(punct_items(s)[k].ch)->Some_0)),
    decreases s.len(),
{
    lemma_next_lex_consumes(s);
    if s.len() == 0 {
        assert(lex_all(s) =~= Seq::<Result<SpecToken, SpecError>>::empty());
    } else {
        assert(forall|i: int|
            0 <= i < s.skip(1).len() ==> is_space(#[trigger] s.skip(1)[i].ch) || singles_kind(
                s.skip(1)[i].ch,
            ) is Some) by {
            assert(forall|i: int| 0 <= i < s.skip(1).len() ==> s.skip(1)[i] == s[i + 1]);
        }
        lemma_punct_positions(s.skip(1));
        if is_space(s[0].ch) {
            assert(next_lex(s) == next_lex(s.skip(1)));
            assert(lex_all(s) == lex_all(s.skip(1)));
            assert(punct_items(s) == punct_items(s.skip(1)));
        } else {
            let kind = singles_kind(s[0].ch);
            assert(kind is Some);
            assert(s[0].ch != '|' && s[0].ch != '\\' && s[0].ch != ':' && s[0].ch != '-'
                && s[0].ch != '/' && s[0].ch != '"');
            assert(!is_ident_start(s[0].ch) && !is_digit(s[0].ch));
            assert(lex_at(s) == Some(
                (Ok::<SpecToken, SpecError>(tok_at(s[0], kind->Some_0)), s.skip(1)),
            ));
            assert(lex_all(s) == seq![
                Ok::<SpecToken, SpecError>(tok_at(s[0], kind->Some_0)),
            ] + lex_all(s.skip(1)));
            assert(punct_items(s) == seq![s[0]] + punct_items(s.skip(1)));
            assert forall|k: int| 0 <= k < punct_items(s).len() implies #[trigger] lex_all(s)[k]
                == Ok::<SpecToken, SpecError>(
                tok_at(punct_items(s)[k], singles_kind(punct_items(s)[k].ch)->Some_0),
            ) by {
                if k == 0 {
                    assert(lex_all(s)[0] == Ok::<SpecToken, SpecError>(
                        tok_at(s[0], kind->Some_0),
                    ));
                } else {
                    assert(lex_all(s)[k] == lex_all(s.skip(1))[k - 1]);
                    assert(punct_items(s)[k] == punct_items(s.skip(1))[k - 1]);
                }
            }
        }
    }
}

} // verus!

verus! {

/// The row a produced result is positioned at.
pub open spec fn result_row(r: Result<SpecToken, SpecError>) -> int {
    match r {
        Ok(t) => t.row,
        Err(e) => e.row,
    }
}

/// The column a produced result is positioned at.
pub open spec fn result_column(r: Result<SpecToken, SpecError>) -> int {
    match r {
        Ok(t) => t.column,
        Err(e) => e.column,
    }
}

/// Whether the positions of the items themselves never move backwards, as
/// [`scan`] guarantees of the items it produces.
pub open spec fn items_monotone(s: Seq<TokenIterItem>) -> bool {
    forall|i: int, j: int|
        0 <= i <= j < s.len() ==> pos_le(
            (#[trigger] s[i]).row as int,
            s[i].column as int,
            (#[trigger] s[j]).row as int,
            s[j].column as int,
        )
}

/// Each produced result is positioned at one of the items it consumed, and
/// the leftover input is the suffix past those items.
proof fn lemma_next_lex_position(s: Seq<TokenIterItem>)
    requires
        next_lex(s) is Some,
    ensures
        ({
            let (res, rest) = next_lex(s)->Some_0;
            &&& rest.len() < s.len()
            &&& rest == s.skip(s.len() - rest.len())
            &&& exists|k: int|
                0 <= k < s.len() - rest.len() && result_row(res) == (#[trigger] s[k]).row as int
                    && result_column(res) == s[k].column as int
        }),
    decreases s.len(),
{
    lemma_next_lex_consumes(s);
    let (res, rest) = next_lex(s)->Some_0;
    if is_space(s[0].ch) {
        lemma_next_lex_position(s.skip(1));
        let off = s.skip(1).len() - rest.len();
        assert(s.skip(1).skip(off) =~= s.skip(1 + off));
        let k = choose|k: int|
            0 <= k < off && result_row(res) == (#[trigger] s.skip(1)[k]).row as int
                && result_column(res) == s.skip(1)[k].column as int;
        assert(s.skip(1)[k] == s[1 + k]);
        assert(result_row(res) == s[1 + k].row as int && result_column(res) == s[1 + k].column
            as int);
    } else {
        let c = s[0].ch;
        assert(next_lex(s) == lex_at(s));
        if c == '|' || c == '\\' {
            if s.len() >= 2 {
                assert(rest == s.skip(2));
                assert(result_row(res) == s[0].row as int && result_column(res) == s[0].column
                    as int || result_row(res) == s[1].row as int && result_column(res)
                    == s[1].column as int);
            } else {
                assert(result_row(res) == s[0].row as int && result_column(res) == s[0].column
                    as int);
            }
        } else if c == ':' || c == '-' {
            assert(result_row(res) == s[0].row as int && result_column(res) == s[0].column as int);
        } else if c == '/' && s.len() >= 2 && s[1].ch == '/' {
            lemma_to_newline_bound(s.skip(2));
            let j = 2 + to_newline(s.skip(2)) as int;
            assert(next_lex(s) == next_lex(s.skip(j)));
            lemma_next_lex_position(s.skip(j));
            let off = s.skip(j).len() - rest.len();
            assert(s.skip(j).skip(off) =~= s.skip(j + off));
            let k = choose|k: int|
                0 <= k < off && result_row(res) == (#[trigger] s.skip(j)[k]).row as int
                    && result_column(res) == s.skip(j)[k].column as int;
            assert(s.skip(j)[k] == s[j + k]);
            assert(result_row(res) == s[j + k].row as int && result_column(res) == s[j + k].column
                as int);
        } else if c == '"' {
            lemma_str_scan_bound(s.skip(1), false);
            assert(result_row(res) == s[0].row as int && result_column(res) == s[0].column as int);
        } else if is_ident_start(c) {
            lemma_ident_len_bound(s);
            assert(result_row(res) == s[0].row as int && result_column(res) == s[0].column as int);
        } else if is_digit(c) {
            lemma_num_len_bound(s, false);
            assert(result_row(res) == s[0].row as int && result_column(res) == s[0].column as int);
        } else {
            assert(result_row(res) == s[0].row as int && result_column(res) == s[0].column as int);
        }
    }
}

/// Every produced result is positioned at one of the input's items.
proof fn lemma_lex_all_positions(s: Seq<TokenIterItem>)
    ensures
        forall|a: int|
            0 <= a < lex_all(s).len() ==> exists|k: int|
                0 <= k < s.len() && result_row(#[trigger] lex_all(s)[a]) == (#[trigger] s[k]).row
                    as int && result_column(lex_all(s)[a]) == s[k].column as int,
    decreases s.len(),
{
    lemma_next_lex_consumes(s);
    if next_lex(s) is Some {
        let (res, rest) = next_lex(s)->Some_0;
        lemma_next_lex_position(s);
        let off = s.len() - rest.len();
        lemma_lex_all_positions(rest);
        assert forall|a: int| 0 <= a < lex_all(s).len() implies exists|k: int|
            0 <= k < s.len() && result_row(#[trigger] lex_all(s)[a]) == (#[trigger] s[k]).row
                as int && result_column(lex_all(s)[a]) == s[k].column as int by {
            if a == 0 {
                assert(lex_all(s)[0] == res);
            } else {
                assert(lex_all(s)[a] == lex_all(rest)[a - 1]);
                let k = choose|k: int|
                    0 <= k < rest.len() && result_row(#[trigger] lex_all(rest)[a - 1]) == (
                    #[trigger] rest[k]).row as int && result_column(lex_all(rest)[a - 1])
                        == rest[k].column as int;
                assert(rest[k] == s[off + k]);
                assert(result_row(lex_all(s)[a]) == s[off + k].row as int && result_column(
                    lex_all(s)[a],
                ) == s[off + k].column as int);
            }
        }
    }
}

/// Over items whose own positions never move backwards (as [`scan`]
/// produces them), the positions of the produced tokens and errors never
/// move backwards either: each result in the sequence stands at a position
/// no earlier than every result before it.
pub proof fn lemma_result_positions_monotone(s: Seq<TokenIterItem>)
    requires
        items_monotone(s),
    ensures
        forall|a: int, b: int|
            0 <= a <= b < lex_all(s).len() ==> pos_le(
                result_row(#[trigger] lex_all(s)[a]),
                result_column(lex_all(s)[a]),
                result_row(#[trigger] lex_all(s)[b]),
                result_column(lex_all(s)[b]),
            ),
    decreases s.len(),
{
    lemma_next_lex_consumes(s);
    if next_lex(s) is Some {
        let (res, rest) = next_lex(s)->Some_0;
        lemma_next_lex_position(s);
        let off = s.len() - rest.len();
        assert(forall|i: int, j: int|
            0 <= i <= j < rest.len() ==> pos_le(
                (#[trigger] rest[i]).row as int,
                rest[i].column as int,
                (#[trigger] rest[j]).row as int,
                rest[j].column as int,
            )) by {
            assert(forall|i: int| 0 <= i < rest.len() ==> #[trigger] rest[i] == s[off + i]);
        }
        lemma_result_positions_monotone(rest);
        lemma_lex_all_positions(rest);
        assert forall|a: int, b: int| 0 <= a <= b < lex_all(s).len() implies pos_le(
            result_row(#[trigger] lex_all(s)[a]),
            result_column(lex_all(s)[a]),
            result_row(#[trigger] lex_all(s)[b]),
            result_column(lex_all(s)[b]),
        ) by {
            if a == 0 {
                if b > 0 {
                    assert(lex_all(s)[b] == lex_all(rest)[b - 1]);
                    let k0 = choose|k: int|
                        0 <= k < off && result_row(res) == (#[trigger] s[k]).row as int
                            && result_column(res) == s[k].column as int;
                    let k1 = choose|k: int|
                        0 <= k < rest.len() && result_row(#[trigger] lex_all(rest)[b - 1]) == (
                        #[trigger] rest[k]).row as int && result_column(lex_all(rest)[b - 1])
                            == rest[k].column as int;
                    assert(rest[k1] == s[off + k1]);
                    assert(pos_le(
                        s[k0].row as int,
                        s[k0].column as int,
                        s[off + k1].row as int,
                        s[off + k1].column as int,
                    ));
                }
            } else {
                assert(lex_all(s)[a] == lex_all(rest)[a - 1]);
                assert(lex_all(s)[b] == lex_all(rest)[b - 1]);
            }
        }
    }
}

} // verus!
