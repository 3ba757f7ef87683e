//! The error model: a position-tagged error value wrapping a closed set of
//! error kinds, with a rendering that prints `row:column: message` and shows
//! every expected or offending token by its surface syntax.

use vstd::prelude::*;

use crate::text::{dec_digits, dec_string};
use crate::tokenizer::{TokenEnum, TokenKind};

verus! {

/// The closed set of compile-error kinds.
#[derive(Debug, Clone, PartialEq)]
pub enum CompileErrorEnum {
    /// A string literal whose closing quote never came.
    UnclosedString,
    /// A character-level lexical error; the payload is the whole diagnostic
    /// description (the characters that were expected, or the offending
    /// character that was found).
    ExpectedPipe(String),
    /// A token that no rule allowed at its position.
    UnexpectedToken(TokenEnum),
    /// The input ended where a further token was expected.
    UnexpectedEndOfInput { expected: PrintToken },
    /// One particular token was expected, another was found.
    ExpectedToken { expected: PrintToken, found: TokenEnum },
    /// One of a set of tokens was expected, another was found.
    ExpectedOneOf { expected: PrintTokens, found: TokenEnum },
}

/// The mathematical model of an error kind.
pub enum SpecErrorKind {
    UnclosedString,
    ExpectedPipe(Seq<char>),
    UnexpectedToken(TokenKind),
    UnexpectedEndOfInput { expected: TokenKind },
    ExpectedToken { expected: TokenKind, found: TokenKind },
    ExpectedOneOf { expected: Seq<TokenKind>, found: TokenKind },
}

impl View for CompileErrorEnum {
    type V = SpecErrorKind;

    open spec fn view(&self) -> SpecErrorKind {
        match self {
            CompileErrorEnum::UnclosedString => SpecErrorKind::UnclosedString,
            CompileErrorEnum::ExpectedPipe(s) => SpecErrorKind::ExpectedPipe(s@),
            CompileErrorEnum::UnexpectedToken(t) => SpecErrorKind::UnexpectedToken(t@),
            CompileErrorEnum::UnexpectedEndOfInput { expected } => {
                SpecErrorKind::UnexpectedEndOfInput { expected: expected@ }
            },
            CompileErrorEnum::ExpectedToken { expected, found } => {
                SpecErrorKind::ExpectedToken { expected: expected@, found: found@ }
            },
            CompileErrorEnum::ExpectedOneOf { expected, found } => {
                SpecErrorKind::ExpectedOneOf { expected: expected@, found: found@ }
            },
        }
    }
}

/// A compile-time failure, tagged with the row and column (1-based) it
/// arose at.
#[derive(Debug, Clone, PartialEq)]
pub struct CompileError {
    row: usize,
    column: usize,
    error: CompileErrorEnum,
}

/// The mathematical model of a positioned error.
pub struct SpecError {
    pub row: int,
    pub column: int,
    pub error: SpecErrorKind,
}

impl View for CompileError {
    type V = SpecError;

    closed spec fn view(&self) -> SpecError {
        SpecError { row: self.row as int, column: self.column as int, error: self.error@ }
    }
}

impl CompileError {
    /// An error of kind `error` at the given position.
    pub fn new(row: usize, column: usize, error: CompileErrorEnum) -> (r: Self)
        ensures
            r@.row == row as int,
            r@.column == column as int,
            r@.error == error@,
    {
        CompileError { row, column, error }
    }

    /// Renders the error as `row:column: message`; the rendering is never
    /// empty and shows tokens by their surface syntax.
    pub fn render(&self) -> (r: String)
        ensures
            r@ == spec_render(self@),
            r@.len() > 0,
    {
        let mut out = dec_string(self.row);
        out.append(":");
        let col = dec_string(self.column);
        out.append(col.as_str());
        out.append(": ");
        let msg = render_kind(&self.error);
        out.append(msg.as_str());
        proof {
            reveal_strlit(":");
            reveal_strlit(": ");
            assert(out@ =~= spec_render(self@));
        }
        out
    }
}

/// A token wrapped for display in a diagnostic: it renders as its surface
/// syntax between quotes.
#[derive(Debug, Clone, PartialEq)]
pub struct PrintToken(pub TokenEnum);

impl View for PrintToken {
    type V = TokenKind;

    open spec fn view(&self) -> TokenKind {
        self.0@
    }
}

impl PrintToken {
    /// Renders the token's surface syntax between single quotes; never
    /// empty.
    pub fn render(&self) -> (r: String)
        ensures
            r@ == seq!['\''] + spec_token_name(self@) + seq!['\''],
            r@.len() > 0,
    {
        let mut out = String::new();
        out.append("'");
        out.append(token_name(&self.0));
        out.append("'");
        proof {
            reveal_strlit("'");
            assert(out@ =~= seq!['\''] + spec_token_name(self@) + seq!['\'']);
        }
        out
    }
}

/// A list of tokens wrapped for display in a diagnostic: it renders as the
/// surface syntax of each, in order.
#[derive(Debug, Clone, PartialEq)]
pub struct PrintTokens(pub Vec<TokenEnum>);

impl View for PrintTokens {
    type V = Seq<TokenKind>;

    open spec fn view(&self) -> Seq<TokenKind> {
        self.0@.map_values(|t: TokenEnum| t@)
    }
}

/// The concatenation of the surface syntax of a list of token kinds.
pub open spec fn spec_token_names(ts: Seq<TokenKind>) -> Seq<char>
    decreases ts.len(),
{
    if ts.len() == 0 {
        Seq::empty()
    } else {
        spec_token_name(ts[0]) + spec_token_names(ts.skip(1))
    }
}

impl PrintTokens {
    /// Renders the surface syntax of each token, concatenated in order.
    pub fn render(&self) -> (r: String)
        ensures
            r@ == spec_token_names(self@),
    {
        let mut out = String::new();
        let mut i: usize = 0;
        proof {
            assert(self@.skip(0) == self@);
        }
        while i < self.0.len()
            invariant
                0 <= i <= self.0@.len(),
                self@.len() == self.0@.len(),
                forall|k: int| 0 <= k < self.0@.len() ==> self@[k] == self.0@[k]@,
                spec_token_names(self@) == out@ + spec_token_names(self@.skip(i as int)),
            decreases self.0@.len() - i,
        {
            let name = token_name(&self.0[i]);
            out.append(name);
            proof {
                assert(self@.skip(i as int)[0] == self@[i as int]);
                assert(self@.skip(i as int).skip(1) =~= self@.skip(i as int + 1));
            }
            i += 1;
        }
        proof {
            assert(self@.skip(i as int).len() == 0);
            assert(out@ =~= spec_token_names(self@));
        }
        out
    }
}

/// The surface syntax of each token kind: the fixed display table of the
/// error model. Literal payloads render as a placeholder for their class.
pub open spec fn spec_token_name(t: TokenKind) -> Seq<char> {
    match t {
        TokenKind::KWFunc => "func"@,
        TokenKind::KWData => "data"@,
        TokenKind::KWUsing => "using"@,
        TokenKind::KWObject => "object"@,
        TokenKind::KWEnum => "enum"@,
        TokenKind::KWRef => "ref"@,
        TokenKind::KWMut => "mut"@,
        TokenKind::KWPub => "pub"@,
        TokenKind::PipeMatch => "|?"@,
        TokenKind::PipeNext => "|>"@,
        TokenKind::PipeSet => "|="@,
        TokenKind::PipeError => "|!"@,
        TokenKind::PipeReturn => "|."@,
        TokenKind::PipeMatchEnd => "\\?"@,
        TokenKind::LessThen => "<"@,
        TokenKind::GreaterThen => ">"@,
        TokenKind::Plus => "+"@,
        TokenKind::Minus => "-"@,
        TokenKind::Times => "*"@,
        TokenKind::Divide => "/"@,
        TokenKind::Power => "^"@,
        TokenKind::Modulo => "%"@,
        TokenKind::Arrow => "->"@,
        TokenKind::Or => "||"@,
        TokenKind::OpenBrace => "("@,
        TokenKind::CloseBrace => ")"@,
        TokenKind::OpenCurlyBrace => "{"@,
        TokenKind::CloseCurlyBrace => "}"@,
        TokenKind::DoubleColon => "::"@,
        TokenKind::Colon => ":"@,
        TokenKind::SemiColon => ";"@,
        TokenKind::Period => "."@,
        TokenKind::Comma => ","@,
        TokenKind::Identifier(_) => "<identifier>"@,
        TokenKind::Bool(_) => "<true|false>"@,
        TokenKind::Integer(_) => "<integer>"@,
        TokenKind::Float(_) => "<float>"@,
        TokenKind::String(_) => "\"<string>\""@,
    }
}

/// The surface syntax of a token: the executable display table.
pub fn token_name(t: &TokenEnum) -> (r: &'static str)
    ensures
        r@ == spec_token_name(t@),
        r@.len() > 0,
{
    proof {
        lemma_token_name_nonempty(t@);
    }
    match t {
        TokenEnum::KWFunc => "func",
        TokenEnum::KWData => "data",
        TokenEnum::KWUsing => "using",
        TokenEnum::KWObject => "object",
        TokenEnum::KWEnum => "enum",
        TokenEnum::KWRef => "ref",
        TokenEnum::KWMut => "mut",
        TokenEnum::KWPub => "pub",
        TokenEnum::PipeMatch => "|?",
        TokenEnum::PipeNext => "|>",
        TokenEnum::PipeSet => "|=",
        TokenEnum::PipeError => "|!",
        TokenEnum::PipeReturn => "|.",
        TokenEnum::PipeMatchEnd => "\\?",
        TokenEnum::LessThen => "<",
        TokenEnum::GreaterThen => ">",
        TokenEnum::Plus => "+",
        TokenEnum::Minus => "-",
        TokenEnum::Times => "*",
        TokenEnum::Divide => "/",
        TokenEnum::Power => "^",
        TokenEnum::Modulo => "%",
        TokenEnum::Arrow => "->",
        TokenEnum::Or => "||",
        TokenEnum::OpenBrace => "(",
        TokenEnum::CloseBrace => ")",
        TokenEnum::OpenCurlyBrace => "{",
        TokenEnum::CloseCurlyBrace => "}",
        TokenEnum::DoubleColon => "::",
        TokenEnum::Colon => ":",
        TokenEnum::SemiColon => ";",
        TokenEnum::Period => ".",
        TokenEnum::Comma => ",",
        TokenEnum::Identifier(_) => "<identifier>",
        TokenEnum::Bool(_) => "<true|false>",
        TokenEnum::Integer(_) => "<integer>",
        TokenEnum::Float(_) => "<float>",
        TokenEnum::String(_) => "\"<string>\"",
    }
}

/// The display table renders every token kind as at least one character.
pub proof fn lemma_token_name_nonempty(t: TokenKind)
    ensures
        spec_token_name(t).len() > 0,
{
    reveal_strlit("func");
    reveal_strlit("data");
    reveal_strlit("using");
    reveal_strlit("object");
    reveal_strlit("enum");
    reveal_strlit("ref");
    reveal_strlit("mut");
    reveal_strlit("pub");
    reveal_strlit("|?");
    reveal_strlit("|>");
    reveal_strlit("|=");
    reveal_strlit("|!");
    reveal_strlit("|.");
    reveal_strlit("\\?");
    reveal_strlit("<");
    reveal_strlit(">");
    reveal_strlit("+");
    reveal_strlit("-");
    reveal_strlit("*");
    reveal_strlit("/");
    reveal_strlit("^");
    reveal_strlit("%");
    reveal_strlit("->");
    reveal_strlit("||");
    reveal_strlit("(");
    reveal_strlit(")");
    reveal_strlit("{");
    reveal_strlit("}");
    reveal_strlit("::");
    reveal_strlit(":");
    reveal_strlit(";");
    reveal_strlit(".");
    reveal_strlit(",");
    reveal_strlit("<identifier>");
    reveal_strlit("<true|false>");
    reveal_strlit("<integer>");
    reveal_strlit("<float>");
    reveal_strlit("\"<string>\"");
}

/// The message text of an error kind.
pub open spec fn spec_message(k: SpecErrorKind) -> Seq<char> {
    match k {
        SpecErrorKind::UnclosedString => "Unclosed string"@,
        SpecErrorKind::ExpectedPipe(desc) => desc,
        SpecErrorKind::UnexpectedToken(t) => "Unexpected token '"@ + spec_token_name(t)
            + seq!['\''],
        SpecErrorKind::UnexpectedEndOfInput { expected } => "Unexpected end of input, expected '"@
            + spec_token_name(expected) + seq!['\''],
        SpecErrorKind::ExpectedToken { expected, found } => "Expected '"@ + spec_token_name(
            expected,
        ) + "', found '"@ + spec_token_name(found) + seq!['\''],
        SpecErrorKind::ExpectedOneOf { expected, found } => "Expected one of "@ + spec_token_names(
            expected,
        ) + ", found '"@ + spec_token_name(found) + seq!['\''],
    }
}

/// The full rendering of a positioned error: `row:column: message`.
pub open spec fn spec_render(e: SpecError) -> Seq<char> {
    dec_digits(e.row as nat) + seq![':'] + dec_digits(e.column as nat) + seq![':', ' ']
        + spec_message(e.error)
}

/// The message text of an error kind, as an owned string.
pub fn render_kind(k: &CompileErrorEnum) -> (r: String)
    ensures
        r@ == spec_message(k@),
{
    match k {
        CompileErrorEnum::UnclosedString => {
            let mut out = String::new();
            out.append("Unclosed string");
            proof {
                assert(out@ =~= spec_message(k@));
            }
            out
        },
        CompileErrorEnum::ExpectedPipe(desc) => {
            let out = desc.clone();
            proof {
                assert(out@ =~= spec_message(k@));
            }
            out
        },
        CompileErrorEnum::UnexpectedToken(t) => {
            let mut out = String::new();
            out.append("Unexpected token '");
            out.append(token_name(t));
            out.append("'");
            proof {
                reveal_strlit("'");
                assert(out@ =~= spec_message(k@));
            }
            out
        },
        CompileErrorEnum::UnexpectedEndOfInput { expected } => {
            let mut out = String::new();
            out.append("Unexpected end of input, expected '");
            out.append(token_name(&expected.0));
            out.append("'");
            proof {
                reveal_strlit("'");
                assert(out@ =~= spec_message(k@));
            }
            out
        },
        CompileErrorEnum::ExpectedToken { expected, found } => {
            let mut out = String::new();
            out.append("Expected '");
            out.append(token_name(&expected.0));
            out.append("', found '");
            out.append(token_name(found));
            out.append("'");
            proof {
                reveal_strlit("'");
                assert(out@ =~= spec_message(k@));
            }
            out
        },
        CompileErrorEnum::ExpectedOneOf { expected, found } => {
            let mut out = String::new();
            out.append("Expected one of ");
            let names = expected.render();
            out.append(names.as_str());
            out.append(", found '");
            out.append(token_name(found));
            out.append("'");
            proof {
                reveal_strlit("'");
                assert(out@ =~= spec_message(k@));
            }
            out
        },
    }
}

} // verus!
