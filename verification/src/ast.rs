//! A first syntax-tree node: qualified identifiers, read from a token
//! cursor by following `::`-separated name segments.

use vstd::prelude::*;

use crate::cursor::Cursor;
use crate::error::{CompileError, CompileErrorEnum, PrintToken, SpecError, SpecErrorKind};
use crate::tokenizer::{Token, TokenEnum, TokenKind};

verus! {

/// A positioned syntax-tree node.
#[derive(Debug, Clone, PartialEq)]
pub struct AstNode {
    pub row: usize,
    pub column: usize,
    pub node: AstNodeEnum,
}

/// The kinds of syntax-tree nodes built so far.
#[derive(Debug, Clone, PartialEq)]
pub enum AstNodeEnum {
    Identifier(String),
}

impl View for AstNodeEnum {
    type V = Seq<char>;

    open spec fn view(&self) -> Seq<char> {
        match self {
            AstNodeEnum::Identifier(s) => s@,
        }
    }
}

/// An owned copy of a token kind, with the very same model.
fn clone_token(t: &TokenEnum) -> (r: TokenEnum)
    ensures
        r@ == t@,
{
    match t {
        TokenEnum::KWFunc => TokenEnum::KWFunc,
        TokenEnum::KWData => TokenEnum::KWData,
        TokenEnum::KWUsing => TokenEnum::KWUsing,
        TokenEnum::KWObject => TokenEnum::KWObject,
        TokenEnum::KWEnum => TokenEnum::KWEnum,
        TokenEnum::KWRef => TokenEnum::KWRef,
        TokenEnum::KWMut => TokenEnum::KWMut,
        TokenEnum::KWPub => TokenEnum::KWPub,
        TokenEnum::PipeMatch => TokenEnum::PipeMatch,
        TokenEnum::PipeNext => TokenEnum::PipeNext,
        TokenEnum::PipeSet => TokenEnum::PipeSet,
        TokenEnum::PipeError => TokenEnum::PipeError,
        TokenEnum::PipeReturn => TokenEnum::PipeReturn,
        TokenEnum::PipeMatchEnd => TokenEnum::PipeMatchEnd,
        TokenEnum::LessThen => TokenEnum::LessThen,
        TokenEnum::GreaterThen => TokenEnum::GreaterThen,
        TokenEnum::Plus => TokenEnum::Plus,
        TokenEnum::Minus => TokenEnum::Minus,
        TokenEnum::Times => TokenEnum::Times,
        TokenEnum::Divide => TokenEnum::Divide,
        TokenEnum::Power => TokenEnum::Power,
        TokenEnum::Modulo => TokenEnum::Modulo,
        TokenEnum::Arrow => TokenEnum::Arrow,
        TokenEnum::Or => TokenEnum::Or,
        TokenEnum::OpenBrace => TokenEnum::OpenBrace,
        TokenEnum::CloseBrace => TokenEnum::CloseBrace,
        TokenEnum::OpenCurlyBrace => TokenEnum::OpenCurlyBrace,
        TokenEnum::CloseCurlyBrace => TokenEnum::CloseCurlyBrace,
        TokenEnum::DoubleColon => TokenEnum::DoubleColon,
        TokenEnum::Colon => TokenEnum::Colon,
        TokenEnum::SemiColon => TokenEnum::SemiColon,
        TokenEnum::Period => TokenEnum::Period,
        TokenEnum::Comma => TokenEnum::Comma,
        TokenEnum::Identifier(s) => TokenEnum::Identifier(s.clone()),
        TokenEnum::Bool(b) => TokenEnum::Bool(*b),
        TokenEnum::Integer(v) => TokenEnum::Integer(*v),
        TokenEnum::Float(s) => TokenEnum::Float(s.clone()),
        TokenEnum::String(s) => TokenEnum::String(s.clone()),
    }
}

/// The qualified name gathered by following `::`-separated identifier
/// segments: starting past the current token, each `::` that follows must
/// be followed by an identifier, which extends the name; the first token
/// after the chain is left unconsumed. An input that ends after a `::`, or
/// continues with anything but an identifier, is an error at that point.
pub open spec fn ident_chain(s: Seq<Token>, acc: Seq<char>) -> (Result<Seq<char>, SpecError>, Seq<
    Token,
>)
    decreases s.len(),
{
    if s.len() == 0 {
        (Ok(acc), s)
    } else if s.len() == 1 || !(s[1].token@ is DoubleColon) {
        (Ok(acc), s.skip(1))
    } else {
        let acc2 = acc + "::"@;
        if s.len() == 2 {
            (
                Err(
                    SpecError {
                        row: s[1].row as int,
                        column: s[1].column as int,
                        error: SpecErrorKind::UnexpectedEndOfInput {
                            expected: TokenKind::Identifier(Seq::empty()),
                        },
                    },
                ),
                s.skip(2),
            )
        } else {
            match s[2].token@ {
                TokenKind::Identifier(e) => ident_chain(s.skip(2), acc2 + e),
                found => (
                    Err(
                        SpecError {
                            row: s[2].row as int,
                            column: s[2].column as int,
                            error: SpecErrorKind::ExpectedToken {
                                expected: TokenKind::Identifier(Seq::empty()),
                                found,
                            },
                        },
                    ),
                    s.skip(2),
                ),
            }
        }
    }
}

/// Reads the rest of a qualified identifier whose first segment,
/// `identifier`, the caller has already read (the cursor still stands on
/// it): `::`-separated identifier segments are appended until a token that
/// does not continue the chain, which stays unconsumed. Follows
/// [`ident_chain`] exactly.
pub fn parse_identifier(cursor: &mut Cursor<Token>, identifier: String) -> (r: Result<
    AstNodeEnum,
    CompileError,
>)
    ensures
        ({
            let (res, rest) = ident_chain(old(cursor)@, identifier@);
            &&& final(cursor)@ == rest
            &&& match res {
                Ok(name) => r matches Ok(node) && node@ == name,
                Err(e) => r matches Err(ce) && ce@ == e,
            }
        }),
{
    let ghost orig = old(cursor)@;
    let ghost id0 = identifier@;
    let mut identifier = identifier;
    let mut failure: Option<CompileError> = None;
    loop
        invariant_except_break
            ident_chain(orig, id0) == ident_chain(cursor@, identifier@),
            failure is None,
        ensures
            ident_chain(orig, id0).1 == cursor@,
            match failure {
                None => ident_chain(orig, id0).0 == Ok::<Seq<char>, SpecError>(identifier@),
                Some(ce) => ident_chain(orig, id0).0 == Err::<Seq<char>, SpecError>(ce@),
            },
        decreases cursor@.len(),
    {
        let ghost pre = cursor@;
        let ghost acc0 = identifier@;
        let _ = cursor.next();
        proof {
            if pre.len() >= 2 {
                assert(pre.skip(1)[0] == pre[1]);
                assert(pre.skip(1).skip(1) =~= pre.skip(2));
            }
        }
        let is_dc = match cursor.peek() {
            Some(tok) => match &tok.token {
                TokenEnum::DoubleColon => true,
                _ => false,
            },
            None => false,
        };
        if !is_dc {
            proof {
                if pre.len() >= 2 {
                    assert(!(pre[1].token@ is DoubleColon));
                }
                assert(ident_chain(pre, acc0).0 == Ok::<Seq<char>, SpecError>(acc0));
                assert(ident_chain(pre, acc0).1 == cursor@);
            }
            break;
        }
        proof {
            assert(pre.len() >= 2);
            assert(pre[1].token@ is DoubleColon);
        }
        identifier.append("::");
        let dc = cursor.next().unwrap();
        proof {
            assert(dc == pre[1]);
            assert(cursor@ =~= pre.skip(2));
            assert(identifier@ == acc0 + "::"@);
        }
        match cursor.peek() {
            None => {
                proof {
                    assert(pre.skip(2).len() == 0);
                    assert(pre.len() == 2);
                }
                let ce = CompileError::new(
                    dc.row,
                    dc.column,
                    CompileErrorEnum::UnexpectedEndOfInput {
                        expected: PrintToken(TokenEnum::Identifier(String::new())),
                    },
                );
                proof {
                    assert(ce@.error == (SpecErrorKind::UnexpectedEndOfInput {
                        expected: TokenKind::Identifier(Seq::empty()),
                    }));
                    assert(ident_chain(pre, acc0).1 == pre.skip(2));
                    assert(ident_chain(pre, acc0).0 matches Err(e) && e == ce@);
                }
                failure = Some(ce);
                break;
            },
            Some(tok) => {
                proof {
                    assert(pre.len() >= 3);
                    assert(pre.skip(2)[0] == pre[2]);
                }
                let is_ident = match &tok.token {
                    TokenEnum::Identifier(_) => true,
                    _ => false,
                };
                if is_ident {
                    match &tok.token {
                        TokenEnum::Identifier(e) => {
                            identifier.append(e.as_str());
                            proof {
                                assert(pre[2].token@ == TokenKind::Identifier(e@));
                                assert(identifier@ =~= acc0 + "::"@ + e@);
                                assert(ident_chain(pre, acc0) == ident_chain(
                                    pre.skip(2),
                                    acc0 + "::"@ + e@,
                                ));
                            }
                        },
                        _ => {},
                    }
                } else {
                    proof {
                        assert(!(pre[2].token@ is Identifier));
                    }
                    let found = clone_token(&tok.token);
                    let row = tok.row;
                    let column = tok.column;
                    let ce = CompileError::new(
                        row,
                        column,
                        CompileErrorEnum::ExpectedToken {
                            expected: PrintToken(TokenEnum::Identifier(String::new())),
                            found,
                        },
                    );
                    proof {
                        assert(ce@.error == (SpecErrorKind::ExpectedToken {
                            expected: TokenKind::Identifier(Seq::empty()),
                            found: pre[2].token@,
                        }));
                        assert(ident_chain(pre, acc0).1 == pre.skip(2));
                        assert(ident_chain(pre, acc0).0 matches Err(e) && e == ce@);
                    }
                    failure = Some(ce);
                    break;
                }
            },
        }
    }
    match failure {
        None => Ok(AstNodeEnum::Identifier(identifier)),
        Some(ce) => Err(ce),
    }
}

} // verus!
