//! The error model: three error kinds, each carrying a message and a 1-based
//! source line, and a verified rendering to a single human-readable line.

use vstd::prelude::*;
use crate::numeric::dec_digits;
use crate::numeric::format_u64;

verus! {

/// An error from one of the three phases. A lexical error additionally
/// carries the offending character, with a space standing in when no single
/// character is to blame.
#[derive(Debug)]
pub enum LoxError {
    LexError { ch: char, msg: String, line: usize },
    ParseError { msg: String, line: usize },
    RunTimeError { msg: String, line: usize },
}

/// The mathematical model of an error.
pub enum LoxErrorV {
    LexError { ch: char, msg: Seq<char>, line: int },
    ParseError { msg: Seq<char>, line: int },
    RunTimeError { msg: Seq<char>, line: int },
}

impl View for LoxError {
    type V = LoxErrorV;

    open spec fn view(&self) -> LoxErrorV {
        match self {
            LoxError::LexError { ch, msg, line } => LoxErrorV::LexError {
                ch: *ch,
                msg: msg@,
                line: *line as int,
            },
            LoxError::ParseError { msg, line } => LoxErrorV::ParseError {
                msg: msg@,
                line: *line as int,
            },
            LoxError::RunTimeError { msg, line } => LoxErrorV::RunTimeError {
                msg: msg@,
                line: *line as int,
            },
        }
    }
}

/// Relies on char::to_string: the one-character string of a character.
#[verifier::external_body]
fn char_string(c: char) -> (r: String)
    ensures
        r@ == seq![c],
{
    c.to_string()
}

/// The rendered text of an error: `[line N] Kind message`, with the
/// offending character interposed in backticks for a character-specific
/// lexical error.
pub open spec fn render_text(e: LoxErrorV) -> Seq<char> {
    match e {
        LoxErrorV::LexError { ch, msg, line } => {
            if ch == ' ' {
                "[line "@ + dec_digits(line as nat) + "] LexError "@ + msg
            } else {
                "[line "@ + dec_digits(line as nat) + "] LexError `"@ + seq![ch] + "` "@ + msg
            }
        },
        LoxErrorV::ParseError { msg, line } => {
            "[line "@ + dec_digits(line as nat) + "] ParseError "@ + msg
        },
        LoxErrorV::RunTimeError { msg, line } => {
            "[line "@ + dec_digits(line as nat) + "] RunTimeError "@ + msg
        },
    }
}

impl LoxError {
    /// The line the error is tagged with.
    pub fn line(&self) -> (r: usize)
        ensures
            r as int == match self@ {
                LoxErrorV::LexError { line, .. } => line,
                LoxErrorV::ParseError { line, .. } => line,
                LoxErrorV::RunTimeError { line, .. } => line,
            },
    {
        match self {
            LoxError::LexError { line, .. } => *line,
            LoxError::ParseError { line, .. } => *line,
            LoxError::RunTimeError { line, .. } => *line,
        }
    }

    /// The single human-readable line this error renders to.
    pub fn render(&self) -> (r: String)
        ensures
            r@ == render_text(self@),
    {
        proof {
            reveal_strlit("[line ");
        }
        match self {
            LoxError::LexError { ch, msg, line } => {
                proof {
                    reveal_strlit("] LexError ");
                    reveal_strlit("] LexError `");
                    reveal_strlit("` ");
                }
                let head = String::from_str("[line ").concat(
                    format_u64(*line as u64).as_str(),
                );
                if *ch == ' ' {
                    let r = head.concat("] LexError ").concat(msg.as_str());
                    proof {
                        assert(r@ =~= render_text(self@));
                    }
                    r
                } else {
                    let r = head.concat("] LexError `").concat(char_string(*ch).as_str()).concat(
                        "` ",
                    ).concat(msg.as_str());
                    proof {
                        assert(r@ =~= render_text(self@));
                    }
                    r
                }
            },
            LoxError::ParseError { msg, line } => {
                proof {
                    reveal_strlit("] ParseError ");
                }
                let r = String::from_str("[line ").concat(format_u64(*line as u64).as_str()).concat(
                    "] ParseError ",
                ).concat(msg.as_str());
                proof {
                    assert(r@ =~= render_text(self@));
                }
                r
            },
            LoxError::RunTimeError { msg, line } => {
                proof {
                    reveal_strlit("] RunTimeError ");
                }
                let r = String::from_str("[line ").concat(format_u64(*line as u64).as_str()).concat(
                    "] RunTimeError ",
                ).concat(msg.as_str());
                proof {
                    assert(r@ =~= render_text(self@));
                }
                r
            },
        }
    }
}

} // verus!
