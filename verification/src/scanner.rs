//! The lexer: converts a byte sequence into a token sequence, tracking line
//! numbers, fusing two-character operators by one byte of lookahead,
//! skipping whitespace and line comments, classifying identifiers against
//! the keyword table, and collecting — never stopping at — lexical errors.

use vstd::prelude::*;
use crate::token::{Token, TokenType, TokenV, LoxType, LoxTypeV};
use crate::error::{LoxError, LoxErrorV};
use crate::numeric::{is_digit_byte, dec_bits_of, is_numeral, num_from_decimal};

verus! {

/// Whether a byte begins an identifier: an ASCII letter or underscore.
pub open spec fn is_alpha_byte(b: u8) -> bool {
    (97 <= b <= 122) || (65 <= b <= 90) || b == 95
}

/// Whether a byte may continue an identifier.
pub open spec fn is_alnum_byte(b: u8) -> bool {
    is_alpha_byte(b) || is_digit_byte(b)
}

/// The characters of an ASCII byte sequence.
pub open spec fn ascii_chars(bs: Seq<u8>) -> Seq<char> {
    bs.map(|k: int, b: u8| b as char)
}

/// What a byte sequence decodes to as UTF-8, when it is valid UTF-8.
pub uninterp spec fn utf8_decode(bytes: Seq<u8>) -> Option<Seq<char>>;

/// Relies on String::from_utf8: the UTF-8 decoding of a byte sequence, a
/// function of the bytes alone; ASCII bytes always decode, each to its own
/// character.
#[verifier::external_body]
fn bytes_to_string(bytes: Vec<u8>) -> (r: Option<String>)
    ensures
        utf8_decode(bytes@) == (match r {
            Option::Some(s) => Option::Some(s@),
            Option::None => Option::<Seq<char>>::None,
        }),
        match r {
            Option::Some(s) => (forall|k: int| 0 <= k < bytes@.len() ==> bytes@[k] < 128) ==> s@
                == ascii_chars(bytes@),
            Option::None => exists|k: int| 0 <= k < bytes@.len() && bytes@[k] >= 128,
        },
{
    match String::from_utf8(bytes) {
        Ok(s) => Option::Some(s),
        Err(_) => Option::None,
    }
}

/// The index of the next newline at or after `j`, or the end of input.
pub open spec fn find_eol(src: Seq<u8>, j: int) -> int
    decreases src.len() - j,
{
    if 0 <= j < src.len() {
        if src[j] == 10 {
            j
        } else {
            find_eol(src, j + 1)
        }
    } else {
        src.len() as int
    }
}

/// The newline search stays within bounds and passes only non-newlines.
pub proof fn lemma_find_eol(src: Seq<u8>, j: int)
    requires
        0 <= j <= src.len(),
    ensures
        j <= find_eol(src, j) <= src.len(),
        find_eol(src, j) < src.len() ==> src[find_eol(src, j)] == 10,
        forall|k: int| j <= k < find_eol(src, j) ==> src[k] != 10,
    decreases src.len() - j,
{
    if j < src.len() && src[j] != 10 {
        lemma_find_eol(src, j + 1);
    }
}

/// The index just past the run of decimal digits starting at `j`.
pub open spec fn digit_run_end(src: Seq<u8>, j: int) -> int
    decreases src.len() - j,
{
    if 0 <= j < src.len() {
        if is_digit_byte(src[j]) {
            digit_run_end(src, j + 1)
        } else {
            j
        }
    } else {
        j
    }
}

/// The digit run stays within bounds, covers only digits, and stops at the
/// first non-digit.
pub proof fn lemma_digit_run_end(src: Seq<u8>, j: int)
    requires
        0 <= j <= src.len(),
    ensures
        j <= digit_run_end(src, j) <= src.len(),
        forall|k: int| j <= k < digit_run_end(src, j) ==> is_digit_byte(src[k]),
        digit_run_end(src, j) < src.len() ==> !is_digit_byte(src[digit_run_end(src, j)]),
    decreases src.len() - j,
{
    if j < src.len() && is_digit_byte(src[j]) {
        lemma_digit_run_end(src, j + 1);
    }
}

/// The index just past the run of identifier bytes starting at `j`.
pub open spec fn ident_run_end(src: Seq<u8>, j: int) -> int
    decreases src.len() - j,
{
    if 0 <= j < src.len() {
        if is_alnum_byte(src[j]) {
            ident_run_end(src, j + 1)
        } else {
            j
        }
    } else {
        j
    }
}

/// The identifier run stays within bounds, covers only identifier bytes,
/// and stops at the first byte that is neither letter, digit nor
/// underscore.
pub proof fn lemma_ident_run_end(src: Seq<u8>, j: int)
    requires
        0 <= j <= src.len(),
    ensures
        j <= ident_run_end(src, j) <= src.len(),
        forall|k: int| j <= k < ident_run_end(src, j) ==> is_alnum_byte(src[k]),
        ident_run_end(src, j) < src.len() ==> !is_alnum_byte(src[ident_run_end(src, j)]),
    decreases src.len() - j,
{
    if j < src.len() && is_alnum_byte(src[j]) {
        lemma_ident_run_end(src, j + 1);
    }
}

/// The walk of a string literal's body from `j`: whether a closing quote
/// was found, where the walk stopped, and the line counter after the
/// newlines passed on the way.
#[verifier::ext_equal]
pub struct StrScan {
    pub found: bool,
    pub end: int,
    pub line: int,
}

/// Walks a string literal's body until the closing quote or the end of
/// input, counting embedded newlines.
pub open spec fn scan_string(src: Seq<u8>, j: int, line: int) -> StrScan
    decreases src.len() - j,
{
    if 0 <= j < src.len() {
        if src[j] == 34 {
            StrScan { found: true, end: j, line }
        } else {
            scan_string(src, j + 1, if src[j] == 10 {
                line + 1
            } else {
                line
            })
        }
    } else {
        StrScan { found: false, end: src.len() as int, line }
    }
}

/// The string walk stays within bounds; a found end carries the closing
/// quote and no quote stands before it.
pub proof fn lemma_scan_string(src: Seq<u8>, j: int, line: int)
    requires
        0 <= j <= src.len(),
    ensures
        j <= scan_string(src, j, line).end <= src.len(),
        scan_string(src, j, line).found ==> scan_string(src, j, line).end < src.len() && src[
            scan_string(src, j, line).end
        ] == 34,
        !scan_string(src, j, line).found ==> scan_string(src, j, line).end == src.len(),
        line <= scan_string(src, j, line).line,
        scan_string(src, j, line).line - line <= scan_string(src, j, line).end - j,
    decreases src.len() - j,
{
    if j < src.len() && src[j] != 34 {
        lemma_scan_string(src, j + 1, if src[j] == 10 {
            line + 1
        } else {
            line
        });
    }
}

/// The result of scanning the rest of the input: the tokens and errors
/// produced, in order, and the final line counter.
#[verifier::ext_equal]
pub struct ScanOut {
    pub toks: Seq<TokenV>,
    pub errs: Seq<LoxErrorV>,
    pub line: int,
}

/// A token carrying no payload.
pub open spec fn plain_token(kind: TokenType, line: int) -> TokenV {
    TokenV { kind, literal: LoxTypeV::Nil, line }
}

/// The model of the unterminated-string message.
pub open spec fn unterminated_msg() -> Seq<char> {
    "Unterminated string."@
}

/// The model of the invalid-encoding message for a string literal whose
/// bytes are not valid UTF-8.
pub open spec fn invalid_utf8_msg() -> Seq<char> {
    "Invalid string encoding."@
}

/// The model of the unexpected-character message.
pub open spec fn unexpected_msg() -> Seq<char> {
    "Unexpected character."@
}

/// The keyword table: the token kind an identifier's text classifies to.
pub open spec fn keyword_kind(text: Seq<char>) -> TokenType {
    if text == "and"@ {
        TokenType::And
    } else if text == "class"@ {
        TokenType::Class
    } else if text == "else"@ {
        TokenType::Else
    } else if text == "false"@ {
        TokenType::False
    } else if text == "for"@ {
        TokenType::For
    } else if text == "fun"@ {
        TokenType::Fun
    } else if text == "if"@ {
        TokenType::If
    } else if text == "nil"@ {
        TokenType::Nil
    } else if text == "or"@ {
        TokenType::Or
    } else if text == "print"@ {
        TokenType::Print
    } else if text == "return"@ {
        TokenType::Return
    } else if text == "super"@ {
        TokenType::Super
    } else if text == "this"@ {
        TokenType::This
    } else if text == "true"@ {
        TokenType::True
    } else if text == "var"@ {
        TokenType::Var
    } else if text == "while"@ {
        TokenType::While
    } else {
        TokenType::Identifier
    }
}

/// The literal payload of an identifier or keyword token.
pub open spec fn ident_literal(text: Seq<char>) -> LoxTypeV {
    if keyword_kind(text) == TokenType::Identifier {
        LoxTypeV::Id(text)
    } else {
        LoxTypeV::Nil
    }
}

/// Prepends a token to a scan result.
pub open spec fn cons_tok(t: TokenV, r: ScanOut) -> ScanOut {
    ScanOut { toks: seq![t] + r.toks, errs: r.errs, line: r.line }
}

/// Prepends an error to a scan result.
pub open spec fn cons_err(e: LoxErrorV, r: ScanOut) -> ScanOut {
    ScanOut { toks: r.toks, errs: seq![e] + r.errs, line: r.line }
}

/// The big-step semantics of scanning: the tokens, errors and final line
/// of the input from position `i` on, with the line counter at `line`.
pub open spec fn spec_scan(src: Seq<u8>, i: int, line: int) -> ScanOut
    decreases src.len() - i,
    via spec_scan_decreases
{
    if !(0 <= i < src.len()) {
        ScanOut { toks: seq![], errs: seq![], line }
    } else {
        let b = src[i];
        if b == 40 {
            cons_tok(plain_token(TokenType::LeftParen, line), spec_scan(src, i + 1, line))
        } else if b == 41 {
            cons_tok(plain_token(TokenType::RightParen, line), spec_scan(src, i + 1, line))
        } else if b == 123 {
            cons_tok(plain_token(TokenType::LeftBrace, line), spec_scan(src, i + 1, line))
        } else if b == 125 {
            cons_tok(plain_token(TokenType::RightBrace, line), spec_scan(src, i + 1, line))
        } else if b == 44 {
            cons_tok(plain_token(TokenType::Comma, line), spec_scan(src, i + 1, line))
        } else if b == 46 {
            cons_tok(plain_token(TokenType::Dot, line), spec_scan(src, i + 1, line))
        } else if b == 45 {
            cons_tok(plain_token(TokenType::Minus, line), spec_scan(src, i + 1, line))
        } else if b == 43 {
            cons_tok(plain_token(TokenType::Plus, line), spec_scan(src, i + 1, line))
        } else if b == 59 {
            cons_tok(plain_token(TokenType::Semicolon, line), spec_scan(src, i + 1, line))
        } else if b == 42 {
            cons_tok(plain_token(TokenType::Star, line), spec_scan(src, i + 1, line))
        } else if b == 33 {
            if i + 1 < src.len() && src[i + 1] == 61 {
                cons_tok(plain_token(TokenType::BangEqual, line), spec_scan(src, i + 2, line))
            } else {
                cons_tok(plain_token(TokenType::Bang, line), spec_scan(src, i + 1, line))
            }
        } else if b == 61 {
            if i + 1 < src.len() && src[i + 1] == 61 {
                cons_tok(plain_token(TokenType::EqualEqual, line), spec_scan(src, i + 2, line))
            } else {
                cons_tok(plain_token(TokenType::Equal, line), spec_scan(src, i + 1, line))
            }
        } else if b == 60 {
            if i + 1 < src.len() && src[i + 1] == 61 {
                cons_tok(plain_token(TokenType::LessEqual, line), spec_scan(src, i + 2, line))
            } else {
                cons_tok(plain_token(TokenType::Less, line), spec_scan(src, i + 1, line))
            }
        } else if b == 62 {
            if i + 1 < src.len() && src[i + 1] == 61 {
                cons_tok(plain_token(TokenType::GreaterEqual, line), spec_scan(src, i + 2, line))
            } else {
                cons_tok(plain_token(TokenType::Greater, line), spec_scan(src, i + 1, line))
            }
        } else if b == 47 {
            if i + 1 < src.len() && src[i + 1] == 47 {
                spec_scan(src, find_eol(src, i + 2), line)
            } else {
                cons_tok(plain_token(TokenType::Slash, line), spec_scan(src, i + 1, line))
            }
        } else if b == 32 || b == 13 || b == 9 {
            spec_scan(src, i + 1, line)
        } else if b == 10 {
            spec_scan(src, i + 1, line + 1)
        } else if b == 34 {
            let ss = scan_string(src, i + 1, line);
            if !ss.found {
                ScanOut {
                    toks: seq![],
                    errs: seq![
                        LoxErrorV::LexError { ch: ' ', msg: unterminated_msg(), line: ss.line },
                    ],
                    line: ss.line,
                }
            } else {
                let body = src.subrange(i + 1, ss.end);
                match utf8_decode(body) {
                    Option::Some(text) => cons_tok(
                        TokenV { kind: TokenType::String, literal: LoxTypeV::String(text), line: ss.line },
                        spec_scan(src, ss.end + 1, ss.line),
                    ),
                    Option::None => cons_err(
                        LoxErrorV::LexError { ch: ' ', msg: invalid_utf8_msg(), line: ss.line },
                        spec_scan(src, ss.end + 1, ss.line),
                    ),
                }
            }
        } else if is_digit_byte(b) {
            let de = digit_run_end(src, i + 1);
            let end = if de < src.len() && src[de] == 46 && de + 1 < src.len() && is_digit_byte(
                src[de + 1],
            ) {
                digit_run_end(src, de + 2)
            } else {
                de
            };
            let text = src.subrange(i, end);
            cons_tok(
                TokenV {
                    kind: TokenType::Number,
                    literal: LoxTypeV::Number(dec_bits_of(text)),
                    line,
                },
                spec_scan(src, end, line),
            )
        } else if is_alpha_byte(b) {
            let end = ident_run_end(src, i + 1);
            let text = ascii_chars(src.subrange(i, end));
            cons_tok(
                TokenV { kind: keyword_kind(text), literal: ident_literal(text), line },
                spec_scan(src, end, line),
            )
        } else {
            cons_err(
                LoxErrorV::LexError { ch: b as char, msg: unexpected_msg(), line },
                spec_scan(src, i + 1, line),
            )
        }
    }
}

/// The model of a token sequence.
pub open spec fn tokens_view(ts: Seq<Token>) -> Seq<TokenV> {
    ts.map(|j: int, t: Token| t@)
}

/// The model of an error sequence.
pub open spec fn errors_view(es: Seq<LoxError>) -> Seq<LoxErrorV> {
    es.map(|j: int, e: LoxError| e@)
}

/// The byte-walking lexer state: the source, the cursor, and the current
/// 1-based line.
pub struct Scanner {
    pub source: Vec<u8>,
    pub current: usize,
    pub line: usize,
}

impl Scanner {
    /// A scanner at the start of the given source, on line one.
    #[inline]
    pub fn new(source: Vec<u8>) -> (s: Scanner)
        ensures
            s.source == source,
            s.current == 0,
            s.line == 1,
    {
        Scanner { source, current: 0, line: 1 }
    }

    /// Whether the cursor has passed the last byte.
    #[inline]
    pub fn is_at_end(&self) -> (r: bool)
        ensures
            r == (self.current >= self.source@.len()),
    {
        self.current >= self.source.len()
    }

    /// Consumes and yields the byte under the cursor.
    #[inline]
    pub fn advance(&mut self) -> (r: u8)
        requires
            old(self).current < old(self).source@.len(),
        ensures
            final(self).source@ == old(self).source@,
            final(self).line == old(self).line,
            final(self).current == old(self).current + 1,
            r == old(self).source@[old(self).current as int],
    {
        let n = self.source.len();
        self.current = self.current + 1;
        self.source[self.current - 1]
    }

    /// The byte under the cursor, or zero at the end of input.
    #[inline]
    pub fn peek(&self) -> (r: u8)
        ensures
            r == if self.current < self.source@.len() {
                self.source@[self.current as int]
            } else {
                0
            },
    {
        if self.is_at_end() {
            return 0u8;
        }
        self.source[self.current]
    }

    /// The byte after the cursor, or zero past the end of input.
    #[inline]
    pub fn peek_next(&self) -> (r: u8)
        ensures
            r == if self.current + 1 < self.source@.len() {
                self.source@[self.current + 1]
            } else {
                0
            },
    {
        let n = self.source.len();
        if n == 0 || self.current >= n - 1 {
            return 0u8;
        }
        self.source[self.current + 1]
    }

    /// Consumes the byte under the cursor exactly when it is the expected
    /// one.
    pub fn matching(&mut self, byte: u8) -> (r: bool)
        ensures
            final(self).source@ == old(self).source@,
            final(self).line == old(self).line,
            r == (old(self).current < old(self).source@.len() && old(self).source@[old(
                self,
            ).current as int] == byte),
            final(self).current as int == if r {
                old(self).current + 1
            } else {
                old(self).current as int
            },
    {
        let n = self.source.len();
        if self.current >= n {
            return false;
        }
        if self.source[self.current] != byte {
            return false;
        }
        self.current = self.current + 1;
        true
    }

    /// Whether a byte is a decimal digit.
    #[inline]
    pub fn is_digit(&self, c: u8) -> (r: bool)
        ensures
            r == is_digit_byte(c),
    {
        c >= 48 && c <= 57
    }

    /// Whether a byte is an ASCII letter or underscore.
    #[inline]
    pub fn is_alpha(&self, c: u8) -> (r: bool)
        ensures
            r == is_alpha_byte(c),
    {
        (c >= 97 && c <= 122) || (c >= 65 && c <= 90) || c == 95
    }

    /// Whether a byte may continue an identifier.
    #[inline]
    pub fn is_alpha_numeric(&self, c: u8) -> (r: bool)
        ensures
            r == is_alnum_byte(c),
    {
        self.is_alpha(c) || self.is_digit(c)
    }

    /// Scans a string literal's body from just after the opening quote:
    /// the decoded contents, or the unterminated-string error at the line
    /// the literal spanned to, or the invalid-encoding error.
    pub fn string(&mut self) -> (r: Result<LoxType, LoxError>)
        requires
            old(self).current <= old(self).source@.len(),
            old(self).line + (old(self).source@.len() - old(self).current) <= usize::MAX,
        ensures
            final(self).source@ == old(self).source@,
            ({
                let ss = scan_string(
                    old(self).source@,
                    old(self).current as int,
                    old(self).line as int,
                );
                &&& final(self).line as int == ss.line
                &&& if ss.found {
                    let body = old(self).source@.subrange(old(self).current as int, ss.end);
                    &&& final(self).current as int == ss.end + 1
                    &&& match r {
                        Result::Ok(lt) => utf8_decode(body) == Option::Some(
                            lt@->String_0,
                        ) && lt@ is String,
                        Result::Err(e) => utf8_decode(body) is None && e@
                            == LoxErrorV::LexError {
                            ch: ' ',
                            msg: invalid_utf8_msg(),
                            line: ss.line,
                        },
                    }
                } else {
                    &&& final(self).current as int == old(self).source@.len()
                    &&& r matches Result::Err(e) && e@ == LoxErrorV::LexError {
                        ch: ' ',
                        msg: unterminated_msg(),
                        line: ss.line,
                    }
                }
            }),
    {
        let ghost src = self.source@;
        let ghost ss0 = scan_string(src, self.current as int, self.line as int);
        let start_index = self.current;
        proof {
            lemma_scan_string(src, self.current as int, self.line as int);
        }
        while self.peek() != 34 && !self.is_at_end()
            invariant
                self.source@ == src,
                start_index <= self.current,
                self.current <= src.len(),
                old(self).line + (src.len() - old(self).current) <= usize::MAX,
                old(self).current <= src.len(),
                self.line + (src.len() - self.current) <= old(self).line + (src.len()
                    - old(self).current),
                scan_string(src, self.current as int, self.line as int) == ss0,
            decreases src.len() - self.current,
        {
            if self.peek() == 10 {
                self.line = self.line + 1;
            }
            let _ = self.advance();
        }
        if self.is_at_end() {
            proof {
                reveal_strlit("Unterminated string.");
            }
            return Result::Err(
                LoxError::LexError {
                    ch: ' ',
                    msg: String::from_str("Unterminated string."),
                    line: self.line,
                },
            );
        }
        let mut body: Vec<u8> = Vec::new();
        let mut k = start_index;
        while k < self.current
            invariant
                self.source@ == src,
                start_index <= k <= self.current,
                self.current <= src.len(),
                body@ =~= src.subrange(start_index as int, k as int),
            decreases self.current - k,
        {
            let b = self.source[k];
            body.push(b);
            proof {
                assert(body@ =~= src.subrange(start_index as int, k as int + 1));
            }
            k = k + 1;
        }
        let _ = self.advance();
        match bytes_to_string(body) {
            Option::Some(s) => Result::Ok(LoxType::String(s)),
            Option::None => {
                proof {
                    reveal_strlit("Invalid string encoding.");
                }
                Result::Err(
                    LoxError::LexError {
                        ch: ' ',
                        msg: String::from_str("Invalid string encoding."),
                        line: self.line,
                    },
                )
            },
        }
    }

    /// Scans a number literal whose first digit sits just before the
    /// cursor: the longest digit run, optionally a dot followed by another
    /// digit run, converted to a double's bit pattern.
    pub fn number(&mut self) -> (r: Result<LoxType, LoxError>)
        requires
            0 < old(self).current <= old(self).source@.len(),
            is_digit_byte(old(self).source@[old(self).current - 1]),
        ensures
            final(self).source@ == old(self).source@,
            final(self).line == old(self).line,
            ({
                let src = old(self).source@;
                let i = old(self).current - 1;
                let de = digit_run_end(src, i + 1);
                let end = if de < src.len() && src[de] == 46 && de + 1 < src.len()
                    && is_digit_byte(src[de + 1]) {
                    digit_run_end(src, de + 2)
                } else {
                    de
                };
                &&& final(self).current as int == end
                &&& r matches Result::Ok(lt) && lt@ == LoxTypeV::Number(
                    dec_bits_of(src.subrange(i, end)),
                )
            }),
    {
        let ghost src = self.source@;
        let start_index = self.current - 1;
        let ghost i = start_index as int;
        proof {
            lemma_digit_run_end(src, i + 1);
            assert(digit_run_end(src, i) == digit_run_end(src, i + 1));
        }
        while self.is_digit(self.peek())
            invariant
                self.source@ == src,
                self.line == old(self).line,
                i < self.current,
                self.current <= src.len(),
                digit_run_end(src, self.current as int) == digit_run_end(src, i + 1),
            decreases src.len() - self.current,
        {
            let _ = self.advance();
        }
        let ghost de = digit_run_end(src, i + 1);
        proof {
            assert(self.current as int == de);
        }
        if self.peek() == 46 && self.is_digit(self.peek_next()) {
            let _ = self.advance();
            proof {
                lemma_digit_run_end(src, de + 2);
                assert(digit_run_end(src, de + 1) == digit_run_end(src, de + 2));
            }
            while self.is_digit(self.peek())
                invariant
                    self.source@ == src,
                    self.line == old(self).line,
                    de + 1 <= self.current,
                    self.current <= src.len(),
                    digit_run_end(src, self.current as int) == digit_run_end(src, de + 2),
                decreases src.len() - self.current,
            {
                let _ = self.advance();
            }
        }
        let ghost end = self.current as int;
        let mut text: Vec<u8> = Vec::new();
        let mut k = start_index;
        while k < self.current
            invariant
                self.source@ == src,
                start_index <= k <= self.current,
                self.current <= src.len(),
                text@ =~= src.subrange(start_index as int, k as int),
            decreases self.current - k,
        {
            let b = self.source[k];
            text.push(b);
            proof {
                assert(text@ =~= src.subrange(start_index as int, k as int + 1));
            }
            k = k + 1;
        }
        proof {
            lemma_numeral_shape(src, i, de, end);
            assert(text@ =~= src.subrange(i, end));
        }
        let bits = num_from_decimal(&text);
        Result::Ok(LoxType::Number(bits))
    }

    /// Scans an identifier whose first byte sits just before the cursor
    /// and classifies it against the keyword table; a plain identifier
    /// carries its own text.
    pub fn identifier(&mut self) -> (r: Result<(TokenType, String, LoxType), LoxError>)
        requires
            0 < old(self).current <= old(self).source@.len(),
            is_alpha_byte(old(self).source@[old(self).current - 1]),
        ensures
            final(self).source@ == old(self).source@,
            final(self).line == old(self).line,
            ({
                let src = old(self).source@;
                let i = old(self).current - 1;
                let end = ident_run_end(src, i + 1);
                let text = ascii_chars(src.subrange(i, end));
                &&& final(self).current as int == end
                &&& r matches Result::Ok(t) && t.0 == keyword_kind(text) && t.1@ == text && t.2@
                    == ident_literal(text)
            }),
    {
        let ghost src = self.source@;
        let start_index = self.current - 1;
        let ghost i = start_index as int;
        proof {
            lemma_ident_run_end(src, i + 1);
            assert(ident_run_end(src, i) == ident_run_end(src, i + 1));
        }
        while self.is_alpha_numeric(self.peek())
            invariant
                self.source@ == src,
                self.line == old(self).line,
                i < self.current,
                self.current <= src.len(),
                ident_run_end(src, self.current as int) == ident_run_end(src, i + 1),
            decreases src.len() - self.current,
        {
            let _ = self.advance();
        }
        let ghost end = ident_run_end(src, i + 1);
        let mut bytes: Vec<u8> = Vec::new();
        let mut k = start_index;
        while k < self.current
            invariant
                self.source@ == src,
                start_index <= k <= self.current,
                self.current <= src.len(),
                bytes@ =~= src.subrange(start_index as int, k as int),
            decreases self.current - k,
        {
            let b = self.source[k];
            bytes.push(b);
            proof {
                assert(bytes@ =~= src.subrange(start_index as int, k as int + 1));
            }
            k = k + 1;
        }
        proof {
            assert(forall|m: int| 0 <= m < bytes@.len() ==> bytes@[m] < 128) by {
                assert(forall|m: int|
                    0 <= m < bytes@.len() ==> is_alnum_byte(bytes@[m]) || m == 0);
                assert(is_alpha_byte(bytes@[0]));
            }
        }
        let id = match bytes_to_string(bytes) {
            Option::Some(s) => s,
            Option::None => unreached(),
        };
        let kind = self.classify(&id);
        if matches!(kind, TokenType::Identifier) {
            let text = id.clone();
            Result::Ok((kind, text, LoxType::Id(id)))
        } else {
            Result::Ok((kind, id, LoxType::Nil))
        }
    }

    /// Scans the whole input into tokens: every successfully scanned
    /// stream ends with an end-of-input token at the final line; if any
    /// lexical errors accumulated, they are all handed back instead.
    pub fn scan_tokens(&mut self) -> (r: Result<Vec<Token>, Vec<LoxError>>)
        requires
            old(self).current <= old(self).source@.len(),
            old(self).line + (old(self).source@.len() - old(self).current) <= usize::MAX,
        ensures
            final(self).source@ == old(self).source@,
            ({
                let sc = spec_scan(
                    old(self).source@,
                    old(self).current as int,
                    old(self).line as int,
                );
                match r {
                    Result::Ok(toks) => sc.errs.len() == 0 && tokens_view(toks@) == sc.toks.push(
                        TokenV { kind: TokenType::Eof, literal: LoxTypeV::Nil, line: sc.line },
                    ),
                    Result::Err(errs) => sc.errs.len() > 0 && errors_view(errs@) == sc.errs,
                }
            }),
    {
        let ghost src = self.source@;
        let ghost sc0 = spec_scan(src, self.current as int, self.line as int);
        let mut tokens: Vec<Token> = Vec::new();
        let mut errors: Vec<LoxError> = Vec::new();
        let mut is_error = false;

        while !self.is_at_end()
            invariant
                self.source@ == src,
                self.current <= src.len(),
                old(self).current <= src.len(),
                old(self).line + (src.len() - old(self).current) <= usize::MAX,
                self.line + (src.len() - self.current) <= old(self).line + (src.len() - old(
                    self,
                ).current),
                is_error == (errors@.len() > 0),
                sc0 == spec_scan(src, old(self).current as int, old(self).line as int),
                sc0.toks == tokens_view(tokens@) + spec_scan(
                    src,
                    self.current as int,
                    self.line as int,
                ).toks,
                sc0.errs == errors_view(errors@) + spec_scan(
                    src,
                    self.current as int,
                    self.line as int,
                ).errs,
                sc0.line == spec_scan(src, self.current as int, self.line as int).line,
            decreases src.len() - self.current,
        {
            let ghost i = self.current as int;
            let ghost line0 = self.line as int;
            let ghost tv0 = tokens_view(tokens@);
            let ghost ev0 = errors_view(errors@);
            let byte = self.advance();
            match byte {
                40u8 => {
                    tokens.push(
                        Token { kind: TokenType::LeftParen, literal: LoxType::Nil, line: self.line },
                    );
                    proof {
                        assert(tokens_view(tokens@) =~= tv0.push(
                            plain_token(TokenType::LeftParen, line0),
                        ));
                        assert(sc0.toks =~= tokens_view(tokens@) + spec_scan(
                            src,
                            self.current as int,
                            self.line as int,
                        ).toks);
                    }
                },
                41u8 => {
                    tokens.push(
                        Token {
                            kind: TokenType::RightParen,
                            literal: LoxType::Nil,
                            line: self.line,
                        },
                    );
                    proof {
                        assert(tokens_view(tokens@) =~= tv0.push(
                            plain_token(TokenType::RightParen, line0),
                        ));
                        assert(sc0.toks =~= tokens_view(tokens@) + spec_scan(
                            src,
                            self.current as int,
                            self.line as int,
                        ).toks);
                    }
                },
                123u8 => {
                    tokens.push(
                        Token { kind: TokenType::LeftBrace, literal: LoxType::Nil, line: self.line },
                    );
                    proof {
                        assert(tokens_view(tokens@) =~= tv0.push(
                            plain_token(TokenType::LeftBrace, line0),
                        ));
                        assert(sc0.toks =~= tokens_view(tokens@) + spec_scan(
                            src,
                            self.current as int,
                            self.line as int,
                        ).toks);
                    }
                },
                125u8 => {
                    tokens.push(
                        Token {
                            kind: TokenType::RightBrace,
                            literal: LoxType::Nil,
                            line: self.line,
                        },
                    );
                    proof {
                        assert(tokens_view(tokens@) =~= tv0.push(
                            plain_token(TokenType::RightBrace, line0),
                        ));
                        assert(sc0.toks =~= tokens_view(tokens@) + spec_scan(
                            src,
                            self.current as int,
                            self.line as int,
                        ).toks);
                    }
                },
                44u8 => {
                    tokens.push(
                        Token { kind: TokenType::Comma, literal: LoxType::Nil, line: self.line },
                    );
                    proof {
                        assert(tokens_view(tokens@) =~= tv0.push(
                            plain_token(TokenType::Comma, line0),
                        ));
                        assert(sc0.toks =~= tokens_view(tokens@) + spec_scan(
                            src,
                            self.current as int,
                            self.line as int,
                        ).toks);
                    }
                },
                46u8 => {
                    tokens.push(
                        Token { kind: TokenType::Dot, literal: LoxType::Nil, line: self.line },
                    );
                    proof {
                        assert(tokens_view(tokens@) =~= tv0.push(
                            plain_token(TokenType::Dot, line0),
                        ));
                        assert(sc0.toks =~= tokens_view(tokens@) + spec_scan(
                            src,
                            self.current as int,
                            self.line as int,
                        ).toks);
                    }
                },
                45u8 => {
                    tokens.push(
                        Token { kind: TokenType::Minus, literal: LoxType::Nil, line: self.line },
                    );
                    proof {
                        assert(tokens_view(tokens@) =~= tv0.push(
                            plain_token(TokenType::Minus, line0),
                        ));
                        assert(sc0.toks =~= tokens_view(tokens@) + spec_scan(
                            src,
                            self.current as int,
                            self.line as int,
                        ).toks);
                    }
                },
                43u8 => {
                    tokens.push(
                        Token { kind: TokenType::Plus, literal: LoxType::Nil, line: self.line },
                    );
                    proof {
                        assert(tokens_view(tokens@) =~= tv0.push(
                            plain_token(TokenType::Plus, line0),
                        ));
                        assert(sc0.toks =~= tokens_view(tokens@) + spec_scan(
                            src,
                            self.current as int,
                            self.line as int,
                        ).toks);
                    }
                },
                59u8 => {
                    tokens.push(
                        Token { kind: TokenType::Semicolon, literal: LoxType::Nil, line: self.line },
                    );
                    proof {
                        assert(tokens_view(tokens@) =~= tv0.push(
                            plain_token(TokenType::Semicolon, line0),
                        ));
                        assert(sc0.toks =~= tokens_view(tokens@) + spec_scan(
                            src,
                            self.current as int,
                            self.line as int,
                        ).toks);
                    }
                },
                42u8 => {
                    tokens.push(
                        Token { kind: TokenType::Star, literal: LoxType::Nil, line: self.line },
                    );
                    proof {
                        assert(tokens_view(tokens@) =~= tv0.push(
                            plain_token(TokenType::Star, line0),
                        ));
                        assert(sc0.toks =~= tokens_view(tokens@) + spec_scan(
                            src,
                            self.current as int,
                            self.line as int,
                        ).toks);
                    }
                },
                33u8 => {
                    let kind = if self.matching(61) {
                        TokenType::BangEqual
                    } else {
                        TokenType::Bang
                    };
                    tokens.push(Token { kind, literal: LoxType::Nil, line: self.line });
                    proof {
                        assert(tokens_view(tokens@) =~= tv0.push(plain_token(kind, line0)));
                        assert(sc0.toks =~= tokens_view(tokens@) + spec_scan(
                            src,
                            self.current as int,
                            self.line as int,
                        ).toks);
                    }
                },
                61u8 => {
                    let kind = if self.matching(61) {
                        TokenType::EqualEqual
                    } else {
                        TokenType::Equal
                    };
                    tokens.push(Token { kind, literal: LoxType::Nil, line: self.line });
                    proof {
                        assert(tokens_view(tokens@) =~= tv0.push(plain_token(kind, line0)));
                        assert(sc0.toks =~= tokens_view(tokens@) + spec_scan(
                            src,
                            self.current as int,
                            self.line as int,
                        ).toks);
                    }
                },
                60u8 => {
                    let kind = if self.matching(61) {
                        TokenType::LessEqual
                    } else {
                        TokenType::Less
                    };
                    tokens.push(Token { kind, literal: LoxType::Nil, line: self.line });
                    proof {
                        assert(tokens_view(tokens@) =~= tv0.push(plain_token(kind, line0)));
                        assert(sc0.toks =~= tokens_view(tokens@) + spec_scan(
                            src,
                            self.current as int,
                            self.line as int,
                        ).toks);
                    }
                },
                62u8 => {
                    let kind = if self.matching(61) {
                        TokenType::GreaterEqual
                    } else {
                        TokenType::Greater
                    };
                    tokens.push(Token { kind, literal: LoxType::Nil, line: self.line });
                    proof {
                        assert(tokens_view(tokens@) =~= tv0.push(plain_token(kind, line0)));
                        assert(sc0.toks =~= tokens_view(tokens@) + spec_scan(
                            src,
                            self.current as int,
                            self.line as int,
                        ).toks);
                    }
                },
                47u8 => {
                    if self.matching(47) {
                        proof {
                            lemma_find_eol(src, i + 2);
                        }
                        while self.peek() != 10 && !self.is_at_end()
                            invariant
                                self.source@ == src,
                                self.line as int == line0,
                                i + 2 <= self.current,
                                self.current <= src.len(),
                                find_eol(src, self.current as int) == find_eol(src, i + 2),
                            decreases src.len() - self.current,
                        {
                            let _ = self.advance();
                        }
                        proof {
                            assert(self.current as int == find_eol(src, i + 2));
                        }
                    } else {
                        tokens.push(
                            Token { kind: TokenType::Slash, literal: LoxType::Nil, line: self.line },
                        );
                        proof {
                            assert(tokens_view(tokens@) =~= tv0.push(
                                plain_token(TokenType::Slash, line0),
                            ));
                            assert(sc0.toks =~= tokens_view(tokens@) + spec_scan(
                                src,
                                self.current as int,
                                self.line as int,
                            ).toks);
                        }
                    }
                },
                32u8 | 13u8 | 9u8 => {},
                10u8 => {
                    self.line = self.line + 1;
                },
                34u8 => {
                    proof {
                        lemma_scan_string(src, i + 1, line0);
                    }
                    match self.string() {
                        Result::Ok(lt) => {
                            tokens.push(
                                Token { kind: TokenType::String, literal: lt, line: self.line },
                            );
                            proof {
                                let ss = scan_string(src, i + 1, line0);
                                let body = src.subrange(i + 1, ss.end);
                                assert(tokens_view(tokens@) =~= tv0.push(
                                    TokenV {
                                        kind: TokenType::String,
                                        literal: LoxTypeV::String(utf8_decode(body)->Some_0),
                                        line: ss.line,
                                    },
                                ));
                                assert(sc0.toks =~= tokens_view(tokens@) + spec_scan(
                                    src,
                                    self.current as int,
                                    self.line as int,
                                ).toks);
                            }
                        },
                        Result::Err(e) => {
                            is_error = true;
                            errors.push(e);
                            proof {
                                let ss = scan_string(src, i + 1, line0);
                                if ss.found {
                                    assert(errors_view(errors@) =~= ev0.push(
                                        LoxErrorV::LexError {
                                            ch: ' ',
                                            msg: invalid_utf8_msg(),
                                            line: ss.line,
                                        },
                                    ));
                                } else {
                                    assert(errors_view(errors@) =~= ev0.push(
                                        LoxErrorV::LexError {
                                            ch: ' ',
                                            msg: unterminated_msg(),
                                            line: ss.line,
                                        },
                                    ));
                                }
                                assert(sc0.errs =~= errors_view(errors@) + spec_scan(
                                    src,
                                    self.current as int,
                                    self.line as int,
                                ).errs);
                            }
                        },
                    }
                },
                _ => {
                    if self.is_digit(byte) {
                        proof {
                            lemma_digit_run_end(src, i + 1);
                            if digit_run_end(src, i + 1) + 2 <= src.len() {
                                lemma_digit_run_end(src, digit_run_end(src, i + 1) + 2);
                            }
                        }
                        let lt = match self.number() {
                            Result::Ok(lt) => lt,
                            Result::Err(_) => unreached(),
                        };
                        tokens.push(
                            Token { kind: TokenType::Number, literal: lt, line: self.line },
                        );
                        proof {
                            let de = digit_run_end(src, i + 1);
                            let end = if de < src.len() && src[de] == 46 && de + 1 < src.len()
                                && is_digit_byte(src[de + 1]) {
                                digit_run_end(src, de + 2)
                            } else {
                                de
                            };
                            assert(tokens_view(tokens@) =~= tv0.push(
                                TokenV {
                                    kind: TokenType::Number,
                                    literal: LoxTypeV::Number(dec_bits_of(src.subrange(i, end))),
                                    line: line0,
                                },
                            ));
                            assert(sc0.toks =~= tokens_view(tokens@) + spec_scan(
                                src,
                                self.current as int,
                                self.line as int,
                            ).toks);
                        }
                    } else if self.is_alpha(byte) {
                        proof {
                            lemma_ident_run_end(src, i + 1);
                        }
                        let (kind, _text, literal) = match self.identifier() {
                            Result::Ok(t) => t,
                            Result::Err(_) => unreached(),
                        };
                        tokens.push(Token { kind, literal, line: self.line });
                        proof {
                            let end = ident_run_end(src, i + 1);
                            let text = ascii_chars(src.subrange(i, end));
                            assert(tokens_view(tokens@) =~= tv0.push(
                                TokenV {
                                    kind: keyword_kind(text),
                                    literal: ident_literal(text),
                                    line: line0,
                                },
                            ));
                            assert(sc0.toks =~= tokens_view(tokens@) + spec_scan(
                                src,
                                self.current as int,
                                self.line as int,
                            ).toks);
                        }
                    } else {
                        proof {
                            reveal_strlit("Unexpected character.");
                        }
                        is_error = true;
                        errors.push(
                            LoxError::LexError {
                                ch: byte as char,
                                msg: String::from_str("Unexpected character."),
                                line: self.line,
                            },
                        );
                        proof {
                            assert(errors_view(errors@) =~= ev0.push(
                                LoxErrorV::LexError {
                                    ch: src[i] as char,
                                    msg: unexpected_msg(),
                                    line: line0,
                                },
                            ));
                            assert(sc0.errs =~= errors_view(errors@) + spec_scan(
                                src,
                                self.current as int,
                                self.line as int,
                            ).errs);
                        }
                    }
                },
            }
        }
        if is_error {
            proof {
                assert(errors_view(errors@) =~= sc0.errs);
            }
            return Result::Err(errors);
        }
        tokens.push(Token { kind: TokenType::Eof, literal: LoxType::Nil, line: self.line });
        proof {
            assert(tokens_view(tokens@) =~= sc0.toks.push(
                TokenV { kind: TokenType::Eof, literal: LoxTypeV::Nil, line: sc0.line },
            ));
        }
        Result::Ok(tokens)
    }

    /// Classifies an identifier's text against the sixteen keywords.
    fn classify(&self, id: &String) -> (kind: TokenType)
        ensures
            kind == keyword_kind(id@),
    {
        if *id == String::from_str("and") {
            TokenType::And
        } else if *id == String::from_str("class") {
            TokenType::Class
        } else if *id == String::from_str("else") {
            TokenType::Else
        } else if *id == String::from_str("false") {
            TokenType::False
        } else if *id == String::from_str("for") {
            TokenType::For
        } else if *id == String::from_str("fun") {
            TokenType::Fun
        } else if *id == String::from_str("if") {
            TokenType::If
        } else if *id == String::from_str("nil") {
            TokenType::Nil
        } else if *id == String::from_str("or") {
            TokenType::Or
        } else if *id == String::from_str("print") {
            TokenType::Print
        } else if *id == String::from_str("return") {
            TokenType::Return
        } else if *id == String::from_str("super") {
            TokenType::Super
        } else if *id == String::from_str("this") {
            TokenType::This
        } else if *id == String::from_str("true") {
            TokenType::True
        } else if *id == String::from_str("var") {
            TokenType::Var
        } else if *id == String::from_str("while") {
            TokenType::While
        } else {
            TokenType::Identifier
        }
    }
}

/// The bytes between a digit run's start and its recorded end form a
/// numeral: digits with at most one interior dot.
proof fn lemma_numeral_shape(src: Seq<u8>, i: int, de: int, end: int)
    requires
        0 <= i < src.len(),
        is_digit_byte(src[i]),
        de == digit_run_end(src, i + 1),
        end == if de < src.len() && src[de] == 46 && de + 1 < src.len() && is_digit_byte(
            src[de + 1],
        ) {
            digit_run_end(src, de + 2)
        } else {
            de
        },
    ensures
        is_numeral(src.subrange(i, end)),
{
    lemma_digit_run_end(src, i + 1);
    let text = src.subrange(i, end);
    if end == de {
        assert(text.len() > 0);
        assert(forall|m: int| 0 <= m < text.len() ==> is_digit_byte(#[trigger] text[m])) by {
            assert(forall|m: int| 0 <= m < text.len() ==> text[m] == src[i + m]);
        }
    } else {
        lemma_digit_run_end(src, de + 2);
        let k = de - i;
        assert(text[k] == 46);
        assert(1 <= k < text.len() - 1);
        assert(forall|m: int|
            0 <= m < k ==> is_digit_byte(#[trigger] text.subrange(0, k)[m])) by {
            assert(forall|m: int| 0 <= m < k ==> #[trigger] text.subrange(0, k)[m] == src[i + m]);
        }
        assert(forall|m: int|
            0 <= m < text.len() - k - 1 ==> is_digit_byte(
                #[trigger] text.subrange(k + 1, text.len() as int)[m],
            )) by {
            assert(forall|m: int|
                0 <= m < text.len() - k - 1 ==> #[trigger] text.subrange(
                    k + 1,
                    text.len() as int,
                )[m] == src[de + 1 + m]);
        }
        assert(is_numeral(text));
    }
}

#[via_fn]
proof fn spec_scan_decreases(src: Seq<u8>, i: int, line: int) {
    if 0 <= i < src.len() {
        let b = src[i];
        if b == 47 && i + 1 < src.len() && src[i + 1] == 47 {
            lemma_find_eol(src, i + 2);
        } else if b == 34 {
            lemma_scan_string(src, i + 1, line);
        } else if is_digit_byte(b) {
            lemma_digit_run_end(src, i + 1);
            let de = digit_run_end(src, i + 1);
            if de < src.len() && src[de] == 46 && de + 1 < src.len() && is_digit_byte(
                src[de + 1],
            ) {
                lemma_digit_run_end(src, de + 2);
            }
        } else if is_alpha_byte(b) {
            lemma_ident_run_end(src, i + 1);
        }
    }
}

} // verus!
