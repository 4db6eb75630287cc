use vstd::prelude::*;

verus! {

/// Every kind of lexeme the scanner can produce. The expression compiler
/// uses only a few of these; the scanner nevertheless classifies the whole
/// lexical vocabulary, keywords included.
#[allow(non_camel_case_types)]
#[derive(Debug, Clone, Copy, PartialEq, Eq, Structural)]
pub enum TokenType {
    TOKEN_LEFT_PAREN,
    TOKEN_RIGHT_PAREN,
    TOKEN_LEFT_BRACE,
    TOKEN_RIGHT_BRACE,
    TOKEN_COMMA,
    TOKEN_DOT,
    TOKEN_MINUS,
    TOKEN_PLUS,
    TOKEN_SEMICOLON,
    TOKEN_SLASH,
    TOKEN_STAR,
    TOKEN_BANG,
    TOKEN_BANG_EQUAL,
    TOKEN_EQUAL,
    TOKEN_EQUAL_EQUAL,
    TOKEN_GREATER,
    TOKEN_GREATER_EQUAL,
    TOKEN_LESS,
    TOKEN_LESS_EQUAL,
    TOKEN_IDENTIFIER,
    TOKEN_STRING,
    TOKEN_NUMBER,
    TOKEN_AND,
    TOKEN_CLASS,
    TOKEN_ELSE,
    TOKEN_FALSE,
    TOKEN_FOR,
    TOKEN_FUN,
    TOKEN_IF,
    TOKEN_NIL,
    TOKEN_OR,
    TOKEN_PRINT,
    TOKEN_RETURN,
    TOKEN_SUPER,
    TOKEN_THIS,
    TOKEN_TRUE,
    TOKEN_VAR,
    TOKEN_WHILE,
    TOKEN_ERROR,
    TOKEN_EOF,
}

/// The two lexical failures. They travel in-band, inside an error token,
/// never as a panic.
#[derive(Debug, Clone, Copy, PartialEq, Eq, Structural)]
pub enum ScanError {
    UnexpectedCharacter,
    UnterminatedString,
}

/// One lexeme: its kind, its span in the source bytes, the line it lies on,
/// and, for error tokens, which lexical failure it reports.
#[derive(Debug, Clone, Copy)]
pub struct Token {
    pub typo: TokenType,
    pub start: usize,
    pub length: usize,
    pub line: usize,
    pub error: Option<ScanError>,
}

/// The mathematical image of a token, with unbounded positions.
pub ghost struct SpecToken {
    pub kind: TokenType,
    pub start: int,
    pub length: int,
    pub line: int,
    pub error: Option<ScanError>,
}

impl View for Token {
    type V = SpecToken;

    open spec fn view(&self) -> SpecToken {
        SpecToken {
            kind: self.typo,
            start: self.start as int,
            length: self.length as int,
            line: self.line as int,
            error: self.error,
        }
    }
}

// Byte values of the ASCII characters the scanner inspects.
pub const B_BANG: u8 = 33;
pub const B_COMMA: u8 = 44;
pub const B_CR: u8 = 13;
pub const B_D0: u8 = 48;
pub const B_D9: u8 = 57;
pub const B_DOT: u8 = 46;
pub const B_EQUAL: u8 = 61;
pub const B_GREATER: u8 = 62;
pub const B_LA: u8 = 97;
pub const B_LBRACE: u8 = 123;
pub const B_LC: u8 = 99;
pub const B_LD: u8 = 100;
pub const B_LE: u8 = 101;
pub const B_LESS: u8 = 60;
pub const B_LF: u8 = 10;
pub const B_LF_: u8 = 102;
pub const B_LH: u8 = 104;
pub const B_LI: u8 = 105;
pub const B_LL: u8 = 108;
pub const B_LN: u8 = 110;
pub const B_LO: u8 = 111;
pub const B_LP: u8 = 112;
pub const B_LPAREN: u8 = 40;
pub const B_LR: u8 = 114;
pub const B_LS: u8 = 115;
pub const B_LT: u8 = 116;
pub const B_LU: u8 = 117;
pub const B_LV: u8 = 118;
pub const B_LW: u8 = 119;
pub const B_LZ: u8 = 122;
pub const B_MINUS: u8 = 45;
pub const B_PLUS: u8 = 43;
pub const B_QUOTE: u8 = 34;
pub const B_RBRACE: u8 = 125;
pub const B_RPAREN: u8 = 41;
pub const B_SEMI: u8 = 59;
pub const B_SLASH: u8 = 47;
pub const B_SPACE: u8 = 32;
pub const B_STAR: u8 = 42;
pub const B_TAB: u8 = 9;
pub const B_UA: u8 = 65;
pub const B_UNDER: u8 = 95;
pub const B_UZ: u8 = 90;

pub open spec fn spec_is_digit(c: u8) -> bool {
    B_D0 <= c && c <= B_D9
}

pub open spec fn spec_is_alpha(c: u8) -> bool {
    (B_LA <= c && c <= B_LZ) || (B_UA <= c && c <= B_UZ) || c == B_UNDER
}

pub open spec fn spec_is_alnum(c: u8) -> bool {
    spec_is_alpha(c) || spec_is_digit(c)
}

pub fn digit_byte(c: u8) -> (r: bool)
    ensures
        r == spec_is_digit(c),
{
    B_D0 <= c && c <= B_D9
}

pub fn alpha_byte(c: u8) -> (r: bool)
    ensures
        r == spec_is_alpha(c),
{
    (B_LA <= c && c <= B_LZ) || (B_UA <= c && c <= B_UZ) || c == B_UNDER
}

pub fn alnum_byte(c: u8) -> (r: bool)
    ensures
        r == spec_is_alnum(c),
{
    alpha_byte(c) || digit_byte(c)
}

/// Where the cursor and line counter stand once spaces, tabs, carriage
/// returns, newlines and `//` line comments are skipped, starting at `i`
/// on line `line`. `in_comment` says whether `i` lies inside a `//`
/// comment whose terminating newline has not been reached.
pub open spec fn skip_ws_from(src: Seq<u8>, i: int, line: int, in_comment: bool) -> (int, int)
    decreases src.len() - i, (if in_comment { 0int } else { 1int }),
{
    if i < 0 || i >= src.len() {
        (i, line)
    } else if in_comment {
        if src[i] == B_LF {
            skip_ws_from(src, i + 1, line + 1, false)
        } else {
            skip_ws_from(src, i + 1, line, true)
        }
    } else if src[i] == B_SPACE || src[i] == B_CR || src[i] == B_TAB {
        skip_ws_from(src, i + 1, line, false)
    } else if src[i] == B_LF {
        skip_ws_from(src, i + 1, line + 1, false)
    } else if src[i] == B_SLASH && i + 1 < src.len() && src[i + 1] == B_SLASH {
        skip_ws_from(src, i, line, true)
    } else {
        (i, line)
    }
}

pub open spec fn spec_skip_ws(src: Seq<u8>, i: int, line: int) -> (int, int) {
    skip_ws_from(src, i, line, false)
}

/// The first position at or after `i` that holds no digit.
pub open spec fn digits_end(src: Seq<u8>, i: int) -> int
    decreases src.len() - i,
{
    if 0 <= i < src.len() && spec_is_digit(src[i]) {
        digits_end(src, i + 1)
    } else {
        i
    }
}

/// The first position at or after `i` that holds no alphanumeric or
/// underscore byte.
pub open spec fn alnum_end(src: Seq<u8>, i: int) -> int
    decreases src.len() - i,
{
    if 0 <= i < src.len() && spec_is_alnum(src[i]) {
        alnum_end(src, i + 1)
    } else {
        i
    }
}

/// Walks a string literal's body from `i`: the position just past the
/// closing quote, the line counter after embedded newlines, and whether a
/// closing quote was found before the end of input.
pub open spec fn string_scan(src: Seq<u8>, i: int, line: int) -> (int, int, bool)
    decreases src.len() - i,
{
    if i < 0 || i >= src.len() {
        (i, line, false)
    } else if src[i] == B_QUOTE {
        (i + 1, line, true)
    } else if src[i] == B_LF {
        string_scan(src, i + 1, line + 1)
    } else {
        string_scan(src, i + 1, line)
    }
}

/// Classifies the identifier lying at `src[s..e]` by exact match against
/// the fixed keyword set.
pub open spec fn keyword_kind(src: Seq<u8>, s: int, e: int) -> TokenType {
    let n = e - s;
    if n == 3 && src[s] == B_LA && src[s + 1] == B_LN && src[s + 2] == B_LD {
        TokenType::TOKEN_AND
    } else if n == 5 && src[s] == B_LC && src[s + 1] == B_LL && src[s + 2] == B_LA && src[s + 3]
        == B_LS && src[s + 4] == B_LS {
        TokenType::TOKEN_CLASS
    } else if n == 4 && src[s] == B_LE && src[s + 1] == B_LL && src[s + 2] == B_LS && src[s + 3]
        == B_LE {
        TokenType::TOKEN_ELSE
    } else if n == 5 && src[s] == B_LF_ && src[s + 1] == B_LA && src[s + 2] == B_LL && src[s + 3]
        == B_LS && src[s + 4] == B_LE {
        TokenType::TOKEN_FALSE
    } else if n == 3 && src[s] == B_LF_ && src[s + 1] == B_LO && src[s + 2] == B_LR {
        TokenType::TOKEN_FOR
    } else if n == 3 && src[s] == B_LF_ && src[s + 1] == B_LU && src[s + 2] == B_LN {
        TokenType::TOKEN_FUN
    } else if n == 2 && src[s] == B_LI && src[s + 1] == B_LF_ {
        TokenType::TOKEN_IF
    } else if n == 3 && src[s] == B_LN && src[s + 1] == B_LI && src[s + 2] == B_LL {
        TokenType::TOKEN_NIL
    } else if n == 2 && src[s] == B_LO && src[s + 1] == B_LR {
        TokenType::TOKEN_OR
    } else if n == 5 && src[s] == B_LP && src[s + 1] == B_LR && src[s + 2] == B_LI && src[s + 3]
        == B_LN && src[s + 4] == B_LT {
        TokenType::TOKEN_PRINT
    } else if n == 6 && src[s] == B_LR && src[s + 1] == B_LE && src[s + 2] == B_LT && src[s + 3]
        == B_LU && src[s + 4] == B_LR && src[s + 5] == B_LN {
        TokenType::TOKEN_RETURN
    } else if n == 5 && src[s] == B_LS && src[s + 1] == B_LU && src[s + 2] == B_LP && src[s + 3]
        == B_LE && src[s + 4] == B_LR {
        TokenType::TOKEN_SUPER
    } else if n == 4 && src[s] == B_LT && src[s + 1] == B_LH && src[s + 2] == B_LI && src[s + 3]
        == B_LS {
        TokenType::TOKEN_THIS
    } else if n == 4 && src[s] == B_LT && src[s + 1] == B_LR && src[s + 2] == B_LU && src[s + 3]
        == B_LE {
        TokenType::TOKEN_TRUE
    } else if n == 3 && src[s] == B_LV && src[s + 1] == B_LA && src[s + 2] == B_LR {
        TokenType::TOKEN_VAR
    } else if n == 5 && src[s] == B_LW && src[s + 1] == B_LH && src[s + 2] == B_LI && src[s + 3]
        == B_LL && src[s + 4] == B_LE {
        TokenType::TOKEN_WHILE
    } else {
        TokenType::TOKEN_IDENTIFIER
    }
}

pub open spec fn mk_spec_token(kind: TokenType, start: int, length: int, line: int) -> SpecToken {
    SpecToken { kind, start, length, line, error: None }
}

pub open spec fn mk_spec_error(err: ScanError, start: int, length: int, line: int) -> SpecToken {
    SpecToken { kind: TokenType::TOKEN_ERROR, start, length, line, error: Some(err) }
}

/// The single-character and two-character punctuation tokens starting at
/// `i` with first byte `c`, together with the position just past them.
/// Bytes that begin no lexeme give an error token of width one.
pub open spec fn punct_token(src: Seq<u8>, i: int, l: int) -> (SpecToken, int) {
    let c = src[i];
    let two = i + 1 < src.len() && src[i + 1] == B_EQUAL;
    if c == B_LPAREN {
        (mk_spec_token(TokenType::TOKEN_LEFT_PAREN, i, 1, l), i + 1)
    } else if c == B_RPAREN {
        (mk_spec_token(TokenType::TOKEN_RIGHT_PAREN, i, 1, l), i + 1)
    } else if c == B_LBRACE {
        (mk_spec_token(TokenType::TOKEN_LEFT_BRACE, i, 1, l), i + 1)
    } else if c == B_RBRACE {
        (mk_spec_token(TokenType::TOKEN_RIGHT_BRACE, i, 1, l), i + 1)
    } else if c == B_SEMI {
        (mk_spec_token(TokenType::TOKEN_SEMICOLON, i, 1, l), i + 1)
    } else if c == B_COMMA {
        (mk_spec_token(TokenType::TOKEN_COMMA, i, 1, l), i + 1)
    } else if c == B_DOT {
        (mk_spec_token(TokenType::TOKEN_DOT, i, 1, l), i + 1)
    } else if c == B_MINUS {
        (mk_spec_token(TokenType::TOKEN_MINUS, i, 1, l), i + 1)
    } else if c == B_PLUS {
        (mk_spec_token(TokenType::TOKEN_PLUS, i, 1, l), i + 1)
    } else if c == B_SLASH {
        (mk_spec_token(TokenType::TOKEN_SLASH, i, 1, l), i + 1)
    } else if c == B_STAR {
        (mk_spec_token(TokenType::TOKEN_STAR, i, 1, l), i + 1)
    } else if c == B_BANG {
        if two {
            (mk_spec_token(TokenType::TOKEN_BANG_EQUAL, i, 2, l), i + 2)
        } else {
            (mk_spec_token(TokenType::TOKEN_BANG, i, 1, l), i + 1)
        }
    } else if c == B_EQUAL {
        if two {
            (mk_spec_token(TokenType::TOKEN_EQUAL_EQUAL, i, 2, l), i + 2)
        } else {
            (mk_spec_token(TokenType::TOKEN_EQUAL, i, 1, l), i + 1)
        }
    } else if c == B_LESS {
        if two {
            (mk_spec_token(TokenType::TOKEN_LESS_EQUAL, i, 2, l), i + 2)
        } else {
            (mk_spec_token(TokenType::TOKEN_LESS, i, 1, l), i + 1)
        }
    } else if c == B_GREATER {
        if two {
            (mk_spec_token(TokenType::TOKEN_GREATER_EQUAL, i, 2, l), i + 2)
        } else {
            (mk_spec_token(TokenType::TOKEN_GREATER, i, 1, l), i + 1)
        }
    } else {
        (mk_spec_error(ScanError::UnexpectedCharacter, i, 1, l), i + 1)
    }
}

/// What one call of the scanner produces from cursor `pos` on line `line`:
/// the token, the cursor after it, and the line after it.
pub open spec fn spec_scan_token(src: Seq<u8>, pos: int, line: int) -> (SpecToken, int, int) {
    let (i, l) = spec_skip_ws(src, pos, line);
    if i < 0 || i >= src.len() {
        (mk_spec_token(TokenType::TOKEN_EOF, i, 0, l), i, l)
    } else {
        let c = src[i];
        if spec_is_alpha(c) {
            let e = alnum_end(src, i + 1);
            (mk_spec_token(keyword_kind(src, i, e), i, e - i, l), e, l)
        } else if spec_is_digit(c) {
            let j = digits_end(src, i + 1);
            let e = if j < src.len() && src[j] == B_DOT && j + 1 < src.len() && spec_is_digit(
                src[j + 1],
            ) {
                digits_end(src, j + 2)
            } else {
                j
            };
            (mk_spec_token(TokenType::TOKEN_NUMBER, i, e - i, l), e, l)
        } else if c == B_QUOTE {
            let (e, l2, found) = string_scan(src, i + 1, l);
            if found {
                (mk_spec_token(TokenType::TOKEN_STRING, i, e - i, l2), e, l2)
            } else {
                (mk_spec_error(ScanError::UnterminatedString, i, e - i, l2), e, l2)
            }
        } else {
            let (t, e) = punct_token(src, i, l);
            (t, e, l)
        }
    }
}

/// The pull-based lexer: a cursor over the source bytes, the start of the
/// lexeme being scanned, and the current source line.
pub struct Scanner {
    pub source: Vec<u8>,
    pub start: usize,
    pub current: usize,
    pub line: usize,
}

impl Scanner {
    /// The scanner's standing invariant. The bound on `source` keeps the
    /// line counter, which one newline byte at a time can push at most one
    /// past the cursor, within the machine's integer range.
    pub open spec fn wf(self) -> bool {
        &&& self.start <= self.current <= self.source@.len()
        &&& self.source@.len() < usize::MAX
        &&& 1 <= self.line <= self.current + 1
    }

    pub fn init_scanner(source: Vec<u8>) -> (s: Scanner)
        requires
            source@.len() < usize::MAX,
        ensures
            s.wf(),
            s.source@ == source@,
            s.start == 0 && s.current == 0 && s.line == 1,
    {
        Scanner { source, start: 0, current: 0, line: 1 }
    }

    pub fn is_at_end(&self) -> (r: bool)
        ensures
            r == (self.current == self.source@.len()),
    {
        self.current == self.source.len()
    }

    /// The byte under the cursor, or 0 at the end of input.
    pub fn peek(&self) -> (c: u8)
        requires
            self.wf(),
        ensures
            c == if self.current < self.source@.len() {
                self.source@[self.current as int]
            } else {
                0u8
            },
    {
        if self.current < self.source.len() {
            self.source[self.current]
        } else {
            0
        }
    }

    /// The byte after the cursor, or 0 if none exists.
    pub fn peek_next(&self) -> (c: u8)
        requires
            self.wf(),
        ensures
            c == if self.current + 1 < self.source@.len() {
                self.source@[self.current + 1]
            } else {
                0u8
            },
    {
        if self.current + 1 < self.source.len() {
            self.source[self.current + 1]
        } else {
            0
        }
    }

    /// Consume and return the byte under the cursor.
    pub fn advance(&mut self) -> (c: u8)
        requires
            old(self).wf(),
            old(self).current < old(self).source@.len(),
        ensures
            final(self).wf(),
            final(self).source@ == old(self).source@,
            final(self).start == old(self).start,
            final(self).line == old(self).line,
            final(self).current == old(self).current + 1,
            c == old(self).source@[old(self).current as int],
    {
        self.current = self.current + 1;
        self.source[self.current - 1]
    }

    /// Consume the byte under the cursor only if it equals `letter`.
    pub fn matchi(&mut self, letter: u8) -> (r: bool)
        requires
            old(self).wf(),
        ensures
            final(self).wf(),
            final(self).source@ == old(self).source@,
            final(self).start == old(self).start,
            final(self).line == old(self).line,
            r == (old(self).current < old(self).source@.len() && old(self).source@[old(
                self,
            ).current as int] == letter),
            final(self).current == if r {
                old(self).current + 1
            } else {
                old(self).current as int
            },
    {
        if self.is_at_end() {
            false
        } else if self.source[self.current] != letter {
            false
        } else {
            self.current = self.current + 1;
            true
        }
    }

    /// Skip spaces, tabs, carriage returns, newlines and `//` comments,
    /// counting the newlines into the line counter.
    pub fn skip_whitespace(&mut self)
        requires
            old(self).wf(),
        ensures
            final(self).wf(),
            final(self).source@ == old(self).source@,
            final(self).start == old(self).start,
            (final(self).current as int, final(self).line as int) == spec_skip_ws(
                old(self).source@,
                old(self).current as int,
                old(self).line as int,
            ),
    {
        loop
            invariant
                self.wf(),
                self.source@ == old(self).source@,
                self.start == old(self).start,
                spec_skip_ws(old(self).source@, old(self).current as int, old(self).line as int)
                    == spec_skip_ws(self.source@, self.current as int, self.line as int),
            decreases self.source@.len() - self.current,
        {
            if self.is_at_end() {
                return ;
            }
            let c = self.peek();
            match c {
                B_SPACE | B_CR | B_TAB => {
                    self.advance();
                },
                B_LF => {
                    self.advance();
                    self.line = self.line + 1;
                },
                B_SLASH => {
                    if self.peek_next() == B_SLASH {
                        let ghost c0 = self.current as int;
                        let ghost l0 = self.line as int;
                        proof {
                            assert(skip_ws_from(self.source@, c0, l0, false) == skip_ws_from(
                                self.source@,
                                c0,
                                l0,
                                true,
                            ));
                            assert(skip_ws_from(self.source@, c0, l0, true) == skip_ws_from(
                                self.source@,
                                c0 + 1,
                                l0,
                                true,
                            ));
                        }
                        self.advance();
                        while !self.is_at_end() && self.peek() != B_LF
                            invariant
                                self.wf(),
                                self.source@ == old(self).source@,
                                self.start == old(self).start,
                                self.line == l0,
                                c0 + 1 <= self.current,
                                spec_skip_ws(
                                    old(self).source@,
                                    old(self).current as int,
                                    old(self).line as int,
                                ) == skip_ws_from(
                                    self.source@,
                                    self.current as int,
                                    self.line as int,
                                    true,
                                ),
                            decreases self.source@.len() - self.current,
                        {
                            self.advance();
                        }
                    } else {
                        return ;
                    }
                },
                _ => {
                    return ;
                },
            }
        }
    }

    /// Compare the tail of the lexeme that was just scanned against `rest`,
    /// and classify it as `typo` on an exact match, as an identifier
    /// otherwise. `start` and `length` are offsets within the lexeme, as in
    /// the keyword table this helper serves.
    pub fn check_keyword(&self, start: usize, length: usize, rest: &[u8], typo: TokenType) -> (t:
        TokenType)
        requires
            self.wf(),
            rest@.len() == length,
            start + length <= usize::MAX,
        ensures
            t == if self.current - self.start == start + length && self.source@.subrange(
                self.start + start,
                self.start + start + length,
            ) == rest@ {
                typo
            } else {
                TokenType::TOKEN_IDENTIFIER
            },
    {
        if self.current - self.start == start + length {
            let base = self.start + start;
            let mut k: usize = 0;
            while k < length
                invariant
                    self.wf(),
                    k <= length,
                    rest@.len() == length,
                    base == self.start + start,
                    base + length <= self.source@.len(),
                    forall|j: int| 0 <= j < k ==> self.source@[base + j] == rest@[j],
                decreases length - k,
            {
                if self.source[base + k] != rest[k] {
                    proof {
                        assert(self.source@.subrange(
                            self.start + start,
                            self.start + start + length,
                        )[k as int] != rest@[k as int]);
                    }
                    return TokenType::TOKEN_IDENTIFIER;
                }
                k = k + 1;
            }
            proof {
                assert(self.source@.subrange(self.start + start, self.start + start + length)
                    =~= rest@);
            }
            typo
        } else {
            TokenType::TOKEN_IDENTIFIER
        }
    }

    /// Classify the lexeme between `start` and `current` as a keyword or a
    /// plain identifier.
    pub fn identifier_type(&self) -> (t: TokenType)
        requires
            self.wf(),
        ensures
            t == keyword_kind(self.source@, self.start as int, self.current as int),
    {
        let s = self.start;
        let n = self.current - self.start;
        let b = &self.source;
        if n == 3 && b[s] == B_LA && b[s + 1] == B_LN && b[s + 2] == B_LD {
            TokenType::TOKEN_AND
        } else if n == 5 && b[s] == B_LC && b[s + 1] == B_LL && b[s + 2] == B_LA && b[s + 3] == B_LS
            && b[s + 4] == B_LS {
            TokenType::TOKEN_CLASS
        } else if n == 4 && b[s] == B_LE && b[s + 1] == B_LL && b[s + 2] == B_LS && b[s + 3]
            == B_LE {
            TokenType::TOKEN_ELSE
        } else if n == 5 && b[s] == B_LF_ && b[s + 1] == B_LA && b[s + 2] == B_LL && b[s + 3] == B_LS
            && b[s + 4] == B_LE {
            TokenType::TOKEN_FALSE
        } else if n == 3 && b[s] == B_LF_ && b[s + 1] == B_LO && b[s + 2] == B_LR {
            TokenType::TOKEN_FOR
        } else if n == 3 && b[s] == B_LF_ && b[s + 1] == B_LU && b[s + 2] == B_LN {
            TokenType::TOKEN_FUN
        } else if n == 2 && b[s] == B_LI && b[s + 1] == B_LF_ {
            TokenType::TOKEN_IF
        } else if n == 3 && b[s] == B_LN && b[s + 1] == B_LI && b[s + 2] == B_LL {
            TokenType::TOKEN_NIL
        } else if n == 2 && b[s] == B_LO && b[s + 1] == B_LR {
            TokenType::TOKEN_OR
        } else if n == 5 && b[s] == B_LP && b[s + 1] == B_LR && b[s + 2] == B_LI && b[s + 3] == B_LN
            && b[s + 4] == B_LT {
            TokenType::TOKEN_PRINT
        } else if n == 6 && b[s] == B_LR && b[s + 1] == B_LE && b[s + 2] == B_LT && b[s + 3] == B_LU
            && b[s + 4] == B_LR && b[s + 5] == B_LN {
            TokenType::TOKEN_RETURN
        } else if n == 5 && b[s] == B_LS && b[s + 1] == B_LU && b[s + 2] == B_LP && b[s + 3] == B_LE
            && b[s + 4] == B_LR {
            TokenType::TOKEN_SUPER
        } else if n == 4 && b[s] == B_LT && b[s + 1] == B_LH && b[s + 2] == B_LI && b[s + 3]
            == B_LS {
            TokenType::TOKEN_THIS
        } else if n == 4 && b[s] == B_LT && b[s + 1] == B_LR && b[s + 2] == B_LU && b[s + 3]
            == B_LE {
            TokenType::TOKEN_TRUE
        } else if n == 3 && b[s] == B_LV && b[s + 1] == B_LA && b[s + 2] == B_LR {
            TokenType::TOKEN_VAR
        } else if n == 5 && b[s] == B_LW && b[s + 1] == B_LH && b[s + 2] == B_LI && b[s + 3] == B_LL
            && b[s + 4] == B_LE {
            TokenType::TOKEN_WHILE
        } else {
            TokenType::TOKEN_IDENTIFIER
        }
    }

    fn make_token(&self, typo: TokenType) -> (t: Token)
        requires
            self.wf(),
        ensures
            t@ == mk_spec_token(typo, self.start as int, self.current - self.start, self.line as int),
    {
        Token {
            typo,
            start: self.start,
            length: self.current - self.start,
            line: self.line,
            error: None,
        }
    }

    fn error_token(&self, err: ScanError) -> (t: Token)
        requires
            self.wf(),
        ensures
            t@ == mk_spec_error(err, self.start as int, self.current - self.start, self.line as int),
    {
        Token {
            typo: TokenType::TOKEN_ERROR,
            start: self.start,
            length: self.current - self.start,
            line: self.line,
            error: Some(err),
        }
    }

    fn identifier(&mut self) -> (t: Token)
        requires
            old(self).wf(),
        ensures
            final(self).wf(),
            final(self).source@ == old(self).source@,
            final(self).start == old(self).start,
            final(self).line == old(self).line,
            final(self).current as int == alnum_end(old(self).source@, old(self).current as int),
            t@ == mk_spec_token(
                keyword_kind(old(self).source@, old(self).start as int, final(self).current as int),
                old(self).start as int,
                final(self).current - old(self).start,
                old(self).line as int,
            ),
    {
        while alnum_byte(self.peek())
            invariant
                self.wf(),
                self.source@ == old(self).source@,
                self.start == old(self).start,
                self.line == old(self).line,
                alnum_end(self.source@, old(self).current as int) == alnum_end(
                    self.source@,
                    self.current as int,
                ),
            decreases self.source@.len() - self.current,
        {
            self.advance();
        }
        self.make_token(self.identifier_type())
    }

    fn number(&mut self) -> (t: Token)
        requires
            old(self).wf(),
        ensures
            final(self).wf(),
            final(self).source@ == old(self).source@,
            final(self).start == old(self).start,
            final(self).line == old(self).line,
            final(self).current as int == {
                let j = digits_end(old(self).source@, old(self).current as int);
                if j < old(self).source@.len() && old(self).source@[j] == B_DOT && j + 1 < old(
                    self,
                ).source@.len() && spec_is_digit(old(self).source@[j + 1]) {
                    digits_end(old(self).source@, j + 2)
                } else {
                    j
                }
            },
            t@ == mk_spec_token(
                TokenType::TOKEN_NUMBER,
                old(self).start as int,
                final(self).current - old(self).start,
                old(self).line as int,
            ),
    {
        while digit_byte(self.peek())
            invariant
                self.wf(),
                self.source@ == old(self).source@,
                self.start == old(self).start,
                self.line == old(self).line,
                digits_end(self.source@, old(self).current as int) == digits_end(
                    self.source@,
                    self.current as int,
                ),
            decreases self.source@.len() - self.current,
        {
            self.advance();
        }
        if self.peek() == B_DOT && digit_byte(self.peek_next()) {
            self.advance();
            let ghost mid = self.current as int;
            while digit_byte(self.peek())
                invariant
                    self.wf(),
                    self.source@ == old(self).source@,
                    self.start == old(self).start,
                    self.line == old(self).line,
                    digits_end(self.source@, mid) == digits_end(self.source@, self.current as int),
                decreases self.source@.len() - self.current,
            {
                self.advance();
            }
        }
        self.make_token(TokenType::TOKEN_NUMBER)
    }

    fn string(&mut self) -> (t: Token)
        requires
            old(self).wf(),
        ensures
            final(self).wf(),
            final(self).source@ == old(self).source@,
            final(self).start == old(self).start,
            ({
                let (e, l2, found) = string_scan(
                    old(self).source@,
                    old(self).current as int,
                    old(self).line as int,
                );
                &&& final(self).current as int == e
                &&& final(self).line as int == l2
                &&& t@ == if found {
                    mk_spec_token(
                        TokenType::TOKEN_STRING,
                        old(self).start as int,
                        e - old(self).start,
                        l2,
                    )
                } else {
                    mk_spec_error(
                        ScanError::UnterminatedString,
                        old(self).start as int,
                        e - old(self).start,
                        l2,
                    )
                }
            }),
    {
        while !self.is_at_end() && self.peek() != B_QUOTE
            invariant
                self.wf(),
                self.source@ == old(self).source@,
                self.start == old(self).start,
                string_scan(old(self).source@, old(self).current as int, old(self).line as int)
                    == string_scan(self.source@, self.current as int, self.line as int),
            decreases self.source@.len() - self.current,
        {
            let ch = self.advance();
            if ch == B_LF {
                self.line = self.line + 1;
            }
        }
        if self.is_at_end() {
            self.error_token(ScanError::UnterminatedString)
        } else {
            self.advance();
            self.make_token(TokenType::TOKEN_STRING)
        }
    }

    /// Produce the next token: skip blank space and comments, then consume
    /// exactly one lexeme, or report the end of input.
    pub fn scan_token(&mut self) -> (t: Token)
        requires
            old(self).wf(),
        ensures
            final(self).wf(),
            final(self).source@ == old(self).source@,
            ({
                let (st, p, l) = spec_scan_token(
                    old(self).source@,
                    old(self).current as int,
                    old(self).line as int,
                );
                &&& t@ == st
                &&& final(self).current as int == p
                &&& final(self).line as int == l
                &&& final(self).start as int == st.start
            }),
    {
        self.skip_whitespace();
        self.start = self.current;
        if self.is_at_end() {
            return self.make_token(TokenType::TOKEN_EOF);
        }
        let c = self.advance();
        if alpha_byte(c) {
            return self.identifier();
        }
        if digit_byte(c) {
            return self.number();
        }
        match c {
            B_LPAREN => self.make_token(TokenType::TOKEN_LEFT_PAREN),
            B_RPAREN => self.make_token(TokenType::TOKEN_RIGHT_PAREN),
            B_LBRACE => self.make_token(TokenType::TOKEN_LEFT_BRACE),
            B_RBRACE => self.make_token(TokenType::TOKEN_RIGHT_BRACE),
            B_SEMI => self.make_token(TokenType::TOKEN_SEMICOLON),
            B_COMMA => self.make_token(TokenType::TOKEN_COMMA),
            B_DOT => self.make_token(TokenType::TOKEN_DOT),
            B_MINUS => self.make_token(TokenType::TOKEN_MINUS),
            B_PLUS => self.make_token(TokenType::TOKEN_PLUS),
            B_SLASH => self.make_token(TokenType::TOKEN_SLASH),
            B_STAR => self.make_token(TokenType::TOKEN_STAR),
            B_BANG => {
                if self.matchi(B_EQUAL) {
                    self.make_token(TokenType::TOKEN_BANG_EQUAL)
                } else {
                    self.make_token(TokenType::TOKEN_BANG)
                }
            },
            B_EQUAL => {
                if self.matchi(B_EQUAL) {
                    self.make_token(TokenType::TOKEN_EQUAL_EQUAL)
                } else {
                    self.make_token(TokenType::TOKEN_EQUAL)
                }
            },
            B_LESS => {
                if self.matchi(B_EQUAL) {
                    self.make_token(TokenType::TOKEN_LESS_EQUAL)
                } else {
                    self.make_token(TokenType::TOKEN_LESS)
                }
            },
            B_GREATER => {
                if self.matchi(B_EQUAL) {
                    self.make_token(TokenType::TOKEN_GREATER_EQUAL)
                } else {
                    self.make_token(TokenType::TOKEN_GREATER)
                }
            },
            B_QUOTE => self.string(),
            _ => self.error_token(ScanError::UnexpectedCharacter),
        }
    }
}


/// Whitespace skipping never moves the cursor backwards nor past the end.
pub proof fn lemma_skip_ws_bounds(src: Seq<u8>, i: int, line: int, in_comment: bool)
    requires
        0 <= i <= src.len(),
    ensures
        i <= skip_ws_from(src, i, line, in_comment).0 <= src.len(),
    decreases src.len() - i, (if in_comment { 0int } else { 1int }),
{
    if i < src.len() {
        if in_comment {
            if src[i] == B_LF {
                lemma_skip_ws_bounds(src, i + 1, line + 1, false);
            } else {
                lemma_skip_ws_bounds(src, i + 1, line, true);
            }
        } else if src[i] == B_SPACE || src[i] == B_CR || src[i] == B_TAB {
            lemma_skip_ws_bounds(src, i + 1, line, false);
        } else if src[i] == B_LF {
            lemma_skip_ws_bounds(src, i + 1, line + 1, false);
        } else if src[i] == B_SLASH && i + 1 < src.len() && src[i + 1] == B_SLASH {
            lemma_skip_ws_bounds(src, i, line, true);
        }
    }
}

/// A run of digits ends between its start and the end of input.
pub proof fn lemma_digits_end_bounds(src: Seq<u8>, i: int)
    requires
        0 <= i <= src.len(),
    ensures
        i <= digits_end(src, i) <= src.len(),
    decreases src.len() - i,
{
    if i < src.len() && spec_is_digit(src[i]) {
        lemma_digits_end_bounds(src, i + 1);
    }
}

/// A run of identifier bytes ends between its start and the end of input.
pub proof fn lemma_alnum_end_bounds(src: Seq<u8>, i: int)
    requires
        0 <= i <= src.len(),
    ensures
        i <= alnum_end(src, i) <= src.len(),
    decreases src.len() - i,
{
    if i < src.len() && spec_is_alnum(src[i]) {
        lemma_alnum_end_bounds(src, i + 1);
    }
}

/// Walking a string body stays within the input, and stops exactly at the
/// end of input when no closing quote exists.
pub proof fn lemma_string_scan_bounds(src: Seq<u8>, i: int, line: int)
    requires
        0 <= i <= src.len(),
    ensures
        i <= string_scan(src, i, line).0 <= src.len(),
        !string_scan(src, i, line).2 ==> string_scan(src, i, line).0 == src.len(),
    decreases src.len() - i,
{
    if i < src.len() && src[i] != B_QUOTE {
        if src[i] == B_LF {
            lemma_string_scan_bounds(src, i + 1, line + 1);
        } else {
            lemma_string_scan_bounds(src, i + 1, line);
        }
    }
}

/// How one scan moves the cursor: never backwards, never past the end, and
/// past at least one byte unless it reports the end of input. The token's
/// span always lies inside the source.
pub proof fn lemma_scan_token_bounds(src: Seq<u8>, pos: int, line: int)
    requires
        0 <= pos <= src.len(),
    ensures
        ({
            let (t, p, l) = spec_scan_token(src, pos, line);
            &&& pos <= p <= src.len()
            &&& (t.kind != TokenType::TOKEN_EOF ==> pos + 1 <= p)
            &&& 0 <= t.start
            &&& t.length >= 0
            &&& t.start + t.length <= src.len()
            &&& (t.kind == TokenType::TOKEN_EOF ==> t.length == 0 && p == t.start)
        }),
{
    lemma_skip_ws_bounds(src, pos, line, false);
    let (i, l) = spec_skip_ws(src, pos, line);
    if 0 <= i < src.len() {
        let c = src[i];
        if spec_is_alpha(c) {
            lemma_alnum_end_bounds(src, i + 1);
        } else if spec_is_digit(c) {
            lemma_digits_end_bounds(src, i + 1);
            let j = digits_end(src, i + 1);
            if j < src.len() && src[j] == B_DOT && j + 1 < src.len() && spec_is_digit(src[j + 1]) {
                lemma_digits_end_bounds(src, j + 2);
            }
        } else if c == B_QUOTE {
            lemma_string_scan_bounds(src, i + 1, l);
        }
    }
}

} // verus!
