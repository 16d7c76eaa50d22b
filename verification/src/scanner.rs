//! The lexer: turns raw source text into the token stream the parser
//! consumes.  The stream always ends with a single `Eof` token, and `Eof`
//! never appears anywhere else, which is exactly the shape the parser's
//! bookkeeping depends on.

use vstd::prelude::*;
use vstd::string::StringExecFns;
use crate::error::Error;
use crate::token::{Token, TokenType};
use crate::util::{is_alpha, is_alphanumeric, is_digit, ifte};

verus! {

/// The keyword table: the token kind a lexeme is reserved for, if any.
pub open spec fn spec_keyword(s: Seq<char>) -> Option<TokenType> {
    if s == "and"@ {
        Some(TokenType::And)
    } else if s == "class"@ {
        Some(TokenType::Class)
    } else if s == "else"@ {
        Some(TokenType::Else)
    } else if s == "false"@ {
        Some(TokenType::False)
    } else if s == "for"@ {
        Some(TokenType::For)
    } else if s == "fun"@ {
        Some(TokenType::Fun)
    } else if s == "if"@ {
        Some(TokenType::If)
    } else if s == "nil"@ {
        Some(TokenType::Nil)
    } else if s == "or"@ {
        Some(TokenType::Or)
    } else if s == "print"@ {
        Some(TokenType::Print)
    } else if s == "return"@ {
        Some(TokenType::Return)
    } else if s == "super"@ {
        Some(TokenType::Super)
    } else if s == "this"@ {
        Some(TokenType::This)
    } else if s == "true"@ {
        Some(TokenType::True)
    } else if s == "var"@ {
        Some(TokenType::Var)
    } else if s == "while"@ {
        Some(TokenType::While)
    } else {
        None
    }
}

/// How many newline characters a character sequence holds.
pub open spec fn count_newlines(s: Seq<char>) -> int
    decreases s.len(),
{
    if s.len() == 0 {
        0
    } else {
        count_newlines(s.drop_last()) + if s.last() == '\n' {
            1int
        } else {
            0int
        }
    }
}

/// The 1-based line number at character position `pos` of a source text,
/// saturating at the largest representable line.
pub open spec fn spec_line_at(s: Seq<char>, pos: int) -> int {
    if 1 + count_newlines(s.take(pos)) <= u32::MAX {
        1 + count_newlines(s.take(pos))
    } else {
        u32::MAX as int
    }
}

proof fn lemma_count_newlines_nonneg(s: Seq<char>)
    ensures
        count_newlines(s) >= 0,
    decreases s.len(),
{
    if s.len() > 0 {
        lemma_count_newlines_nonneg(s.drop_last());
    }
}

/// Consuming one character raises the newline count by one exactly when
/// that character is a newline.
proof fn lemma_count_newlines_snoc(s: Seq<char>, i: int)
    requires
        0 <= i < s.len(),
    ensures
        count_newlines(s.take(i + 1)) == count_newlines(s.take(i)) + if s[i] == '\n' {
            1int
        } else {
            0int
        },
        count_newlines(s.take(i)) >= 0,
{
    assert(s.take(i + 1).drop_last() =~= s.take(i));
    assert(s.take(i + 1).last() == s[i]);
    lemma_count_newlines_nonneg(s.take(i));
}

/// The shape of a scanned token stream: nonempty, terminated by one `Eof`
/// token that appears nowhere else.
pub open spec fn wf_token_stream(ts: Seq<Token>) -> bool {
    &&& ts.len() >= 1
    &&& ts.last().token_type == TokenType::Eof
    &&& forall|i: int| 0 <= i < ts.len() - 1 ==> (#[trigger] ts[i]).token_type != TokenType::Eof
}

/// The lexer state: the source as characters, the tokens produced so far,
/// the start of the lexeme being scanned, the read position, and the
/// current line.
pub struct Scanner {
    src: Vec<char>,
    tokens: Vec<Token>,
    start: usize,
    current: usize,
    line: u32,
    had_error: bool,
    errors: Vec<Error>,
}

impl Scanner {
    /// The bookkeeping every scanning step preserves: the read position
    /// stays inside the source, the error flag mirrors the recorded
    /// diagnostics, the line counter never falls below one, and the
    /// tokens produced so far carry nondecreasing line numbers, none past
    /// the current line.
    pub closed spec fn wf(&self) -> bool {
        &&& self.current <= self.src@.len()
        &&& self.line >= 1
        &&& self.had_error == (self.errors@.len() > 0)
        &&& forall|i: int|
            0 <= i < self.tokens@.len() ==> (#[trigger] self.tokens@[i]).token_type
                != TokenType::Eof
        &&& forall|i: int|
            0 <= i < self.tokens@.len() ==> 1 <= (#[trigger] self.tokens@[i]).line
                <= self.line
        &&& forall|i: int, j: int|
            0 <= i <= j < self.tokens@.len() ==> (#[trigger] self.tokens@[i]).line <= (
            #[trigger] self.tokens@[j]).line
    }

    /// The line counter stands exactly at the line of the read position:
    /// one more than the newlines consumed so far, saturating.
    pub closed spec fn line_ok(&self) -> bool {
        self.line as int == spec_line_at(self.src@, self.current as int)
    }

    /// The scan errors recorded so far.
    pub closed spec fn spec_errors(&self) -> Seq<Error> {
        self.errors@
    }

    pub fn new() -> (r: Scanner)
        ensures
            r.wf(),
            r.spec_errors() == Seq::<Error>::empty(),
    {
        Scanner {
            src: Vec::new(),
            tokens: Vec::new(),
            start: 0,
            current: 0,
            line: 1,
            had_error: false,
            errors: Vec::new(),
        }
    }

    /// Scans one source text into a token stream, ending with `Eof`.  The
    /// returned flag is set exactly when a diagnostic (an unexpected
    /// character or an unterminated string) was recorded for this source.
    /// Token line numbers are 1-based and nondecreasing, and the final
    /// `Eof` token's line is one more than the newlines in the source
    /// (saturating), so line accounting spans the whole text.
    #[verifier::loop_isolation(false)]
    pub fn scan(&mut self, src: String) -> (r: (Vec<Token>, bool))
        requires
            old(self).wf(),
        ensures
            final(self).wf(),
            wf_token_stream(r.0@),
            r.1 == (final(self).spec_errors().len() > 0),
            r.0@.last().line as int == spec_line_at(src@, src@.len() as int),
            forall|i: int|
                0 <= i < r.0@.len() ==> 1 <= (#[trigger] r.0@[i]).line <= r.0@.last().line,
            forall|i: int, j: int|
                0 <= i <= j < r.0@.len() ==> (#[trigger] r.0@[i]).line <= (
                #[trigger] r.0@[j]).line,
    {
        self.restart(src);
        while !self.is_at_end()
            invariant
                self.wf(),
                self.line_ok(),
                self.src@ == src@,
            decreases self.src@.len() - self.current,
        {
            self.start = self.current;
            self.scan_token();
        }
        proof {
            assert(self.current == self.src@.len());
            assert(self.src@.take(self.current as int) =~= src@.take(src@.len() as int));
        }
        self.tokens.push(
            Token { token_type: TokenType::Eof, lexeme: String::from_str("[EOF]"), line: self.line },
        );
        let mut tokens: Vec<Token> = Vec::new();
        core::mem::swap(&mut tokens, &mut self.tokens);
        (tokens, self.had_error)
    }

    /// Returns to a fresh state over the given source text, dropping any
    /// diagnostics of an earlier scan, so that each scan stands alone.
    fn restart(&mut self, src: String)
        ensures
            final(self).wf(),
            final(self).line_ok(),
            final(self).src@ == src@,
            final(self).current == 0,
            final(self).line == 1,
            final(self).tokens@ == Seq::<Token>::empty(),
            final(self).spec_errors() == Seq::<Error>::empty(),
            final(self).had_error == false,
    {
        self.src = chars_of(src.as_str());
        self.tokens.clear();
        self.start = 0;
        self.current = 0;
        self.line = 1;
        self.had_error = false;
        self.errors.clear();
        proof {
            assert(self.src@.take(0).len() == 0);
        }
    }

    /// Scans one token (or skips whitespace or a comment), always
    /// consuming at least one character and keeping the line counter in
    /// step with the newlines consumed.
    #[verifier::loop_isolation(false)]
    fn scan_token(&mut self)
        requires
            old(self).wf(),
            old(self).line_ok(),
            old(self).current < old(self).src@.len(),
            old(self).start == old(self).current,
        ensures
            final(self).wf(),
            final(self).line_ok(),
            final(self).src == old(self).src,
            old(self).current < final(self).current <= final(self).src@.len(),
    {
        let c = self.advance();
        match c {
            '(' => self.add_token(TokenType::LeftParen, "("),
            ')' => self.add_token(TokenType::RightParen, ")"),
            '{' => self.add_token(TokenType::LeftBrace, "{"),
            '}' => self.add_token(TokenType::RightBrace, "}"),
            ',' => self.add_token(TokenType::Comma, ","),
            '.' => self.add_token(TokenType::Dot, "."),
            '-' => self.add_token(TokenType::Minus, "-"),
            '+' => self.add_token(TokenType::Plus, "+"),
            ';' => self.add_token(TokenType::Semicolon, ";"),
            '*' => self.add_token(TokenType::Star, "*"),
            '!' => self.double_char_token('!', '=', TokenType::BangEqual, TokenType::Bang),
            '=' => self.double_char_token('=', '=', TokenType::EqualEqual, TokenType::Equal),
            '<' => self.double_char_token('<', '=', TokenType::LessEqual, TokenType::Less),
            '>' => self.double_char_token('>', '=', TokenType::GreaterEqual, TokenType::Greater),
            '/' => {
                if self.advance_if('/') {
                    while !self.is_at_end() && self.peek() != '\n'
                        invariant
                            self.wf(),
                            self.line_ok(),
                            self.src == old(self).src,
                            old(self).current < self.current,
                        decreases self.src@.len() - self.current,
                    {
                        self.advance();
                    }
                } else {
                    self.add_token(TokenType::Slash, "/");
                }
            },
            ' ' => {},
            '\r' => {},
            '\t' => {},
            '\n' => {
                self.bump_line();
                proof {
                    lemma_count_newlines_snoc(self.src@, old(self).current as int);
                    assert(self.line_ok());
                }
            },
            '"' => self.string(),
            _ => {
                if is_digit(c) {
                    self.number();
                } else if is_alpha(c) {
                    self.identifier();
                } else {
                    self.emit_error(String::from_str("Unexpected character."));
                }
            },
        }
    }

    /// Advances past the current line's newline counter, saturating
    /// rather than wrapping.
    fn bump_line(&mut self)
        ensures
            final(self).current == old(self).current,
            final(self).src == old(self).src,
            final(self).tokens == old(self).tokens,
            final(self).start == old(self).start,
            final(self).had_error == old(self).had_error,
            final(self).errors == old(self).errors,
            final(self).line == if old(self).line < u32::MAX {
                (old(self).line + 1) as u32
            } else {
                old(self).line
            },
    {
        if self.line < u32::MAX {
            self.line = self.line + 1;
        }
    }

    /// Emits a one- or two-character operator token depending on whether
    /// the expected second character follows.
    fn double_char_token(
        &mut self,
        first_char: char,
        second_char: char,
        double_token: TokenType,
        single_token: TokenType,
    )
        requires
            old(self).wf(),
            old(self).line_ok(),
            second_char != '\n',
            double_token != TokenType::Eof,
            single_token != TokenType::Eof,
        ensures
            final(self).wf(),
            final(self).line_ok(),
            final(self).src == old(self).src,
            old(self).current <= final(self).current <= final(self).src@.len(),
    {
        let did_advance = self.advance_if(second_char);
        let mut s = String::new();
        push_char(&mut s, first_char);
        if did_advance {
            push_char(&mut s, second_char);
        }
        let tt = ifte(did_advance, double_token, single_token);
        self.add_token_string(tt, s);
    }

    /// Scans a string literal to its closing quote; an unterminated
    /// string is an error.
    #[verifier::loop_isolation(false)]
    fn string(&mut self)
        requires
            old(self).wf(),
            old(self).line_ok(),
            old(self).start < old(self).current <= old(self).src@.len(),
        ensures
            final(self).wf(),
            final(self).line_ok(),
            final(self).src == old(self).src,
            old(self).current <= final(self).current <= final(self).src@.len(),
    {
        while !self.is_at_end() && self.peek() != '"'
            invariant
                self.wf(),
                self.line_ok(),
                self.src == old(self).src,
                old(self).current <= self.current,
                old(self).start == self.start,
            decreases self.src@.len() - self.current,
        {
            let ghost cur0 = self.current;
            if self.peek() == '\n' {
                self.bump_line();
            }
            self.advance();
            proof {
                lemma_count_newlines_snoc(self.src@, cur0 as int);
                assert(self.line_ok());
            }
        }
        if self.is_at_end() {
            self.emit_error(String::from_str("Unterminated string."));
            return ;
        }
        self.advance();
        proof {
            assert(self.current >= self.start + 2);
        }
        let text = self.lexeme_text(self.start + 1, self.current - 1);
        self.add_token_string(TokenType::String, text);
    }

    /// Scans a number literal: digits with an optional fractional part.
    #[verifier::loop_isolation(false)]
    fn number(&mut self)
        requires
            old(self).wf(),
            old(self).line_ok(),
            old(self).start < old(self).current <= old(self).src@.len(),
        ensures
            final(self).wf(),
            final(self).line_ok(),
            final(self).src == old(self).src,
            old(self).current <= final(self).current <= final(self).src@.len(),
    {
        while is_digit(self.peek())
            invariant
                self.wf(),
                self.line_ok(),
                self.src == old(self).src,
                old(self).current <= self.current,
                old(self).start == self.start,
            decreases self.src@.len() - self.current,
        {
            self.advance();
        }
        if self.peek() == '.' && is_digit(self.peek_next()) {
            self.advance();
            while is_digit(self.peek())
                invariant
                    self.wf(),
                    self.line_ok(),
                    self.src == old(self).src,
                    old(self).current <= self.current,
                    old(self).start == self.start,
                decreases self.src@.len() - self.current,
            {
                self.advance();
            }
        }
        let text = self.lexeme_text(self.start, self.current);
        self.add_token_string(TokenType::Number, text);
    }

    /// Scans an identifier or keyword.
    #[verifier::loop_isolation(false)]
    fn identifier(&mut self)
        requires
            old(self).wf(),
            old(self).line_ok(),
            old(self).start < old(self).current <= old(self).src@.len(),
        ensures
            final(self).wf(),
            final(self).line_ok(),
            final(self).src == old(self).src,
            old(self).current <= final(self).current <= final(self).src@.len(),
    {
        while is_alphanumeric(self.peek())
            invariant
                self.wf(),
                self.line_ok(),
                self.src == old(self).src,
                old(self).current <= self.current,
                old(self).start == self.start,
            decreases self.src@.len() - self.current,
        {
            self.advance();
        }
        let text = self.lexeme_text(self.start, self.current);
        match Self::keyword(&text) {
            Some(tt) => self.add_token_string(tt, text),
            None => self.add_token_string(TokenType::Identifier, text),
        }
    }

    /// The keyword token kind for a lexeme, if it is one of the sixteen
    /// reserved words; anything else, different capitalisation included,
    /// is not a keyword.
    fn keyword(value: &String) -> (r: Option<TokenType>)
        ensures
            r == spec_keyword(value@),
            r matches Some(tt) ==> tt != TokenType::Eof,
    {
        if value.eq(&String::from_str("and")) {
            Some(TokenType::And)
        } else if value.eq(&String::from_str("class")) {
            Some(TokenType::Class)
        } else if value.eq(&String::from_str("else")) {
            Some(TokenType::Else)
        } else if value.eq(&String::from_str("false")) {
            Some(TokenType::False)
        } else if value.eq(&String::from_str("for")) {
            Some(TokenType::For)
        } else if value.eq(&String::from_str("fun")) {
            Some(TokenType::Fun)
        } else if value.eq(&String::from_str("if")) {
            Some(TokenType::If)
        } else if value.eq(&String::from_str("nil")) {
            Some(TokenType::Nil)
        } else if value.eq(&String::from_str("or")) {
            Some(TokenType::Or)
        } else if value.eq(&String::from_str("print")) {
            Some(TokenType::Print)
        } else if value.eq(&String::from_str("return")) {
            Some(TokenType::Return)
        } else if value.eq(&String::from_str("super")) {
            Some(TokenType::Super)
        } else if value.eq(&String::from_str("this")) {
            Some(TokenType::This)
        } else if value.eq(&String::from_str("true")) {
            Some(TokenType::True)
        } else if value.eq(&String::from_str("var")) {
            Some(TokenType::Var)
        } else if value.eq(&String::from_str("while")) {
            Some(TokenType::While)
        } else {
            None
        }
    }

    /// The source text between two character positions, as a `String`.
    #[verifier::loop_isolation(false)]
    fn lexeme_text(&self, from: usize, to: usize) -> (r: String)
        requires
            from <= to <= self.src@.len(),
        ensures
            r@ == self.src@.subrange(from as int, to as int),
    {
        let mut s = String::new();
        let mut i = from;
        while i < to
            invariant
                from <= i <= to <= self.src@.len(),
                s@ == self.src@.subrange(from as int, i as int),
            decreases to - i,
        {
            push_char(&mut s, self.src[i]);
            proof {
                assert(s@ =~= self.src@.subrange(from as int, i + 1));
            }
            i = i + 1;
        }
        s
    }

    /// Consumes and returns the current character.  Consuming anything
    /// but a newline leaves the line accounting in step.
    fn advance(&mut self) -> (r: char)
        requires
            old(self).wf(),
            old(self).current < old(self).src@.len(),
        ensures
            final(self).current == old(self).current + 1,
            final(self).src == old(self).src,
            final(self).tokens == old(self).tokens,
            final(self).start == old(self).start,
            final(self).line == old(self).line,
            final(self).had_error == old(self).had_error,
            final(self).errors == old(self).errors,
            r == old(self).src@[old(self).current as int],
            old(self).line_ok() && old(self).src@[old(self).current as int] != '\n'
                ==> final(self).line_ok(),
    {
        proof {
            lemma_count_newlines_snoc(self.src@, self.current as int);
        }
        proof {
            assert(self.current < self.src.len());
        }
        let c = self.src[self.current];
        self.current = self.current + 1;
        c
    }

    /// Consumes the current character only if it is the expected one.
    fn advance_if(&mut self, expected: char) -> (r: bool)
        requires
            old(self).wf(),
        ensures
            final(self).wf(),
            final(self).src == old(self).src,
            final(self).tokens == old(self).tokens,
            final(self).start == old(self).start,
            final(self).line == old(self).line,
            final(self).had_error == old(self).had_error,
            final(self).errors == old(self).errors,
            old(self).current <= final(self).current <= final(self).src@.len(),
            r ==> final(self).current == old(self).current + 1,
            !r ==> final(self).current == old(self).current,
            old(self).line_ok() && expected != '\n' ==> final(self).line_ok(),
    {
        if self.is_at_end() {
            return false;
        }
        proof {
            assert(self.current < self.src.len());
            lemma_count_newlines_snoc(self.src@, self.current as int);
        }
        if self.src[self.current] != expected {
            return false;
        }
        self.current = self.current + 1;
        true
    }

    /// Records a token with a fixed lexeme.
    fn add_token(&mut self, token_type: TokenType, lexeme: &str)
        requires
            old(self).wf(),
            token_type != TokenType::Eof,
        ensures
            final(self).wf(),
            final(self).src == old(self).src,
            final(self).start == old(self).start,
            final(self).current == old(self).current,
            final(self).line == old(self).line,
            final(self).had_error == old(self).had_error,
            final(self).errors == old(self).errors,
            final(self).tokens@.len() == old(self).tokens@.len() + 1,
            final(self).tokens@.drop_last() == old(self).tokens@,
    {
        self.tokens.push(
            Token { token_type, lexeme: String::from_str(lexeme), line: self.line },
        );
        proof {
            assert(self.tokens@.drop_last() =~= old(self).tokens@);
        }
    }

    /// Records a token whose lexeme was built while scanning.
    fn add_token_string(&mut self, token_type: TokenType, lexeme: String)
        requires
            old(self).wf(),
            token_type != TokenType::Eof,
        ensures
            final(self).wf(),
            final(self).src == old(self).src,
            final(self).start == old(self).start,
            final(self).current == old(self).current,
            final(self).line == old(self).line,
            final(self).had_error == old(self).had_error,
            final(self).errors == old(self).errors,
            final(self).tokens@.len() == old(self).tokens@.len() + 1,
            final(self).tokens@.drop_last() == old(self).tokens@,
            final(self).tokens@.last() == (Token { token_type, lexeme, line: old(self).line }),
    {
        self.tokens.push(Token { token_type, lexeme, line: self.line });
        proof {
            assert(self.tokens@.drop_last() =~= old(self).tokens@);
        }
    }

    /// The current character, or a sentinel at the end of the source.
    fn peek(&self) -> (r: char)
        requires
            self.wf(),
        ensures
            r == if self.current < self.src@.len() {
                self.src@[self.current as int]
            } else {
                '\0'
            },
    {
        if self.is_at_end() {
            '\0'
        } else {
            self.src[self.current]
        }
    }

    /// The character after the current one, or a sentinel.
    fn peek_next(&self) -> (r: char)
        requires
            self.wf(),
        ensures
            r == if self.current + 1 < self.src@.len() {
                self.src@[self.current + 1]
            } else {
                '\0'
            },
    {
        let n = self.src.len();
        if self.current >= n {
            '\0'
        } else if self.current + 1 >= n {
            '\0'
        } else {
            self.src[self.current + 1]
        }
    }

    fn is_at_end(&self) -> (r: bool)
        ensures
            r == (self.current >= self.src@.len()),
    {
        self.current >= self.src.len()
    }

    /// Records a scan error on the current line.
    fn emit_error(&mut self, message: String)
        ensures
            old(self).wf() ==> final(self).wf(),
            final(self).src == old(self).src,
            final(self).tokens == old(self).tokens,
            final(self).start == old(self).start,
            final(self).current == old(self).current,
            final(self).line == old(self).line,
            final(self).had_error == true,
            final(self).errors@.len() == old(self).errors@.len() + 1,
    {
        self.errors.push(Error { line: self.line, loc: String::new(), msg: message });
        self.had_error = true;
    }

    /// The recorded scan errors, for the shell to report.  Taking them
    /// clears the error state.
    pub fn take_errors(&mut self) -> (r: Vec<Error>)
        ensures
            r@ == old(self).spec_errors(),
            final(self).spec_errors() == Seq::<Error>::empty(),
            old(self).wf() ==> final(self).wf(),
    {
        let mut out: Vec<Error> = Vec::new();
        core::mem::swap(&mut out, &mut self.errors);
        self.had_error = false;
        out
    }
}

/// Relies on `String::push`: appends one character to the string.
#[verifier::external_body]
fn push_char(s: &mut String, c: char)
    ensures
        final(s)@ == old(s)@.push(c),
{
    s.push(c);
}

/// The characters of a string slice, in order.
#[verifier::loop_isolation(false)]
pub fn chars_of(s: &str) -> (r: Vec<char>)
    ensures
        r@ == s@,
{
    let n = s.unicode_len();
    let mut out: Vec<char> = Vec::new();
    let mut i: usize = 0;
    while i < n
        invariant
            i <= n,
            n == s@.len(),
            out@ == s@.take(i as int),
        decreases n - i,
    {
        out.push(s.get_char(i));
        proof {
            assert(out@ =~= s@.take(i + 1));
        }
        i = i + 1;
    }
    proof {
        assert(s@.take(n as int) =~= s@);
    }
    out
}

} // verus!
