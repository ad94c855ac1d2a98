use vstd::prelude::*;
use vstd::string::StringExecFns;
use crate::token::{Token, TokenError, TokenResult, TokenType};
use crate::model::{
    is_digit_char, is_alpha_char, is_alnum_char, char_is, digits_end, word_end, string_stop,
    number_end, scan_end, scan_kind, line_end, skip_block, skip_insignificant,
};

verus! {

broadcast use vstd::string::group_string_axioms;

/// A cursor over a source text that hands out one token at a time.
pub struct Lexer<'a> {
    start: usize,
    current: usize,
    line: u32,
    source: &'a str,
}

/// The message of an unterminated-string error found on `line`.
pub open spec fn unterminated_string_message(line: nat) -> Seq<char> {
    "unterminated string at line "@ + decimal(line) + "."@
}

/// The message of an error on a character that starts no token.
pub open spec fn unrecognized_message(c: char) -> Seq<char> {
    "Error: unrecognized character "@ + seq![c]
}

/// The message of an error on a block comment left open at the end of the input.
pub open spec fn unterminated_comment_message() -> Seq<char> {
    "Unterminated multi-line comment"@
}

/// The decimal digits of `n`, most significant first.
pub open spec fn decimal(n: nat) -> Seq<char>
    decreases n,
{
    if n < 10 {
        seq![digit_char(n)]
    } else {
        decimal(n / 10) + seq![digit_char(n % 10)]
    }
}

pub open spec fn digit_char(d: nat) -> char {
    ((d + 48) as u8) as char
}

/// The one-character string of the decimal digit `d`.
fn digit_str(d: u32) -> (r: &'static str)
    requires
        d < 10,
    ensures
        r@ == seq![digit_char(d as nat)],
{
    proof {
        reveal_strlit("0");
        reveal_strlit("1");
        reveal_strlit("2");
        reveal_strlit("3");
        reveal_strlit("4");
        reveal_strlit("5");
        reveal_strlit("6");
        reveal_strlit("7");
        reveal_strlit("8");
        reveal_strlit("9");
    }
    let r = if d == 0 {
        "0"
    } else if d == 1 {
        "1"
    } else if d == 2 {
        "2"
    } else if d == 3 {
        "3"
    } else if d == 4 {
        "4"
    } else if d == 5 {
        "5"
    } else if d == 6 {
        "6"
    } else if d == 7 {
        "7"
    } else if d == 8 {
        "8"
    } else {
        "9"
    };
    assert(r@ =~= seq![digit_char(d as nat)]);
    r
}

/// `n` written in decimal.
fn decimal_string(n: u32) -> (r: String)
    ensures
        r@ == decimal(n as nat),
    decreases n,
{
    if n < 10 {
        String::from_str(digit_str(n))
    } else {
        let mut s = decimal_string(n / 10);
        s.append(digit_str(n % 10));
        s
    }
}

fn unterminated_string_text(line: u32) -> (r: String)
    ensures
        r@ == unterminated_string_message(line as nat),
{
    let mut s = String::from_str("unterminated string at line ");
    let digits = decimal_string(line);
    s.append(digits.as_str());
    s.append(".");
    s
}

/// Relies on `format!` with `Display` for `char`, which writes the character itself.
#[verifier::external_body]
fn format_unrecognized(c: char) -> (r: String)
    ensures
        r@ == unrecognized_message(c),
{
    format!("Error: unrecognized character {}", c)
}

/// What one call of `lex` owes at position `p` of `src`, on line `line`.
pub open spec fn lex_outcome(src: Seq<char>, p: int, line: nat, r: TokenResult) -> bool {
    match r {
        TokenResult::Token(t) => {
            &&& scan_kind(src, p) == Some(t.ttype)
            &&& t.lexeme@ == src.subrange(p, scan_end(src, p))
            &&& t.line == line
        },
        TokenResult::Error(e) => {
            &&& scan_kind(src, p) is None
            &&& e.line == line
            &&& e.message@ == (if src[p] == '"' {
                unterminated_string_message(line)
            } else {
                unrecognized_message(src[p])
            })
        },
    }
}

impl<'a> Lexer<'a> {
    /// The source text.
    pub closed spec fn src(&self) -> Seq<char> {
        self.source@
    }

    /// Where the lexeme being matched starts.
    pub closed spec fn lexeme_start(&self) -> int {
        self.start as int
    }

    /// The position of the next character to read.
    pub closed spec fn pos(&self) -> int {
        self.current as int
    }

    /// The current line, counted from one.
    pub closed spec fn cur_line(&self) -> nat {
        self.line as nat
    }

    /// The cursor lies within the text, which is ASCII, and the line count
    /// stays below the number of characters read so far plus one.
    pub open spec fn wf(&self) -> bool {
        &&& 0 <= self.lexeme_start() <= self.pos() <= self.src().len()
        &&& self.src().len() < u32::MAX
        &&& 1 <= self.cur_line() <= self.pos() + 1
        &&& vstd::utf8::is_ascii_chars(self.src())
    }

    /// The character at `i`, if there is one.
    pub open spec fn char_at(&self, i: int) -> Option<char> {
        if 0 <= i < self.src().len() {
            Some(self.src()[i])
        } else {
            None
        }
    }

    pub fn new(source: &'a str) -> (r: Lexer<'a>)
        requires
            source.is_ascii(),
            source@.len() < u32::MAX,
        ensures
            r.wf(),
            r.src() == source@,
            r.lexeme_start() == 0,
            r.pos() == 0,
            r.cur_line() == 1,
    {
        Lexer { start: 0, current: 0, line: 1, source }
    }

    fn char_at_index(&self, i: usize) -> (c: char)
        requires
            self.wf(),
            i < self.src().len(),
        ensures
            c == self.src()[i as int],
    {
        let b = self.source.get_ascii(i);
        proof {
            vstd::utf8::is_ascii_chars_nat_bound(self.source@);
        }
        b as char
    }

    pub fn is_at_end(&self) -> (r: bool)
        requires
            self.wf(),
        ensures
            r == (self.pos() == self.src().len()),
    {
        proof {
            vstd::string::is_ascii_spec_bytes(self.source);
        }
        self.source.len() == self.current
    }

    /// Consumes the next character and returns it.
    pub fn advance(&mut self) -> (c: char)
        requires
            old(self).wf(),
            old(self).pos() < old(self).src().len(),
        ensures
            final(self).wf(),
            c == old(self).src()[old(self).pos()],
            final(self).pos() == old(self).pos() + 1,
            final(self).src() == old(self).src(),
            final(self).lexeme_start() == old(self).lexeme_start(),
            final(self).cur_line() == old(self).cur_line(),
    {
        self.current = self.current + 1;
        self.char_at_index(self.current - 1)
    }

    pub fn peek(&self) -> (r: Option<char>)
        requires
            self.wf(),
        ensures
            r == self.char_at(self.pos()),
    {
        if self.is_at_end() {
            return None;
        }
        Some(self.char_at_index(self.current))
    }

    pub fn peek_next(&self) -> (r: Option<char>)
        requires
            self.wf(),
        ensures
            r == self.char_at(self.pos() + 1),
    {
        proof {
            vstd::string::is_ascii_spec_bytes(self.source);
        }
        if self.current + 1 >= self.source.len() {
            return None;
        }
        Some(self.char_at_index(self.current + 1))
    }

    /// The next character, or `'\0'` at the end of the input.
    pub fn cur_char(&self) -> (r: char)
        requires
            self.wf(),
        ensures
            r == (if self.pos() < self.src().len() {
                self.src()[self.pos()]
            } else {
                '\0'
            }),
    {
        if self.is_at_end() {
            return '\0';
        }
        self.char_at_index(self.current)
    }

    fn peek_is(&self, c: char) -> (r: bool)
        requires
            self.wf(),
        ensures
            r == char_is(self.src(), self.pos(), c),
    {
        match self.peek() {
            Some(d) => d == c,
            None => false,
        }
    }

    fn peek_next_is(&self, c: char) -> (r: bool)
        requires
            self.wf(),
        ensures
            r == char_is(self.src(), self.pos() + 1, c),
    {
        match self.peek_next() {
            Some(d) => d == c,
            None => false,
        }
    }

    pub fn is_digit(&self, c: Option<char>) -> (r: bool)
        ensures
            r == (c is Some && is_digit_char(c->0)),
    {
        match c {
            Some(ch) => '0' <= ch && ch <= '9',
            None => false,
        }
    }

    pub fn is_alpha(&self, c: Option<char>) -> (r: bool)
        ensures
            r == (c is Some && is_alpha_char(c->0)),
    {
        match c {
            Some(ch) => ('a' <= ch && ch <= 'z') || ('A' <= ch && ch <= 'Z') || ch == '_',
            None => false,
        }
    }

    pub fn is_alphanumeric(&self, c: Option<char>) -> (r: bool)
        ensures
            r == (c is Some && is_alnum_char(c->0)),
    {
        self.is_digit(c) || self.is_alpha(c)
    }

    /// A token of kind `ttype` over the current lexeme.
    pub fn token(&self, ttype: TokenType) -> (t: Token<'a>)
        requires
            self.wf(),
        ensures
            t.ttype == ttype,
            t.lexeme@ == self.src().subrange(self.lexeme_start(), self.pos()),
            t.line == self.cur_line(),
    {
        Token {
            ttype,
            lexeme: self.source.substring_ascii(self.start, self.current),
            line: self.line as usize,
        }
    }

    /// An error on the current line.
    pub fn error_token(&self, msg: String) -> (e: TokenError)
        ensures
            e.message == msg,
            e.line == self.cur_line(),
    {
        TokenError { message: msg, line: self.line }
    }

    /// Whether the current lexeme is exactly `word`.
    fn lexeme_is(&self, word: &str) -> (r: bool)
        requires
            self.wf(),
            vstd::utf8::is_ascii_chars(word@),
        ensures
            r == (self.src().subrange(self.lexeme_start(), self.pos()) == word@),
    {
        proof {
            vstd::utf8::is_ascii_chars_nat_bound(word@);
        }
        let n = word.unicode_len();
        if self.current - self.start != n {
            return false;
        }
        let mut i: usize = 0;
        while i < n
            invariant
                self.wf(),
                n == word@.len(),
                vstd::utf8::is_ascii_chars(word@),
                self.pos() - self.lexeme_start() == n,
                0 <= i <= n,
                forall|k: int| 0 <= k < i ==> self.src()[self.lexeme_start() + k] == word@[k],
            decreases n - i,
        {
            let c = self.char_at_index(self.start + i);
            let w = word.get_ascii(i) as char;
            if c != w {
                assert(self.src().subrange(self.lexeme_start(), self.pos())[i as int] != word@[i as int]);
                return false;
            }
            i = i + 1;
        }
        assert(self.src().subrange(self.lexeme_start(), self.pos()) =~= word@);
        true
    }

    fn check_next(&mut self, expected: char, single: TokenType, double: TokenType) -> (r: TokenResult<'a>)
        requires
            old(self).wf(),
        ensures
            final(self).wf(),
            final(self).src() == old(self).src(),
            final(self).lexeme_start() == old(self).lexeme_start(),
            final(self).cur_line() == old(self).cur_line(),
            char_is(old(self).src(), old(self).pos(), expected) ==> final(self).pos() == old(self).pos() + 1,
            !char_is(old(self).src(), old(self).pos(), expected) ==> final(self).pos() == old(self).pos(),
            r is Token,
            r->Token_0.ttype == (if char_is(old(self).src(), old(self).pos(), expected) { double } else { single }),
            r->Token_0.lexeme@ == final(self).src().subrange(final(self).lexeme_start(), final(self).pos()),
            r->Token_0.line == old(self).cur_line(),
    {
        if self.peek_is(expected) {
            self.advance();
            TokenResult::Token(self.token(double))
        } else {
            TokenResult::Token(self.token(single))
        }
    }

    fn handle_strings(&mut self) -> (r: TokenResult<'a>)
        requires
            old(self).wf(),
            old(self).pos() == old(self).lexeme_start() + 1,
            old(self).src()[old(self).lexeme_start()] == '"',
        ensures
            final(self).wf(),
            final(self).src() == old(self).src(),
            final(self).lexeme_start() == old(self).lexeme_start(),
            final(self).cur_line() == old(self).cur_line(),
            final(self).pos() == scan_end(old(self).src(), old(self).lexeme_start()),
            lex_outcome(old(self).src(), old(self).lexeme_start(), old(self).cur_line() as nat, r),
    {
        let ghost p = self.lexeme_start();
        let ghost stop = string_stop(self.src(), p + 1);
        while !self.is_at_end() && !self.peek_is('"')
            invariant
                self.wf(),
                self.src() == old(self).src(),
                self.lexeme_start() == p,
                self.cur_line() == old(self).cur_line(),
                p == old(self).lexeme_start(),
                old(self).src()[p] == '"',
                stop == string_stop(old(self).src(), p + 1),
                p + 1 <= self.pos(),
                string_stop(self.src(), self.pos()) == stop,
            decreases self.src().len() - self.pos(),
        {
            if self.peek_is('\n') {
                let msg = unterminated_string_text(self.line);
                return TokenResult::Error(self.error_token(msg));
            }
            self.advance();
        }
        if self.is_at_end() {
            let msg = unterminated_string_text(self.line);
            return TokenResult::Error(self.error_token(msg));
        }
        self.advance();
        TokenResult::Token(self.token(TokenType::Strings))
    }

    fn handle_numbers(&mut self) -> (r: TokenResult<'a>)
        requires
            old(self).wf(),
            old(self).pos() == old(self).lexeme_start() + 1,
            is_digit_char(old(self).src()[old(self).lexeme_start()]),
        ensures
            final(self).wf(),
            final(self).src() == old(self).src(),
            final(self).lexeme_start() == old(self).lexeme_start(),
            final(self).cur_line() == old(self).cur_line(),
            final(self).pos() == scan_end(old(self).src(), old(self).lexeme_start()),
            lex_outcome(old(self).src(), old(self).lexeme_start(), old(self).cur_line() as nat, r),
    {
        let ghost p = self.lexeme_start();
        let ghost end = number_end(self.src(), p);
        let mut ttype: TokenType = TokenType::Integer;
        while self.is_digit(self.peek())
            invariant
                self.wf(),
                self.src() == old(self).src(),
                self.lexeme_start() == p,
                self.cur_line() == old(self).cur_line(),
                p + 1 <= self.pos(),
                digits_end(self.src(), self.pos()) == digits_end(self.src(), p + 1),
            decreases self.src().len() - self.pos(),
        {
            self.advance();
        }
        if self.peek_is('.') && self.is_digit(self.peek_next()) {
            self.advance();
            ttype = TokenType::Float;
        }
        while self.is_digit(self.peek())
            invariant
                self.wf(),
                self.src() == old(self).src(),
                self.lexeme_start() == p,
                self.cur_line() == old(self).cur_line(),
                p + 1 <= self.pos(),
                digits_end(self.src(), self.pos()) == end.0,
                ttype == (if end.1 { TokenType::Float } else { TokenType::Integer }),
            decreases self.src().len() - self.pos(),
        {
            self.advance();
        }
        TokenResult::Token(self.token(ttype))
    }

    fn handle_identifier(&mut self) -> (r: TokenResult<'a>)
        requires
            old(self).wf(),
            old(self).pos() == old(self).lexeme_start() + 1,
            is_alpha_char(old(self).src()[old(self).lexeme_start()]),
        ensures
            final(self).wf(),
            final(self).src() == old(self).src(),
            final(self).lexeme_start() == old(self).lexeme_start(),
            final(self).cur_line() == old(self).cur_line(),
            final(self).pos() == scan_end(old(self).src(), old(self).lexeme_start()),
            lex_outcome(old(self).src(), old(self).lexeme_start(), old(self).cur_line() as nat, r),
    {
        let ghost p = self.lexeme_start();
        while self.is_alphanumeric(self.peek())
            invariant
                self.wf(),
                self.src() == old(self).src(),
                self.lexeme_start() == p,
                self.cur_line() == old(self).cur_line(),
                p + 1 <= self.pos(),
                word_end(self.src(), self.pos()) == word_end(self.src(), p + 1),
            decreases self.src().len() - self.pos(),
        {
            self.advance();
        }
        proof {
            reveal_strlit("type");
            reveal_strlit("struct");
            reveal_strlit("enum");
            reveal_strlit("if");
            reveal_strlit("else");
            reveal_strlit("elsif");
            reveal_strlit("return");
            reveal_strlit("while");
            reveal_strlit("for");
            reveal_strlit("match");
            reveal_strlit("func");
            reveal_strlit("end");
        }
        let ttype = if self.lexeme_is("type") {
            TokenType::Type
        } else if self.lexeme_is("struct") {
            TokenType::Struct
        } else if self.lexeme_is("enum") {
            TokenType::Enum
        } else if self.lexeme_is("if") {
            TokenType::If
        } else if self.lexeme_is("else") {
            TokenType::Else
        } else if self.lexeme_is("elsif") {
            TokenType::Elsif
        } else if self.lexeme_is("return") {
            TokenType::Return
        } else if self.lexeme_is("while") {
            TokenType::While
        } else if self.lexeme_is("for") {
            TokenType::For
        } else if self.lexeme_is("match") {
            TokenType::Match
        } else if self.lexeme_is("func") {
            TokenType::Func
        } else if self.lexeme_is("end") {
            TokenType::End
        } else {
            TokenType::Identifier
        };
        TokenResult::Token(self.token(ttype))
    }

    /// Matches one lexeme at the cursor: a token, the end-of-input token, or an
    /// error. The line grows by one only where the character consumed is a
    /// newline, which is then reported as an unrecognised character.
    pub fn lex(&mut self) -> (r: TokenResult<'a>)
        requires
            old(self).wf(),
        ensures
            final(self).wf(),
            final(self).src() == old(self).src(),
            final(self).lexeme_start() == old(self).pos(),
            final(self).pos() == scan_end(old(self).src(), old(self).pos()),
            final(self).cur_line() == old(self).cur_line() + (if char_is(
                old(self).src(),
                old(self).pos(),
                '\n',
            ) {
                1nat
            } else {
                0nat
            }),
            lex_outcome(old(self).src(), old(self).pos(), old(self).cur_line(), r),
    {
        self.start = self.current;
        if self.is_at_end() {
            return TokenResult::Token(self.token(TokenType::Eof));
        }
        let c = self.advance();
        if c == '(' {
            TokenResult::Token(self.token(TokenType::LParen))
        } else if c == ')' {
            TokenResult::Token(self.token(TokenType::RParen))
        } else if c == '{' {
            TokenResult::Token(self.token(TokenType::LBrace))
        } else if c == '}' {
            TokenResult::Token(self.token(TokenType::RBrace))
        } else if c == '[' {
            TokenResult::Token(self.token(TokenType::LSqBrace))
        } else if c == ']' {
            TokenResult::Token(self.token(TokenType::RSqBrace))
        } else if c == ',' {
            TokenResult::Token(self.token(TokenType::Comma))
        } else if c == '.' {
            TokenResult::Token(self.token(TokenType::Dot))
        } else if c == '+' {
            TokenResult::Token(self.token(TokenType::Plus))
        } else if c == '/' {
            TokenResult::Token(self.token(TokenType::Slash))
        } else if c == '*' {
            TokenResult::Token(self.token(TokenType::Star))
        } else if c == '-' {
            if self.peek_is('>') {
                self.advance();
                TokenResult::Token(self.token(TokenType::ThinArrow))
            } else {
                TokenResult::Token(self.token(TokenType::Minus))
            }
        } else if c == '=' {
            if self.peek_is('>') {
                self.advance();
                TokenResult::Token(self.token(TokenType::FatArrow))
            } else {
                self.check_next('=', TokenType::Equal, TokenType::EqualEqual)
            }
        } else if c == '!' {
            self.check_next('=', TokenType::Bang, TokenType::BangEqual)
        } else if c == '<' {
            self.check_next('=', TokenType::Less, TokenType::LessEqual)
        } else if c == '>' {
            self.check_next('=', TokenType::Greater, TokenType::GreaterEqual)
        } else if c == '&' {
            self.check_next('&', TokenType::AmprSand, TokenType::AmprAmprSand)
        } else if c == '|' {
            self.check_next('|', TokenType::Pipe, TokenType::PipePipe)
        } else if c == '"' {
            self.handle_strings()
        } else if self.is_digit(Some(c)) {
            self.handle_numbers()
        } else if self.is_alpha(Some(c)) {
            self.handle_identifier()
        } else {
            let msg = format_unrecognized(c);
            let err = self.error_token(msg);
            if c == '\n' {
                self.line = self.line + 1;
            }
            TokenResult::Error(err)
        }
    }

    /// Consumes whitespace, line comments and (nested) block comments. Returns
    /// an error, and stops at the end of the input, where a block comment is
    /// left open.
    pub fn skip_whitespaces(&mut self) -> (r: Option<TokenResult<'a>>)
        requires
            old(self).wf(),
        ensures
            final(self).wf(),
            final(self).src() == old(self).src(),
            final(self).lexeme_start() == old(self).lexeme_start(),
            ({
                let (q, l, open) = skip_insignificant(old(self).src(), old(self).pos(), old(self).cur_line());
                &&& final(self).pos() == q
                &&& final(self).cur_line() == l
                &&& open ==> (r matches Some(TokenResult::Error(e)) && e.line == l
                    && e.message@ == unterminated_comment_message())
                &&& !open ==> r is None
            }),
    {
        let ghost goal = skip_insignificant(self.src(), self.pos(), self.cur_line());
        loop
            invariant
                self.wf(),
                self.src() == old(self).src(),
                self.lexeme_start() == old(self).lexeme_start(),
                goal == skip_insignificant(old(self).src(), old(self).pos(), old(self).cur_line()),
                skip_insignificant(self.src(), self.pos(), self.cur_line()) == goal,
            decreases self.src().len() - self.pos(),
        {
            let c = self.cur_char();
            let ghost l0 = self.cur_line();
            if self.is_at_end() {
                return None;
            } else if c == ' ' || c == '\r' || c == '\t' {
                self.advance();
            } else if c == '\n' {
                self.advance();
                self.line = self.line + 1;
            } else if c == '#' {
                self.advance();
                let ghost from = self.pos();
                while !self.is_at_end() && !self.peek_is('\n')
                    invariant
                        self.wf(),
                        self.src() == old(self).src(),
                        self.lexeme_start() == old(self).lexeme_start(),
                        from <= self.pos(),
                        self.cur_line() == l0,
                        line_end(self.src(), self.pos()) == line_end(self.src(), from),
                    decreases self.src().len() - self.pos(),
                {
                    self.advance();
                }
            } else if c == '(' && self.peek_next_is('*') {
                self.advance();
                self.advance();
                let ghost from = self.pos();
                let ghost from_line = self.cur_line();
                let mut depth: usize = 1;
                while depth > 0 && !self.is_at_end()
                    invariant
                        self.wf(),
                        self.src() == old(self).src(),
                        self.lexeme_start() == old(self).lexeme_start(),
                        depth <= self.pos(),
                        from <= self.pos(),
                        skip_block(self.src(), self.pos(), self.cur_line(), depth as nat)
                            == skip_block(self.src(), from, from_line, 1),
                    decreases self.src().len() - self.pos(),
                {
                    if self.peek_is('(') && self.peek_next_is('*') {
                        self.advance();
                        self.advance();
                        depth = depth + 1;
                    } else if self.peek_is('*') && self.peek_next_is(')') {
                        self.advance();
                        self.advance();
                        depth = depth - 1;
                    } else if self.peek_is('\n') {
                        self.advance();
                        self.line = self.line + 1;
                    } else {
                        self.advance();
                    }
                }
                if depth > 0 {
                    let msg = "Unterminated multi-line comment".to_owned();
                    return Some(TokenResult::Error(self.error_token(msg)));
                }
            } else {
                return None;
            }
        }
    }
}

} // verus!
