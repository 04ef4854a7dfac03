//! The executable scanner, proved to produce exactly the tokens and the
//! error reports of the specification-level scan.

use crate::lox::errs;
use crate::lox::ErrSpec;
use crate::lox::Lox;
use crate::model::digits_end;
use crate::model::eof_token;
use crate::model::is_alnum;
use crate::model::is_alpha;
use crate::model::is_digit;
use crate::model::keyword_kind;
use crate::model::newlines;
use crate::model::opt_seq;
use crate::model::scan_spec;
use crate::model::scan_step;
use crate::model::scan_to;
use crate::model::word_end;
use crate::model::lemma_digits_end;
use crate::model::lemma_newlines_split;
use crate::model::lemma_scan_spec_eof;
use crate::model::lemma_scan_spec_unfold;
use crate::model::lemma_scan_to;
use crate::model::lemma_step_bounds;
use crate::model::lemma_word_end;
use crate::token::toks;
use crate::token::Literal;
use crate::token::Token;
use crate::token::TokenSpec;
use crate::token::TokenType;
use vstd::prelude::*;
use vstd::string::StrSliceExecFns;

verus! {

// ===== character helpers =====

/// Executable test for an ASCII digit.
fn digit(c: char) -> (r: bool)
    ensures
        r == is_digit(c),
{
    '0' as u32 <= c as u32 && c as u32 <= '9' as u32
}

/// Executable test for an ASCII letter or underscore.
fn alpha(c: char) -> (r: bool)
    ensures
        r == is_alpha(c),
{
    ('a' as u32 <= c as u32 && c as u32 <= 'z' as u32) || ('A' as u32 <= c as u32 && c as u32
        <= 'Z' as u32) || c == '_'
}

/// Executable test for an identifier character.
fn alnum(c: char) -> (r: bool)
    ensures
        r == is_alnum(c),
{
    alpha(c) || digit(c)
}

/// The characters of `s`, one per cell, in order.
fn chars_of(s: &str) -> (r: Vec<char>)
    ensures
        r@ == s@,
{
    let n = s.unicode_len();
    let mut r: Vec<char> = Vec::new();
    let mut i: usize = 0;
    while i < n
        invariant
            n == s@.len(),
            i <= n,
            r@ == s@.subrange(0, i as int),
        decreases n - i,
    {
        r.push(s.get_char(i));
        proof {
            assert(r@ =~= s@.subrange(0, i + 1 as int));
        }
        i = i + 1;
    }
    proof {
        assert(r@ =~= s@);
    }
    r
}

/// A copy of `s[from..to)`.
fn copy_range(s: &Vec<char>, from: usize, to: usize) -> (r: Vec<char>)
    requires
        from <= to <= s@.len(),
    ensures
        r@ == s@.subrange(from as int, to as int),
{
    let mut r: Vec<char> = Vec::new();
    let mut i: usize = from;
    while i < to
        invariant
            from <= i <= to <= s@.len(),
            r@ == s@.subrange(from as int, i as int),
        decreases to - i,
    {
        r.push(s[i]);
        proof {
            assert(r@ =~= s@.subrange(from as int, i + 1 as int));
        }
        i = i + 1;
    }
    r
}

/// The keyword table: the reserved kind for `l`, or `Identifier` when `l`
/// is no reserved word.
fn classify_word(l: &Vec<char>) -> (t: TokenType)
    ensures
        t == keyword_kind(l@),
{
    let n = l.len();
    if n == 2 {
        if l[0] == 'i' && l[1] == 'f' {
            proof { assert(l@ =~= seq!['i', 'f']); }
            return TokenType::If;
        }
        if l[0] == 'o' && l[1] == 'r' {
            proof { assert(l@ =~= seq!['o', 'r']); }
            return TokenType::Or;
        }
    } else if n == 3 {
        if l[0] == 'a' && l[1] == 'n' && l[2] == 'd' {
            proof { assert(l@ =~= seq!['a', 'n', 'd']); }
            return TokenType::And;
        }
        if l[0] == 'f' && l[1] == 'o' && l[2] == 'r' {
            proof { assert(l@ =~= seq!['f', 'o', 'r']); }
            return TokenType::For;
        }
        if l[0] == 'f' && l[1] == 'u' && l[2] == 'n' {
            proof { assert(l@ =~= seq!['f', 'u', 'n']); }
            return TokenType::Fun;
        }
        if l[0] == 'n' && l[1] == 'i' && l[2] == 'l' {
            proof { assert(l@ =~= seq!['n', 'i', 'l']); }
            return TokenType::Nil;
        }
        if l[0] == 'v' && l[1] == 'a' && l[2] == 'r' {
            proof { assert(l@ =~= seq!['v', 'a', 'r']); }
            return TokenType::Var;
        }
    } else if n == 4 {
        if l[0] == 'e' && l[1] == 'l' && l[2] == 's' && l[3] == 'e' {
            proof { assert(l@ =~= seq!['e', 'l', 's', 'e']); }
            return TokenType::Else;
        }
        if l[0] == 't' && l[1] == 'h' && l[2] == 'i' && l[3] == 's' {
            proof { assert(l@ =~= seq!['t', 'h', 'i', 's']); }
            return TokenType::This;
        }
        if l[0] == 't' && l[1] == 'r' && l[2] == 'u' && l[3] == 'e' {
            proof { assert(l@ =~= seq!['t', 'r', 'u', 'e']); }
            return TokenType::True;
        }
    } else if n == 5 {
        if l[0] == 'c' && l[1] == 'l' && l[2] == 'a' && l[3] == 's' && l[4] == 's' {
            proof { assert(l@ =~= seq!['c', 'l', 'a', 's', 's']); }
            return TokenType::Class;
        }
        if l[0] == 'f' && l[1] == 'a' && l[2] == 'l' && l[3] == 's' && l[4] == 'e' {
            proof { assert(l@ =~= seq!['f', 'a', 'l', 's', 'e']); }
            return TokenType::False;
        }
        if l[0] == 'p' && l[1] == 'r' && l[2] == 'i' && l[3] == 'n' && l[4] == 't' {
            proof { assert(l@ =~= seq!['p', 'r', 'i', 'n', 't']); }
            return TokenType::Print;
        }
        if l[0] == 's' && l[1] == 'u' && l[2] == 'p' && l[3] == 'e' && l[4] == 'r' {
            proof { assert(l@ =~= seq!['s', 'u', 'p', 'e', 'r']); }
            return TokenType::Super;
        }
        if l[0] == 'w' && l[1] == 'h' && l[2] == 'i' && l[3] == 'l' && l[4] == 'e' {
            proof { assert(l@ =~= seq!['w', 'h', 'i', 'l', 'e']); }
            return TokenType::While;
        }
    } else if n == 6 {
        if l[0] == 'r' && l[1] == 'e' && l[2] == 't' && l[3] == 'u' && l[4] == 'r' && l[5] == 'n' {
            proof { assert(l@ =~= seq!['r', 'e', 't', 'u', 'r', 'n']); }
            return TokenType::Return;
        }
    }
    TokenType::Identifier
}

// ===== the scanner =====

/// The cursor over one immutable source text. `start` is the index of the
/// first character of the token being scanned, `current` the index of the
/// next unconsumed character, `line` the current 1-based line. A scanner is
/// built for exactly one source text and runs one scan to completion.
pub struct Scanner {
    pub source: Vec<char>,
    pub tokens: Vec<Token>,
    pub start: usize,
    pub current: usize,
    pub line: usize,
}

impl Scanner {
    /// The cursor invariant: `start <= current <= len(source)`, and a line
    /// counter that starts at 1 and grows by at most one per consumed
    /// character.
    pub open spec fn wf(&self) -> bool {
        &&& self.start <= self.current <= self.source@.len()
        &&& 1 <= self.line
        &&& self.line <= self.current + 1
        &&& self.source@.len() < usize::MAX
    }

    /// A scanner positioned at the start of `source`, on line 1, with no
    /// token emitted yet. The character count of `source` must leave room
    /// for the line counter, which a machine word holds.
    pub fn new(source: String) -> (r: Scanner)
        requires
            source@.len() < usize::MAX,
        ensures
            r.wf(),
            r.source@ == source@,
            r.tokens@ == Seq::<Token>::empty(),
            r.start == 0,
            r.current == 0,
            r.line == 1,
    {
        let chars = chars_of(source.as_str());
        Scanner { source: chars, tokens: Vec::new(), start: 0, current: 0, line: 1 }
    }

    /// Whether the cursor has consumed the whole source.
    fn is_at_end(&self) -> (r: bool)
        ensures
            r == (self.current >= self.source@.len()),
    {
        self.current >= self.source.len()
    }

    /// Consumes and returns the next character.
    fn advance(&mut self) -> (c: char)
        requires
            old(self).wf(),
            old(self).current < old(self).source@.len(),
        ensures
            final(self).wf(),
            *final(self) == (Scanner { current: (old(self).current + 1) as usize, ..*old(self) }),
            c == old(self).source@[old(self).current as int],
    {
        let c = self.source[self.current];
        self.current = self.current + 1;
        c
    }

    /// The next unconsumed character, or the null character at the end of
    /// input; consumes nothing.
    fn peek(&self) -> (c: char)
        requires
            self.wf(),
        ensures
            c == (if self.current < self.source@.len() {
                self.source@[self.current as int]
            } else {
                '\0'
            }),
    {
        if self.current < self.source.len() {
            self.source[self.current]
        } else {
            '\0'
        }
    }

    /// The character one past the next unconsumed one, or the null
    /// character when the text ends before it; consumes nothing.
    fn peek_next(&self) -> (c: char)
        requires
            self.wf(),
        ensures
            c == (if self.current + 1 < self.source@.len() {
                self.source@[self.current + 1]
            } else {
                '\0'
            }),
    {
        if self.current < self.source.len() && self.current + 1 < self.source.len() {
            self.source[self.current + 1]
        } else {
            '\0'
        }
    }

    /// Consumes the next character exactly when it equals `expected`.
    fn match_char(&mut self, expected: char) -> (r: bool)
        requires
            old(self).wf(),
        ensures
            final(self).wf(),
            r == (old(self).current < old(self).source@.len() && old(self).source@[old(
                self,
            ).current as int] == expected),
            r ==> *final(self) == (Scanner { current: (old(self).current + 1) as usize, ..*old(self) }),
            !r ==> *final(self) == *old(self),
    {
        if self.is_at_end() {
            return false;
        }
        if self.source[self.current] != expected {
            return false;
        }
        self.current = self.current + 1;
        true
    }

    /// Emits one token for the text from `start` to `current`, on the
    /// current line.
    fn add_token(&mut self, kind: TokenType, literal: Literal)
        requires
            old(self).wf(),
        ensures
            final(self).wf(),
            *final(self) == (Scanner { tokens: final(self).tokens, ..*old(self) }),
            toks(final(self).tokens@) == toks(old(self).tokens@) + seq![
                (TokenSpec {
                    kind,
                    lexeme: old(self).source@.subrange(
                        old(self).start as int,
                        old(self).current as int,
                    ),
                    literal: literal@,
                    line: old(self).line as int,
                }),
            ],
    {
        let text = copy_range(&self.source, self.start, self.current);
        let line = self.line;
        self.tokens.push(Token::new(kind, text, literal, line));
        proof {
            assert(toks(self.tokens@) =~= toks(old(self).tokens@) + seq![
                (TokenSpec {
                    kind,
                    lexeme: old(self).source@.subrange(
                        old(self).start as int,
                        old(self).current as int,
                    ),
                    literal: literal@,
                    line: old(self).line as int,
                }),
            ]);
        }
    }

    /// Scans a string literal: the opening quote is already consumed.
    /// Emits the `String` token on success; on end of input before the
    /// closing quote, reports "Unterminated string." and emits nothing.
    fn string(&mut self, lox: &mut Lox)
        requires
            old(self).wf(),
            old(self).current == old(self).start + 1,
            old(self).start < old(self).source@.len(),
            old(self).source@[old(self).start as int] == '"',
        ensures
            final(self).wf(),
            final(self).source@ == old(self).source@,
            final(self).start == old(self).start,
            ({
                let st = scan_step(
                    old(self).source@,
                    old(self).start as int,
                    old(self).line as int,
                );
                &&& final(self).current == st.next
                &&& final(self).line == st.line
                &&& toks(final(self).tokens@) == toks(old(self).tokens@) + opt_seq(st.token)
                &&& errs(final(lox).errors@) == errs(old(lox).errors@) + opt_seq(st.error)
                &&& final(lox).had_error == (old(lox).had_error || st.error is Some)
            }),
    {
        let ghost s = old(self).source@;
        let ghost pos = old(self).start as int;
        let ghost line0 = old(self).line as int;
        let line_open = self.line;
        proof {
            lemma_scan_to(s, pos + 1, '"');
        }
        let ghost close = scan_to(s, pos + 1, '"');
        loop
            invariant
                self.wf(),
                self.source@ == s,
                self.start == old(self).start,
                self.tokens@ == old(self).tokens@,
                *lox == *old(lox),
                pos == old(self).start as int,
                line0 == old(self).line as int,
                line_open as int == line0,
                close == scan_to(s, pos + 1, '"'),
                pos + 1 <= self.current <= close <= s.len(),
                scan_to(s, self.current as int, '"') == close,
                self.line as int == line0 + newlines(s, pos + 1, self.current as int),
            ensures
                self.wf(),
                self.source@ == s,
                self.start == old(self).start,
                self.tokens@ == old(self).tokens@,
                *lox == *old(lox),
                line_open as int == line0,
                self.current == close,
                self.line as int == line0 + newlines(s, pos + 1, close),
            decreases s.len() - self.current,
        {
            if self.is_at_end() {
                proof {
                    assert(self.current == close);
                }
                break;
            }
            let p = self.peek();
            if p == '"' {
                proof {
                    assert(scan_to(s, self.current as int, '"') == self.current as int);
                }
                break;
            }
            let ghost cur = self.current as int;
            let c = self.advance();
            if c == '\n' {
                self.line = self.line + 1;
            }
            proof {
                lemma_scan_to(s, cur, '"');
                assert(scan_to(s, cur, '"') == scan_to(s, cur + 1, '"'));
                assert(cur < close);
                lemma_newlines_split(s, pos + 1, cur, cur + 1);
                assert(newlines(s, cur + 1, cur + 1) == 0);
                assert(newlines(s, cur, cur + 1) == (if s[cur] == '\n' {
                    1int
                } else {
                    0int
                }));
            }
        }
        if self.is_at_end() {
            // close == s.len(): the text ended inside the literal
            let line_now = self.line;
            lox.error(line_now, "Unterminated string.");
            proof {
                let st = scan_step(s, pos, line0);
                assert(toks(self.tokens@) =~= toks(old(self).tokens@) + opt_seq(st.token));
                assert(opt_seq(st.error) =~= seq![st.error->Some_0]);
            }
            return;
        }
        // consume the closing quote
        let _ = self.advance();
        let value = copy_range(&self.source, self.start + 1, self.current - 1);
        let lexeme = copy_range(&self.source, self.start, self.current);
        let t = Token::new(TokenType::String, lexeme, Literal::String(value), line_open);
        self.tokens.push(t);
        proof {
            let st = scan_step(s, pos, line0);
            assert(toks(self.tokens@) =~= toks(old(self).tokens@) + opt_seq(st.token));
            assert(errs(lox.errors@) =~= errs(old(lox).errors@) + opt_seq(st.error));
        }
    }

    /// Scans a number literal: the first digit is already consumed. The
    /// digit run is maximal; a `.` is consumed only when a digit follows
    /// it directly.
    fn number(&mut self)
        requires
            old(self).wf(),
            old(self).current == old(self).start + 1,
            old(self).start < old(self).source@.len(),
            is_digit(old(self).source@[old(self).start as int]),
        ensures
            final(self).wf(),
            final(self).source@ == old(self).source@,
            final(self).start == old(self).start,
            final(self).line == old(self).line,
            ({
                let st = scan_step(
                    old(self).source@,
                    old(self).start as int,
                    old(self).line as int,
                );
                &&& final(self).current == st.next
                &&& toks(final(self).tokens@) == toks(old(self).tokens@) + opt_seq(st.token)
            }),
    {
        let ghost s = old(self).source@;
        let ghost pos = old(self).start as int;
        proof {
            lemma_digits_end(s, pos);
        }
        loop
            invariant
                self.wf(),
                self.source@ == s,
                self.start == old(self).start,
                self.tokens@ == old(self).tokens@,
                self.line == old(self).line,
                pos == old(self).start as int,
                pos + 1 <= self.current <= s.len(),
                digits_end(s, self.current as int) == digits_end(s, pos),
            ensures
                self.wf(),
                self.source@ == s,
                self.start == old(self).start,
                self.tokens@ == old(self).tokens@,
                self.line == old(self).line,
                pos + 1 <= self.current <= s.len(),
                self.current as int == digits_end(s, pos),
            decreases s.len() - self.current,
        {
            let p = self.peek();
            if !digit(p) {
                break;
            }
            let _ = self.advance();
        }
        let ghost whole = digits_end(s, pos);
        let p = self.peek();
        let pn = self.peek_next();
        if p == '.' && digit(pn) {
            // consume the '.' and the maximal fractional digit run
            let _ = self.advance();
            proof {
                lemma_digits_end(s, whole + 1);
            }
            loop
                invariant
                    self.wf(),
                    self.source@ == s,
                    self.start == old(self).start,
                    self.tokens@ == old(self).tokens@,
                    self.line == old(self).line,
                    pos == old(self).start as int,
                    whole == digits_end(s, pos),
                    pos <= whole < s.len(),
                    whole + 1 < s.len(),
                    s[whole] == '.',
                    is_digit(s[whole + 1]),
                    whole + 1 <= self.current <= s.len(),
                    digits_end(s, self.current as int) == digits_end(s, whole + 1),
                ensures
                    self.wf(),
                    self.source@ == s,
                    self.start == old(self).start,
                    self.tokens@ == old(self).tokens@,
                    self.line == old(self).line,
                    self.current as int == digits_end(s, whole + 1),
                decreases s.len() - self.current,
            {
                let p2 = self.peek();
                if !digit(p2) {
                    break;
                }
                let _ = self.advance();
            }
        }
        let digits = copy_range(&self.source, self.start, self.current);
        self.add_token(TokenType::Number, Literal::Number(digits));
        proof {
            let st = scan_step(s, pos, old(self).line as int);
            assert(toks(self.tokens@) =~= toks(old(self).tokens@) + opt_seq(st.token));
        }
    }

    /// Scans an identifier or keyword: the first character is already
    /// consumed. The run is maximal; the keyword table decides the kind by
    /// exact full-lexeme equality.
    fn identifier(&mut self)
        requires
            old(self).wf(),
            old(self).current == old(self).start + 1,
            old(self).start < old(self).source@.len(),
            is_alpha(old(self).source@[old(self).start as int]),
        ensures
            final(self).wf(),
            final(self).source@ == old(self).source@,
            final(self).start == old(self).start,
            final(self).line == old(self).line,
            ({
                let st = scan_step(
                    old(self).source@,
                    old(self).start as int,
                    old(self).line as int,
                );
                &&& final(self).current == st.next
                &&& toks(final(self).tokens@) == toks(old(self).tokens@) + opt_seq(st.token)
            }),
    {
        let ghost s = old(self).source@;
        let ghost pos = old(self).start as int;
        proof {
            lemma_word_end(s, pos);
        }
        loop
            invariant
                self.wf(),
                self.source@ == s,
                self.start == old(self).start,
                self.tokens@ == old(self).tokens@,
                self.line == old(self).line,
                pos == old(self).start as int,
                pos + 1 <= self.current <= s.len(),
                word_end(s, self.current as int) == word_end(s, pos),
            ensures
                self.wf(),
                self.source@ == s,
                self.start == old(self).start,
                self.tokens@ == old(self).tokens@,
                self.line == old(self).line,
                self.current as int == word_end(s, pos),
            decreases s.len() - self.current,
        {
            let p = self.peek();
            if !alnum(p) {
                break;
            }
            let _ = self.advance();
        }
        let text = copy_range(&self.source, self.start, self.current);
        let kind = classify_word(&text);
        self.add_token(kind, Literal::Nil);
        proof {
            let st = scan_step(s, pos, old(self).line as int);
            assert(toks(self.tokens@) =~= toks(old(self).tokens@) + opt_seq(st.token));
        }
    }

    /// One step of the scan loop: dispatches on the next character and
    /// consumes exactly one lexical unit, emitting at most one token and
    /// reporting at most one error, exactly as `scan_step` says.
    fn scan_token(&mut self, lox: &mut Lox)
        requires
            old(self).wf(),
            old(self).start == old(self).current,
            old(self).current < old(self).source@.len(),
        ensures
            final(self).wf(),
            final(self).source@ == old(self).source@,
            ({
                let st = scan_step(
                    old(self).source@,
                    old(self).current as int,
                    old(self).line as int,
                );
                &&& final(self).current == st.next
                &&& final(self).line == st.line
                &&& toks(final(self).tokens@) == toks(old(self).tokens@) + opt_seq(st.token)
                &&& errs(final(lox).errors@) == errs(old(lox).errors@) + opt_seq(st.error)
                &&& final(lox).had_error == (old(lox).had_error || st.error is Some)
            }),
    {
        let ghost s = old(self).source@;
        let ghost pos = old(self).current as int;
        let ghost line0 = old(self).line as int;
        let c = self.advance();
        match c {
            '(' => self.add_token(TokenType::LeftParen, Literal::Nil),
            ')' => self.add_token(TokenType::RightParen, Literal::Nil),
            '{' => self.add_token(TokenType::LeftBrace, Literal::Nil),
            '}' => self.add_token(TokenType::RightBrace, Literal::Nil),
            ',' => self.add_token(TokenType::Comma, Literal::Nil),
            '.' => self.add_token(TokenType::Dot, Literal::Nil),
            '-' => self.add_token(TokenType::Minus, Literal::Nil),
            '+' => self.add_token(TokenType::Plus, Literal::Nil),
            ';' => self.add_token(TokenType::Semicolon, Literal::Nil),
            '*' => self.add_token(TokenType::Star, Literal::Nil),
            '!' => {
                if self.match_char('=') {
                    self.add_token(TokenType::BangEqual, Literal::Nil);
                } else {
                    self.add_token(TokenType::Bang, Literal::Nil);
                }
            },
            '=' => {
                if self.match_char('=') {
                    self.add_token(TokenType::EqualEqual, Literal::Nil);
                } else {
                    self.add_token(TokenType::Equal, Literal::Nil);
                }
            },
            '<' => {
                if self.match_char('=') {
                    self.add_token(TokenType::LessEqual, Literal::Nil);
                } else {
                    self.add_token(TokenType::Less, Literal::Nil);
                }
            },
            '>' => {
                if self.match_char('=') {
                    self.add_token(TokenType::GreaterEqual, Literal::Nil);
                } else {
                    self.add_token(TokenType::Greater, Literal::Nil);
                }
            },
            '/' => {
                if self.match_char('/') {
                    // a comment runs until the end of the line
                    proof {
                        lemma_scan_to(s, pos + 2, '\n');
                    }
                    loop
                        invariant
                            self.wf(),
                            self.source@ == s,
                            self.start == old(self).start,
                            self.tokens@ == old(self).tokens@,
                            *lox == *old(lox),
                            self.line == old(self).line,
                            pos == old(self).current as int,
                            pos + 2 <= self.current <= s.len(),
                            scan_to(s, self.current as int, '\n') == scan_to(s, pos + 2, '\n'),
                        ensures
                            self.wf(),
                            self.source@ == s,
                            self.start == old(self).start,
                            self.tokens@ == old(self).tokens@,
                            *lox == *old(lox),
                            self.line == old(self).line,
                            self.current as int == scan_to(s, pos + 2, '\n'),
                        decreases s.len() - self.current,
                    {
                        if self.is_at_end() {
                            break;
                        }
                        let p = self.peek();
                        if p == '\n' {
                            break;
                        }
                        let ghost cur = self.current as int;
                        let _ = self.advance();
                        proof {
                            assert(scan_to(s, cur, '\n') == scan_to(s, cur + 1, '\n'));
                        }
                    }
                } else {
                    self.add_token(TokenType::Slash, Literal::Nil);
                }
            },
            ' ' | '\r' | '\t' => (),
            '\n' => {
                self.line = self.line + 1;
            },
            '"' => self.string(lox),
            _ => {
                if digit(c) {
                    self.number();
                } else if alpha(c) {
                    self.identifier();
                } else {
                    let line_now = self.line;
                    lox.error(line_now, "Unexpected character.");
                }
            },
        }
        proof {
            assert(toks(old(self).tokens@) + Seq::<TokenSpec>::empty() =~= toks(
                old(self).tokens@,
            ));
            assert(errs(old(lox).errors@) + Seq::<ErrSpec>::empty() =~= errs(old(lox).errors@));
        }
    }

    /// Runs the scan to completion: steps until the end of input, then
    /// appends the `Eof` token carrying the final line counter, and
    /// returns the whole token sequence. Produces exactly the tokens and
    /// the error reports of `scan_spec`; the returned sequence is never
    /// empty and its last element is the one `Eof` token.
    pub fn scan_tokens(&mut self, lox: &mut Lox) -> (r: Vec<Token>)
        requires
            old(self).wf(),
        ensures
            final(self).wf(),
            final(self).source@ == old(self).source@,
            ({
                let out = scan_spec(
                    old(self).source@,
                    old(self).current as int,
                    old(self).line as int,
                );
                &&& toks(r@) == toks(old(self).tokens@) + out.tokens
                &&& toks(final(self).tokens@) == toks(r@)
                &&& errs(final(lox).errors@) == errs(old(lox).errors@) + out.errors
                &&& final(lox).had_error == (old(lox).had_error || out.errors.len() > 0)
            }),
            r@.len() >= 1,
            r@[r@.len() - 1].kind == TokenType::Eof,
            r@[r@.len() - 1].lexeme@ == Seq::<char>::empty(),
            r@[r@.len() - 1].line == final(self).line,
    {
        let ghost s = old(self).source@;
        let ghost cur0 = old(self).current as int;
        let ghost line0 = old(self).line as int;
        while self.current < self.source.len()
            invariant
                self.wf(),
                self.source@ == s,
                cur0 == old(self).current as int,
                line0 == old(self).line as int,
                toks(old(self).tokens@) + scan_spec(s, cur0, line0).tokens == toks(self.tokens@)
                    + scan_spec(s, self.current as int, self.line as int).tokens,
                errs(old(lox).errors@) + scan_spec(s, cur0, line0).errors == errs(lox.errors@)
                    + scan_spec(s, self.current as int, self.line as int).errors,
                errs(old(lox).errors@).len() <= errs(lox.errors@).len(),
                lox.had_error == (old(lox).had_error || errs(lox.errors@).len() > errs(
                    old(lox).errors@,
                ).len()),
            decreases s.len() - self.current,
        {
            let ghost pre = *self;
            let ghost lox_pre = *lox;
            proof {
                lemma_scan_spec_unfold(s, pre.current as int, pre.line as int);
                lemma_step_bounds(s, pre.current as int, pre.line as int);
            }
            self.start = self.current;
            self.scan_token(lox);
            proof {
                let st = scan_step(s, pre.current as int, pre.line as int);
                let rest = scan_spec(s, st.next, st.line);
                assert((toks(pre.tokens@) + opt_seq(st.token)) + rest.tokens =~= toks(
                    pre.tokens@,
                ) + (opt_seq(st.token) + rest.tokens));
                assert((errs(lox_pre.errors@) + opt_seq(st.error)) + rest.errors =~= errs(
                    lox_pre.errors@,
                ) + (opt_seq(st.error) + rest.errors));
            }
        }
        let ghost toks_before = self.tokens@;
        let line_end = self.line;
        self.tokens.push(Token::new(TokenType::Eof, Vec::new(), Literal::Nil, line_end));
        proof {
            assert(toks(self.tokens@) =~= toks(toks_before) + seq![eof_token(line_end as int)]);
            assert(toks(toks_before) + scan_spec(s, self.current as int, line_end as int).tokens
                =~= toks(self.tokens@));
            assert(errs(lox.errors@) + Seq::<ErrSpec>::empty() =~= errs(lox.errors@));
            lemma_scan_spec_eof(s, cur0, line0);
        }
        let r = copy_tokens(&self.tokens);
        proof {
            let out = scan_spec(s, cur0, line0);
            assert(toks(r@).len() == r@.len());
            assert(toks(r@)[r@.len() - 1] == r@[r@.len() - 1]@);
            assert(out.errors.len() > 0 <==> errs(lox.errors@).len() > errs(
                old(lox).errors@,
            ).len());
        }
        r
    }
}

/// A copy of one literal payload.
fn copy_literal(l: &Literal) -> (r: Literal)
    ensures
        r@ == l@,
{
    match l {
        Literal::Nil => Literal::Nil,
        Literal::Number(d) => {
            let c = copy_range(d, 0, d.len());
            proof {
                assert(c@ =~= d@);
            }
            Literal::Number(c)
        },
        Literal::String(t) => {
            let c = copy_range(t, 0, t.len());
            proof {
                assert(c@ =~= t@);
            }
            Literal::String(c)
        },
    }
}

/// A copy of one token.
fn copy_token(t: &Token) -> (r: Token)
    ensures
        r@ == t@,
{
    let lex = copy_range(&t.lexeme, 0, t.lexeme.len());
    proof {
        assert(lex@ =~= t.lexeme@);
    }
    let lit = copy_literal(&t.literal);
    Token::new(t.kind, lex, lit, t.line)
}

/// A copy of the whole token list.
fn copy_tokens(v: &Vec<Token>) -> (r: Vec<Token>)
    ensures
        toks(r@) == toks(v@),
        r@.len() == v@.len(),
{
    let mut r: Vec<Token> = Vec::new();
    let mut i: usize = 0;
    while i < v.len()
        invariant
            i <= v@.len(),
            r@.len() == i,
            toks(r@) == toks(v@).subrange(0, i as int),
        decreases v@.len() - i,
    {
        let t = copy_token(&v[i]);
        r.push(t);
        proof {
            assert(toks(r@) =~= toks(v@).subrange(0, i + 1 as int));
        }
        i = i + 1;
    }
    proof {
        assert(toks(v@).subrange(0, v@.len() as int) =~= toks(v@));
    }
    r
}

} // verus!
