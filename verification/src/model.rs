//! The specification-level scanner: a mathematical account of one scan step
//! and of a whole scan, over a sequence of Unicode scalar values.
//!
//! `scan_spec` is the reference the executable scanner is proved against:
//! it gives, for any source text, the exact token sequence and the exact
//! error reports a scan produces.

use crate::lox::ErrSpec;
use crate::token::LitSpec;
use crate::token::TokenSpec;
use crate::token::TokenType;
use vstd::prelude::*;

verus! {

// ===== character classes =====

/// ASCII decimal digit.
pub open spec fn is_digit(c: char) -> bool {
    '0' as u32 <= c as u32 && c as u32 <= '9' as u32
}

/// ASCII letter or underscore: what may begin an identifier.
pub open spec fn is_alpha(c: char) -> bool {
    ('a' as u32 <= c as u32 && c as u32 <= 'z' as u32)
        || ('A' as u32 <= c as u32 && c as u32 <= 'Z' as u32)
        || c == '_'
}

/// ASCII letter, digit or underscore: what may continue an identifier.
pub open spec fn is_alnum(c: char) -> bool {
    is_alpha(c) || is_digit(c)
}

// ===== cursor arithmetic =====

/// Index of the first occurrence of `c` at or after `i`, or `s.len()` when
/// there is none.
pub open spec fn scan_to(s: Seq<char>, i: int, c: char) -> int
    decreases s.len() - i
        when 0 <= i <= s.len()
{
    if i >= s.len() {
        s.len() as int
    } else if s[i] == c {
        i
    } else {
        scan_to(s, i + 1, c)
    }
}

/// End of the maximal run of ASCII digits starting at `i`.
pub open spec fn digits_end(s: Seq<char>, i: int) -> int
    decreases s.len() - i
        when 0 <= i <= s.len()
{
    if i < s.len() && is_digit(s[i]) {
        digits_end(s, i + 1)
    } else {
        i
    }
}

/// End of the maximal run of identifier characters starting at `i`.
pub open spec fn word_end(s: Seq<char>, i: int) -> int
    decreases s.len() - i
        when 0 <= i <= s.len()
{
    if i < s.len() && is_alnum(s[i]) {
        word_end(s, i + 1)
    } else {
        i
    }
}

/// Number of newline characters in `s[i..j)`.
pub open spec fn newlines(s: Seq<char>, i: int, j: int) -> int
    decreases j - i
{
    if i < j {
        (if s[i] == '\n' {
            1int
        } else {
            0int
        }) + newlines(s, i + 1, j)
    } else {
        0
    }
}

// ===== keyword table =====

/// The static keyword table: the token kind reserved for `l`, or
/// `Identifier` when `l` is no reserved word. Matching is exact,
/// full-lexeme equality, never a prefix match.
pub open spec fn keyword_kind(l: Seq<char>) -> TokenType {
    if l == seq!['a', 'n', 'd'] {
        TokenType::And
    } else if l == seq!['c', 'l', 'a', 's', 's'] {
        TokenType::Class
    } else if l == seq!['e', 'l', 's', 'e'] {
        TokenType::Else
    } else if l == seq!['f', 'a', 'l', 's', 'e'] {
        TokenType::False
    } else if l == seq!['f', 'o', 'r'] {
        TokenType::For
    } else if l == seq!['f', 'u', 'n'] {
        TokenType::Fun
    } else if l == seq!['i', 'f'] {
        TokenType::If
    } else if l == seq!['n', 'i', 'l'] {
        TokenType::Nil
    } else if l == seq!['o', 'r'] {
        TokenType::Or
    } else if l == seq!['p', 'r', 'i', 'n', 't'] {
        TokenType::Print
    } else if l == seq!['r', 'e', 't', 'u', 'r', 'n'] {
        TokenType::Return
    } else if l == seq!['s', 'u', 'p', 'e', 'r'] {
        TokenType::Super
    } else if l == seq!['t', 'h', 'i', 's'] {
        TokenType::This
    } else if l == seq!['t', 'r', 'u', 'e'] {
        TokenType::True
    } else if l == seq!['v', 'a', 'r'] {
        TokenType::Var
    } else if l == seq!['w', 'h', 'i', 'l', 'e'] {
        TokenType::While
    } else {
        TokenType::Identifier
    }
}

// ===== one scan step =====

/// Outcome of consuming one lexical unit (token, trivia, or error) at a
/// given cursor position.
pub ghost struct Step {
    /// index of the first character the step leaves unconsumed
    pub next: int,
    /// line counter after the step
    pub line: int,
    /// the token the step emits, if any
    pub token: Option<TokenSpec>,
    /// the error the step reports, if any
    pub error: Option<ErrSpec>,
}

/// A step that consumes `s[pos..end)` and emits one token for it.
pub open spec fn token_step(
    s: Seq<char>,
    pos: int,
    line: int,
    end: int,
    kind: TokenType,
    lit: LitSpec,
) -> Step {
    Step {
        next: end,
        line,
        token: Some(
            TokenSpec { kind, lexeme: s.subrange(pos, end), literal: lit, line },
        ),
        error: None,
    }
}

/// A step that consumes `s[pos..end)` and emits nothing.
pub open spec fn trivia_step(end: int, line: int) -> Step {
    Step { next: end, line, token: None, error: None }
}

/// One- or two-character operator: the two-character variant is taken
/// exactly when the next character is `=`.
pub open spec fn operator_step(
    s: Seq<char>,
    pos: int,
    line: int,
    two: TokenType,
    one: TokenType,
) -> Step {
    if pos + 1 < s.len() && s[pos + 1] == '=' {
        token_step(s, pos, line, pos + 2, two, LitSpec::Nil)
    } else {
        token_step(s, pos, line, pos + 1, one, LitSpec::Nil)
    }
}

/// Dispatch on the character at `pos`: the single scan step taken there.
///
/// Maximal munch throughout: two-character operators beat their
/// one-character prefixes, digit and identifier runs are maximal, and a
/// line comment runs to the next newline or to the end of input.
pub open spec fn scan_step(s: Seq<char>, pos: int, line: int) -> Step
    recommends
        0 <= pos < s.len(),
{
    let c = s[pos];
    if c == '(' {
        token_step(s, pos, line, pos + 1, TokenType::LeftParen, LitSpec::Nil)
    } else if c == ')' {
        token_step(s, pos, line, pos + 1, TokenType::RightParen, LitSpec::Nil)
    } else if c == '{' {
        token_step(s, pos, line, pos + 1, TokenType::LeftBrace, LitSpec::Nil)
    } else if c == '}' {
        token_step(s, pos, line, pos + 1, TokenType::RightBrace, LitSpec::Nil)
    } else if c == ',' {
        token_step(s, pos, line, pos + 1, TokenType::Comma, LitSpec::Nil)
    } else if c == '.' {
        token_step(s, pos, line, pos + 1, TokenType::Dot, LitSpec::Nil)
    } else if c == '-' {
        token_step(s, pos, line, pos + 1, TokenType::Minus, LitSpec::Nil)
    } else if c == '+' {
        token_step(s, pos, line, pos + 1, TokenType::Plus, LitSpec::Nil)
    } else if c == ';' {
        token_step(s, pos, line, pos + 1, TokenType::Semicolon, LitSpec::Nil)
    } else if c == '*' {
        token_step(s, pos, line, pos + 1, TokenType::Star, LitSpec::Nil)
    } else if c == '!' {
        operator_step(s, pos, line, TokenType::BangEqual, TokenType::Bang)
    } else if c == '=' {
        operator_step(s, pos, line, TokenType::EqualEqual, TokenType::Equal)
    } else if c == '<' {
        operator_step(s, pos, line, TokenType::LessEqual, TokenType::Less)
    } else if c == '>' {
        operator_step(s, pos, line, TokenType::GreaterEqual, TokenType::Greater)
    } else if c == '/' {
        if pos + 1 < s.len() && s[pos + 1] == '/' {
            // a line comment runs until the newline, which stays unconsumed
            trivia_step(scan_to(s, pos + 2, '\n'), line)
        } else {
            token_step(s, pos, line, pos + 1, TokenType::Slash, LitSpec::Nil)
        }
    } else if c == ' ' || c == '\r' || c == '\t' {
        trivia_step(pos + 1, line)
    } else if c == '\n' {
        trivia_step(pos + 1, line + 1)
    } else if c == '"' {
        let close = scan_to(s, pos + 1, '"');
        if close < s.len() {
            // lexeme includes both quotes; the literal is the verbatim text
            // between them; the token carries the line where it began
            Step {
                next: close + 1,
                line: line + newlines(s, pos + 1, close),
                token: Some(
                    TokenSpec {
                        kind: TokenType::String,
                        lexeme: s.subrange(pos, close + 1),
                        literal: LitSpec::Str(s.subrange(pos + 1, close)),
                        line,
                    },
                ),
                error: None,
            }
        } else {
            Step {
                next: s.len() as int,
                line: line + newlines(s, pos + 1, s.len() as int),
                token: None,
                error: Some(
                    ErrSpec {
                        line: line + newlines(s, pos + 1, s.len() as int),
                        message: "Unterminated string."@,
                    },
                ),
            }
        }
    } else if is_digit(c) {
        let whole = digits_end(s, pos);
        let end = if whole < s.len() && s[whole] == '.' && whole + 1 < s.len() && is_digit(
            s[whole + 1],
        ) {
            digits_end(s, whole + 1)
        } else {
            whole
        };
        token_step(s, pos, line, end, TokenType::Number, LitSpec::Number(s.subrange(pos, end)))
    } else if is_alpha(c) {
        let end = word_end(s, pos);
        token_step(s, pos, line, end, keyword_kind(s.subrange(pos, end)), LitSpec::Nil)
    } else {
        Step {
            next: pos + 1,
            line,
            token: None,
            error: Some(ErrSpec { line, message: "Unexpected character."@ }),
        }
    }
}

// ===== a whole scan =====

/// The token for end of input: kind `Eof`, empty lexeme, no literal.
pub open spec fn eof_token(line: int) -> TokenSpec {
    TokenSpec { kind: TokenType::Eof, lexeme: Seq::empty(), literal: LitSpec::Nil, line }
}

/// An optional value as a sequence of zero or one elements.
pub open spec fn opt_seq<A>(o: Option<A>) -> Seq<A> {
    match o {
        Option::Some(a) => seq![a],
        Option::None => Seq::empty(),
    }
}

/// Everything one scan produces: the tokens, in order, and the errors, in
/// the order they are reported.
pub ghost struct ScanOut {
    pub tokens: Seq<TokenSpec>,
    pub errors: Seq<ErrSpec>,
}

/// The whole scan from cursor position `pos` on line `line`: step after
/// step until the end of input, then the `Eof` token, carrying the final
/// line counter.
pub open spec fn scan_spec(s: Seq<char>, pos: int, line: int) -> ScanOut
    decreases s.len() - pos
        when 0 <= pos
{
    if pos >= s.len() {
        ScanOut { tokens: seq![eof_token(line)], errors: Seq::empty() }
    } else {
        proof {
            lemma_step_bounds(s, pos, line);
        }
        let st = scan_step(s, pos, line);
        let rest = scan_spec(s, st.next, st.line);
        ScanOut {
            tokens: opt_seq(st.token) + rest.tokens,
            errors: opt_seq(st.error) + rest.errors,
        }
    }
}

// ===== facts about the model =====

/// Where `scan_to` stops: no occurrence of `c` before it, and an occurrence
/// at it unless the end of input came first.
pub proof fn lemma_scan_to(s: Seq<char>, i: int, c: char)
    requires
        0 <= i <= s.len(),
    ensures
        i <= scan_to(s, i, c) <= s.len(),
        forall|k: int| i <= k < scan_to(s, i, c) ==> s[k] != c,
        scan_to(s, i, c) < s.len() ==> s[scan_to(s, i, c)] == c,
    decreases s.len() - i,
{
    if i < s.len() && s[i] != c {
        lemma_scan_to(s, i + 1, c);
    }
}

/// Where a digit run ends: digits throughout, and no digit at the end
/// unless the end of input came first.
pub proof fn lemma_digits_end(s: Seq<char>, i: int)
    requires
        0 <= i <= s.len(),
    ensures
        i <= digits_end(s, i) <= s.len(),
        forall|k: int| i <= k < digits_end(s, i) ==> is_digit(s[k]),
        digits_end(s, i) < s.len() ==> !is_digit(s[digits_end(s, i)]),
    decreases s.len() - i,
{
    if i < s.len() && is_digit(s[i]) {
        lemma_digits_end(s, i + 1);
    }
}

/// Where an identifier run ends: identifier characters throughout, and
/// none at the end unless the end of input came first.
pub proof fn lemma_word_end(s: Seq<char>, i: int)
    requires
        0 <= i <= s.len(),
    ensures
        i <= word_end(s, i) <= s.len(),
        forall|k: int| i <= k < word_end(s, i) ==> is_alnum(s[k]),
        word_end(s, i) < s.len() ==> !is_alnum(s[word_end(s, i)]),
    decreases s.len() - i,
{
    if i < s.len() && is_alnum(s[i]) {
        lemma_word_end(s, i + 1);
    }
}

/// The newline count of a range is non-negative and at most its width.
pub proof fn lemma_newlines_bounds(s: Seq<char>, i: int, j: int)
    requires
        i <= j,
    ensures
        0 <= newlines(s, i, j) <= j - i,
    decreases j - i,
{
    if i < j {
        lemma_newlines_bounds(s, i + 1, j);
    }
}

/// Newline counts add over adjacent ranges.
pub proof fn lemma_newlines_split(s: Seq<char>, i: int, k: int, j: int)
    requires
        i <= k <= j,
    ensures
        newlines(s, i, j) == newlines(s, i, k) + newlines(s, k, j),
    decreases k - i,
{
    if i < k {
        lemma_newlines_split(s, i + 1, k, j);
    }
}

/// A range without newline characters counts zero newlines.
pub proof fn lemma_newlines_none(s: Seq<char>, i: int, j: int)
    requires
        forall|k: int| i <= k < j ==> s[k] != '\n',
    ensures
        newlines(s, i, j) == 0,
    decreases j - i,
{
    if i < j {
        lemma_newlines_none(s, i + 1, j);
    }
}

/// Every step makes progress, stays within the text, and moves the line
/// counter forward by at most the number of characters it consumes.
pub proof fn lemma_step_bounds(s: Seq<char>, pos: int, line: int)
    requires
        0 <= pos < s.len(),
    ensures
        pos < scan_step(s, pos, line).next <= s.len(),
        line <= scan_step(s, pos, line).line <= line + (scan_step(s, pos, line).next - pos),
{
    let c = s[pos];
    if c == '/' && pos + 1 < s.len() && s[pos + 1] == '/' {
        lemma_scan_to(s, pos + 2, '\n');
    } else if c == '"' {
        lemma_scan_to(s, pos + 1, '"');
        let close = scan_to(s, pos + 1, '"');
        if close < s.len() {
            lemma_newlines_bounds(s, pos + 1, close);
        } else {
            lemma_newlines_bounds(s, pos + 1, s.len() as int);
        }
    } else if is_digit(c) {
        lemma_digits_end(s, pos);
        let whole = digits_end(s, pos);
        if whole < s.len() && s[whole] == '.' && whole + 1 < s.len() && is_digit(s[whole + 1]) {
            lemma_digits_end(s, whole + 1);
        }
    } else if is_alpha(c) {
        lemma_word_end(s, pos);
    }
}

/// One unfolding of `scan_spec` at a position inside the text.
pub proof fn lemma_scan_spec_unfold(s: Seq<char>, pos: int, line: int)
    requires
        0 <= pos < s.len(),
    ensures
        scan_spec(s, pos, line).tokens == opt_seq(scan_step(s, pos, line).token) + scan_spec(
            s,
            scan_step(s, pos, line).next,
            scan_step(s, pos, line).line,
        ).tokens,
        scan_spec(s, pos, line).errors == opt_seq(scan_step(s, pos, line).error) + scan_spec(
            s,
            scan_step(s, pos, line).next,
            scan_step(s, pos, line).line,
        ).errors,
{
    lemma_step_bounds(s, pos, line);
}

/// A scan's token sequence is never empty, ends in the one `Eof` token,
/// and contains no other `Eof` token; the `Eof` token has an empty lexeme
/// and no literal.
pub proof fn lemma_scan_spec_eof(s: Seq<char>, pos: int, line: int)
    requires
        0 <= pos,
    ensures
        scan_spec(s, pos, line).tokens.len() >= 1,
        scan_spec(s, pos, line).tokens.last().kind == TokenType::Eof,
        scan_spec(s, pos, line).tokens.last().lexeme == Seq::<char>::empty(),
        scan_spec(s, pos, line).tokens.last().literal == LitSpec::Nil,
        forall|j: int|
            0 <= j < scan_spec(s, pos, line).tokens.len() - 1 ==> scan_spec(
                s,
                pos,
                line,
            ).tokens[j].kind != TokenType::Eof,
    decreases s.len() - pos,
{
    if pos >= s.len() {
    } else {
        lemma_step_bounds(s, pos, line);
        let st = scan_step(s, pos, line);
        lemma_scan_spec_eof(s, st.next, st.line);
        assert(st.token matches Option::Some(t) ==> t.kind != TokenType::Eof);
    }
}

} // verus!
