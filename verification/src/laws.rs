//! General laws of the scanner, proved once and for all over the
//! specification-level model. Together with the contract of
//! `Scanner::scan_tokens`, which pins the executable scanner to
//! `model::scan_spec`, each law holds of every actual scan.

use crate::lox::ErrSpec;
use crate::model::eof_token;
use crate::model::is_alnum;
use crate::model::is_alpha;
use crate::model::keyword_kind;
use crate::model::lemma_newlines_none;
use crate::model::lemma_newlines_split;
use crate::model::lemma_scan_to;
use crate::model::lemma_step_bounds;
use crate::model::lemma_scan_spec_unfold;
use crate::model::lemma_word_end;
use crate::model::newlines;
use crate::model::opt_seq;
use crate::model::scan_spec;
use crate::model::scan_step;
use crate::model::scan_to;
use crate::model::word_end;
use crate::token::LitSpec;
use crate::token::TokenSpec;
use crate::token::TokenType;
use vstd::prelude::*;

verus! {

// ===== only whitespace and comments =====

/// The text from `i` on consists of nothing but whitespace characters and
/// line comments.
pub open spec fn trivia_only(s: Seq<char>, i: int) -> bool
    decreases s.len() - i
        when 0 <= i <= s.len()
{
    if i >= s.len() {
        true
    } else if s[i] == ' ' || s[i] == '\r' || s[i] == '\t' || s[i] == '\n' {
        trivia_only(s, i + 1)
    } else if s[i] == '/' && i + 1 < s.len() && s[i + 1] == '/' {
        proof {
            lemma_scan_to(s, i + 2, '\n');
        }
        trivia_only(s, scan_to(s, i + 2, '\n'))
    } else {
        false
    }
}

/// A source of nothing but whitespace and comments scans to the `Eof`
/// token alone — no other token and no error. The `Eof` token carries the
/// line counter advanced over every newline of the text.
pub proof fn lemma_trivia_scans_to_eof_only(s: Seq<char>, pos: int, line: int)
    requires
        0 <= pos <= s.len(),
        trivia_only(s, pos),
    ensures
        scan_spec(s, pos, line).tokens =~= seq![
            eof_token(line + newlines(s, pos, s.len() as int)),
        ],
        scan_spec(s, pos, line).errors =~= Seq::<ErrSpec>::empty(),
    decreases s.len() - pos,
{
    if pos >= s.len() {
    } else {
        lemma_step_bounds(s, pos, line);
        let st = scan_step(s, pos, line);
        if s[pos] == '/' {
            // a comment: everything to the newline (or the end) is skipped
            lemma_scan_to(s, pos + 2, '\n');
            let end = scan_to(s, pos + 2, '\n');
            assert(st.next == end);
            lemma_newlines_none(s, pos, end);
            lemma_newlines_split(s, pos, end, s.len() as int);
            lemma_trivia_scans_to_eof_only(s, end, line);
        } else {
            // one whitespace character, counting the line on a newline
            assert(st.next == pos + 1);
            assert(newlines(s, pos, s.len() as int) == (if s[pos] == '\n' {
                1int
            } else {
                0int
            }) + newlines(s, pos + 1, s.len() as int));
            lemma_trivia_scans_to_eof_only(s, pos + 1, st.line);
        }
    }
}

// ===== classification of identifiers and keywords is idempotent =====

/// A lexeme of identifier shape: a letter or underscore followed by
/// letters, digits and underscores.
pub open spec fn is_word(l: Seq<char>) -> bool {
    &&& l.len() > 0
    &&& is_alpha(l[0])
    &&& forall|k: int| 0 <= k < l.len() ==> is_alnum(l[k])
}

/// The kinds produced by the identifier path: `Identifier` and the
/// sixteen reserved keywords.
pub open spec fn is_word_kind(k: TokenType) -> bool {
    ||| k == TokenType::Identifier
    ||| k == TokenType::And
    ||| k == TokenType::Class
    ||| k == TokenType::Else
    ||| k == TokenType::False
    ||| k == TokenType::For
    ||| k == TokenType::Fun
    ||| k == TokenType::If
    ||| k == TokenType::Nil
    ||| k == TokenType::Or
    ||| k == TokenType::Print
    ||| k == TokenType::Return
    ||| k == TokenType::Super
    ||| k == TokenType::This
    ||| k == TokenType::True
    ||| k == TokenType::Var
    ||| k == TokenType::While
}

/// Scanning a lexeme of identifier shape by itself yields exactly one
/// token before `Eof`: the whole lexeme, classified by the keyword table.
pub proof fn lemma_word_scan(l: Seq<char>, line: int)
    requires
        is_word(l),
    ensures
        scan_spec(l, 0, line).tokens =~= seq![
            (TokenSpec { kind: keyword_kind(l), lexeme: l, literal: LitSpec::Nil, line }),
            eof_token(line),
        ],
        scan_spec(l, 0, line).errors =~= Seq::<ErrSpec>::empty(),
{
    lemma_step_bounds(l, 0, line);
    lemma_word_end(l, 0);
    assert(word_end(l, 0) == l.len());
    assert(l.subrange(0, l.len() as int) =~= l);
    let st = scan_step(l, 0, line);
    assert(st.next == l.len());
    lemma_scan_spec_unfold(l, 0, line);
    assert(scan_spec(l, l.len() as int, line).tokens == seq![eof_token(line)]);
    assert(scan_spec(l, l.len() as int, line).errors == Seq::<ErrSpec>::empty());
    assert(st.token == Some(
        TokenSpec { kind: keyword_kind(l), lexeme: l, literal: LitSpec::Nil, line },
    ));
}

/// Every emitted token of identifier or keyword kind has a lexeme of
/// identifier shape, and its kind is exactly what the keyword table says
/// of that lexeme.
pub proof fn lemma_word_tokens(s: Seq<char>, pos: int, line: int, j: int)
    requires
        0 <= pos,
        0 <= j < scan_spec(s, pos, line).tokens.len(),
        is_word_kind(scan_spec(s, pos, line).tokens[j].kind),
    ensures
        is_word(scan_spec(s, pos, line).tokens[j].lexeme),
        scan_spec(s, pos, line).tokens[j].kind == keyword_kind(
            scan_spec(s, pos, line).tokens[j].lexeme,
        ),
    decreases s.len() - pos,
{
    if pos >= s.len() {
        // the only token is Eof, whose kind is no word kind
    } else {
        lemma_step_bounds(s, pos, line);
        let st = scan_step(s, pos, line);
        if st.token is Some && j == 0 {
            // only the identifier path emits a word kind; its lexeme is the
            // maximal identifier run starting at pos
            lemma_word_end(s, pos);
            let t = st.token->Some_0;
            assert(scan_spec(s, pos, line).tokens[0] == t);
            if is_alpha(s[pos]) && t.kind == keyword_kind(s.subrange(pos, word_end(s, pos))) {
                let lex = s.subrange(pos, word_end(s, pos));
                assert(lex.len() > 0);
                assert(lex[0] == s[pos]);
                assert(forall|k: int| 0 <= k < lex.len() ==> lex[k] == s[pos + k]);
            }
        } else {
            let skip = opt_seq(st.token).len() as int;
            let rest = scan_spec(s, st.next, st.line);
            assert(scan_spec(s, pos, line).tokens[j] == rest.tokens[j - skip]);
            lemma_word_tokens(s, st.next, st.line, j - skip);
        }
    }
}

/// Classification is idempotent: take any identifier or keyword token a
/// scan emits, and scan its lexeme by itself — the result is a single
/// token of the very same kind (and the trailing `Eof`), on whatever line
/// the fresh scan starts at.
pub proof fn lemma_classification_idempotent(
    s: Seq<char>,
    pos: int,
    line: int,
    j: int,
    line2: int,
)
    requires
        0 <= pos,
        0 <= j < scan_spec(s, pos, line).tokens.len(),
        is_word_kind(scan_spec(s, pos, line).tokens[j].kind),
    ensures
        ({
            let t = scan_spec(s, pos, line).tokens[j];
            scan_spec(t.lexeme, 0, line2).tokens =~= seq![
                (TokenSpec { kind: t.kind, lexeme: t.lexeme, literal: LitSpec::Nil, line: line2 }),
                eof_token(line2),
            ]
        }),
{
    lemma_word_tokens(s, pos, line, j);
    let t = scan_spec(s, pos, line).tokens[j];
    lemma_word_scan(t.lexeme, line2);
}

// ===== round trip =====

/// The lexemes of a token sequence, concatenated in order. The `Eof`
/// token contributes its empty lexeme.
pub open spec fn concat_lexemes(ts: Seq<TokenSpec>) -> Seq<char>
    decreases ts.len(),
{
    if ts.len() == 0 {
        Seq::empty()
    } else {
        ts[0].lexeme + concat_lexemes(ts.drop_first())
    }
}

/// The part of the source a scan consumes as tokens: the text with
/// whitespace, comments and erroneous input left out, in source order.
pub open spec fn token_text(s: Seq<char>, pos: int, line: int) -> Seq<char>
    decreases s.len() - pos
        when 0 <= pos
{
    if pos >= s.len() {
        Seq::empty()
    } else {
        proof {
            lemma_step_bounds(s, pos, line);
        }
        let st = scan_step(s, pos, line);
        (if st.token is Some {
            s.subrange(pos, st.next)
        } else {
            Seq::<char>::empty()
        }) + token_text(s, st.next, st.line)
    }
}

/// Round trip: concatenating the lexemes of all scanned tokens, in order,
/// reproduces exactly the source text minus whitespace, comments and
/// erroneous input. In particular every lexeme is a verbatim, contiguous
/// piece of the source, and the pieces appear in source order.
pub proof fn lemma_round_trip(s: Seq<char>, pos: int, line: int)
    requires
        0 <= pos,
    ensures
        concat_lexemes(scan_spec(s, pos, line).tokens) =~= token_text(s, pos, line),
    decreases s.len() - pos,
{
    if pos >= s.len() {
        let ts = scan_spec(s, pos, line).tokens;
        assert(ts == seq![eof_token(line)]);
        assert(ts.drop_first() =~= Seq::<TokenSpec>::empty());
        assert(concat_lexemes(ts.drop_first()) == Seq::<char>::empty());
        assert(ts[0].lexeme == Seq::<char>::empty());
    } else {
        lemma_step_bounds(s, pos, line);
        lemma_scan_spec_unfold(s, pos, line);
        let st = scan_step(s, pos, line);
        let rest = scan_spec(s, st.next, st.line);
        let ts = scan_spec(s, pos, line).tokens;
        lemma_round_trip(s, st.next, st.line);
        match st.token {
            Option::Some(t) => {
                assert(t.lexeme == s.subrange(pos, st.next));
                assert(ts == seq![t] + rest.tokens);
                assert(ts.drop_first() =~= rest.tokens);
                assert(ts[0] == t);
                assert(concat_lexemes(ts) == t.lexeme + concat_lexemes(rest.tokens));
            },
            Option::None => {
                assert(ts =~= rest.tokens);
                assert(concat_lexemes(ts) == concat_lexemes(rest.tokens));
            },
        }
    }
}

} // verus!
