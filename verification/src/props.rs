//! Laws of the scanner, proved from the model: whitespace-only inputs
//! produce no tokens, digit runs produce exactly one integer token, every
//! produced span is positive, and scanning is deterministic.

use vstd::prelude::*;

use crate::model::block_end;
use crate::model::ascii_digit;
use crate::model::digit;
use crate::model::expand_from;
use crate::model::lemma_block_end;
use crate::model::lemma_nl_count;
use crate::model::lemma_scan_num;
use crate::model::lemma_step_progress;
use crate::model::lemma_word_end;
use crate::model::mk_tok;
use crate::model::scan_num;
use crate::model::space;
use crate::model::spec_scan_from;
use crate::model::spec_step;
use crate::model::spec_tokens;
use crate::model::word_char;
use crate::model::word_end;
use crate::model::Step;
use crate::types::LexError;
use crate::types::TokenType;
use crate::types::TokenView;

verus! {

/// Tab expansion of an all-whitespace input is still all whitespace.
proof fn lemma_expand_space(s: Seq<char>, i: int)
    requires
        forall|k: int| 0 <= k < s.len() ==> space(#[trigger] s[k]),
    ensures
        forall|k: int|
            0 <= k < expand_from(s, i).len() ==> space(#[trigger] expand_from(s, i)[k]),
    decreases s.len() - i,
{
    if 0 <= i < s.len() {
        lemma_expand_space(s, i + 1);
        let unit = if s[i] == '\t' {
            seq![' ', ' ', ' ', ' ']
        } else {
            seq![s[i]]
        };
        let rest = expand_from(s, i + 1);
        assert forall|k: int| 0 <= k < expand_from(s, i).len() implies space(
            #[trigger] expand_from(s, i)[k],
        ) by {
            if k < unit.len() {
                assert(expand_from(s, i)[k] == unit[k]);
            } else {
                assert(expand_from(s, i)[k] == rest[k - unit.len()]);
            }
        }
    }
}

/// Scanning an all-whitespace input from any position yields no tokens.
proof fn lemma_space_scan(s: Seq<char>, i: int, line: int, col: int)
    requires
        0 <= i <= s.len(),
        forall|k: int| 0 <= k < s.len() ==> space(#[trigger] s[k]),
    ensures
        spec_scan_from(s, i, line, col) == Ok::<Seq<TokenView>, LexError>(Seq::empty()),
    decreases s.len() - i,
{
    if i < s.len() {
        if s[i] == '\n' {
            lemma_space_scan(s, i + 1, line + 1, 1);
        } else {
            lemma_space_scan(s, i + 1, line, col + 1);
        }
    }
}

/// An input consisting solely of whitespace produces an empty token
/// sequence.
pub proof fn lemma_whitespace_only(s: Seq<char>)
    requires
        forall|k: int| 0 <= k < s.len() ==> space(#[trigger] s[k]),
    ensures
        spec_tokens(s) == Ok::<Seq<TokenView>, LexError>(Seq::empty()),
{
    lemma_expand_space(s, 0);
    lemma_space_scan(expand_from(s, 0), 0, 1, 1);
}

/// Tab expansion leaves a tab-free input unchanged from `i` on.
proof fn lemma_expand_no_tabs(s: Seq<char>, i: int)
    requires
        0 <= i <= s.len(),
        forall|k: int| 0 <= k < s.len() ==> #[trigger] s[k] != '\t',
    ensures
        expand_from(s, i) == s.subrange(i, s.len() as int),
    decreases s.len() - i,
{
    if i < s.len() {
        lemma_expand_no_tabs(s, i + 1);
        assert(seq![s[i]] + s.subrange(i + 1, s.len() as int) =~= s.subrange(i, s.len() as int));
    } else {
        assert(expand_from(s, i) =~= s.subrange(i, s.len() as int));
    }
}

/// The number scanner consumes an unbroken run of ASCII digits whole,
/// without marking it as a float.
proof fn lemma_scan_num_digits(s: Seq<char>, i: int, acc: Seq<char>)
    requires
        0 <= i <= s.len(),
        forall|k: int| 0 <= k < s.len() ==> ascii_digit(#[trigger] s[k]),
    ensures
        scan_num(s, i, acc, false) == (acc + s.subrange(i, s.len() as int), s.len() as int, false),
    decreases s.len() - i,
{
    if i < s.len() {
        lemma_scan_num_digits(s, i + 1, acc.push(s[i]));
        assert(acc.push(s[i]) + s.subrange(i + 1, s.len() as int) =~= acc + s.subrange(
            i,
            s.len() as int,
        ));
    } else {
        assert(acc + s.subrange(i, s.len() as int) =~= acc);
    }
}

/// A non-empty run of ASCII digits with no dot produces exactly one token:
/// an integer whose text is the run verbatim, spanning the whole input from
/// line one, column one.
pub proof fn lemma_int_literal(s: Seq<char>)
    requires
        s.len() >= 1,
        forall|k: int| 0 <= k < s.len() ==> ascii_digit(#[trigger] s[k]),
    ensures
        spec_tokens(s) == Ok::<Seq<TokenView>, LexError>(
            seq![mk_tok(TokenType::Int, s, 1, 1, s.len() as int)],
        ),
{
    assert(forall|k: int| 0 <= k < s.len() ==> #[trigger] s[k] != '\t');
    lemma_expand_no_tabs(s, 0);
    assert(expand_from(s, 0) =~= s);
    lemma_scan_num_digits(s, 1, seq![s[0]]);
    assert(seq![s[0]] + s.subrange(1, s.len() as int) =~= s);
    let tok = mk_tok(TokenType::Int, s, 1, 1, s.len() as int);
    assert(spec_step(s, 0, 1, 1) == Step::Tok {
        tok,
        next: s.len() as int,
        line: 1,
        col: 1 + s.len() as int,
    });
    assert(spec_scan_from(s, s.len() as int, 1, 1 + s.len() as int) == Ok::<Seq<TokenView>, LexError>(
        Seq::empty(),
    ));
    assert(seq![tok] + Seq::<TokenView>::empty() =~= seq![tok]);
}

/// Whether a token's span is positive in every field.
pub open spec fn span_positive(t: TokenView) -> bool {
    t.line >= 1 && t.col >= 1 && t.length >= 1
}

/// With positive line and column counters, one dispatch step emits a token
/// located at those counters with a positive length, and leaves the counters
/// positive.
proof fn lemma_step_state(s: Seq<char>, i: int, line: int, col: int)
    requires
        0 <= i < s.len(),
        1 <= line,
        1 <= col,
    ensures
        (match spec_step(s, i, line, col) {
            Step::Tok { tok, next, line: l2, col: c2 } => {
                &&& tok.line == line
                &&& tok.col == col
                &&& tok.length >= 1
                &&& 1 <= l2
                &&& 1 <= c2
            },
            Step::Skip { next, line: l2, col: c2 } => 1 <= l2 && 1 <= c2,
            Step::Fail { .. } => true,
        }),
{
    let c = s[i];
    if c == '/' {
        if i + 1 < s.len() && s[i + 1] == '*' {
            if let Some(j) = block_end(s, i + 2) {
                lemma_block_end(s, i + 2);
                lemma_nl_count(s, i + 2, j);
            }
        }
    } else if digit(c) {
        lemma_scan_num(s, i + 1, seq![c], false);
    } else if crate::model::word_start(c) && !space(c) && !digit(c) {
        assert(word_char(s[i]));
        assert(word_end(s, i) == word_end(s, i + 1));
        lemma_word_end(s, i + 1);
    }
}

/// Every token a successful scan produces has a span with line, column, and
/// length all at least one.
pub proof fn lemma_scan_spans_positive(s: Seq<char>, i: int, line: int, col: int)
    requires
        0 <= i <= s.len(),
        1 <= line,
        1 <= col,
    ensures
        (match spec_scan_from(s, i, line, col) {
            Ok(toks) => forall|k: int| 0 <= k < toks.len() ==> span_positive(#[trigger] toks[k]),
            Err(_) => true,
        }),
    decreases s.len() - i,
{
    if i < s.len() {
        lemma_step_progress(s, i, line, col);
        lemma_step_state(s, i, line, col);
        match spec_step(s, i, line, col) {
            Step::Fail { .. } => {},
            Step::Skip { next, line: l2, col: c2 } => {
                lemma_scan_spans_positive(s, next, l2, c2);
            },
            Step::Tok { tok, next, line: l2, col: c2 } => {
                lemma_scan_spans_positive(s, next, l2, c2);
                if let Ok(rest) = spec_scan_from(s, next, l2, c2) {
                    let toks = seq![tok] + rest;
                    assert(spec_scan_from(s, i, line, col) == Ok::<Seq<TokenView>, LexError>(toks));
                    assert forall|k: int| 0 <= k < toks.len() implies span_positive(
                        #[trigger] toks[k],
                    ) by {
                        if k == 0 {
                            assert(toks[k] == tok);
                        } else {
                            assert(toks[k] == rest[k - 1]);
                        }
                    }
                }
            },
        }
    }
}

/// Every token the scanner produces for any input has a positive span.
pub proof fn lemma_spans_positive(s: Seq<char>)
    ensures
        (match spec_tokens(s) {
            Ok(toks) => forall|k: int| 0 <= k < toks.len() ==> span_positive(#[trigger] toks[k]),
            Err(_) => true,
        }),
{
    lemma_scan_spans_positive(expand_from(s, 0), 0, 1, 1);
}

/// Scanning is deterministic: the outcome is a function of the input alone,
/// so two scans of the same input agree.
pub proof fn lemma_scan_deterministic(
    s: Seq<char>,
    r1: Result<Seq<TokenView>, LexError>,
    r2: Result<Seq<TokenView>, LexError>,
)
    requires
        r1 == spec_tokens(s),
        r2 == spec_tokens(s),
    ensures
        r1 == r2,
{
}

} // verus!
