//! The executable scanner, verified against the model: each sub-scanner
//! computes exactly what its spec function describes, and `lex` produces
//! exactly `spec_tokens` of its input.

use vstd::prelude::*;

use crate::model::alpha;
use crate::model::block_end;
use crate::model::digit;
use crate::model::digits_end;
use crate::model::escape_decoded;
use crate::model::expand_from;
use crate::model::line_end;
use crate::model::nl_count;
use crate::model::scan_num;
use crate::model::scan_str;
use crate::model::space;
use crate::model::str_prev0;
use crate::model::word_char;
use crate::model::word_end;
use crate::model::lemma_nl_count_snoc;
use crate::model::combine;
use crate::model::lemma_combine_push;
use crate::model::mk_tok;
use crate::model::spec_scan_from;
use crate::model::spec_step;
use crate::model::spec_tokens;
use crate::model::Step;
use crate::types::TokenView;
use crate::types::LexError;
use crate::types::Span;
use crate::types::Token;
use crate::types::TokenType;

verus! {

/// Whether `c` is numeric. Relies on `char::is_numeric`: true exactly for
/// the characters in one of the Unicode number categories, which among ASCII
/// are the digits zero through nine; the result depends on the character
/// alone.
#[verifier::external_body]
pub(crate) fn is_digit(c: char) -> (r: bool)
    ensures
        r == digit(c),
        c as u32 > 127 ==> r == crate::model::numeric_ext(c),
{
    c.is_numeric()
}

/// Whether `c` is alphabetic. Relies on `char::is_alphabetic`: true exactly
/// for the characters with the Unicode Alphabetic property, which among
/// ASCII are the letters; the result depends on the character alone.
#[verifier::external_body]
pub(crate) fn is_alpha(c: char) -> (r: bool)
    ensures
        r == alpha(c),
        c as u32 > 127 ==> r == crate::model::alphabetic_ext(c),
{
    c.is_alphabetic()
}

/// Whether `c` may start a word: alphabetic or an underscore.
pub(crate) fn is_word_start(c: char) -> (r: bool)
    ensures
        r == crate::model::word_start(c),
{
    is_alpha(c) || c == '_'
}

/// Whether `c` may continue a word: alphanumeric or an underscore.
/// `char::is_alphanumeric` holds exactly when `is_alphabetic` or
/// `is_numeric` does, so this matches the alphanumeric class.
pub(crate) fn is_word_char(c: char) -> (r: bool)
    ensures
        r == word_char(c),
{
    is_alpha(c) || is_digit(c) || c == '_'
}

/// Whether `c` is whitespace. Relies on `char::is_whitespace`: true exactly
/// for the characters with the Unicode White_Space property, which among
/// ASCII are tab through carriage return and the space character; the result
/// depends on the character alone.
#[verifier::external_body]
pub(crate) fn is_space(c: char) -> (r: bool)
    ensures
        r == space(c),
        c as u32 > 127 ==> r == crate::model::whitespace_ext(c),
{
    c.is_whitespace()
}

/// The input with each tab expanded to four spaces, the preprocessing the
/// scanner applies before dispatching.
pub fn expand_tabs(input: &Vec<char>) -> (r: Vec<char>)
    ensures
        r@ == expand_from(input@, 0),
        r@.len() <= 4 * input@.len(),
{
    let mut out: Vec<char> = Vec::new();
    let mut i: usize = 0;
    while i < input.len()
        invariant
            i <= input@.len(),
            out@.len() <= 4 * i,
            expand_from(input@, 0) == out@ + expand_from(input@, i as int),
        decreases input@.len() - i,
    {
        let ghost pre = out@;
        let c = input[i];
        if c == '\t' {
            out.push(' ');
            out.push(' ');
            out.push(' ');
            out.push(' ');
            proof {
                assert(out@ =~= pre + seq![' ', ' ', ' ', ' ']);
            }
        } else {
            out.push(c);
            proof {
                assert(out@ =~= pre + seq![c]);
            }
        }
        proof {
            let unit = if c == '\t' {
                seq![' ', ' ', ' ', ' ']
            } else {
                seq![c]
            };
            assert(expand_from(input@, i as int) == unit + expand_from(input@, i + 1));
            assert(pre + expand_from(input@, i as int) =~= out@ + expand_from(input@, i + 1));
        }
        i = i + 1;
    }
    proof {
        assert(expand_from(input@, i as int) == Seq::<char>::empty());
        assert(out@ + expand_from(input@, i as int) =~= out@);
    }
    out
}

/// Scans a string literal whose opening quote is at `start`: the decoded
/// body and the index of the closing quote, or `None` when the input ends
/// without one.
fn scan_string_body(s: &Vec<char>, start: usize) -> (r: Option<(Vec<char>, usize)>)
    requires
        start < s@.len(),
    ensures
        (match r {
            Some((text, e)) => {
                &&& scan_str(s@, start + 1, str_prev0(s@, start + 1), Seq::empty()) == Some(
                    (text@, e as int),
                )
                &&& start < e < s@.len()
            },
            None => scan_str(s@, start + 1, str_prev0(s@, start + 1), Seq::empty()) is None,
        }),
{
    let slen = s.len();
    let mut i: usize = start + 1;
    let mut acc: Vec<char> = Vec::new();
    let mut prev: char = if i < slen {
        s[i]
    } else {
        '.'
    };
    loop
        invariant
            start + 1 <= i <= s@.len(),
            scan_str(s@, start + 1, str_prev0(s@, start + 1), Seq::empty()) == scan_str(
                s@,
                i as int,
                prev,
                acc@,
            ),
            prev == '\\' ==> acc@.len() >= 1 || (i < s@.len() && !escape_decoded(s@[i as int])),
        decreases s@.len() - i,
    {
        if i >= s.len() {
            return None;
        }
        let c = s[i];
        if c == '"' && prev != '\\' {
            return Some((acc, i));
        }
        let ghost acc0 = acc@;
        if prev == '\\' && (c == 'n' || c == 't' || c == 'r' || c == '"') {
            let _dropped = acc.pop();
            if c == 'n' {
                acc.push('\n');
            } else if c == 't' {
                acc.push('\t');
            } else if c == 'r' {
                acc.push('\r');
            } else {
                acc.push('"');
            }
            proof {
                assert(acc@ =~= acc0.drop_last().push(crate::model::escape_value(c)));
            }
        } else {
            acc.push(c);
        }
        proof {
            assert(scan_str(s@, i as int, prev, acc0) == scan_str(s@, i + 1, c, acc@));
        }
        prev = c;
        i = i + 1;
    }
}

/// Collects the body of a line comment beginning just after `//`: the body
/// runs to, but excludes, the next newline or the end of input.
fn scan_line_body(s: &Vec<char>, start: usize) -> (r: (Vec<char>, usize))
    requires
        start <= s@.len(),
    ensures
        r.1 as int == line_end(s@, start as int),
        r.0@ == s@.subrange(start as int, line_end(s@, start as int)),
        start <= r.1 <= s@.len(),
{
    let mut i: usize = start;
    let mut acc: Vec<char> = Vec::new();
    while i < s.len() && s[i] != '\n'
        invariant
            start <= i <= s@.len(),
            line_end(s@, start as int) == line_end(s@, i as int),
            acc@ == s@.subrange(start as int, i as int),
        decreases s@.len() - i,
    {
        acc.push(s[i]);
        proof {
            assert(acc@ =~= s@.subrange(start as int, i + 1));
        }
        i = i + 1;
    }
    (acc, i)
}

/// Finds the closing `*/` of a block comment whose body begins at `start`,
/// collecting the body and counting the newlines inside it.
fn scan_block_body(s: &Vec<char>, start: usize) -> (r: Option<(Vec<char>, usize, usize)>)
    requires
        start <= s@.len(),
    ensures
        (match r {
            Some((body, j, nl)) => {
                &&& block_end(s@, start as int) == Some(j as int)
                &&& body@ == s@.subrange(start as int, j as int)
                &&& nl as int == nl_count(s@, start as int, j as int)
                &&& start <= j && j + 2 <= s@.len()
            },
            None => block_end(s@, start as int) is None,
        }),
{
    let mut i: usize = start;
    let mut acc: Vec<char> = Vec::new();
    let mut nl: usize = 0;
    let slen = s.len();
    while i < slen && i + 1 < slen && !(s[i] == '*' && s[i + 1] == '/')
        invariant
            slen == s@.len(),
            start <= i <= s@.len(),
            block_end(s@, start as int) == block_end(s@, i as int),
            acc@ == s@.subrange(start as int, i as int),
            nl as int == nl_count(s@, start as int, i as int),
            nl <= i - start,
        decreases s@.len() - i,
    {
        let c = s[i];
        if c == '\n' {
            nl = nl + 1;
        }
        acc.push(c);
        proof {
            assert(acc@ =~= s@.subrange(start as int, i + 1));
            lemma_nl_count_snoc(s@, start as int, i as int);
        }
        i = i + 1;
    }
    if i < slen && i + 1 < slen {
        Some((acc, i, nl))
    } else {
        proof {
            assert(block_end(s@, i as int) is None);
        }
        None
    }
}

/// Scans a numeric literal whose first digit is at `start`: the token text,
/// the index at which scanning resumes, and whether the token is a float.
fn scan_number(s: &Vec<char>, start: usize) -> (r: (Vec<char>, usize, bool))
    requires
        start < s@.len(),
    ensures
        (scan_num(s@, start + 1, seq![s@[start as int]], false) == (r.0@, r.1 as int, r.2)),
{
    let slen = s.len();
    let mut i: usize = start + 1;
    let mut acc: Vec<char> = Vec::new();
    acc.push(s[start]);
    let mut fl: bool = false;
    proof {
        assert(acc@ =~= seq![s@[start as int]]);
    }
    loop
        invariant
            slen == s@.len(),
            start + 1 <= i <= s@.len(),
            acc@.len() >= 1,
            fl ==> acc@.len() >= 2,
            scan_num(s@, start + 1, seq![s@[start as int]], false) == scan_num(
                s@,
                i as int,
                acc@,
                fl,
            ),
        decreases s@.len() - i,
    {
        if i >= slen || !(is_digit(s[i]) || s[i] == '.') {
            return (acc, i, fl);
        }
        let c = s[i];
        if c == '.' && fl {
            let ghost acc0 = acc@;
            let _dropped = acc.pop();
            proof {
                assert(acc@ =~= acc0.drop_last());
            }
            return (acc, i - 1, false);
        }
        let ghost acc0 = acc@;
        acc.push(c);
        proof {
            assert(acc@ =~= acc0.push(c));
            assert(scan_num(s@, i as int, acc0, fl) == scan_num(s@, i + 1, acc@, fl || c == '.'));
        }
        if c == '.' {
            fl = true;
        }
        i = i + 1;
    }
}

/// Collects the digit run beginning at `start`: the run and the index of the
/// first character past it.
fn scan_digits(s: &Vec<char>, start: usize) -> (r: (Vec<char>, usize))
    requires
        start <= s@.len(),
    ensures
        r.1 as int == digits_end(s@, start as int),
        r.0@ == s@.subrange(start as int, digits_end(s@, start as int)),
        start <= r.1 <= s@.len(),
{
    let mut i: usize = start;
    let mut acc: Vec<char> = Vec::new();
    while i < s.len() && is_digit(s[i])
        invariant
            start <= i <= s@.len(),
            digits_end(s@, start as int) == digits_end(s@, i as int),
            acc@ == s@.subrange(start as int, i as int),
        decreases s@.len() - i,
    {
        acc.push(s[i]);
        proof {
            assert(acc@ =~= s@.subrange(start as int, i + 1));
        }
        i = i + 1;
    }
    (acc, i)
}

/// Collects the word beginning at `start`: the word and the index of the
/// first character past it.
fn scan_word(s: &Vec<char>, start: usize) -> (r: (Vec<char>, usize))
    requires
        start <= s@.len(),
    ensures
        r.1 as int == word_end(s@, start as int),
        r.0@ == s@.subrange(start as int, word_end(s@, start as int)),
        start <= r.1 <= s@.len(),
{
    let mut i: usize = start;
    let mut acc: Vec<char> = Vec::new();
    while i < s.len() && is_word_char(s[i])
        invariant
            start <= i <= s@.len(),
            word_end(s@, start as int) == word_end(s@, i as int),
            acc@ == s@.subrange(start as int, i as int),
        decreases s@.len() - i,
    {
        acc.push(s[i]);
        proof {
            assert(acc@ =~= s@.subrange(start as int, i + 1));
        }
        i = i + 1;
    }
    (acc, i)
}

/// A token of one source character, with span length one.
fn single_token(t: TokenType, c: char, line: usize, col: usize) -> (r: Token)
    ensures
        r@ == mk_tok(t, seq![c], line as int, col as int, 1),
{
    let mut v: Vec<char> = Vec::new();
    v.push(c);
    proof {
        assert(v@ =~= seq![c]);
    }
    Token { typ: t, val: v, span: Span { line, col, length: 1 } }
}

/// A token of two source characters, with span length two.
fn pair_token(t: TokenType, a: char, b: char, line: usize, col: usize) -> (r: Token)
    ensures
        r@ == mk_tok(t, seq![a, b], line as int, col as int, 2),
{
    let mut v: Vec<char> = Vec::new();
    v.push(a);
    v.push(b);
    proof {
        assert(v@ =~= seq![a, b]);
    }
    Token { typ: t, val: v, span: Span { line, col, length: 2 } }
}

/// A lone operator character: one character of text, but span length two.
fn lone_op_token(c: char, line: usize, col: usize) -> (r: Token)
    ensures
        r@ == mk_tok(TokenType::Operator, seq![c], line as int, col as int, 2),
{
    let mut v: Vec<char> = Vec::new();
    v.push(c);
    proof {
        assert(v@ =~= seq![c]);
    }
    Token { typ: TokenType::Operator, val: v, span: Span { line, col, length: 2 } }
}

/// The synthetic range operator token, of span length two.
fn range_token(line: usize, col: usize) -> (r: Token)
    ensures
        r@ == mk_tok(TokenType::Operator, seq!['R', 'a', 'n', 'g', 'e'], line as int, col as int, 2),
{
    let mut v: Vec<char> = Vec::new();
    v.push('R');
    v.push('a');
    v.push('n');
    v.push('g');
    v.push('e');
    proof {
        assert(v@ =~= seq!['R', 'a', 'n', 'g', 'e']);
    }
    Token { typ: TokenType::Operator, val: v, span: Span { line, col, length: 2 } }
}

/// The executable outcome of one dispatch step: a token or a silent advance,
/// each with the cursor, line, and column after it, or a fatal error.
enum StepExec {
    Tok(Token, usize, usize, usize),
    Skip(usize, usize, usize),
    Fail(LexError),
}

/// One dispatch step at position `i`: computes exactly what `spec_step`
/// describes, keeping the cursor, line, and column within their counters'
/// bounds.
#[verifier::rlimit(100)]
fn step_exec(chars: &Vec<char>, i: usize, line: usize, col: usize) -> (r: StepExec)
    requires
        i < chars@.len(),
        2 * chars@.len() + 1 <= usize::MAX,
        1 <= line && line <= i + 1,
        1 <= col && col <= 2 * i + 1,
    ensures
        (match r {
            StepExec::Tok(t, n2, l2, c2) => {
                &&& spec_step(chars@, i as int, line as int, col as int) == (Step::Tok {
                    tok: t@,
                    next: n2 as int,
                    line: l2 as int,
                    col: c2 as int,
                })
                &&& i < n2 <= chars@.len()
                &&& 1 <= l2 && l2 <= n2 + 1
                &&& 1 <= c2 && c2 <= 2 * n2 + 1
            },
            StepExec::Skip(n2, l2, c2) => {
                &&& spec_step(chars@, i as int, line as int, col as int) == (Step::Skip {
                    next: n2 as int,
                    line: l2 as int,
                    col: c2 as int,
                })
                &&& i < n2 <= chars@.len()
                &&& 1 <= l2 && l2 <= n2 + 1
                &&& 1 <= c2 && c2 <= 2 * n2 + 1
            },
            StepExec::Fail(e) => spec_step(chars@, i as int, line as int, col as int) == (
            Step::Fail { err: e }),
        }),
{
    let ghost s = chars@;
    let n = chars.len();
    let c = chars[i];
    if c == '#' {
        StepExec::Tok(single_token(TokenType::Pound, c, line, col), i + 1, line, col + 1)
    } else if c == '(' {
        StepExec::Tok(single_token(TokenType::OpenParen, c, line, col), i + 1, line, col + 1)
    } else if c == ')' {
        StepExec::Tok(single_token(TokenType::CloseParen, c, line, col), i + 1, line, col + 1)
    } else if c == '[' {
        StepExec::Tok(single_token(TokenType::OpenBracket, c, line, col), i + 1, line, col + 1)
    } else if c == ']' {
        StepExec::Tok(single_token(TokenType::CloseBracket, c, line, col), i + 1, line, col + 1)
    } else if c == '{' {
        StepExec::Tok(single_token(TokenType::OpenBrace, c, line, col), i + 1, line, col + 1)
    } else if c == '}' {
        StepExec::Tok(single_token(TokenType::CloseBrace, c, line, col), i + 1, line, col + 1)
    } else if c == ',' {
        StepExec::Tok(single_token(TokenType::Comma, c, line, col), i + 1, line, col + 1)
    } else if c == ';' {
        StepExec::Tok(single_token(TokenType::SemiColon, c, line, col), i + 1, line, col + 1)
    } else if c == ':' {
        if i + 1 < n && chars[i + 1] == '=' {
            StepExec::Tok(pair_token(TokenType::Assignment, ':', '=', line, col), i + 2, line, col + 2)
        } else if i + 1 < n && chars[i + 1] == ':' {
            StepExec::Tok(
                pair_token(TokenType::ConstAssignment, ':', ':', line, col),
                i + 2,
                line,
                col + 2,
            )
        } else {
            StepExec::Tok(single_token(TokenType::Colon, ':', line, col), i + 1, line, col + 1)
        }
    } else if c == '-' || c == '+' || c == '*' || c == '%' {
        if i + 1 < n && chars[i + 1] == '=' {
            StepExec::Tok(pair_token(TokenType::Assignment, c, '=', line, col), i + 2, line, col + 2)
        } else if i + 1 < n && chars[i + 1] == c {
            StepExec::Tok(pair_token(TokenType::Operator, c, c, line, col), i + 2, line, col + 2)
        } else {
            StepExec::Tok(lone_op_token(c, line, col), i + 1, line, col + 2)
        }
    } else if c == '/' {
        if i + 1 < n && chars[i + 1] == '/' {
            let (body, e) = scan_line_body(chars, i + 2);
            let length = body.len() + 2;
            let tok = Token { typ: TokenType::Comment, val: body, span: Span { line, col, length } };
            StepExec::Tok(tok, e, line, col + length)
        } else if i + 1 < n && chars[i + 1] == '*' {
            match scan_block_body(chars, i + 2) {
                Some((body, j, nl)) => {
                    proof {
                        crate::model::lemma_nl_count(s, i + 2, j as int);
                    }
                    let length = body.len() + 2;
                    let tok = Token {
                        typ: TokenType::Comment,
                        val: body,
                        span: Span { line, col, length },
                    };
                    let base: usize = if nl > 0 {
                        1
                    } else {
                        col
                    };
                    StepExec::Tok(tok, j + 2, line + nl, base + length)
                },
                None => StepExec::Fail(LexError::UnterminatedComment(Span { line, col, length: 1 })),
            }
        } else if i + 1 < n && chars[i + 1] == '=' {
            StepExec::Tok(pair_token(TokenType::Assignment, c, '=', line, col), i + 2, line, col + 2)
        } else {
            StepExec::Tok(lone_op_token(c, line, col), i + 1, line, col + 2)
        }
    } else if c == '"' {
        proof {
            crate::model::lemma_scan_str(s, i + 1, str_prev0(s, i + 1), Seq::empty());
        }
        match scan_string_body(chars, i) {
            Some((text, e)) => {
                let length = text.len() + 2;
                let tok = Token { typ: TokenType::String, val: text, span: Span { line, col, length } };
                StepExec::Tok(tok, e + 1, line, col + length)
            },
            None => StepExec::Fail(LexError::UnterminatedString(Span { line, col, length: 1 })),
        }
    } else if c == '.' {
        if i + 1 < n && is_digit(chars[i + 1]) {
            let (digits, fe) = scan_digits(chars, i + 1);
            let mut text: Vec<char> = Vec::new();
            text.push('0');
            text.push('.');
            let mut rest = digits;
            text.append(&mut rest);
            proof {
                assert(text@ =~= seq!['0', '.'] + s.subrange(i + 1, digits_end(s, i + 1)));
            }
            let length = text.len();
            let tok = Token { typ: TokenType::Float, val: text, span: Span { line, col, length } };
            StepExec::Tok(tok, fe, line, col + length)
        } else if i + 1 < n && is_word_start(chars[i + 1]) {
            StepExec::Tok(single_token(TokenType::MemberAccess, '.', line, col), i + 1, line, col + 1)
        } else if i + 1 < n && chars[i + 1] == '.' {
            StepExec::Tok(range_token(line, col), i + 2, line, col + 2)
        } else {
            StepExec::Fail(LexError::InvalidDot(Span { line, col, length: 1 }))
        }
    } else if c == '=' || c == '<' || c == '>' {
        if i + 1 < n && chars[i + 1] == '=' {
            StepExec::Tok(
                pair_token(TokenType::ComparisonOperator, c, '=', line, col),
                i + 2,
                line,
                col + 2,
            )
        } else if c == '=' {
            StepExec::Tok(single_token(TokenType::Assignment, c, line, col), i + 1, line, col + 1)
        } else {
            StepExec::Tok(
                single_token(TokenType::ComparisonOperator, c, line, col),
                i + 1,
                line,
                col + 1,
            )
        }
    } else if is_space(c) {
        if c == '\n' {
            StepExec::Skip(i + 1, line + 1, 1)
        } else {
            StepExec::Skip(i + 1, line, col + 1)
        }
    } else if is_digit(c) {
        proof {
            crate::model::lemma_scan_num(s, i + 1, seq![s[i as int]], false);
        }
        let (text, resume, fl) = scan_number(chars, i);
        let length = text.len();
        let tok = Token {
            typ: if fl {
                TokenType::Float
            } else {
                TokenType::Int
            },
            val: text,
            span: Span { line, col, length },
        };
        StepExec::Tok(tok, resume, line, col + length)
    } else if is_word_start(c) {
        proof {
            assert(word_char(s[i as int]));
            assert(word_end(s, i as int) == word_end(s, i + 1));
            crate::model::lemma_word_end(s, i + 1);
        }
        let (text, we) = scan_word(chars, i);
        let length = text.len();
        let tok = Token { typ: TokenType::Word, val: text, span: Span { line, col, length } };
        StepExec::Tok(tok, we, line, col + length)
    } else {
        StepExec::Fail(LexError::UnexpectedCharacter(c, Span { line, col, length: 1 }))
    }
}

/// Scans the input into an ordered token sequence, or aborts at the first
/// fatal lexical error. Tabs are expanded to four spaces before scanning;
/// the caller is expected to have normalized line endings beforehand. The
/// result is exactly `spec_tokens` of the input, so scanning is a pure
/// function of the character sequence.
pub fn lex(input: &Vec<char>) -> (r: Result<Vec<Token>, LexError>)
    requires
        8 * input@.len() + 1 <= usize::MAX,
    ensures
        (match r {
            Ok(toks) => spec_tokens(input@) == Ok::<Seq<TokenView>, LexError>(
                toks@.map_values(|t: Token| t@),
            ),
            Err(e) => spec_tokens(input@) == Err::<Seq<TokenView>, LexError>(e),
        }),
{
    let chars = expand_tabs(input);
    let ghost s = chars@;
    let n = chars.len();
    let mut toks: Vec<Token> = Vec::new();
    let mut i: usize = 0;
    let mut line: usize = 1;
    let mut col: usize = 1;
    while i < n
        invariant
            s == chars@,
            n == s.len(),
            s.len() <= 4 * input@.len(),
            8 * input@.len() + 1 <= usize::MAX,
            i <= n,
            1 <= line && line <= i + 1,
            1 <= col && col <= 2 * i + 1,
            spec_tokens(input@) == spec_scan_from(s, 0, 1, 1),
            combine(
                toks@.map_values(|t: Token| t@),
                spec_scan_from(s, i as int, line as int, col as int),
            ) == spec_scan_from(s, 0, 1, 1),
        decreases n - i,
    {
        let ghost i0 = i as int;
        let ghost l0 = line as int;
        let ghost c0 = col as int;
        let ghost pre = toks@.map_values(|t: Token| t@);
        match step_exec(&chars, i, line, col) {
            StepExec::Fail(e) => {
                proof {
                    assert(spec_scan_from(s, i0, l0, c0) == Err::<Seq<TokenView>, LexError>(e));
                }
                return Err(e);
            },
            StepExec::Skip(n2, l2, c2) => {
                proof {
                    assert(spec_scan_from(s, i0, l0, c0) == spec_scan_from(
                        s,
                        n2 as int,
                        l2 as int,
                        c2 as int,
                    ));
                }
                i = n2;
                line = l2;
                col = c2;
            },
            StepExec::Tok(t, n2, l2, c2) => {
                let ghost tv = t@;
                proof {
                    let rest = spec_scan_from(s, n2 as int, l2 as int, c2 as int);
                    assert(spec_scan_from(s, i0, l0, c0) == combine(seq![tv], rest));
                    lemma_combine_push(pre, tv, rest);
                }
                toks.push(t);
                proof {
                    assert(toks@.map_values(|t2: Token| t2@) =~= pre.push(tv));
                }
                i = n2;
                line = l2;
                col = c2;
            },
        }
    }
    proof {
        assert(spec_scan_from(s, i as int, line as int, col as int) == Ok::<
            Seq<TokenView>,
            LexError,
        >(Seq::empty()));
        assert(toks@.map_values(|t: Token| t@) + Seq::<TokenView>::empty() =~= toks@.map_values(
            |t: Token| t@,
        ));
    }
    Ok(toks)
}


} // verus!
