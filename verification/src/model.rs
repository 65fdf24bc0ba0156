//! The mathematical model of the scanner: character classes, the
//! sub-scanners for strings, comments, numbers, and words, and the
//! dispatch relation that the executable scanner is proved against.

use vstd::prelude::*;

use crate::types::LexError;
use crate::types::Span;
use crate::types::TokenType;
use crate::types::TokenView;

verus! {

/// What `char::is_numeric` returns for a character beyond ASCII.
pub uninterp spec fn numeric_ext(c: char) -> bool;

/// What `char::is_alphabetic` returns for a character beyond ASCII.
pub uninterp spec fn alphabetic_ext(c: char) -> bool;

/// What `char::is_whitespace` returns for a character beyond ASCII.
pub uninterp spec fn whitespace_ext(c: char) -> bool;

/// An ASCII decimal digit.
pub open spec fn ascii_digit(c: char) -> bool {
    48 <= c as u32 && c as u32 <= 57
}

/// A numeric character: an ASCII digit, or a character beyond ASCII in one
/// of the Unicode number categories.
pub open spec fn digit(c: char) -> bool {
    ascii_digit(c) || (c as u32 > 127 && numeric_ext(c))
}

/// An alphabetic character: an ASCII letter, or a character beyond ASCII
/// with the Unicode Alphabetic property.
pub open spec fn alpha(c: char) -> bool {
    (65 <= c as u32 && c as u32 <= 90) || (97 <= c as u32 && c as u32 <= 122) || (c as u32 > 127
        && alphabetic_ext(c))
}

/// A character that may start a word: an alphabetic character or an
/// underscore.
pub open spec fn word_start(c: char) -> bool {
    alpha(c) || c == '_'
}

/// A character that may continue a word: an alphanumeric character or an
/// underscore.
pub open spec fn word_char(c: char) -> bool {
    alpha(c) || digit(c) || c == '_'
}

/// Whitespace: among ASCII, the characters tab through carriage return and
/// the space character; beyond ASCII, the Unicode White_Space property.
pub open spec fn space(c: char) -> bool {
    (9 <= c as u32 && c as u32 <= 13) || c == ' ' || (c as u32 > 127 && whitespace_ext(c))
}

/// The input from position `i` on, with every tab expanded to four spaces.
pub open spec fn expand_from(s: Seq<char>, i: int) -> Seq<char>
    decreases s.len() - i,
{
    if i < 0 || i >= s.len() {
        Seq::empty()
    } else if s[i] == '\t' {
        seq![' ', ' ', ' ', ' '] + expand_from(s, i + 1)
    } else {
        seq![s[i]] + expand_from(s, i + 1)
    }
}

/// The index of the first newline at or after `i`, or the end of the input:
/// where a line comment's body ends.
pub open spec fn line_end(s: Seq<char>, i: int) -> int
    decreases s.len() - i,
{
    if i < 0 || i >= s.len() {
        s.len() as int
    } else if s[i] == '\n' {
        i
    } else {
        line_end(s, i + 1)
    }
}

/// The index of the `*` of the first `*/` at or after `i`, if there is one:
/// where a block comment's body ends.
pub open spec fn block_end(s: Seq<char>, i: int) -> Option<int>
    decreases s.len() - i,
{
    if i < 0 || i + 2 > s.len() {
        None
    } else if s[i] == '*' && s[i + 1] == '/' {
        Some(i)
    } else {
        block_end(s, i + 1)
    }
}

/// The number of newline characters in `s[i..j]`.
pub open spec fn nl_count(s: Seq<char>, i: int, j: int) -> int
    decreases j - i,
{
    if i >= j {
        0
    } else {
        (if s[i] == '\n' { 1int } else { 0 }) + nl_count(s, i + 1, j)
    }
}

/// Whether an escaped occurrence of `c` is decoded to a replacement
/// character rather than passed through.
pub open spec fn escape_decoded(c: char) -> bool {
    c == 'n' || c == 't' || c == 'r' || c == '"'
}

/// The replacement for a decoded escape target.
pub open spec fn escape_value(c: char) -> char {
    if c == 'n' {
        '\n'
    } else if c == 't' {
        '\t'
    } else if c == 'r' {
        '\r'
    } else {
        '"'
    }
}

/// The character the string scanner starts with as "the previous character":
/// the first body character itself, or a placeholder at the end of input.
pub open spec fn str_prev0(s: Seq<char>, i: int) -> char {
    if 0 <= i < s.len() {
        s[i]
    } else {
        '.'
    }
}

/// Scans a string literal body. `i` is the next position, `prev` the raw
/// character just before it, and `acc` the text decoded so far. An unescaped
/// quote closes the literal; a backslash marks the following character as
/// escaped, and a decoded escape target replaces the backslash pushed for it
/// with the replacement character, while any other escaped character is kept
/// with its backslash. Returns the decoded text and the index of the closing
/// quote, or `None` when the input ends first.
pub open spec fn scan_str(s: Seq<char>, i: int, prev: char, acc: Seq<char>) -> Option<(Seq<char>, int)>
    decreases s.len() - i,
{
    if i < 0 || i >= s.len() {
        None
    } else if s[i] == '"' && prev != '\\' {
        Some((acc, i))
    } else {
        let acc2 = if prev == '\\' && escape_decoded(s[i]) {
            acc.drop_last().push(escape_value(s[i]))
        } else {
            acc.push(s[i])
        };
        scan_str(s, i + 1, s[i], acc2)
    }
}

/// The index of the first character at or after `i` that is not a digit.
pub open spec fn digits_end(s: Seq<char>, i: int) -> int
    decreases s.len() - i,
{
    if i < 0 || i >= s.len() || !digit(s[i]) {
        i
    } else {
        digits_end(s, i + 1)
    }
}

/// The index of the first character at or after `i` that cannot continue a
/// word.
pub open spec fn word_end(s: Seq<char>, i: int) -> int
    decreases s.len() - i,
{
    if i < 0 || i >= s.len() || !word_char(s[i]) {
        i
    } else {
        word_end(s, i + 1)
    }
}

/// Scans a numeric literal. `acc` is the text consumed so far and `fl` says
/// whether a decimal point has been accepted. The first decimal point makes
/// the number a float; a second one ends the number early, giving back the
/// character pushed just before it, and the scan resumes one position back.
/// Returns the token text, the index at which scanning resumes, and whether
/// the token is a float.
pub open spec fn scan_num(s: Seq<char>, i: int, acc: Seq<char>, fl: bool) -> (Seq<char>, int, bool)
    decreases s.len() - i,
{
    if i < 0 || i >= s.len() || !(digit(s[i]) || s[i] == '.') {
        (acc, i, fl)
    } else if s[i] == '.' && fl {
        (acc.drop_last(), i - 1, false)
    } else {
        scan_num(s, i + 1, acc.push(s[i]), fl || s[i] == '.')
    }
}

/// The outcome of one dispatch step: a token with the cursor, line, and
/// column after it; a silent advance over whitespace; or a fatal error.
pub ghost enum Step {
    Tok { tok: TokenView, next: int, line: int, col: int },
    Skip { next: int, line: int, col: int },
    Fail { err: LexError },
}

/// The span recorded with a fatal error: the position of the offending
/// construct's first character.
pub open spec fn err_span(line: int, col: int) -> Span {
    Span { line: line as usize, col: col as usize, length: 1 }
}

/// A token of category `t` with text `text` and span length `n` at the
/// current position.
pub open spec fn mk_tok(t: TokenType, text: Seq<char>, line: int, col: int, n: int) -> TokenView {
    TokenView { typ: t, text, line, col, length: n }
}

/// A single-character token: the cursor and the column advance by one.
pub open spec fn step_single(t: TokenType, c: char, i: int, line: int, col: int) -> Step {
    Step::Tok { tok: mk_tok(t, seq![c], line, col, 1), next: i + 1, line, col: col + 1 }
}

/// `:` alone is a colon; `:=` is an assignment and `::` a constant
/// assignment, each of length two. Lookahead is exactly one character.
pub open spec fn step_colon(s: Seq<char>, i: int, line: int, col: int) -> Step {
    if i + 1 < s.len() && s[i + 1] == '=' {
        Step::Tok {
            tok: mk_tok(TokenType::Assignment, seq![':', '='], line, col, 2),
            next: i + 2,
            line,
            col: col + 2,
        }
    } else if i + 1 < s.len() && s[i + 1] == ':' {
        Step::Tok {
            tok: mk_tok(TokenType::ConstAssignment, seq![':', ':'], line, col, 2),
            next: i + 2,
            line,
            col: col + 2,
        }
    } else {
        step_single(TokenType::Colon, ':', i, line, col)
    }
}

/// The operator family (`-`, `*`, `+`, `%`, and `/` when it does not start a
/// comment): followed by `=` it is a compound assignment, doubled it is a
/// two-character operator, and alone it is a one-character operator whose
/// span length is nevertheless recorded as two.
pub open spec fn step_operator(s: Seq<char>, i: int, line: int, col: int) -> Step {
    let c = s[i];
    if i + 1 < s.len() && s[i + 1] == '=' {
        Step::Tok {
            tok: mk_tok(TokenType::Assignment, seq![c, '='], line, col, 2),
            next: i + 2,
            line,
            col: col + 2,
        }
    } else if i + 1 < s.len() && s[i + 1] == c {
        Step::Tok {
            tok: mk_tok(TokenType::Operator, seq![c, c], line, col, 2),
            next: i + 2,
            line,
            col: col + 2,
        }
    } else {
        Step::Tok {
            tok: mk_tok(TokenType::Operator, seq![c], line, col, 2),
            next: i + 1,
            line,
            col: col + 2,
        }
    }
}

/// `//` starts a line comment running to, but excluding, the next newline or
/// the end of input; `/*` starts a block comment running to the first `*/`,
/// which must be present. Both carry the body without delimiters and a span
/// length of the body plus two; newlines inside a block comment advance the
/// line counter and reset the running column to one. A bare `/` falls back to
/// the operator family.
pub open spec fn step_slash(s: Seq<char>, i: int, line: int, col: int) -> Step {
    if i + 1 < s.len() && s[i + 1] == '/' {
        let e = line_end(s, i + 2);
        let body = s.subrange(i + 2, e);
        Step::Tok {
            tok: mk_tok(TokenType::Comment, body, line, col, body.len() as int + 2),
            next: e,
            line,
            col: col + body.len() + 2,
        }
    } else if i + 1 < s.len() && s[i + 1] == '*' {
        match block_end(s, i + 2) {
            None => Step::Fail { err: LexError::UnterminatedComment(err_span(line, col)) },
            Some(j) => {
                let body = s.subrange(i + 2, j);
                let nl = nl_count(s, i + 2, j);
                Step::Tok {
                    tok: mk_tok(TokenType::Comment, body, line, col, body.len() as int + 2),
                    next: j + 2,
                    line: line + nl,
                    col: (if nl > 0 { 1int } else { col }) + body.len() + 2,
                }
            },
        }
    } else {
        step_operator(s, i, line, col)
    }
}

/// A quote starts a string literal; the token carries the decoded text and a
/// span length of the decoded length plus the two delimiters. Reaching the
/// end of input without an unescaped closing quote is fatal.
pub open spec fn step_string(s: Seq<char>, i: int, line: int, col: int) -> Step {
    match scan_str(s, i + 1, str_prev0(s, i + 1), Seq::empty()) {
        None => Step::Fail { err: LexError::UnterminatedString(err_span(line, col)) },
        Some((text, e)) => Step::Tok {
            tok: mk_tok(TokenType::String, text, line, col, text.len() as int + 2),
            next: e + 1,
            line,
            col: col + text.len() + 2,
        },
    }
}

/// A dot followed by a digit starts a float with an implicit leading zero;
/// followed by a word-start character it is a member access; followed by
/// another dot it is the synthetic range operator; anything else, or the end
/// of input, is fatal.
pub open spec fn step_dot(s: Seq<char>, i: int, line: int, col: int) -> Step {
    if i + 1 < s.len() && digit(s[i + 1]) {
        let e = digits_end(s, i + 1);
        let text = seq!['0', '.'] + s.subrange(i + 1, e);
        Step::Tok {
            tok: mk_tok(TokenType::Float, text, line, col, text.len() as int),
            next: e,
            line,
            col: col + text.len(),
        }
    } else if i + 1 < s.len() && word_start(s[i + 1]) {
        step_single(TokenType::MemberAccess, '.', i, line, col)
    } else if i + 1 < s.len() && s[i + 1] == '.' {
        Step::Tok {
            tok: mk_tok(TokenType::Operator, seq!['R', 'a', 'n', 'g', 'e'], line, col, 2),
            next: i + 2,
            line,
            col: col + 2,
        }
    } else {
        Step::Fail { err: LexError::InvalidDot(err_span(line, col)) }
    }
}

/// `=`, `<`, `>`: followed by `=` they form a two-character comparison
/// operator; alone, `=` is an assignment and `<`/`>` are one-character
/// comparison operators. The span length equals the text length.
pub open spec fn step_comparison(s: Seq<char>, i: int, line: int, col: int) -> Step {
    let c = s[i];
    if i + 1 < s.len() && s[i + 1] == '=' {
        Step::Tok {
            tok: mk_tok(TokenType::ComparisonOperator, seq![c, '='], line, col, 2),
            next: i + 2,
            line,
            col: col + 2,
        }
    } else if c == '=' {
        step_single(TokenType::Assignment, c, i, line, col)
    } else {
        step_single(TokenType::ComparisonOperator, c, i, line, col)
    }
}

/// A digit starts a numeric literal, an integer unless a decimal point was
/// accepted.
pub open spec fn step_number(s: Seq<char>, i: int, line: int, col: int) -> Step {
    let r = scan_num(s, i + 1, seq![s[i]], false);
    Step::Tok {
        tok: mk_tok(
            if r.2 {
                TokenType::Float
            } else {
                TokenType::Int
            },
            r.0,
            line,
            col,
            r.0.len() as int,
        ),
        next: r.1,
        line,
        col: col + r.0.len(),
    }
}

/// A word: a run of letters, digits, and underscores not starting with a
/// digit.
pub open spec fn step_word(s: Seq<char>, i: int, line: int, col: int) -> Step {
    let e = word_end(s, i);
    let text = s.subrange(i, e);
    Step::Tok {
        tok: mk_tok(TokenType::Word, text, line, col, text.len() as int),
        next: e,
        line,
        col: col + text.len(),
    }
}

/// One dispatch step of the scanner at position `i`, which must lie within
/// the input. After an emitted token the column advances by the token's span
/// length; a newline advances the line counter and resets the column to one;
/// other whitespace advances the column by one. A character no branch
/// recognizes is fatal.
pub open spec fn spec_step(s: Seq<char>, i: int, line: int, col: int) -> Step {
    let c = s[i];
    if c == '#' {
        step_single(TokenType::Pound, c, i, line, col)
    } else if c == '(' {
        step_single(TokenType::OpenParen, c, i, line, col)
    } else if c == ')' {
        step_single(TokenType::CloseParen, c, i, line, col)
    } else if c == '[' {
        step_single(TokenType::OpenBracket, c, i, line, col)
    } else if c == ']' {
        step_single(TokenType::CloseBracket, c, i, line, col)
    } else if c == '{' {
        step_single(TokenType::OpenBrace, c, i, line, col)
    } else if c == '}' {
        step_single(TokenType::CloseBrace, c, i, line, col)
    } else if c == ',' {
        step_single(TokenType::Comma, c, i, line, col)
    } else if c == ';' {
        step_single(TokenType::SemiColon, c, i, line, col)
    } else if c == ':' {
        step_colon(s, i, line, col)
    } else if c == '-' || c == '+' || c == '*' || c == '%' {
        step_operator(s, i, line, col)
    } else if c == '/' {
        step_slash(s, i, line, col)
    } else if c == '"' {
        step_string(s, i, line, col)
    } else if c == '.' {
        step_dot(s, i, line, col)
    } else if c == '=' || c == '<' || c == '>' {
        step_comparison(s, i, line, col)
    } else if space(c) {
        if c == '\n' {
            Step::Skip { next: i + 1, line: line + 1, col: 1 }
        } else {
            Step::Skip { next: i + 1, line, col: col + 1 }
        }
    } else if digit(c) {
        step_number(s, i, line, col)
    } else if word_start(c) {
        step_word(s, i, line, col)
    } else {
        Step::Fail { err: LexError::UnexpectedCharacter(c, err_span(line, col)) }
    }
}

/// The token sequence produced from position `i` on with the given line and
/// column counters, or the first fatal error.
pub open spec fn spec_scan_from(s: Seq<char>, i: int, line: int, col: int) -> Result<
    Seq<TokenView>,
    LexError,
>
    decreases s.len() - i,
        when 0 <= i
        via spec_scan_from_decreases
{
    if i >= s.len() {
        Ok(Seq::empty())
    } else {
        match spec_step(s, i, line, col) {
            Step::Fail { err } => Err(err),
            Step::Skip { next, line: l2, col: c2 } => spec_scan_from(s, next, l2, c2),
            Step::Tok { tok, next, line: l2, col: c2 } => match spec_scan_from(s, next, l2, c2) {
                Err(e) => Err(e),
                Ok(rest) => Ok(seq![tok] + rest),
            },
        }
    }
}

#[via_fn]
proof fn spec_scan_from_decreases(s: Seq<char>, i: int, line: int, col: int) {
    if 0 <= i && i < s.len() {
        lemma_step_progress(s, i, line, col);
    }
}

/// The token sequence of the whole input: tabs expanded to four spaces, then
/// scanned from the start at line one, column one.
pub open spec fn spec_tokens(s: Seq<char>) -> Result<Seq<TokenView>, LexError> {
    spec_scan_from(expand_from(s, 0), 0, 1, 1)
}

/// Prefixes tokens already produced onto the outcome of the rest of the
/// scan.
pub open spec fn combine(prefix: Seq<TokenView>, rest: Result<Seq<TokenView>, LexError>) -> Result<
    Seq<TokenView>,
    LexError,
> {
    match rest {
        Ok(ts) => Ok(prefix + ts),
        Err(e) => Err(e),
    }
}

/// Moving one token from the front of the rest onto the end of the prefix
/// leaves the combined outcome unchanged.
pub proof fn lemma_combine_push(
    prefix: Seq<TokenView>,
    t: TokenView,
    rest: Result<Seq<TokenView>, LexError>,
)
    ensures
        combine(prefix, combine(seq![t], rest)) == combine(prefix.push(t), rest),
{
    match rest {
        Ok(ts) => {
            assert(prefix + (seq![t] + ts) =~= prefix.push(t) + ts);
        },
        Err(_) => {},
    }
}

/// A line comment's body ends at or after where it starts, and within the
/// input.
pub proof fn lemma_line_end(s: Seq<char>, i: int)
    requires
        0 <= i <= s.len(),
    ensures
        i <= line_end(s, i) <= s.len(),
    decreases s.len() - i,
{
    if i < s.len() && s[i] != '\n' {
        lemma_line_end(s, i + 1);
    }
}

/// A block comment's closing `*/` lies at or after where the search starts,
/// with both of its characters within the input.
pub proof fn lemma_block_end(s: Seq<char>, i: int)
    requires
        0 <= i,
    ensures
        block_end(s, i) matches Some(j) ==> i <= j && j + 2 <= s.len(),
    decreases s.len() - i,
{
    if !(i + 2 > s.len()) && !(s[i] == '*' && s[i + 1] == '/') {
        lemma_block_end(s, i + 1);
    }
}

/// A newline count is never negative and never exceeds the width of the
/// counted range.
pub proof fn lemma_nl_count(s: Seq<char>, i: int, j: int)
    requires
        i <= j,
    ensures
        0 <= nl_count(s, i, j) <= j - i,
    decreases j - i,
{
    if i < j {
        lemma_nl_count(s, i + 1, j);
    }
}

/// Counting newlines over one more character adds that character's
/// contribution at the end.
pub proof fn lemma_nl_count_snoc(s: Seq<char>, i: int, j: int)
    requires
        i <= j,
    ensures
        nl_count(s, i, j + 1) == nl_count(s, i, j) + (if s[j] == '\n' { 1int } else { 0 }),
    decreases j - i,
{
    if i < j {
        lemma_nl_count_snoc(s, i + 1, j);
    } else {
        assert(nl_count(s, i + 1, j + 1) == 0);
    }
}

/// The string scanner stays within the input, ends at the closing quote, and
/// decodes at most one character per raw character consumed. The side
/// condition says a pending backslash always has the backslash it pushed
/// available to replace.
pub proof fn lemma_scan_str(s: Seq<char>, i: int, prev: char, acc: Seq<char>)
    requires
        0 <= i,
        prev == '\\' ==> acc.len() >= 1 || (i < s.len() && !escape_decoded(s[i])),
    ensures
        scan_str(s, i, prev, acc) matches Some((t, e)) ==> i <= e < s.len() && t.len() <= acc.len()
            + (e - i),
    decreases s.len() - i,
{
    if i < s.len() && !(s[i] == '"' && prev != '\\') {
        let acc2 = if prev == '\\' && escape_decoded(s[i]) {
            acc.drop_last().push(escape_value(s[i]))
        } else {
            acc.push(s[i])
        };
        lemma_scan_str(s, i + 1, s[i], acc2);
    }
}

/// The digit run after a leading dot ends at or after where it starts, and
/// within the input.
pub proof fn lemma_digits_end(s: Seq<char>, i: int)
    requires
        0 <= i <= s.len(),
    ensures
        i <= digits_end(s, i) <= s.len(),
    decreases s.len() - i,
{
    if i < s.len() && digit(s[i]) {
        lemma_digits_end(s, i + 1);
    }
}

/// A word ends at or after where it starts, and within the input.
pub proof fn lemma_word_end(s: Seq<char>, i: int)
    requires
        0 <= i <= s.len(),
    ensures
        i <= word_end(s, i) <= s.len(),
    decreases s.len() - i,
{
    if i < s.len() && word_char(s[i]) {
        lemma_word_end(s, i + 1);
    }
}

/// The number scanner consumes exactly the characters of its token text; it
/// can step back one position only after a decimal point was accepted, so a
/// scan started on a digit always makes progress, and its text is never
/// empty.
pub proof fn lemma_scan_num(s: Seq<char>, i: int, acc: Seq<char>, fl: bool)
    requires
        0 <= i <= s.len(),
        acc.len() >= 1,
        fl ==> acc.len() >= 2,
    ensures
        i - 1 <= scan_num(s, i, acc, fl).1 <= s.len(),
        !fl ==> i <= scan_num(s, i, acc, fl).1,
        scan_num(s, i, acc, fl).0.len() >= 1,
        scan_num(s, i, acc, fl).0.len() == acc.len() + (scan_num(s, i, acc, fl).1 - i),
    decreases s.len() - i,
{
    if i >= s.len() || !(digit(s[i]) || s[i] == '.') {
        assert(scan_num(s, i, acc, fl) == (acc, i, fl));
    } else if s[i] == '.' && fl {
        assert(scan_num(s, i, acc, fl) == (acc.drop_last(), i - 1, false));
        assert(acc.drop_last().len() == acc.len() - 1);
    } else {
        lemma_scan_num(s, i + 1, acc.push(s[i]), fl || s[i] == '.');
        assert(scan_num(s, i, acc, fl) == scan_num(s, i + 1, acc.push(s[i]), fl || s[i] == '.'));
    }
}

/// Every dispatch step moves the cursor forward and keeps it within the
/// input.
pub proof fn lemma_step_progress(s: Seq<char>, i: int, line: int, col: int)
    requires
        0 <= i < s.len(),
    ensures
        (match spec_step(s, i, line, col) {
            Step::Tok { next, .. } => i < next <= s.len(),
            Step::Skip { next, .. } => i < next <= s.len(),
            Step::Fail { .. } => true,
        }),
{
    let c = s[i];
    if c == '/' {
        if i + 1 < s.len() && s[i + 1] == '/' {
            lemma_line_end(s, i + 2);
        } else if i + 1 < s.len() && s[i + 1] == '*' {
            lemma_block_end(s, i + 2);
        }
    } else if c == '"' {
        lemma_scan_str(s, i + 1, str_prev0(s, i + 1), Seq::empty());
    } else if c == '.' {
        if i + 1 < s.len() && digit(s[i + 1]) {
            lemma_digits_end(s, i + 1);
            assert(digits_end(s, i + 1) > i + 1 - 1);
        }
    } else if digit(c) {
        lemma_scan_num(s, i + 1, seq![c], false);
    } else if word_start(c) && !space(c) && !digit(c) {
        lemma_word_end(s, i);
        assert(word_char(s[i]));
        assert(word_end(s, i) == word_end(s, i + 1));
        lemma_word_end(s, i + 1);
    }
}

} // verus!
