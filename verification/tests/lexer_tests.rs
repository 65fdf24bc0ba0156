use lexer::lex;
use lexer::LexError;
use lexer::Token;
use lexer::TokenType;

fn scan(src: &str) -> Vec<Token> {
    let chars: Vec<char> = src.chars().collect();
    lex(&chars).expect("scan should succeed")
}

fn scan_err(src: &str) -> LexError {
    let chars: Vec<char> = src.chars().collect();
    match lex(&chars) {
        Ok(_) => panic!("scan should fail"),
        Err(e) => e,
    }
}

fn text(t: &Token) -> String {
    t.val.iter().collect()
}

#[test]
fn whitespace_only_yields_no_tokens() {
    assert_eq!(scan("").len(), 0);
    assert_eq!(scan("   ").len(), 0);
    assert_eq!(scan(" \t \r \n  \n").len(), 0);
}

#[test]
fn integer_literal_verbatim() {
    let toks = scan("12345");
    assert_eq!(toks.len(), 1);
    assert_eq!(toks[0].typ, TokenType::Int);
    assert_eq!(text(&toks[0]), "12345");
    assert_eq!(toks[0].span.line, 1);
    assert_eq!(toks[0].span.col, 1);
    assert_eq!(toks[0].span.length, 5);
}

#[test]
fn string_escape_newline_decodes() {
    let toks = scan("\"a\\nb\"");
    assert_eq!(toks.len(), 1);
    assert_eq!(toks[0].typ, TokenType::String);
    assert_eq!(text(&toks[0]), "a\nb");
    assert_eq!(toks[0].span.length, 5);
}

#[test]
fn string_other_escapes_decode() {
    let toks = scan("\"t\\tr\\rq\\\"e\"");
    assert_eq!(toks.len(), 1);
    assert_eq!(text(&toks[0]), "t\tr\rq\"e");
}

#[test]
fn string_unknown_escape_keeps_backslash() {
    let toks = scan("\"a\\qb\"");
    assert_eq!(toks.len(), 1);
    assert_eq!(text(&toks[0]), "a\\qb");
}

#[test]
fn range_splits_adjacent_dots() {
    let toks = scan("1..5");
    assert_eq!(toks.len(), 3);
    assert_eq!(toks[0].typ, TokenType::Int);
    assert_eq!(text(&toks[0]), "1");
    assert_eq!(toks[1].typ, TokenType::Operator);
    assert_eq!(text(&toks[1]), "Range");
    assert_eq!(toks[2].typ, TokenType::Int);
    assert_eq!(text(&toks[2]), "5");
}

#[test]
fn compound_assignment_statement() {
    let toks = scan("x += 1;");
    assert_eq!(toks.len(), 4);
    assert_eq!(toks[0].typ, TokenType::Word);
    assert_eq!(text(&toks[0]), "x");
    assert_eq!(toks[1].typ, TokenType::Assignment);
    assert_eq!(text(&toks[1]), "+=");
    assert_eq!(toks[2].typ, TokenType::Int);
    assert_eq!(text(&toks[2]), "1");
    assert_eq!(toks[3].typ, TokenType::SemiColon);
    assert_eq!(text(&toks[3]), ";");
}

#[test]
fn unterminated_block_comment_is_fatal() {
    let e = scan_err("/* unterminated");
    assert!(matches!(e, LexError::UnterminatedComment(_)));
}

#[test]
fn line_comment_then_word() {
    let toks = scan("//line comment\nx");
    assert_eq!(toks.len(), 2);
    assert_eq!(toks[0].typ, TokenType::Comment);
    assert_eq!(text(&toks[0]), "line comment");
    assert_eq!(toks[1].typ, TokenType::Word);
    assert_eq!(text(&toks[1]), "x");
    assert_eq!(toks[1].span.line, 2);
    assert_eq!(toks[1].span.col, 1);
}

#[test]
fn leading_dot_float() {
    let toks = scan(".5");
    assert_eq!(toks.len(), 1);
    assert_eq!(toks[0].typ, TokenType::Float);
    assert_eq!(text(&toks[0]), "0.5");
    assert_eq!(toks[0].span.length, 3);
}

#[test]
fn spans_positive_on_mixed_input() {
    let toks = scan("# fn main() {\n  x := \"hi\\n\"; // greet\n  y += .5 + 1..3;\n}\n");
    assert!(!toks.is_empty());
    for t in &toks {
        assert!(t.span.line >= 1);
        assert!(t.span.col >= 1);
        assert!(t.span.length >= 1);
    }
}

#[test]
fn scanning_twice_is_deterministic() {
    let src = "a := 1..2; /* c */ \"s\\t\" .5 <= b";
    let first = scan(src);
    let second = scan(src);
    assert_eq!(first.len(), second.len());
    for (a, b) in first.iter().zip(second.iter()) {
        assert_eq!(a.typ, b.typ);
        assert_eq!(a.val, b.val);
        assert_eq!(a.span, b.span);
    }
}

#[test]
fn colon_forms() {
    let toks = scan(":= :: :");
    assert_eq!(toks.len(), 3);
    assert_eq!(toks[0].typ, TokenType::Assignment);
    assert_eq!(text(&toks[0]), ":=");
    assert_eq!(toks[1].typ, TokenType::ConstAssignment);
    assert_eq!(text(&toks[1]), "::");
    assert_eq!(toks[2].typ, TokenType::Colon);
    assert_eq!(text(&toks[2]), ":");
    assert_eq!(toks[2].span.length, 1);
}

#[test]
fn comparison_forms() {
    let toks = scan("== <= >= = < >");
    assert_eq!(toks.len(), 6);
    assert_eq!(toks[0].typ, TokenType::ComparisonOperator);
    assert_eq!(text(&toks[0]), "==");
    assert_eq!(toks[1].typ, TokenType::ComparisonOperator);
    assert_eq!(text(&toks[1]), "<=");
    assert_eq!(toks[2].typ, TokenType::ComparisonOperator);
    assert_eq!(text(&toks[2]), ">=");
    assert_eq!(toks[3].typ, TokenType::Assignment);
    assert_eq!(text(&toks[3]), "=");
    assert_eq!(toks[3].span.length, 1);
    assert_eq!(toks[4].typ, TokenType::ComparisonOperator);
    assert_eq!(text(&toks[4]), "<");
    assert_eq!(toks[5].typ, TokenType::ComparisonOperator);
    assert_eq!(text(&toks[5]), ">");
}

#[test]
fn doubled_and_lone_operators() {
    let toks = scan("++ - ** %");
    assert_eq!(toks.len(), 4);
    assert_eq!(toks[0].typ, TokenType::Operator);
    assert_eq!(text(&toks[0]), "++");
    assert_eq!(toks[0].span.length, 2);
    assert_eq!(toks[1].typ, TokenType::Operator);
    assert_eq!(text(&toks[1]), "-");
    // a lone operator keeps the nominal span length of two
    assert_eq!(toks[1].span.length, 2);
    assert_eq!(toks[2].typ, TokenType::Operator);
    assert_eq!(text(&toks[2]), "**");
    assert_eq!(toks[3].typ, TokenType::Operator);
    assert_eq!(text(&toks[3]), "%");
}

#[test]
fn compound_operator_assignments() {
    let toks = scan("a -= 1; b *= 2; c /= 3; d %= 4;");
    assert_eq!(toks[1].typ, TokenType::Assignment);
    assert_eq!(text(&toks[1]), "-=");
    assert_eq!(toks[5].typ, TokenType::Assignment);
    assert_eq!(text(&toks[5]), "*=");
    assert_eq!(toks[9].typ, TokenType::Assignment);
    assert_eq!(text(&toks[9]), "/=");
    assert_eq!(toks[13].typ, TokenType::Assignment);
    assert_eq!(text(&toks[13]), "%=");
}

#[test]
fn unterminated_string_is_fatal() {
    assert!(matches!(scan_err("\"abc"), LexError::UnterminatedString(_)));
    assert!(matches!(scan_err("\"esc\\\""), LexError::UnterminatedString(_)));
}

#[test]
fn invalid_dot_is_fatal() {
    assert!(matches!(scan_err(". "), LexError::InvalidDot(_)));
    assert!(matches!(scan_err("."), LexError::InvalidDot(_)));
}

#[test]
fn unexpected_character_is_fatal() {
    match scan_err("@") {
        LexError::UnexpectedCharacter(c, span) => {
            assert_eq!(c, '@');
            assert_eq!(span.line, 1);
            assert_eq!(span.col, 1);
        }
        e => panic!("wrong error: {:?}", e),
    }
}

#[test]
fn tab_expansion_advances_columns() {
    let toks = scan("\tx");
    assert_eq!(toks.len(), 1);
    assert_eq!(toks[0].typ, TokenType::Word);
    assert_eq!(toks[0].span.col, 5);
}

#[test]
fn block_comment_tracks_lines() {
    let toks = scan("/*a\nb*/x");
    assert_eq!(toks.len(), 2);
    assert_eq!(toks[0].typ, TokenType::Comment);
    assert_eq!(text(&toks[0]), "a\nb");
    assert_eq!(toks[0].span.line, 1);
    assert_eq!(toks[1].typ, TokenType::Word);
    assert_eq!(toks[1].span.line, 2);
}

#[test]
fn empty_block_comment() {
    let toks = scan("/**/");
    assert_eq!(toks.len(), 1);
    assert_eq!(toks[0].typ, TokenType::Comment);
    assert_eq!(text(&toks[0]), "");
    assert_eq!(toks[0].span.length, 2);
}

#[test]
fn block_comment_with_inner_slash() {
    let toks = scan("/*a/b*/");
    assert_eq!(toks.len(), 1);
    assert_eq!(text(&toks[0]), "a/b");
}

#[test]
fn member_access_dot() {
    let toks = scan("a.b");
    assert_eq!(toks.len(), 3);
    assert_eq!(toks[0].typ, TokenType::Word);
    assert_eq!(toks[1].typ, TokenType::MemberAccess);
    assert_eq!(text(&toks[1]), ".");
    assert_eq!(toks[1].span.length, 1);
    assert_eq!(toks[2].typ, TokenType::Word);
}

#[test]
fn structural_tokens() {
    let toks = scan("#()[]{},;");
    let kinds = [
        TokenType::Pound,
        TokenType::OpenParen,
        TokenType::CloseParen,
        TokenType::OpenBracket,
        TokenType::CloseBracket,
        TokenType::OpenBrace,
        TokenType::CloseBrace,
        TokenType::Comma,
        TokenType::SemiColon,
    ];
    assert_eq!(toks.len(), kinds.len());
    for (k, t) in kinds.iter().zip(toks.iter()) {
        assert_eq!(*k, t.typ);
        assert_eq!(t.span.length, 1);
    }
}

#[test]
fn float_literal() {
    let toks = scan("1.5");
    assert_eq!(toks.len(), 1);
    assert_eq!(toks[0].typ, TokenType::Float);
    assert_eq!(text(&toks[0]), "1.5");
}

#[test]
fn second_dot_ends_number_early() {
    let toks = scan("1.2.3");
    assert_eq!(toks.len(), 2);
    assert_eq!(toks[0].typ, TokenType::Int);
    assert_eq!(text(&toks[0]), "1.");
    assert_eq!(toks[1].typ, TokenType::Float);
    assert_eq!(text(&toks[1]), "2.3");
}

#[test]
fn line_comment_at_end_of_input() {
    let toks = scan("//end");
    assert_eq!(toks.len(), 1);
    assert_eq!(toks[0].typ, TokenType::Comment);
    assert_eq!(text(&toks[0]), "end");
}

#[test]
fn words_with_digits_and_underscores() {
    let toks = scan("_private x9 snake_case");
    assert_eq!(toks.len(), 3);
    assert_eq!(text(&toks[0]), "_private");
    assert_eq!(text(&toks[1]), "x9");
    assert_eq!(text(&toks[2]), "snake_case");
    for t in &toks {
        assert_eq!(t.typ, TokenType::Word);
    }
}

#[test]
fn expand_tabs_replaces_each_tab() {
    let chars: Vec<char> = "a\tb".chars().collect();
    let out = lexer::expand_tabs(&chars);
    let s: String = out.iter().collect();
    assert_eq!(s, "a    b");
}

#[test]
fn triple_colon_is_const_assignment_then_colon() {
    let toks = scan(":::");
    assert_eq!(toks.len(), 2);
    assert_eq!(toks[0].typ, TokenType::ConstAssignment);
    assert_eq!(text(&toks[0]), "::");
    assert_eq!(toks[1].typ, TokenType::Colon);
    assert_eq!(text(&toks[1]), ":");
}

#[test]
fn backslash_does_not_escape_itself() {
    // the scanner tracks only the previous raw character, so the quote after
    // two backslashes still counts as escaped and the string never closes
    assert!(matches!(scan_err("\"\\\\\""), LexError::UnterminatedString(_)));
}

#[test]
fn unicode_whitespace_yields_no_tokens() {
    // vertical tab, form feed, no-break space, em space
    assert_eq!(scan("\u{0B}\u{0C}").len(), 0);
    assert_eq!(scan("\u{A0} \u{2003}").len(), 0);
}

#[test]
fn unicode_letters_form_words() {
    let toks = scan("caf\u{e9} \u{4eac}");
    assert_eq!(toks.len(), 2);
    assert_eq!(toks[0].typ, TokenType::Word);
    assert_eq!(text(&toks[0]), "caf\u{e9}");
    assert_eq!(toks[1].typ, TokenType::Word);
    assert_eq!(text(&toks[1]), "\u{4eac}");
}

#[test]
fn unicode_digits_form_numbers() {
    // Arabic-Indic digits three and four
    let toks = scan("\u{663}\u{664}");
    assert_eq!(toks.len(), 1);
    assert_eq!(toks[0].typ, TokenType::Int);
    assert_eq!(text(&toks[0]), "\u{663}\u{664}");
}

#[test]
fn non_letter_symbol_is_still_fatal() {
    // an emoji is neither alphabetic nor numeric nor whitespace
    assert!(matches!(
        scan_err("\u{1F600}"),
        LexError::UnexpectedCharacter('\u{1F600}', _)
    ));
}

#[test]
fn line_comment_body_keeps_leading_space() {
    // the body is everything between the delimiters and the newline
    let toks = scan("// line comment\nx");
    assert_eq!(toks[0].typ, TokenType::Comment);
    assert_eq!(text(&toks[0]), " line comment");
}
