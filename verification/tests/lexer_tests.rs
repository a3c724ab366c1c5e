use chc::error::{CompileError, Failure, Place};
use chc::lexer::{is_digit, is_float, lexer, to_digit, to_float, token_from_lexeme, Keyword, Token};
use chc::lexer::{find_decimal_point, lines_of, tokens_from_lexemes};

fn lex_failure(line: usize) -> Failure {
    Failure { error: CompileError::Lex, place: Place::Line(line) }
}

#[test]
fn integers_take_the_narrowest_unsigned_type() {
    assert_eq!(to_digit("0"), Ok(Token::UInt8(0)));
    assert_eq!(to_digit("255"), Ok(Token::UInt8(255)));
    assert_eq!(to_digit("256"), Ok(Token::UInt16(256)));
    assert_eq!(to_digit("65535"), Ok(Token::UInt16(65535)));
    assert_eq!(to_digit("65536"), Ok(Token::UInt32(65536)));
    assert_eq!(to_digit("4294967295"), Ok(Token::UInt32(4294967295)));
    assert_eq!(to_digit("4294967296"), Ok(Token::UInt64(4294967296)));
    assert_eq!(to_digit("18446744073709551615"), Ok(Token::UInt64(u64::MAX)));
}

#[test]
fn integers_take_the_narrowest_signed_type() {
    assert_eq!(to_digit("-1"), Ok(Token::Int8(-1)));
    assert_eq!(to_digit("-128"), Ok(Token::Int8(-128)));
    assert_eq!(to_digit("-129"), Ok(Token::Int16(-129)));
    assert_eq!(to_digit("-32768"), Ok(Token::Int16(-32768)));
    assert_eq!(to_digit("-32769"), Ok(Token::Int32(-32769)));
    assert_eq!(to_digit("-2147483648"), Ok(Token::Int32(-2147483648)));
    assert_eq!(to_digit("-2147483649"), Ok(Token::Int64(-2147483649)));
    assert_eq!(to_digit("-9223372036854775808"), Ok(Token::Int64(i64::MIN)));
}

#[test]
fn minus_zero_is_not_negative() {
    assert_eq!(to_digit("-0"), Ok(Token::UInt8(0)));
}

#[test]
fn leading_zeros_do_not_change_an_integer() {
    assert_eq!(to_digit("007"), Ok(Token::UInt8(7)));
    assert_eq!(to_digit("-0300"), Ok(Token::Int16(-300)));
}

#[test]
fn integers_out_of_range_are_lex_errors() {
    assert_eq!(to_digit("18446744073709551616"), Err(CompileError::Lex));
    assert_eq!(to_digit("-9223372036854775809"), Err(CompileError::Lex));
    assert_eq!(to_digit("99999999999999999999999999"), Err(CompileError::Lex));
}

#[test]
fn malformed_integers_are_lex_errors() {
    assert_eq!(to_digit(""), Err(CompileError::Lex));
    assert_eq!(to_digit("-"), Err(CompileError::Lex));
    assert_eq!(to_digit("--5"), Err(CompileError::Lex));
    assert_eq!(to_digit("5-3"), Err(CompileError::Lex));
    assert_eq!(to_digit("12a"), Err(CompileError::Lex));
}

#[test]
fn is_digit_accepts_digits_and_minus_signs() {
    assert!(is_digit("123"));
    assert!(is_digit("-123"));
    assert!(is_digit("1-2"));
    assert!(is_digit("--"));
    assert!(is_digit(""));
    assert!(!is_digit("-"));
    assert!(!is_digit("1.5"));
    assert!(!is_digit("x1"));
}

#[test]
fn is_float_needs_a_dot() {
    assert!(is_float("1.5"));
    assert!(is_float("-1.5"));
    assert!(is_float("."));
    assert!(is_float("1.2.3"));
    assert!(!is_float("15"));
    assert!(!is_float("1.5f"));
    assert!(!is_float(""));
}

#[test]
fn decimals_within_the_single_limit_are_single() {
    assert_eq!(to_float("1.5"), Ok(Token::Float32("1.5".to_string())));
    assert_eq!(to_float("-0.25"), Ok(Token::Float32("-0.25".to_string())));
    assert_eq!(to_float("5."), Ok(Token::Float32("5.".to_string())));
    assert_eq!(to_float(".5"), Ok(Token::Float32(".5".to_string())));
    assert_eq!(
        to_float("340282347000000000000000000000000000000.0"),
        Ok(Token::Float32("340282347000000000000000000000000000000.0".to_string()))
    );
    assert_eq!(
        to_float("-340282347000000000000000000000000000000.000"),
        Ok(Token::Float32("-340282347000000000000000000000000000000.000".to_string()))
    );
    assert_eq!(
        to_float("000340282346999999999999999999999999999999.9"),
        Ok(Token::Float32("000340282346999999999999999999999999999999.9".to_string()))
    );
}

#[test]
fn decimals_beyond_the_single_limit_are_double() {
    assert_eq!(
        to_float("340282347000000000000000000000000000000.1"),
        Ok(Token::Float64("340282347000000000000000000000000000000.1".to_string()))
    );
    assert_eq!(
        to_float("340282347000000000000000000000000000001.0"),
        Ok(Token::Float64("340282347000000000000000000000000000001.0".to_string()))
    );
    assert_eq!(
        to_float("-1000000000000000000000000000000000000000.0"),
        Ok(Token::Float64("-1000000000000000000000000000000000000000.0".to_string()))
    );
    let huge = format!("{}.5", "9".repeat(80));
    assert_eq!(to_float(&huge), Ok(Token::Float64(huge.clone())));
}

#[test]
fn malformed_decimals_are_lex_errors() {
    assert_eq!(to_float("."), Err(CompileError::Lex));
    assert_eq!(to_float("-."), Err(CompileError::Lex));
    assert_eq!(to_float("1.2.3"), Err(CompileError::Lex));
    assert_eq!(to_float("1-.5"), Err(CompileError::Lex));
    assert_eq!(to_float("1.5-"), Err(CompileError::Lex));
    assert_eq!(to_float("15"), Err(CompileError::Lex));
    assert_eq!(to_float(""), Err(CompileError::Lex));
    assert_eq!(to_float("--1.5"), Err(CompileError::Lex));
}

#[test]
fn lexemes_become_keywords_operators_and_identifiers() {
    assert_eq!(token_from_lexeme("i32"), Ok(Token::Keyword(Keyword::I32)));
    assert_eq!(token_from_lexeme("none"), Ok(Token::Keyword(Keyword::Void)));
    assert_eq!(token_from_lexeme("auto"), Ok(Token::Keyword(Keyword::Auto)));
    assert_eq!(token_from_lexeme("return"), Ok(Token::Keyword(Keyword::Return)));
    assert_eq!(token_from_lexeme("->"), Ok(Token::Return));
    assert_eq!(token_from_lexeme("**"), Ok(Token::Exp));
    assert_eq!(token_from_lexeme("//"), Ok(Token::FloorDiv));
    assert_eq!(token_from_lexeme("-"), Ok(Token::Minus));
    assert_eq!(token_from_lexeme("!="), Ok(Token::NotEq));
    assert_eq!(token_from_lexeme("and"), Ok(Token::And));
    assert_eq!(token_from_lexeme("||"), Ok(Token::Or));
    assert_eq!(token_from_lexeme("not"), Ok(Token::Not));
    assert_eq!(token_from_lexeme("x_1"), Ok(Token::Identifier("x_1".to_string())));
    assert_eq!(token_from_lexeme("\"hi\""), Ok(Token::String("\"hi\"".to_string())));
    assert_eq!(token_from_lexeme("42"), Ok(Token::UInt8(42)));
    assert_eq!(token_from_lexeme("4.2"), Ok(Token::Float32("4.2".to_string())));
    assert_eq!(token_from_lexeme("1.2.3"), Err(CompileError::Lex));
    assert_eq!(token_from_lexeme("--"), Err(CompileError::Lex));
}

#[test]
fn a_comment_lexeme_ends_the_line() {
    let lexemes = vec!["x".to_string(), "".to_string(), "#rest".to_string(), "--".to_string()];
    assert_eq!(tokens_from_lexemes(&lexemes), Ok(vec![Token::Identifier("x".to_string())]));
    let failing = vec!["x".to_string(), "--".to_string(), "#rest".to_string()];
    assert_eq!(tokens_from_lexemes(&failing), Err(CompileError::Lex));
}

#[test]
fn lines_are_cut_at_line_feeds() {
    assert_eq!(lines_of(""), vec!["".to_string()]);
    assert_eq!(lines_of("a"), vec!["a".to_string()]);
    assert_eq!(lines_of("a\n"), vec!["a".to_string(), "".to_string()]);
    assert_eq!(lines_of("a\n\nb"), vec!["a".to_string(), "".to_string(), "b".to_string()]);
}

#[test]
fn lexer_tokenizes_a_declaration() {
    assert_eq!(
        lexer("i32 x = 5"),
        Ok(vec![
            Token::Keyword(Keyword::I32),
            Token::Identifier("x".to_string()),
            Token::Eq,
            Token::UInt8(5),
            Token::NewLine,
        ])
    );
}

#[test]
fn lexer_ends_every_line_with_an_end_of_line_token() {
    assert_eq!(lexer(""), Ok(vec![Token::NewLine]));
    assert_eq!(lexer("\n\n"), Ok(vec![Token::NewLine, Token::NewLine, Token::NewLine]));
    assert_eq!(
        lexer("x\n\ny\n"),
        Ok(vec![
            Token::Identifier("x".to_string()),
            Token::NewLine,
            Token::NewLine,
            Token::Identifier("y".to_string()),
            Token::NewLine,
            Token::NewLine,
        ])
    );
}

#[test]
fn lexer_drops_comments() {
    assert_eq!(
        lexer("x = 1 # the rest -- 1.2.3\n# only a comment"),
        Ok(vec![
            Token::Identifier("x".to_string()),
            Token::Eq,
            Token::UInt8(1),
            Token::NewLine,
            Token::NewLine,
        ])
    );
}

#[test]
fn lexer_prefers_two_character_operators() {
    assert_eq!(
        lexer("a ** b // c -> d && e || f"),
        Ok(vec![
            Token::Identifier("a".to_string()),
            Token::Exp,
            Token::Identifier("b".to_string()),
            Token::FloorDiv,
            Token::Identifier("c".to_string()),
            Token::Return,
            Token::Identifier("d".to_string()),
            Token::And,
            Token::Identifier("e".to_string()),
            Token::Or,
            Token::Identifier("f".to_string()),
            Token::NewLine,
        ])
    );
    assert_eq!(
        lexer("a == b != c <= d >= e += f -= g *= h /= i %= j"),
        Ok(vec![
            Token::Identifier("a".to_string()),
            Token::EqEq,
            Token::Identifier("b".to_string()),
            Token::NotEq,
            Token::Identifier("c".to_string()),
            Token::LtEq,
            Token::Identifier("d".to_string()),
            Token::GtEq,
            Token::Identifier("e".to_string()),
            Token::PlusEq,
            Token::Identifier("f".to_string()),
            Token::MinusEq,
            Token::Identifier("g".to_string()),
            Token::MulEq,
            Token::Identifier("h".to_string()),
            Token::DivEq,
            Token::Identifier("i".to_string()),
            Token::ModEq,
            Token::Identifier("j".to_string()),
            Token::NewLine,
        ])
    );
}

#[test]
fn lexer_reads_single_character_operators() {
    assert_eq!(
        lexer("( a + b ) * c / d % e < f > g : ! h = i - j"),
        Ok(vec![
            Token::LPar,
            Token::Identifier("a".to_string()),
            Token::Plus,
            Token::Identifier("b".to_string()),
            Token::RPar,
            Token::Mul,
            Token::Identifier("c".to_string()),
            Token::Div,
            Token::Identifier("d".to_string()),
            Token::Mod,
            Token::Identifier("e".to_string()),
            Token::Lt,
            Token::Identifier("f".to_string()),
            Token::Gt,
            Token::Identifier("g".to_string()),
            Token::Colon,
            Token::Not,
            Token::Identifier("h".to_string()),
            Token::Eq,
            Token::Identifier("i".to_string()),
            Token::Minus,
            Token::Identifier("j".to_string()),
            Token::NewLine,
        ])
    );
}

#[test]
fn lexer_reads_strings_and_numbers() {
    assert_eq!(
        lexer("print(\"x = {x}\") 3.25 -7 300"),
        Ok(vec![
            Token::Identifier("print".to_string()),
            Token::LPar,
            Token::String("\"x = {x}\"".to_string()),
            Token::RPar,
            Token::Float32("3.25".to_string()),
            Token::Int8(-7),
            Token::UInt16(300),
            Token::NewLine,
        ])
    );
}

#[test]
fn lexer_skips_commas() {
    assert_eq!(
        lexer("add(a, b)"),
        Ok(vec![
            Token::Identifier("add".to_string()),
            Token::LPar,
            Token::Identifier("a".to_string()),
            Token::Identifier("b".to_string()),
            Token::RPar,
            Token::NewLine,
        ])
    );
}

#[test]
fn lexer_fails_on_a_malformed_number() {
    assert_eq!(lexer("x = 1.2.3"), Err(lex_failure(0)));
    assert_eq!(lexer("ok\nx = --\n"), Err(lex_failure(1)));
}

#[test]
fn lexemes_that_spell_nothing_are_lex_errors() {
    assert_eq!(token_from_lexeme("@"), Err(CompileError::Lex));
    assert_eq!(token_from_lexeme("&"), Err(CompileError::Lex));
    assert_eq!(token_from_lexeme("\""), Err(CompileError::Lex));
    assert_eq!(token_from_lexeme("a.b"), Err(CompileError::Lex));
    assert_eq!(token_from_lexeme("a b"), Err(CompileError::Lex));
    assert_eq!(token_from_lexeme("é"), Err(CompileError::Lex));
    assert_eq!(token_from_lexeme("a-b_9"), Ok(Token::Identifier("a-b_9".to_string())));
    assert_eq!(token_from_lexeme("\"\""), Ok(Token::String("\"\"".to_string())));
}

#[test]
fn lexer_fails_on_characters_it_does_not_know() {
    assert_eq!(lexer("x @ y"), Err(lex_failure(0)));
    assert_eq!(lexer("a & b"), Err(lex_failure(0)));
    assert_eq!(lexer("x = \"abc"), Err(lex_failure(0)));
    assert_eq!(lexer("x = {y}"), Err(lex_failure(0)));
    assert_eq!(lexer("x ? y"), Err(lex_failure(0)));
}

#[test]
fn lexer_passes_over_blanks_and_commas() {
    assert_eq!(
        lexer("\t x ,\t,  y \r"),
        Ok(vec![
            Token::Identifier("x".to_string()),
            Token::Identifier("y".to_string()),
            Token::NewLine,
        ])
    );
}

#[test]
fn lexer_keeps_what_a_string_holds() {
    assert_eq!(
        lexer("print(\"a, b @ {c} # d\")"),
        Ok(vec![
            Token::Identifier("print".to_string()),
            Token::LPar,
            Token::String("\"a, b @ {c} # d\"".to_string()),
            Token::RPar,
            Token::NewLine,
        ])
    );
}

#[test]
fn lexer_reads_negative_numbers() {
    assert_eq!(
        lexer("x = -1.5 + -20"),
        Ok(vec![
            Token::Identifier("x".to_string()),
            Token::Eq,
            Token::Float32("-1.5".to_string()),
            Token::Plus,
            Token::Int8(-20),
            Token::NewLine,
        ])
    );
    assert_eq!(
        lexer("5-3"),
        Ok(vec![Token::UInt8(5), Token::Int8(-3), Token::NewLine])
    );
    assert_eq!(
        lexer("x -= 1 -> y - z"),
        Ok(vec![
            Token::Identifier("x".to_string()),
            Token::MinusEq,
            Token::UInt8(1),
            Token::Return,
            Token::Identifier("y".to_string()),
            Token::Minus,
            Token::Identifier("z".to_string()),
            Token::NewLine,
        ])
    );
}

#[test]
fn lexer_fails_on_a_decimal_without_leading_digits() {
    assert_eq!(lexer("x = .5"), Err(lex_failure(0)));
}

#[test]
fn the_decimal_point_of_a_decimal_is_found() {
    let chars = |s: &str| s.chars().collect::<Vec<char>>();
    assert_eq!(find_decimal_point(&chars("12.5")), Some(2));
    assert_eq!(find_decimal_point(&chars("-12.5")), Some(3));
    assert_eq!(find_decimal_point(&chars(".5")), Some(0));
    assert_eq!(find_decimal_point(&chars("5.")), Some(1));
    assert_eq!(find_decimal_point(&chars(".")), None);
    assert_eq!(find_decimal_point(&chars("-.")), None);
    assert_eq!(find_decimal_point(&chars("125")), None);
    assert_eq!(find_decimal_point(&chars("1.2.5")), None);
    assert_eq!(find_decimal_point(&chars("1.2x")), None);
    assert_eq!(find_decimal_point(&chars("")), None);
}

#[test]
fn lexer_tells_the_line_that_failed() {
    assert_eq!(lexer("a\nb\n\nc @\nd ?\n"), Err(lex_failure(3)));
    assert_eq!(lexer("1.2.3\n--\n"), Err(lex_failure(0)));
    assert_eq!(lexer("# --\nx = 1\n\n\n  9.9.9"), Err(lex_failure(4)));
}
