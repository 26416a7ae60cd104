use bcz::error::{Error, Feature};
use bcz::main_data::MainData;
use bcz::token::{Keyword, Operator, OperatorType, Separator, Token, TokenVariant};

fn chars(text: &str) -> Vec<char> {
    text.chars().collect()
}

fn lex(width: u128, text: &str) -> Result<(Token, Vec<char>), Error> {
    let main_data = MainData::new(width).unwrap();
    let line = chars(text);
    Token::tokenize_from_line(&main_data, &line, 3, 7).map(|(token, rest)| (token, rest.to_vec()))
}

fn literal(width: u128, text: &str) -> Result<u64, Error> {
    lex(width, text).map(|(token, _)| match token.variant {
        TokenVariant::NumericalLiteral(value) => value,
        _ => panic!("not a numerical literal"),
    })
}

#[test]
fn hexadecimal_prefix() {
    assert_eq!(literal(64, "0x1A"), Ok(26));
}

#[test]
fn octal_prefix() {
    assert_eq!(literal(64, "0o17"), Ok(15));
}

#[test]
fn binary_prefix() {
    assert_eq!(literal(64, "0b101"), Ok(5));
}

#[test]
fn decimal_literal() {
    assert_eq!(literal(64, "42"), Ok(42));
}

#[test]
fn underscores_are_skipped() {
    assert_eq!(literal(64, "1_000"), Ok(1000));
}

#[test]
fn lone_zero() {
    assert_eq!(literal(64, "0"), Ok(0));
}

#[test]
fn maximum_value_is_accepted() {
    assert_eq!(literal(8, "255"), Ok(255));
    assert_eq!(literal(64, "18446744073709551615"), Ok(u64::MAX));
    assert_eq!(literal(16, "0xFFFF"), Ok(65535));
}

#[test]
fn value_above_maximum_overflows() {
    assert_eq!(literal(8, "256"), Err(Error::NumericalLiteralTooLarge));
    assert_eq!(literal(64, "18446744073709551616"), Err(Error::NumericalLiteralTooLarge));
    assert_eq!(literal(16, "0x10000"), Err(Error::NumericalLiteralTooLarge));
}

#[test]
fn overflow_is_reported_before_a_later_bad_digit() {
    assert_eq!(literal(8, "999z"), Err(Error::NumericalLiteralTooLarge));
}

#[test]
fn invalid_base_prefix() {
    assert_eq!(literal(64, "0z1"), Err(Error::InvalidNumericalLiteralBase('z')));
}

#[test]
fn invalid_digit_for_base() {
    assert_eq!(literal(64, "0b102"), Err(Error::InvalidDigitForBase('2', 2)));
    assert_eq!(literal(64, "12.5"), Err(Error::InvalidDigitForBase('.', 10)));
}

#[test]
fn float_literals_are_not_implemented() {
    assert_eq!(literal(64, "0f1"), Err(Error::FeatureNotYetImplemented(Feature::FloatLiterals)));
}

#[test]
fn literal_token_position_and_rest() {
    let (token, rest) = lex(64, "0x1A + b").unwrap();
    assert_eq!(token.line, 3);
    assert_eq!(token.column, 7);
    assert_eq!(token.char_length, 4);
    assert_eq!(rest, chars(" + b"));
}

#[test]
fn identifier_token() {
    let (token, rest) = lex(64, "my_var2(x)").unwrap();
    assert_eq!(token.variant, TokenVariant::Identifier("my_var2".to_string()));
    assert_eq!(token.char_length, 7);
    assert_eq!(rest, chars("(x)"));
}

#[test]
fn separator_token() {
    let (token, rest) = lex(64, "{a").unwrap();
    assert_eq!(token.variant, TokenVariant::Separator(Separator::OpenCurlyParenthesis));
    assert_eq!(rest, chars("a"));
}

#[test]
fn operator_tokens() {
    let (token, rest) = lex(64, "+ 1").unwrap();
    assert_eq!(token.variant, TokenVariant::Operator(Some(Operator::AddRead), OperatorType::SignedLogicalShortCircuit, false));
    assert_eq!(rest, chars(" 1"));
    let (token, _) = lex(64, "-$=x").unwrap();
    assert_eq!(
        token.variant,
        TokenVariant::Operator(Some(Operator::SubtractNegate), OperatorType::UnsignedLogicalNotShortCircuit, true)
    );
    assert_eq!(token.char_length, 3);
    let (token, _) = lex(64, "=").unwrap();
    assert_eq!(token.variant, TokenVariant::Operator(None, OperatorType::SignedLogicalShortCircuit, true));
    let (token, _) = lex(64, "*~").unwrap();
    assert_eq!(
        token.variant,
        TokenVariant::Operator(Some(Operator::MultiplyDerefrence), OperatorType::FloatingPointBitwise, false)
    );
}

#[test]
fn invalid_operator() {
    assert_eq!(lex(64, "==").map(|_| ()), Err(Error::InvalidOperator("==".to_string())));
}

#[test]
fn keyword_token() {
    let (token, rest) = lex(64, "@entry_point f").unwrap();
    assert_eq!(token.variant, TokenVariant::Keyword(Keyword::EntryPoint));
    assert_eq!(token.char_length, 12);
    assert_eq!(rest, chars(" f"));
}

#[test]
fn invalid_keyword() {
    assert_eq!(lex(64, "@foo").map(|_| ()), Err(Error::InvalidKeyword("foo".to_string())));
}

#[test]
fn comments_are_not_implemented() {
    assert_eq!(lex(64, "// note").map(|_| ()), Err(Error::FeatureNotYetImplemented(Feature::Comments)));
    assert_eq!(lex(64, "/* note").map(|_| ()), Err(Error::FeatureNotYetImplemented(Feature::Comments)));
}

#[test]
fn quotes_are_not_implemented() {
    assert_eq!(lex(64, "'a'").map(|_| ()), Err(Error::FeatureNotYetImplemented(Feature::CharLiterals)));
    assert_eq!(lex(64, "\"a\"").map(|_| ()), Err(Error::FeatureNotYetImplemented(Feature::StringLiterals)));
}

#[test]
fn invalid_start_character() {
    assert_eq!(lex(64, "`x").map(|_| ()), Err(Error::InvalidTokenStartChar('`')));
}

#[test]
fn symbol_tables() {
    let separators = Separator::get_symbols_map();
    assert_eq!(separators.len(), 9);
    assert!(separators.contains(&(';', Separator::Semicolon)));
    assert_eq!(Separator::CloseSquareParenthesis.get_symbol(), ']');
    assert_eq!(Separator::from_symbol('('), Some(Separator::OpenParenthesis));
    assert_eq!(Separator::from_symbol('a'), None);
    assert_eq!(Keyword::get_symbols_map(), vec![("entry_point", Keyword::EntryPoint)]);
    assert_eq!(Keyword::from_name(&chars("entry_point")), Some(Keyword::EntryPoint));
    assert_eq!(Keyword::from_name(&chars("entry")), None);
    assert_eq!(Operator::ModuloPercent.get_symbol(), "%");
    assert_eq!(Operator::get_symbols_map().len(), 5);
    let set = Operator::get_character_set();
    assert_eq!(set.len(), 17);
    assert!(set.contains(&'$') && set.contains(&':') && !set.contains(&'@'));
    assert_eq!(OperatorType::FloatingPointBitwise.get_symbol(), Some('~'));
    assert_eq!(OperatorType::SignedLogicalShortCircuit.get_symbol(), None);
    let types = OperatorType::get_symbols_map();
    assert_eq!(types.len(), 2);
    assert!(types.contains(&('$', OperatorType::UnsignedLogicalNotShortCircuit)));
}

#[test]
fn main_data_widths() {
    let data = MainData::new(8).unwrap();
    assert_eq!((data.int_bit_width, data.int_max_value, data.sign_bit_mask), (8, 255, 128));
    let data = MainData::new(64).unwrap();
    assert_eq!((data.int_max_value, data.sign_bit_mask), (u64::MAX, 1 << 63));
    let data = MainData::new(1).unwrap();
    assert_eq!((data.int_max_value, data.sign_bit_mask), (1, 1));
    assert!(matches!(MainData::new(65), Err(Error::InvalidArchitectureBitWidth(65))));
    assert!(matches!(MainData::new(0), Err(Error::InvalidArchitectureBitWidth(0))));
}

#[test]
fn whole_line_is_tokenized() {
    let main_data = MainData::new(64).unwrap();
    let line = chars("  x = 0x10;\tf(y)");
    let tokens = Token::tokenize_line(&main_data, &line, 5).unwrap();
    let columns: Vec<usize> = tokens.iter().map(|t| t.column).collect();
    assert_eq!(columns, vec![3, 5, 7, 11, 13, 14, 15, 16]);
    assert!(tokens.iter().all(|t| t.line == 5));
    assert_eq!(tokens[0].variant, TokenVariant::Identifier("x".to_string()));
    assert_eq!(tokens[2].variant, TokenVariant::NumericalLiteral(16));
    assert_eq!(tokens[3].variant, TokenVariant::Separator(Separator::Semicolon));
    assert_eq!(tokens[7].variant, TokenVariant::Separator(Separator::CloseParenthesis));
}

#[test]
fn whole_line_error_has_its_column() {
    let main_data = MainData::new(8).unwrap();
    let line = chars("a + 300");
    assert_eq!(Token::tokenize_line(&main_data, &line, 2), Err((Error::NumericalLiteralTooLarge, (2, 5))));
    assert_eq!(Token::tokenize_line(&main_data, &chars("   "), 1), Ok(vec![]));
}

#[test]
fn whole_line_error_is_at_the_first_failing_token() {
    let main_data = MainData::new(64).unwrap();
    let line = chars("ab  `c");
    assert_eq!(Token::tokenize_line(&main_data, &line, 1), Err((Error::InvalidTokenStartChar('`'), (1, 5))));
}
