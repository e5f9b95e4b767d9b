use inko::lexer::{Lexer, Token, TokenType};

fn check(token_opt: Option<Token>, token_type: TokenType, value: &str) {
    assert!(token_opt.is_some());

    let token = token_opt.unwrap();

    assert_eq!(token.token_type, token_type);
    assert_eq!(token.value, value);
    assert_eq!(token.line, 1);
    assert_eq!(token.column, 1);
}

#[test]
fn test_new() {
    let lexer = Lexer::new("a".chars().collect());

    assert_eq!(lexer.position, 0);
    assert_eq!(lexer.line, 1);
    assert_eq!(lexer.column, 1);
}

#[test]
fn test_next() {
    let mut lexer = Lexer::new("a".chars().collect());

    assert!(lexer.next().is_some());
    assert!(lexer.next().is_none());
}

#[test]
fn test_peek() {
    let mut lexer = Lexer::new("a".chars().collect());

    assert!(lexer.peek().is_some());
    assert!(lexer.peek().is_some());
}

#[test]
fn test_skip_and_next() {
    let mut lexer = Lexer::new("a b".chars().collect());

    assert!(lexer.peek().is_some());
    assert!(lexer.skip_and_next().is_some());
    assert!(lexer.next().is_none());
}

#[test]
fn test_next_type_is() {
    let mut lexer = Lexer::new("a".chars().collect());

    assert!(lexer.next_type_is(TokenType::Identifier));

    lexer.next();

    assert_eq!(lexer.next_type_is(TokenType::Identifier), false);
}

#[test]
fn test_peek_with_next() {
    let mut lexer = Lexer::new("a".chars().collect());

    assert!(lexer.peek().is_some());
    assert!(lexer.next().is_some());

    assert!(lexer.peek().is_none());
    assert!(lexer.next().is_none());
}

#[test]
fn test_identifier_or_keyword_with_identifier() {
    let mut lexer = Lexer::new("foo".chars().collect());
    let token_opt = lexer.identifier_or_keyword();

    assert!(token_opt.is_some());

    let token = token_opt.unwrap();

    assert_eq!(token.token_type, TokenType::Identifier);
    assert_eq!(token.value, "foo".to_string());
    assert_eq!(token.line, 1);
    assert_eq!(token.column, 1);
}

#[test]
fn test_constant() {
    let mut lexer = Lexer::new("Foo".chars().collect());
    let token_opt = lexer.constant();

    assert!(token_opt.is_some());

    let token = token_opt.unwrap();

    assert_eq!(token.token_type, TokenType::Constant);
    assert_eq!(token.value, "Foo".to_string());
    assert_eq!(token.line, 1);
    assert_eq!(token.column, 1);
}

#[test]
fn test_attribute() {
    let mut lexer = Lexer::new("@foo".chars().collect());
    let token_opt = lexer.attribute();

    assert!(token_opt.is_some());

    let token = token_opt.unwrap();

    assert_eq!(token.token_type, TokenType::Attribute);
    assert_eq!(token.value, "foo".to_string());
    assert_eq!(token.line, 1);
    assert_eq!(token.column, 1);
}

#[test]
fn test_comment() {
    let mut lexer = Lexer::new("# foo".chars().collect());
    let token_opt = lexer.comment();

    assert!(token_opt.is_some());

    let token = token_opt.unwrap();

    assert_eq!(token.token_type, TokenType::Comment);
    assert_eq!(token.value, "foo".to_string());
    assert_eq!(token.line, 1);
    assert_eq!(token.column, 1);
}

#[test]
fn test_number_with_integer() {
    let mut lexer = Lexer::new("123".chars().collect());
    let token_opt = lexer.number();

    assert!(token_opt.is_some());

    let token = token_opt.unwrap();

    assert_eq!(token.token_type, TokenType::Integer);
    assert_eq!(token.value, "123".to_string());
    assert_eq!(token.line, 1);
    assert_eq!(token.column, 1);
}

#[test]
fn test_number_with_integer_with_underscore() {
    let mut lexer = Lexer::new("123_4".chars().collect());
    let token_opt = lexer.number();

    assert!(token_opt.is_some());

    let token = token_opt.unwrap();

    assert_eq!(token.token_type, TokenType::Integer);
    assert_eq!(token.value, "1234".to_string());
    assert_eq!(token.line, 1);
    assert_eq!(token.column, 1);
}

#[test]
fn test_number_with_float() {
    let mut lexer = Lexer::new("12.34".chars().collect());
    let token_opt = lexer.number();

    assert!(token_opt.is_some());

    let token = token_opt.unwrap();

    assert_eq!(token.token_type, TokenType::Float);
    assert_eq!(token.value, "12.34".to_string());
    assert_eq!(token.line, 1);
    assert_eq!(token.column, 1);
}

#[test]
fn test_number_with_float_with_underscore() {
    let mut lexer = Lexer::new("12_3.34".chars().collect());
    let token_opt = lexer.number();

    assert!(token_opt.is_some());

    let token = token_opt.unwrap();

    assert_eq!(token.token_type, TokenType::Float);
    assert_eq!(token.value, "123.34".to_string());
    assert_eq!(token.line, 1);
    assert_eq!(token.column, 1);
}

#[test]
fn test_single_string() {
    let mut lexer = Lexer::new("'foo'".chars().collect());
    let token_opt = lexer.single_string();

    assert!(token_opt.is_some());

    let token = token_opt.unwrap();

    assert_eq!(token.token_type, TokenType::String);
    assert_eq!(token.value, "foo".to_string());
    assert_eq!(token.line, 1);
    assert_eq!(token.column, 1);
}

#[test]
fn test_single_string_with_escape() {
    let mut lexer = Lexer::new("'foo\\'bar'".chars().collect());
    let token_opt = lexer.single_string();

    assert!(token_opt.is_some());

    let token = token_opt.unwrap();

    assert_eq!(token.token_type, TokenType::String);
    assert_eq!(token.value, "foo'bar".to_string());
    assert_eq!(token.line, 1);
    assert_eq!(token.column, 1);
}

#[test]
fn test_double_string() {
    let mut lexer = Lexer::new("\"foo\"".chars().collect());
    let token_opt = lexer.double_string();

    assert!(token_opt.is_some());

    let token = token_opt.unwrap();

    assert_eq!(token.token_type, TokenType::String);
    assert_eq!(token.value, "foo".to_string());
    assert_eq!(token.line, 1);
    assert_eq!(token.column, 1);
}

#[test]
fn test_double_string_with_escape() {
    let mut lexer = Lexer::new("\"foo\\\"bar\"".chars().collect());
    let token_opt = lexer.double_string();

    assert!(token_opt.is_some());

    let token = token_opt.unwrap();

    assert_eq!(token.token_type, TokenType::String);
    assert_eq!(token.value, "foo\"bar".to_string());
    assert_eq!(token.line, 1);
    assert_eq!(token.column, 1);
}

#[test]
fn test_ident() {
    let mut lexer = Lexer::new("foo".chars().collect());

    check(lexer.identifier_or_keyword(), TokenType::Identifier, "foo");
}

#[test]
fn test_let() {
    let mut lexer = Lexer::new("let".chars().collect());

    check(lexer.identifier_or_keyword(), TokenType::Let, "let");
}

#[test]
fn test_var() {
    let mut lexer = Lexer::new("var".chars().collect());

    check(lexer.identifier_or_keyword(), TokenType::Var, "var");
}

#[test]
fn test_object() {
    let mut lexer = Lexer::new("object".chars().collect());

    check(lexer.identifier_or_keyword(), TokenType::Object, "object");
}

#[test]
fn test_trait() {
    let mut lexer = Lexer::new("trait".chars().collect());

    check(lexer.identifier_or_keyword(), TokenType::Trait, "trait");
}

#[test]
fn test_impl() {
    let mut lexer = Lexer::new("impl".chars().collect());

    check(lexer.identifier_or_keyword(), TokenType::Impl, "impl");
}

#[test]
fn test_enum() {
    let mut lexer = Lexer::new("enum".chars().collect());

    check(lexer.identifier_or_keyword(), TokenType::Enum, "enum");
}

#[test]
fn test_member() {
    let mut lexer = Lexer::new("member".chars().collect());

    check(lexer.identifier_or_keyword(), TokenType::Member, "member");
}

#[test]
fn test_import() {
    let mut lexer = Lexer::new("import".chars().collect());

    check(lexer.identifier_or_keyword(), TokenType::Import, "import");
}

#[test]
fn test_return() {
    let mut lexer = Lexer::new("return".chars().collect());

    check(lexer.identifier_or_keyword(), TokenType::Return, "return");
}

#[test]
fn test_self() {
    let mut lexer = Lexer::new("self".chars().collect());

    check(lexer.identifier_or_keyword(), TokenType::Self_, "self");
}

#[test]
fn test_bracket_open() {
    let mut lexer = Lexer::new("[".chars().collect());

    check(lexer.bracket_open(), TokenType::BracketOpen, "[");
}

#[test]
fn test_bracket_close() {
    let mut lexer = Lexer::new("]".chars().collect());

    check(lexer.bracket_close(), TokenType::BracketClose, "]");
}

#[test]
fn test_curly_open() {
    let mut lexer = Lexer::new("{".chars().collect());

    check(lexer.curly_open(), TokenType::CurlyOpen, "{");
}

#[test]
fn test_curly_close() {
    let mut lexer = Lexer::new("}".chars().collect());

    check(lexer.curly_close(), TokenType::CurlyClose, "}");
}

#[test]
fn test_paren_open() {
    let mut lexer = Lexer::new("(".chars().collect());

    check(lexer.paren_open(), TokenType::ParenOpen, "(");
}

#[test]
fn test_paren_close() {
    let mut lexer = Lexer::new(")".chars().collect());

    check(lexer.paren_close(), TokenType::ParenClose, ")");
}

#[test]
fn test_colons_single_colon() {
    let mut lexer = Lexer::new(":".chars().collect());

    check(lexer.colons(), TokenType::Colon, ":");
}

#[test]
fn test_colons_colon_colon() {
    let mut lexer = Lexer::new("::".chars().collect());

    check(lexer.colons(), TokenType::ColonColon, "::");
}

#[test]
fn test_div() {
    let mut lexer = Lexer::new("/".chars().collect());

    check(lexer.div(), TokenType::Div, "/");
}

#[test]
fn test_div_assign() {
    let mut lexer = Lexer::new("/=".chars().collect());

    check(lexer.div(), TokenType::DivAssign, "/=");
}

#[test]
fn test_modulo() {
    let mut lexer = Lexer::new("%".chars().collect());

    check(lexer.modulo(), TokenType::Modulo, "%");
}

#[test]
fn test_module_assign() {
    let mut lexer = Lexer::new("%=".chars().collect());

    check(lexer.modulo(), TokenType::ModuloAssign, "%=");
}

#[test]
fn test_bitwise_xor() {
    let mut lexer = Lexer::new("^".chars().collect());

    check(lexer.bitwise_xor(), TokenType::BitwiseXor, "^");
}

#[test]
fn test_bitwise_xor_assign() {
    let mut lexer = Lexer::new("^=".chars().collect());

    check(lexer.bitwise_xor(), TokenType::BitwiseXorAssign, "^=");
}

#[test]
fn test_bitwise_and() {
    let mut lexer = Lexer::new("&".chars().collect());

    check(lexer.bitwise_and_or_boolean_and(), TokenType::BitwiseAnd, "&");
}

#[test]
fn test_bitwise_and_assign() {
    let mut lexer = Lexer::new("&=".chars().collect());

    check(lexer.bitwise_and_or_boolean_and(), TokenType::BitwiseAndAssign, "&=");
}

#[test]
fn test_boolean_and() {
    let mut lexer = Lexer::new("&&".chars().collect());

    check(lexer.bitwise_and_or_boolean_and(), TokenType::And, "&&");
}

#[test]
fn test_boolean_and_assign() {
    let mut lexer = Lexer::new("&&=".chars().collect());

    check(lexer.bitwise_and_or_boolean_and(), TokenType::AndAssign, "&&=");
}

#[test]
fn test_bitwise_or() {
    let mut lexer = Lexer::new("|".chars().collect());

    check(lexer.bitwise_or_or_boolean_or(), TokenType::BitwiseOr, "|");
}

#[test]
fn test_bitwise_or_assign() {
    let mut lexer = Lexer::new("|=".chars().collect());

    check(lexer.bitwise_or_or_boolean_or(), TokenType::BitwiseOrAssign, "|=");
}

#[test]
fn test_boolean_or() {
    let mut lexer = Lexer::new("||".chars().collect());

    check(lexer.bitwise_or_or_boolean_or(), TokenType::Or, "||");
}

#[test]
fn test_boolean_or_assign() {
    let mut lexer = Lexer::new("||=".chars().collect());

    check(lexer.bitwise_or_or_boolean_or(), TokenType::OrAssign, "||=");
}

#[test]
fn test_mul() {
    let mut lexer = Lexer::new("*".chars().collect());

    check(lexer.mul_or_pow(), TokenType::Mul, "*");
}

#[test]
fn test_mul_assign() {
    let mut lexer = Lexer::new("*=".chars().collect());

    check(lexer.mul_or_pow(), TokenType::MulAssign, "*=");
}

#[test]
fn test_pow() {
    let mut lexer = Lexer::new("**".chars().collect());

    check(lexer.mul_or_pow(), TokenType::Pow, "**");
}

#[test]
fn test_pow_assign() {
    let mut lexer = Lexer::new("**=".chars().collect());

    check(lexer.mul_or_pow(), TokenType::PowAssign, "**=");
}

#[test]
fn test_sub() {
    let mut lexer = Lexer::new("-".chars().collect());

    check(lexer.sub_or_arrow(), TokenType::Sub, "-");
}

#[test]
fn test_sub_assign() {
    let mut lexer = Lexer::new("-=".chars().collect());

    check(lexer.sub_or_arrow(), TokenType::SubAssign, "-=");
}

#[test]
fn test_arrow() {
    let mut lexer = Lexer::new("->".chars().collect());

    check(lexer.sub_or_arrow(), TokenType::Arrow, "->");
}

#[test]
fn test_add() {
    let mut lexer = Lexer::new("+".chars().collect());

    check(lexer.add(), TokenType::Add, "+");
}

#[test]
fn test_add_assign() {
    let mut lexer = Lexer::new("+=".chars().collect());

    check(lexer.add(), TokenType::AddAssign, "+=");
}

#[test]
fn test_assign_or_equal_assign() {
    let mut lexer = Lexer::new("=".chars().collect());

    check(lexer.assign_or_equal(), TokenType::Assign, "=");
}

#[test]
fn test_assign_or_equal_equal() {
    let mut lexer = Lexer::new("==".chars().collect());

    check(lexer.assign_or_equal(), TokenType::Equal, "==");
}

#[test]
fn test_not() {
    let mut lexer = Lexer::new("!".chars().collect());

    check(lexer.not_or_not_equal(), TokenType::Not, "!");
}

#[test]
fn test_not_equal() {
    let mut lexer = Lexer::new("!=".chars().collect());

    check(lexer.not_or_not_equal(), TokenType::NotEqual, "!=");
}

#[test]
fn test_lower() {
    let mut lexer = Lexer::new("<".chars().collect());

    check(lexer.lower_or_shift_left(), TokenType::Lower, "<");
}

#[test]
fn test_shift_left() {
    let mut lexer = Lexer::new("<<".chars().collect());

    check(lexer.lower_or_shift_left(), TokenType::ShiftLeft, "<<");
}

#[test]
fn test_greater() {
    let mut lexer = Lexer::new(">".chars().collect());

    check(lexer.greater_or_shift_right(), TokenType::Greater, ">");
}

#[test]
fn test_shift_right() {
    let mut lexer = Lexer::new(">>".chars().collect());

    check(lexer.greater_or_shift_right(), TokenType::ShiftRight, ">>");
}

#[test]
fn test_next_reads_tokens_in_order() {
    let mut lexer = Lexer::new("let x = 10\n  Foo".chars().collect());

    let first = lexer.next().unwrap();
    assert_eq!(first.token_type, TokenType::Let);
    assert_eq!(first.column, 1);

    let second = lexer.next().unwrap();
    assert_eq!(second.token_type, TokenType::Identifier);
    assert_eq!(second.value, "x");
    assert_eq!(second.column, 5);

    assert_eq!(lexer.next().unwrap().token_type, TokenType::Assign);
    assert_eq!(lexer.next().unwrap().value, "10");

    let constant = lexer.next().unwrap();
    assert_eq!(constant.token_type, TokenType::Constant);
    assert_eq!(constant.line, 2);
    assert_eq!(constant.column, 3);

    assert!(lexer.next().is_none());
}

#[test]
fn test_number_with_two_dots_reads_nothing() {
    let mut lexer = Lexer::new("1.2.3".chars().collect());

    assert!(lexer.number().is_none());
    assert_eq!(lexer.position, 0);
}

#[test]
fn test_unterminated_string_stops_at_the_end() {
    let mut lexer = Lexer::new("'".chars().collect());
    let token = lexer.single_string().unwrap();

    assert_eq!(token.value, "");
    assert_eq!(lexer.position, 1);
}

#[test]
fn test_string_with_newline_starts_a_new_line() {
    let mut lexer = Lexer::new("'a\nbc' d".chars().collect());

    lexer.next();

    let next = lexer.next().unwrap();
    assert_eq!(next.value, "d");
    assert_eq!(next.line, 2);
}

#[test]
fn test_unknown_character_ends_the_input() {
    let mut lexer = Lexer::new("  ?".chars().collect());

    assert!(lexer.next().is_none());
}

#[test]
fn test_attribute_without_name() {
    let mut lexer = Lexer::new("@".chars().collect());

    assert!(lexer.attribute().is_none());
}
