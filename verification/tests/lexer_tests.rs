use pleco::lexer::Lexer;
use pleco::token::{extract_argument, extract_integer, extract_var, Token};

fn lex(text: &str) -> Vec<Token> {
    Lexer::new(text).tokenize()
}

#[test]
fn plain_characters_become_commands() {
    assert_eq!(
        lex("abf"),
        vec![Token::Command('a'), Token::Command('b'), Token::Command('f')]
    );
}

#[test]
fn blanks_and_newlines_are_dropped() {
    assert_eq!(lex("a b\nf"), vec![Token::Command('a'), Token::Command('b'), Token::Command('f')]);
    assert_eq!(lex(" \n "), Vec::<Token>::new());
    assert_eq!(lex(""), Vec::<Token>::new());
}

#[test]
fn plain_text_gives_one_command_per_character() {
    let text = "hello world\nbye";
    let expected: Vec<Token> = text
        .chars()
        .filter(|c| *c != ' ' && *c != '\n')
        .map(Token::Command)
        .collect();
    assert_eq!(lex(text), expected);
    assert_eq!(lex(text).len(), text.chars().count() - 2);
}

#[test]
fn string_literal_escapes() {
    assert_eq!(lex("\"a\\nb\""), vec![Token::StringLiteral("a\nb".to_string())]);
    assert_eq!(lex("\"a\\\\b\""), vec![Token::StringLiteral("a\\b".to_string())]);
    assert_eq!(lex("\"a\\\"b\""), vec![Token::StringLiteral("a\"b".to_string())]);
    assert_eq!(lex("\"a\\tb\""), vec![Token::StringLiteral("atb".to_string())]);
}

#[test]
fn string_literal_newline_is_one_character() {
    let tokens = lex("\"a\\nb\"");
    match &tokens[0] {
        Token::StringLiteral(s) => assert_eq!(s.chars().count(), 3),
        _ => panic!("not a string literal"),
    }
}

#[test]
fn string_literal_keeps_blanks() {
    assert_eq!(lex("\"a b\n\""), vec![Token::StringLiteral("a b\n".to_string())]);
}

#[test]
fn code_block_with_nested_braces() {
    assert_eq!(lex("{a{b}c}"), vec![Token::Code("a{b}c".to_string())]);
    assert_eq!(lex("{a\"x\"}"), vec![Token::Code("a\"x\"".to_string())]);
    assert_eq!(lex("{{}}{}"), vec![Token::Code("{}".to_string()), Token::Code("".to_string())]);
}

#[test]
fn code_block_escapes() {
    assert_eq!(lex("{a\\}b}"), vec![Token::Code("a}b".to_string())]);
    assert_eq!(lex("{a\\{b}"), vec![Token::Code("a{b".to_string())]);
    assert_eq!(lex("{a\\nb}"), vec![Token::Code("a\nb".to_string())]);
    assert_eq!(lex("{a\\\\b}"), vec![Token::Code("a\\b".to_string())]);
}

#[test]
fn code_block_keeps_blanks() {
    assert_eq!(lex("{a \"x\"\n}"), vec![Token::Code("a \"x\"\n".to_string())]);
}

#[test]
fn expression_with_nested_parentheses() {
    assert_eq!(lex("(+ (x *2; *3;) *1;)"), vec![Token::Expr("+ (x *2; *3;) *1;".to_string())]);
    assert_eq!(lex("(a\\)b)"), vec![Token::Expr("a)b".to_string())]);
}

#[test]
fn integers() {
    assert_eq!(lex("*42;"), vec![Token::Integer(42)]);
    assert_eq!(lex("*-7;"), vec![Token::Integer(-7)]);
    assert_eq!(lex("*+7;"), vec![Token::Integer(7)]);
    assert_eq!(lex("*007;"), vec![Token::Integer(7)]);
    assert_eq!(lex("*2147483647;"), vec![Token::Integer(2147483647)]);
    assert_eq!(lex("*-2147483648;"), vec![Token::Integer(-2147483648)]);
}

#[test]
fn integers_that_do_not_parse_are_zero() {
    assert_eq!(lex("*abc;"), vec![Token::Integer(0)]);
    assert_eq!(lex("*;"), vec![Token::Integer(0)]);
    assert_eq!(lex("*-;"), vec![Token::Integer(0)]);
    assert_eq!(lex("*1 2;"), vec![Token::Integer(0)]);
    assert_eq!(lex("*2147483648;"), vec![Token::Integer(0)]);
    assert_eq!(lex("*-2147483649;"), vec![Token::Integer(0)]);
    assert_eq!(lex("*99999999999999999999;"), vec![Token::Integer(0)]);
}

#[test]
fn integer_parsing_agrees_with_the_standard_parser() {
    for text in ["0", "-0", "+0", "12", "-12", "+-1", "--1", "1-", "", "+", " 1", "1 ", "٣", "2147483647", "2147483648", "-2147483648", "-2147483649", "00000000000000000000012"] {
        let expected: i32 = text.parse().unwrap_or(0);
        assert_eq!(lex(&format!("*{};", text)), vec![Token::Integer(expected)], "{:?}", text);
    }
}

#[test]
fn multi_length_commands_and_variables() {
    assert_eq!(lex("^Lo^"), vec![Token::MultiLengthCommand("Lo".to_string())]);
    assert_eq!(lex("$name$"), vec![Token::Var("name".to_string())]);
    assert_eq!(lex("$a\\$"), vec![Token::Var("a\\".to_string())]);
}

#[test]
fn comments_are_dropped() {
    assert_eq!(lex("a#remark#b"), vec![Token::Command('a'), Token::Command('b')]);
    assert_eq!(lex("a##b"), vec![Token::Command('a'), Token::Command('b')]);
    assert_eq!(lex("a#rest"), vec![Token::Command('a')]);
}

#[test]
fn next_token_yields_comments() {
    let mut lexer = Lexer::new("#note#a");
    assert_eq!(lexer.next_token(), Some(Token::Comment("note".to_string())));
    assert_eq!(lexer.next_token(), Some(Token::Command('a')));
    assert_eq!(lexer.next_token(), None);
    assert_eq!(lexer.next_token(), None);
}

#[test]
fn next_token_yields_blanks() {
    let mut lexer = Lexer::new(" \n");
    assert_eq!(lexer.next_token(), Some(Token::Command(' ')));
    assert_eq!(lexer.next_token(), Some(Token::Command('\n')));
    assert_eq!(lexer.next_token(), None);
}

#[test]
fn unterminated_forms_yield_what_was_read() {
    assert_eq!(lex("\"abc"), vec![Token::StringLiteral("abc".to_string())]);
    assert_eq!(lex("\"abc\\"), vec![Token::StringLiteral("abc".to_string())]);
    assert_eq!(lex("{a{b}"), vec![Token::Code("a{b}".to_string())]);
    assert_eq!(lex("{a\\"), vec![Token::Code("a".to_string())]);
    assert_eq!(lex("(+ *1;"), vec![Token::Expr("+ *1;".to_string())]);
    assert_eq!(lex("^LI"), vec![Token::MultiLengthCommand("LI".to_string())]);
    assert_eq!(lex("$x"), vec![Token::Var("x".to_string())]);
    assert_eq!(lex("*12"), vec![Token::Integer(12)]);
    assert_eq!(lex("\""), vec![Token::StringLiteral(String::new())]);
}

#[test]
fn a_whole_command_line() {
    assert_eq!(
        lex("@$n$*42; a$n$ ^IF^(> $n$ *1;){a\"y\"}{a\"n\"}"),
        vec![
            Token::Command('@'),
            Token::Var("n".to_string()),
            Token::Integer(42),
            Token::Command('a'),
            Token::Var("n".to_string()),
            Token::MultiLengthCommand("IF".to_string()),
            Token::Expr("> $n$ *1;".to_string()),
            Token::Code("a\"y\"".to_string()),
            Token::Code("a\"n\"".to_string()),
        ]
    );
}

#[test]
fn multi_byte_characters_are_commands_and_text() {
    assert_eq!(lex("é"), vec![Token::Command('é')]);
    assert_eq!(lex("\"日本語\""), vec![Token::StringLiteral("日本語".to_string())]);
}

#[test]
fn lexer_input_is_consumed() {
    let mut lexer = Lexer::new("a\"b\"c");
    assert_eq!(lexer.input.len(), 5);
    let _ = lexer.tokenize();
    assert!(lexer.input.is_empty());
}

#[test]
fn extractors() {
    assert_eq!(extract_argument(Token::StringLiteral("x".to_string())), Some("x".to_string()));
    assert_eq!(extract_argument(Token::Var("x".to_string())), None);
    assert_eq!(extract_var(Token::Var("x".to_string())), Some("x".to_string()));
    assert_eq!(extract_var(Token::StringLiteral("x".to_string())), None);
    assert_eq!(extract_integer(Token::Integer(5)), Some(5));
    assert_eq!(extract_integer(Token::Command('5')), None);
}

#[test]
fn token_equality_and_clone() {
    let t = Token::Code("ab".to_string());
    assert_eq!(t.clone(), t);
    assert_ne!(Token::Code("ab".to_string()), Token::Expr("ab".to_string()));
    assert_ne!(Token::Integer(1), Token::Integer(2));
    assert_ne!(Token::Command('a'), Token::Command('b'));
    assert_eq!(Token::Comment("x".to_string()), Token::Comment("x".to_string()));
}
