use pleco::buffer::ViewBuffer;
use pleco::error::ExecError;
use pleco::expr::{apply_operator, evaluate, operand_int, operand_text};
use pleco::number::{int_to_string, parse_int};
use pleco::search::{count_occurrences, find_first, matches_here};
use pleco::store::VariableStore;
use pleco::text::chars_of;
use pleco::token::Token;
use pleco::utf8::utf8_width;

fn chars(s: &str) -> Vec<char> {
    s.chars().collect()
}

fn eval(expr: &str) -> Result<i32, ExecError> {
    evaluate(expr, &VariableStore::new(), &String::new())
}

fn eval_in(expr: &str, text: &str) -> Result<i32, ExecError> {
    evaluate(expr, &VariableStore::new(), &text.to_string())
}

#[test]
fn addition() {
    assert_eq!(eval("+ *2; *3;"), Ok(5));
    assert_eq!(eval("+*2;*3;"), Ok(5));
    assert_eq!(eval("+ *-2; *3;"), Ok(1));
}

#[test]
fn the_other_arithmetic_operators() {
    assert_eq!(eval("- *2; *3;"), Ok(-1));
    assert_eq!(eval("x *4; *-3;"), Ok(-12));
    assert_eq!(eval("/ *7; *2;"), Ok(3));
    assert_eq!(eval("% *7; *2;"), Ok(1));
}

#[test]
fn division_rounds_towards_zero() {
    assert_eq!(eval("/ *-7; *2;"), Ok(-3));
    assert_eq!(eval("/ *7; *-2;"), Ok(-3));
    assert_eq!(eval("/ *-7; *-2;"), Ok(3));
    assert_eq!(eval("/ *0; *5;"), Ok(0));
    assert_eq!(eval("/ *-1; *2;"), Ok(0));
}

#[test]
fn remainder_has_the_sign_of_the_dividend() {
    assert_eq!(eval("% *-7; *2;"), Ok(-1));
    assert_eq!(eval("% *7; *-2;"), Ok(1));
    assert_eq!(eval("% *-7; *-2;"), Ok(-1));
    assert_eq!(eval("% *6; *3;"), Ok(0));
}

#[test]
fn division_agrees_with_the_machine() {
    let values = [i32::MIN, -100, -7, -2, -1, 0, 1, 2, 7, 100, i32::MAX];
    for a in values {
        for b in values {
            if b == 0 || (a == i32::MIN && b == -1) {
                continue;
            }
            assert_eq!(apply_operator(&Token::Command('/'), a, b), Ok(a / b), "{} / {}", a, b);
            assert_eq!(apply_operator(&Token::Command('%'), a, b), Ok(a % b), "{} % {}", a, b);
        }
    }
}

#[test]
fn arithmetic_agrees_with_checked_operations() {
    let values = [i32::MIN, -65536, -3, 0, 5, 46341, i32::MAX];
    for a in values {
        for b in values {
            assert_eq!(
                apply_operator(&Token::Command('+'), a, b),
                a.checked_add(b).ok_or(ExecError::Overflow)
            );
            assert_eq!(
                apply_operator(&Token::Command('-'), a, b),
                a.checked_sub(b).ok_or(ExecError::Overflow)
            );
            assert_eq!(
                apply_operator(&Token::Command('x'), a, b),
                a.checked_mul(b).ok_or(ExecError::Overflow)
            );
        }
    }
}

#[test]
fn division_by_zero_fails() {
    assert_eq!(eval("/ *1; *0;"), Err(ExecError::DivisionByZero));
    assert_eq!(eval("% *1; *0;"), Err(ExecError::DivisionByZero));
}

#[test]
fn overflow_fails() {
    assert_eq!(eval("+ *2147483647; *1;"), Err(ExecError::Overflow));
    assert_eq!(eval("- *-2147483648; *1;"), Err(ExecError::Overflow));
    assert_eq!(eval("x *65536; *65536;"), Err(ExecError::Overflow));
    assert_eq!(eval("/ *-2147483648; *-1;"), Err(ExecError::Overflow));
    assert_eq!(eval("% *-2147483648; *-1;"), Err(ExecError::Overflow));
    assert_eq!(eval("+ *2147483646; *1;"), Ok(2147483647));
}

#[test]
fn comparisons_give_one_or_zero() {
    assert_eq!(eval("= *2; *2;"), Ok(1));
    assert_eq!(eval("= *2; *3;"), Ok(0));
    assert_eq!(eval("> *3; *2;"), Ok(1));
    assert_eq!(eval("> *2; *2;"), Ok(0));
    assert_eq!(eval("< *2; *3;"), Ok(1));
    assert_eq!(eval("< *3; *3;"), Ok(0));
    assert_eq!(eval("! *2; *3;"), Ok(1));
    assert_eq!(eval("! *2; *2;"), Ok(0));
}

#[test]
fn nested_expressions() {
    assert_eq!(eval("+ (x *2; *3;) (- *10; (/ *8; *2;))"), Ok(12));
    assert_eq!(eval("+ (+ (+ (+ *1; *1;) *1;) *1;) *1;"), Ok(5));
}

#[test]
fn nested_failures_come_out() {
    assert_eq!(eval("+ (/ *1; *0;) *1;"), Err(ExecError::DivisionByZero));
    assert_eq!(eval("+ *1; (? *1; *2;)"), Err(ExecError::UnknownOperation));
    assert_eq!(eval("+ *1; ()"), Err(ExecError::FormulaEval));
    assert_eq!(eval("+ (+ *1;) (/ *1; *0;)"), Err(ExecError::FormulaEval));
}

#[test]
fn expressions_that_lack_something() {
    assert_eq!(eval(""), Err(ExecError::FormulaEval));
    assert_eq!(eval("   "), Err(ExecError::FormulaEval));
    assert_eq!(eval("+"), Err(ExecError::FormulaEval));
    assert_eq!(eval("+ *1;"), Err(ExecError::FormulaEval));
    assert_eq!(eval("^CT^"), Err(ExecError::FormulaEval));
    assert_eq!(eval("#+ *1; *2;#"), Err(ExecError::FormulaEval));
}

#[test]
fn unknown_operators() {
    assert_eq!(eval("? *1; *2;"), Err(ExecError::UnknownOperation));
    assert_eq!(eval("* *1; *2;"), Err(ExecError::FormulaEval));
    assert_eq!(eval("\"+\" *1; *2;"), Err(ExecError::UnknownOperation));
    assert_eq!(eval("^ADD^ *1; *2;"), Err(ExecError::UnknownOperation));
    assert_eq!(eval("*1; *1; *2;"), Err(ExecError::UnknownOperation));
}

#[test]
fn operands_are_checked_before_the_operator() {
    assert_eq!(eval("? \"a\" *2;"), Err(ExecError::TypeMismatch));
    assert_eq!(eval("? *1; $none$"), Err(ExecError::UndefinedVariable));
}

#[test]
fn operands_of_a_wrong_kind() {
    assert_eq!(eval("+ \"1\" *2;"), Err(ExecError::TypeMismatch));
    assert_eq!(eval("+ *1; {2}"), Err(ExecError::TypeMismatch));
    assert_eq!(eval("+ *1; a"), Err(ExecError::TypeMismatch));
}

#[test]
fn variables_in_expressions() {
    let mut vars = VariableStore::new();
    vars.define("n".to_string(), Token::Integer(40));
    vars.define("s".to_string(), Token::StringLiteral("an".to_string()));
    let text = "banana".to_string();
    assert_eq!(evaluate("+ $n$ *2;", &vars, &text), Ok(42));
    assert_eq!(evaluate("x $n$ $n$", &vars, &text), Ok(1600));
    assert_eq!(evaluate("+ $s$ *2;", &vars, &text), Err(ExecError::TypeMismatch));
    assert_eq!(evaluate("+ $none$ *2;", &vars, &text), Err(ExecError::UndefinedVariable));
    assert_eq!(evaluate("^CT^ $s$", &vars, &text), Ok(2));
    assert_eq!(evaluate("^CT^ $n$", &vars, &text), Err(ExecError::TypeMismatch));
    assert_eq!(evaluate("^CT^ $none$", &vars, &text), Err(ExecError::UndefinedVariable));
}

#[test]
fn count_occurrences_in_the_text() {
    assert_eq!(eval_in("^CT^ \"a\"", "banana"), Ok(3));
    assert_eq!(eval_in("^CT^\"a\"", "banana"), Ok(3));
    assert_eq!(eval_in("^CT^ \"an\"", "banana"), Ok(2));
    assert_eq!(eval_in("^CT^ \"ana\"", "banana"), Ok(1));
    assert_eq!(eval_in("^CT^ \"x\"", "banana"), Ok(0));
    assert_eq!(eval_in("^CT^ \"banana!\"", "banana"), Ok(0));
    assert_eq!(eval_in("^CT^ \"a\"", ""), Ok(0));
    assert_eq!(eval_in("^CT^ \"\"", "abc"), Ok(4));
    assert_eq!(eval_in("^CT^ \"\"", ""), Ok(1));
    assert_eq!(eval_in("^CT^ *1;", "banana"), Err(ExecError::TypeMismatch));
}

#[test]
fn count_in_an_arithmetic_expression() {
    assert_eq!(eval_in("+ (^CT^ \"a\") (^CT^ \"n\")", "banana"), Ok(5));
}

#[test]
fn counting_agrees_with_the_standard_library() {
    let texts = ["", "a", "aaaa", "banana", "abababab", "日本語日本語", "aXbXc", "ééé"];
    let patterns = ["", "a", "aa", "ab", "aba", "ana", "日本", "語", "X", "é", "éé", "zzz"];
    for text in texts {
        for pat in patterns {
            let expected = text.matches(pat).count() as i32;
            assert_eq!(
                count_occurrences(&chars(text), &chars(pat)),
                Some(expected),
                "{:?} in {:?}",
                pat,
                text
            );
        }
    }
}

#[test]
fn finding_agrees_with_the_standard_library() {
    let texts = ["", "a", "aaaa", "banana", "abababab", "日本語日本語", "aXbXc", "ééé"];
    let patterns = ["", "a", "aa", "ab", "aba", "ana", "日本", "語", "X", "é", "éé", "zzz"];
    for text in texts {
        for pat in patterns {
            let expected = text.find(pat).map(|byte| text[..byte].chars().count());
            assert_eq!(find_first(&chars(text), &chars(pat)), expected, "{:?} in {:?}", pat, text);
            let mut buf = ViewBuffer::new("f");
            buf.insert_text(text);
            let before = buf.cursor;
            buf.search(pat);
            assert_eq!(buf.cursor, text.find(pat).unwrap_or(before), "{:?} in {:?}", pat, text);
        }
    }
}

#[test]
fn matches_here_checks_one_position() {
    assert!(matches_here(&chars("banana"), &chars("nan"), 2));
    assert!(!matches_here(&chars("banana"), &chars("nan"), 3));
    assert!(!matches_here(&chars("banana"), &chars("na"), 5));
    assert!(matches_here(&chars("banana"), &chars(""), 6));
    assert!(!matches_here(&chars("banana"), &chars(""), 7));
}

#[test]
fn operands() {
    let mut vars = VariableStore::new();
    vars.define("n".to_string(), Token::Integer(4));
    vars.define("s".to_string(), Token::StringLiteral("txt".to_string()));
    let text = String::new();
    assert_eq!(operand_int(&Token::Integer(3), &vars, &text), Ok(3));
    assert_eq!(operand_int(&Token::Var("n".to_string()), &vars, &text), Ok(4));
    assert_eq!(operand_int(&Token::Expr("+ $n$ *1;".to_string()), &vars, &text), Ok(5));
    assert_eq!(
        operand_int(&Token::Code("x".to_string()), &vars, &text),
        Err(ExecError::TypeMismatch)
    );
    assert_eq!(operand_text(&Token::StringLiteral("a".to_string()), &vars), Ok("a".to_string()));
    assert_eq!(operand_text(&Token::Var("s".to_string()), &vars), Ok("txt".to_string()));
    assert_eq!(operand_text(&Token::Var("n".to_string()), &vars), Err(ExecError::TypeMismatch));
    assert_eq!(operand_text(&Token::Integer(1), &vars), Err(ExecError::TypeMismatch));
}

#[test]
fn store_define_and_lookup() {
    let mut vars = VariableStore::new();
    assert_eq!(vars.lookup(&"a".to_string()), None);
    vars.define("a".to_string(), Token::Integer(1));
    vars.define("b".to_string(), Token::StringLiteral("x".to_string()));
    assert_eq!(vars.lookup(&"a".to_string()), Some(&Token::Integer(1)));
    assert_eq!(vars.lookup(&"b".to_string()), Some(&Token::StringLiteral("x".to_string())));
    vars.define("a".to_string(), Token::Code("c".to_string()));
    assert_eq!(vars.lookup(&"a".to_string()), Some(&Token::Code("c".to_string())));
    assert_eq!(vars.lookup(&"b".to_string()), Some(&Token::StringLiteral("x".to_string())));
    assert_eq!(vars.lookup(&"".to_string()), None);
    vars.define("".to_string(), Token::Integer(0));
    assert_eq!(vars.lookup(&"".to_string()), Some(&Token::Integer(0)));
    assert_eq!(vars.lookup(&"A".to_string()), None);
}

#[test]
fn decimal_text_of_integers() {
    for v in [0, 1, -1, 9, 10, 11, 99, 100, 12345, -12345, i32::MAX, i32::MIN, i32::MIN + 1] {
        assert_eq!(int_to_string(v), v.to_string());
    }
}

#[test]
fn parsing_reads_back_what_was_written() {
    for v in [0, 1, -1, 9, 10, 12345, -12345, i32::MAX, i32::MIN] {
        assert_eq!(parse_int(&chars(&int_to_string(v))), Some(v));
    }
}

#[test]
fn parsing_integers() {
    assert_eq!(parse_int(&chars("42")), Some(42));
    assert_eq!(parse_int(&chars("+42")), Some(42));
    assert_eq!(parse_int(&chars("-42")), Some(-42));
    assert_eq!(parse_int(&chars("")), None);
    assert_eq!(parse_int(&chars("-")), None);
    assert_eq!(parse_int(&chars("+")), None);
    assert_eq!(parse_int(&chars("4 2")), None);
    assert_eq!(parse_int(&chars("42a")), None);
    assert_eq!(parse_int(&chars("2147483648")), None);
    assert_eq!(parse_int(&chars("-2147483648")), Some(i32::MIN));
    assert_eq!(parse_int(&chars("4294967296")), None);
    assert_eq!(parse_int(&chars("000000000000000000000000000001")), Some(1));
}

#[test]
fn characters_of_a_string() {
    assert_eq!(chars_of("a日b"), vec!['a', '日', 'b']);
    assert_eq!(chars_of(""), Vec::<char>::new());
}

#[test]
fn encoded_widths() {
    for c in ['\0', 'a', '\u{7f}', '\u{80}', 'é', '\u{7ff}', '\u{800}', '日', '\u{ffff}', '\u{10000}', '😀', '\u{10ffff}'] {
        assert_eq!(utf8_width(c), c.len_utf8());
    }
}
