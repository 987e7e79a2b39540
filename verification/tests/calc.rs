use calc_core::error::CalcError;
use calc_core::parser::{Op, Parser};
use calc_core::scanner::{is_numeric, Scanner};
use calc_core::token::{TType, Tok};

fn scan(src: &str) -> Result<Vec<Tok>, CalcError> {
    Scanner::new(src).scan()
}

fn kinds(src: &str) -> Vec<TType> {
    scan(src).unwrap().iter().map(|t| t.typ).collect()
}

fn texts(src: &str) -> Vec<String> {
    scan(src).unwrap().iter().map(|t| t.text.clone()).collect()
}

fn program(src: &str) -> Result<Vec<Op>, CalcError> {
    Parser::new(scan(src)?).parse()
}

fn unexpected(src: &str) -> String {
    match scan(src) {
        Err(CalcError::UnexpectedChar(d)) => d,
        other => panic!("expected an unexpected-character error, got {:?}", other),
    }
}

fn run(ops: &[Op], toks: &[Tok]) -> Result<Option<f64>, CalcError> {
    let mut stack: Vec<f64> = Vec::new();
    for op in ops {
        match *op {
            Op::Push(i) => stack.push(toks[i].text.parse::<f64>().unwrap()),
            Op::Neg | Op::Sqrt | Op::Abs => {
                let r = stack.pop().unwrap();
                stack.push(match *op {
                    Op::Neg => -r,
                    Op::Sqrt => r.sqrt(),
                    _ => r.abs(),
                });
            }
            _ => {
                let r = stack.pop().unwrap();
                let l = stack.pop().unwrap();
                stack.push(match *op {
                    Op::Add => l + r,
                    Op::Sub => l - r,
                    Op::Mul => l * r,
                    Op::Div => {
                        if r == 0.0 {
                            return Err(CalcError::DivByZero);
                        }
                        l / r
                    }
                    Op::Mod => l % r,
                    _ => l.powf(r),
                });
            }
        }
    }
    Ok(stack.pop())
}

fn eval(src: &str) -> Result<f64, CalcError> {
    let toks = scan(src)?;
    let mut parser = Parser::new(toks.clone());
    let parsed = parser.parse();
    let ops = match &parsed {
        Ok(ops) => ops.clone(),
        Err(_) => parser.ops().clone(),
    };
    let top = run(&ops, &toks)?;
    parsed?;
    Ok(top.unwrap())
}

#[test]
fn single_literal_is_its_own_value() {
    assert_eq!(eval("3.25"), Ok(3.25));
    assert_eq!(eval("-7"), Ok(-7.0));
    assert_eq!(eval(".5"), Ok(0.5));
    assert_eq!(eval("5."), Ok(5.0));
    assert_eq!(eval("-0.125"), Ok(-0.125));
    assert_eq!(program("-7"), Ok(vec![Op::Push(0)]));
    assert_eq!(texts("-7"), vec!["-7".to_string()]);
    assert_eq!(kinds("3.25"), vec![TType::NUM]);
}

#[test]
fn symbols_and_words_add() {
    assert_eq!(eval("2+3"), Ok(5.0));
    assert_eq!(eval("2 plus 3"), Ok(5.0));
}

#[test]
fn every_word_scans_as_its_symbol() {
    assert_eq!(kinds("plus"), kinds("+"));
    assert_eq!(kinds("minus"), kinds("-"));
    assert_eq!(kinds("mult"), kinds("*"));
    assert_eq!(kinds("multiply"), kinds("*"));
    assert_eq!(kinds("div"), kinds("/"));
    assert_eq!(kinds("divide"), kinds("/"));
    assert_eq!(kinds("pow"), kinds("^"));
    assert_eq!(kinds("mod"), kinds("%"));
    assert_eq!(kinds("sqrt"), vec![TType::SQRT]);
    assert_eq!(kinds("abs"), vec![TType::ABS]);
    assert_eq!(eval("6 minus 2"), eval("6 - 2"));
    assert_eq!(eval("6 mult 2"), eval("6*2"));
    assert_eq!(eval("6 multiply 2"), Ok(12.0));
    assert_eq!(eval("6 divide 2"), eval("6/2"));
    assert_eq!(eval("6 pow 2"), eval("6^2"));
}

#[test]
fn longest_word_wins() {
    assert_eq!(kinds("multiply"), vec![TType::MUL]);
    assert_eq!(kinds("divide"), vec![TType::DIV]);
    assert_eq!(kinds("multmult"), vec![TType::MUL, TType::MUL]);
    assert_eq!(kinds("2multiply3"), vec![TType::NUM, TType::MUL, TType::NUM]);
}

#[test]
fn division_by_zero() {
    assert_eq!(eval("10/0"), Err(CalcError::DivByZero));
    assert_eq!(eval("10 div 0"), Err(CalcError::DivByZero));
    assert_eq!(eval("10/0.0"), Err(CalcError::DivByZero));
}

#[test]
fn division_by_zero_comes_before_a_later_failure() {
    assert_eq!(eval("(1/0"), Err(CalcError::DivByZero));
    assert_eq!(eval("1/0 + ("), Err(CalcError::DivByZero));
    assert_eq!(program("(1/0"), Err(CalcError::MismatchedParen));
}

#[test]
fn parentheses() {
    assert_eq!(eval("(1+2)*3"), Ok(9.0));
    assert_eq!(eval("(1+2*3"), Err(CalcError::MismatchedParen));
    assert_eq!(
        program("(1+2)*3"),
        Ok(vec![Op::Push(1), Op::Push(3), Op::Add, Op::Push(6), Op::Mul])
    );
}

#[test]
fn empty_source() {
    assert_eq!(eval(""), Err(CalcError::EmptyExpr));
    assert_eq!(eval("  \t\r\n"), Err(CalcError::EmptyExpr));
    assert_eq!(Parser::new(Vec::new()).parse(), Err(CalcError::EmptyExpr));
}

#[test]
fn power_folds_from_the_left() {
    assert_eq!(eval("2^3^2"), Ok(64.0));
    assert_eq!(
        program("2^3^2"),
        Ok(vec![Op::Push(0), Op::Push(2), Op::Pow, Op::Push(4), Op::Pow])
    );
}

#[test]
fn subtraction_and_division_fold_from_the_left() {
    assert_eq!(eval("10 - 4 - 3"), Ok(3.0));
    assert_eq!(eval("16 / 4 / 2"), Ok(2.0));
    assert_eq!(eval("2 + 3 * 4"), Ok(14.0));
    assert_eq!(eval("2 * 3 ^ 2"), Ok(18.0));
}

#[test]
fn square_root_of_a_negative_is_nan() {
    assert!(eval("sqrt-4").unwrap().is_nan());
    assert!(eval("sqrt(-4)").unwrap().is_nan());
    assert_eq!(kinds("sqrt-4"), vec![TType::SQRT, TType::NUM]);
}

#[test]
fn negation_composes_with_sqrt() {
    assert_eq!(eval("-sqrt 4"), Ok(-2.0));
    assert_eq!(program("-sqrt 4"), Ok(vec![Op::Push(2), Op::Sqrt, Op::Neg]));
    assert_eq!(eval("abs(0 - 3)"), Ok(3.0));
    assert_eq!(eval("-(2+3)"), Ok(-5.0));
}

#[test]
fn remainder() {
    assert_eq!(eval("7 mod 2"), Ok(1.0));
    assert_eq!(eval("7%2"), Ok(1.0));
    assert!(eval("7%0").unwrap().is_nan());
}

#[test]
fn minus_before_a_digit_starts_a_literal() {
    assert_eq!(kinds("2-3"), vec![TType::NUM, TType::NUM]);
    assert_eq!(texts("2-3"), vec!["2".to_string(), "-3".to_string()]);
    assert_eq!(kinds("2 - 3"), vec![TType::NUM, TType::SUB, TType::NUM]);
    assert_eq!(kinds("-(1)"), vec![TType::SUB, TType::LPAR, TType::NUM, TType::RPAR]);
    assert_eq!(kinds("-"), vec![TType::SUB]);
    assert_eq!(kinds("-.5"), vec![TType::SUB, TType::NUM]);
    assert_eq!(eval("-.5"), Ok(-0.5));
}

#[test]
fn tokens_after_the_expression_are_left_alone() {
    assert_eq!(eval("2-3"), Ok(2.0));
    assert_eq!(eval("1 2"), Ok(1.0));
}

#[test]
fn second_dot_ends_the_literal() {
    assert_eq!(texts("1.2.3"), vec!["1.2".to_string(), ".3".to_string()]);
    assert_eq!(unexpected("1.2."), ".");
    assert_eq!(unexpected("."), ".");
}

#[test]
fn operators_carry_no_text() {
    let toks = scan("( 1 + 2 ) * sqrt 4").unwrap();
    for t in &toks {
        if t.typ != TType::NUM {
            assert_eq!(t.text, "");
        }
    }
    assert_eq!(toks.len(), 8);
}

#[test]
fn word_mismatch_gives_a_preview() {
    assert_eq!(unexpected("pqrstuvw"), "pqrst");
    assert_eq!(unexpected("px"), "px");
    assert_eq!(unexpected("2 + a"), "a");
    assert_eq!(unexpected("mul"), "mul");
    assert_eq!(unexpected("sqr 4"), "sqr 4");
    assert_eq!(unexpected("Plus"), "P");
}

#[test]
fn unknown_character() {
    assert_eq!(unexpected("2 $ 3"), "$");
    assert_eq!(unexpected("éé"), "é");
    assert_eq!(unexpected("x"), "x");
}

#[test]
fn numerals_of_other_scripts_are_refused_as_literals() {
    assert_eq!(unexpected("٣٤+1"), "٣٤");
    assert_eq!(unexpected("1٣"), "1٣");
    assert_eq!(unexpected("-٣"), "-٣");
    assert!(is_numeric('٣'));
    assert!(is_numeric('7'));
    assert!(!is_numeric('é'));
    assert!(!is_numeric('a'));
}

#[test]
fn incomplete_expressions() {
    assert_eq!(eval("2+"), Err(CalcError::InvalidExpr));
    assert_eq!(eval("*"), Err(CalcError::InvalidExpr));
    assert_eq!(eval(")"), Err(CalcError::InvalidExpr));
    assert_eq!(eval("()"), Err(CalcError::InvalidExpr));
    assert_eq!(eval("sqrt"), Err(CalcError::InvalidExpr));
    assert_eq!(eval("(2"), Err(CalcError::MismatchedParen));
}

#[test]
fn parser_takes_tokens_written_by_hand() {
    let toks = vec![
        Tok::new(TType::NUM, "8".to_string()),
        Tok::new(TType::DIV, String::new()),
        Tok::new(TType::NUM, "2".to_string()),
    ];
    let mut p = Parser::new(toks.clone());
    let ops = p.parse().unwrap();
    assert_eq!(ops, vec![Op::Push(0), Op::Push(2), Op::Div]);
    assert_eq!(p.ops(), &ops);
    assert_eq!(run(&ops, &toks), Ok(Some(4.0)));
}

#[test]
fn failed_parse_keeps_what_was_emitted() {
    let mut p = Parser::new(scan("1 + 2 * (").unwrap());
    assert_eq!(p.parse(), Err(CalcError::InvalidExpr));
    assert_eq!(p.ops(), &vec![Op::Push(0), Op::Push(2)]);
}

#[test]
fn scanning_again_returns_the_same_tokens() {
    let mut s = Scanner::new("1 + 2");
    let first = s.scan().unwrap();
    let second = s.scan().unwrap();
    assert_eq!(first.len(), 3);
    assert_eq!(second.len(), 3);
    assert_eq!(second[2].text, "2");
}

#[test]
fn precedence_levels() {
    assert_eq!(TType::ADD.prec(), 1);
    assert_eq!(TType::SUB.prec(), 1);
    assert_eq!(TType::MUL.prec(), 2);
    assert_eq!(TType::DIV.prec(), 2);
    assert_eq!(TType::MOD.prec(), 2);
    assert_eq!(TType::POW.prec(), 3);
    assert_eq!(TType::SQRT.prec(), 4);
    assert_eq!(TType::ABS.prec(), 4);
    assert_eq!(TType::NUM.prec(), 0);
    assert_eq!(TType::LPAR.prec(), 0);
    assert_eq!(TType::RPAR.prec(), 0);
}

#[test]
fn messages() {
    assert_eq!(CalcError::DivByZero.message(), "Division by zero");
    assert_eq!(CalcError::InvalidExpr.message(), "Invalid expression");
    assert_eq!(
        CalcError::UnexpectedChar("pqrst".to_string()).message(),
        "Unexpected character: pqrst"
    );
    assert_eq!(CalcError::MismatchedParen.message(), "Mismatched parentheses");
    assert_eq!(CalcError::EmptyExpr.message(), "Empty expression");
}

#[test]
fn long_sum() {
    let mut src = String::from("1");
    for _ in 0..999 {
        src.push_str(" + 1");
    }
    assert_eq!(eval(&src), Ok(1000.0));
    assert_eq!(program(&src).unwrap().len(), 1999);
}

#[test]
fn nested_groups() {
    let mut src = String::new();
    for _ in 0..200 {
        src.push('(');
    }
    src.push_str("2.5");
    for _ in 0..200 {
        src.push(')');
    }
    assert_eq!(eval(&src), Ok(2.5));
    src.pop();
    assert_eq!(eval(&src), Err(CalcError::MismatchedParen));
}

fn height(ops: &[Op]) -> Option<usize> {
    let mut h: usize = 0;
    for op in ops {
        match op {
            Op::Push(_) => h += 1,
            Op::Neg | Op::Sqrt | Op::Abs => {
                if h < 1 {
                    return None;
                }
            }
            _ => {
                if h < 2 {
                    return None;
                }
                h -= 1;
            }
        }
    }
    Some(h)
}

#[test]
fn programs_never_find_the_stack_short() {
    for src in ["1", "1+2*3", "-(2 ^ 3) mod 5", "abs -3 / sqrt 4", "((1))", "2 - -3"] {
        let toks = scan(src).unwrap();
        let ops = Parser::new(toks.clone()).parse().unwrap();
        assert_eq!(height(&ops), Some(1));
        for op in &ops {
            if let Op::Push(i) = op {
                assert_eq!(toks[*i].typ, TType::NUM);
            }
        }
    }
    for src in ["1 +", "(1 + 2", "2 * (3 + )", "1 / 0 + (", "sqrt", "1 + 2 * ("] {
        let mut p = Parser::new(scan(src).unwrap());
        assert!(p.parse().is_err());
        assert!(height(p.ops()).is_some());
    }
}
