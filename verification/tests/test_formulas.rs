use pluvia::formulas::{
    compile_formula, resolve_function, tokenize, BinOp, FormulaError, FormulaProgram, MathFn,
    ParseFault, Step, Symbol, Token,
};
use std::collections::HashMap;

fn program(expr: &str) -> FormulaProgram {
    compile_formula(expr).expect("formula should tokenize")
}

fn describe(steps: &[Step]) -> Vec<String> {
    steps
        .iter()
        .map(|s| match s {
            Step::Num(n) => format!("num {}", n),
            Step::Lookup(n) => format!("var {}", n),
            Step::Call(n, k) => format!("call {}/{}", n, k),
            Step::Neg => "neg".to_string(),
            Step::Not => "not".to_string(),
            Step::Apply(o) => format!("{:?}", o),
            Step::Select => "select".to_string(),
        })
        .collect()
}

/// A small stack machine over the compiled steps, used to check that the
/// programs compute what the formulas mean.
fn run(p: &FormulaProgram, vars: &HashMap<String, f64>) -> Result<f64, String> {
    let mut st: Vec<f64> = Vec::new();
    for s in &p.steps {
        match s {
            Step::Num(n) => st.push(n.parse::<f64>().unwrap()),
            Step::Lookup(n) => st.push(*vars.get(&n.to_ascii_lowercase()).ok_or(format!("unknown {}", n))?),
            Step::Call(n, k) => {
                let args: Vec<f64> = st.split_off(st.len() - k);
                let f = resolve_function(n, *k).map_err(|e| format!("{:?}", e))?;
                let v = match f {
                    MathFn::Round => args[0].round(),
                    MathFn::Trunc => args[0].trunc(),
                    MathFn::Abs => args[0].abs(),
                    MathFn::Min => args.iter().copied().fold(f64::INFINITY, f64::min),
                    MathFn::Max => args.iter().copied().fold(f64::NEG_INFINITY, f64::max),
                    MathFn::Clamp => args[0].max(args[1]).min(args[2]),
                    MathFn::Sin => args[0].sin(),
                    MathFn::Cos => args[0].cos(),
                    _ => return Err("not used here".to_string()),
                };
                st.push(v);
            }
            Step::Neg => {
                let a = st.pop().unwrap();
                st.push(-a)
            }
            Step::Not => {
                let a = st.pop().unwrap();
                st.push(if a == 0.0 { 1.0 } else { 0.0 })
            }
            Step::Apply(o) => {
                let b = st.pop().unwrap();
                let a = st.pop().unwrap();
                let t = |c: bool| if c { 1.0 } else { 0.0 };
                st.push(match o {
                    BinOp::Add => a + b,
                    BinOp::Sub => a - b,
                    BinOp::Mul => a * b,
                    BinOp::Div => {
                        if b == 0.0 {
                            return Err("division by zero".to_string());
                        }
                        a / b
                    }
                    BinOp::Mod => a % b,
                    BinOp::Pow => a.powf(b),
                    BinOp::Eq => t((a - b).abs() < 1e-9),
                    BinOp::Ne => t((a - b).abs() >= 1e-9),
                    BinOp::Lt => t(a < b),
                    BinOp::Le => t(a <= b),
                    BinOp::Gt => t(a > b),
                    BinOp::Ge => t(a >= b),
                    BinOp::And => t(a != 0.0 && b != 0.0),
                    BinOp::Or => t(a != 0.0 || b != 0.0),
                });
            }
            Step::Select => {
                let f = st.pop().unwrap();
                let t = st.pop().unwrap();
                let c = st.pop().unwrap();
                st.push(if c != 0.0 { t } else { f });
            }
        }
    }
    if p.fault.is_some() {
        return Err("syntax".to_string());
    }
    assert_eq!(st.len(), 1);
    Ok(st[0])
}

#[test]
fn test_compile_variables_and_precedence() {
    let p = program("(#W# * #Scale#) + 10");
    assert!(p.fault.is_none());
    assert_eq!(describe(&p.steps), vec!["var W", "var Scale", "Mul", "num 10", "Add"]);
    let p = program("1 + 2 * 3");
    assert_eq!(describe(&p.steps), vec!["num 1", "num 2", "num 3", "Mul", "Add"]);
}

#[test]
fn test_power_is_right_associative() {
    let p = program("2 ^ 3 ** 2");
    assert_eq!(describe(&p.steps), vec!["num 2", "num 3", "num 2", "Pow", "Pow"]);
}

#[test]
fn test_ternary_and_calls_compile() {
    let p = program("(10 > 5) ? 100 : 200");
    assert_eq!(describe(&p.steps), vec!["num 10", "num 5", "Gt", "num 100", "num 200", "select"]);
    let p = program("Round(Min(15.6, 20.1))");
    assert_eq!(describe(&p.steps), vec!["num 15.6", "num 20.1", "call Min/2", "call Round/1"]);
    let p = program("-x + !y");
    assert_eq!(describe(&p.steps), vec!["var x", "neg", "var y", "not", "Add"]);
}

#[test]
fn test_compiled_programs_compute_the_formulas() {
    let mut vars = HashMap::new();
    vars.insert("w".to_string(), 100.0);
    vars.insert("scale".to_string(), 1.5);
    assert_eq!(run(&program("(#W# * #Scale#) + 10"), &vars).unwrap(), 160.0);
    assert_eq!(run(&program("Round(14.7)"), &vars).unwrap(), 15.0);
    assert_eq!(run(&program("Min(10, 5, 20)"), &vars).unwrap(), 5.0);
    assert_eq!(run(&program("Clamp(15, 0, 10)"), &vars).unwrap(), 10.0);
    assert_eq!(run(&program("2 ** 3"), &vars).unwrap(), 8.0);
    assert_eq!(run(&program("17 % 5"), &vars).unwrap(), 2.0);
    assert_eq!(run(&program("(2 >= 5) ? 100 : 200"), &vars).unwrap(), 200.0);
    assert_eq!(run(&program("(5 == 5) ? 42 : 0"), &vars).unwrap(), 42.0);
    assert_eq!(run(&program("((10 * 120) - (40 + -10)) / 10"), &vars).unwrap(), 117.0);
    assert!(run(&program("10 / 0"), &vars).is_err());
}

#[test]
fn test_syntax_faults() {
    let p = program("1 +");
    assert_eq!(describe(&p.steps), vec!["num 1"]);
    assert!(matches!(p.fault, Some(ParseFault::Empty)));
    let p = program("1 2");
    assert!(matches!(p.fault, Some(ParseFault::Trailing(Token::Number(ref n))) if n == "2"));
    let p = program("(1");
    assert!(matches!(p.fault, Some(ParseFault::Expected(Symbol::RParen, Token::Sym(Symbol::Eof)))));
    let p = program("1 ? 2 3");
    assert!(matches!(p.fault, Some(ParseFault::Expected(Symbol::Colon, Token::Number(_)))));
    let p = program("#A# + )");
    assert_eq!(describe(&p.steps), vec!["var A"]);
    assert!(matches!(p.fault, Some(ParseFault::Unexpected(Token::Sym(Symbol::RParen)))));
}

#[test]
fn test_lexical_errors_and_empty_formula() {
    assert!(matches!(compile_formula("   "), Err(FormulaError::EmptyExpression)));
    match compile_formula("#Unclosed") {
        Err(FormulaError::SyntaxError(m)) => assert_eq!(m, "Unclosed variable macro '#' in formula"),
        _ => panic!("expected a syntax error"),
    }
    match compile_formula("1 $ 2") {
        Err(FormulaError::SyntaxError(m)) => assert_eq!(m, "Unexpected character: '$'"),
        _ => panic!("expected a syntax error"),
    }
}

#[test]
fn test_tokenize_operators() {
    let t = tokenize("a<>b<=c>=d==e!=f&&g||h").unwrap();
    let syms: Vec<String> = t
        .iter()
        .map(|x| match x {
            Token::Sym(s) => format!("{:?}", s),
            Token::Ident(s) => s.clone(),
            _ => "?".to_string(),
        })
        .collect();
    assert_eq!(
        syms,
        vec!["a", "Ne", "b", "Le", "c", "Ge", "d", "Eq", "e", "Ne", "f", "And", "g", "Or", "h", "Eof"]
    );
    let t = tokenize(".5 1.25.3").unwrap();
    assert!(matches!(&t[0], Token::Number(n) if n == ".5"));
    assert!(matches!(&t[1], Token::Number(n) if n == "1.25"));
    assert!(matches!(&t[2], Token::Number(n) if n == ".3"));
}

#[test]
fn test_resolve_function_arity() {
    assert_eq!(resolve_function("ROUND", 1), Ok(MathFn::Round));
    assert_eq!(resolve_function("log", 1), Ok(MathFn::Ln));
    assert_eq!(resolve_function("Sign", 1), Ok(MathFn::Sgn));
    assert_eq!(
        resolve_function("Round", 3),
        Err(FormulaError::InvalidArguments { func: "Round".to_string(), expected: 1, got: 3 })
    );
    assert_eq!(
        resolve_function("Max", 0),
        Err(FormulaError::InvalidArguments { func: "Max".to_string(), expected: 2, got: 0 })
    );
    assert_eq!(
        resolve_function("Clamp", 2),
        Err(FormulaError::InvalidArguments { func: "Clamp".to_string(), expected: 3, got: 2 })
    );
    assert_eq!(resolve_function("Foo", 1), Err(FormulaError::UnknownFunction("Foo".to_string())));
}
