//! End-to-end scenarios: parse with the library, then walk the returned
//! tree numerically, the way an embedding application consumes it.

use std::collections::HashMap;

use moo::Expression;
use moo::Function;
use moo::Moo;
use moo::Primitive;
use moo::Program;

fn registry() -> HashMap<String, fn(f64) -> f64> {
    let mut functions: HashMap<String, fn(f64) -> f64> = HashMap::new();
    functions.insert("sin".to_string(), f64::sin as fn(f64) -> f64);
    functions.insert("cos".to_string(), f64::cos as fn(f64) -> f64);
    functions.insert("abs".to_string(), f64::abs as fn(f64) -> f64);
    functions.insert("relu".to_string(), (|v: f64| if v > 0.0 { v } else { 0.0 }) as fn(f64) -> f64);
    functions
}

fn moo() -> Moo {
    Moo::new(vec![Function::new("relu")])
}

fn eval(e: &Expression, functions: &HashMap<String, fn(f64) -> f64>, x: f64, y: f64) -> f64 {
    match e {
        Expression::Primitive(p) => match p {
            Primitive::Number(text) => text.parse::<f64>().unwrap(),
            Primitive::Identifier(name) => match name.as_str() {
                "x" => x,
                "y" => y,
                _ => 0.0,
            },
            Primitive::Parenthesis(inner) => eval(inner, functions, x, y),
            Primitive::Function((f, arg)) => functions[&f.name](eval(arg, functions, x, y)),
        },
        Expression::ExpressionOperation((l, op, r)) => {
            let a = eval(l, functions, x, y);
            let b = eval(r, functions, x, y);
            match op {
                '+' => a + b,
                '-' => a - b,
                '*' => a * b,
                '/' => a / b,
                '^' => a.powf(b),
                _ => 0.0,
            }
        },
    }
}

fn run(program: &Program, functions: &HashMap<String, fn(f64) -> f64>, x: f64) -> f64 {
    eval(&program.body, functions, x, 0.0)
}

/// One classical fourth-order Runge-Kutta step over `dy/dx = f(x, y)`.
/// Note: `k4` is evaluated at `x0`, not the textbook `x0 + step`.
fn runge_kutta(
    program: &Program,
    functions: &HashMap<String, fn(f64) -> f64>,
    x0: f64,
    y0: f64,
    step: f64,
) -> (f64, f64) {
    let f = |x: f64, y: f64| eval(&program.body, functions, x, y);
    let a1 = step * f(x0, y0);
    let a2 = step * f(x0 + step / 2.0, y0 + a1 / 2.0);
    let a3 = step * f(x0 + step / 2.0, y0 + a2 / 2.0);
    let a4 = step * f(x0, y0 + a3);
    (y0 + (a1 + 2.0 * a2 + 2.0 * a3 + a4) / 6.0, x0 + step)
}

#[test]
fn addition_with_variable() {
    let program = moo().parse("10 + x").ok().unwrap().unwrap();
    assert_eq!(run(&program, &registry(), 5.0), 15.0);
}

#[test]
fn exponentiation() {
    let program = moo().parse("2 ^ 3").ok().unwrap().unwrap();
    assert_eq!(run(&program, &registry(), 0.0), 8.0);
}

#[test]
fn absolute_value_call() {
    let program = moo().parse("abs(x)").ok().unwrap().unwrap();
    assert_eq!(run(&program, &registry(), -4.0), 4.0);
}

#[test]
fn extension_function_call() {
    let program = moo().parse("relu(x)").ok().unwrap().unwrap();
    assert_eq!(run(&program, &registry(), -3.0), 0.0);
    assert_eq!(run(&program, &registry(), 3.0), 3.0);
}

#[test]
fn equal_precedence_chains_group_to_the_right() {
    let program = moo().parse("10 - 5 - 2").ok().unwrap().unwrap();
    assert_eq!(run(&program, &registry(), 0.0), 7.0);
    let program = moo().parse("10 / 5 / 2").ok().unwrap().unwrap();
    assert_eq!(run(&program, &registry(), 0.0), 4.0);
}

#[test]
fn grouping_and_fractions() {
    let program = moo().parse("(10 / 5) * 2.5").ok().unwrap().unwrap();
    assert_eq!(run(&program, &registry(), 0.0), 5.0);
}

#[test]
fn reevaluation_is_order_independent() {
    let functions = registry();
    let program = moo().parse("10 + x").ok().unwrap().unwrap();
    assert_eq!(eval(&program.body, &functions, 5.0, 0.0), 15.0);
    assert_eq!(eval(&program.body, &functions, 7.0, 1.0), 17.0);
    assert_eq!(eval(&program.body, &functions, 0.0, 9.0), 10.0);
    assert_eq!(eval(&program.body, &functions, 5.0, 0.0), 15.0);
}

#[test]
fn runge_kutta_step_approximates_exponential() {
    let program = Program {
        body: Expression::Primitive(Primitive::Identifier("y".to_string())),
    };
    let (y1, x1) = runge_kutta(&program, &registry(), 0.0, 1.0, 0.1);
    assert_eq!(x1, 0.1);
    assert!((y1 - (0.1f64).exp()).abs() < 1e-6);
}
