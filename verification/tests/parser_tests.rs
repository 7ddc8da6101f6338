use moo::Expression;
use moo::Function;
use moo::Moo;
use moo::ParseError;
use moo::Primitive;

#[test]
fn parse_1() {
    let moo = Moo::new(vec![Function::new("relu")]);
    let program = moo.parse("abs(x)").ok().unwrap().unwrap();
    match &program.body {
        Expression::Primitive(Primitive::Function((f, _))) => assert_eq!(f.name, "abs"),
        _ => panic!("expected a call node"),
    }
    let program = moo.parse("relu(x)").ok().unwrap().unwrap();
    match &program.body {
        Expression::Primitive(Primitive::Function((f, _))) => assert_eq!(f.name, "relu"),
        _ => panic!("expected a call node"),
    }
}

#[test]
fn builtins_are_registered() {
    let moo = Moo::new(vec![]);
    assert!(moo.parse("sin(x)").is_ok());
    assert!(moo.parse("cos(x)").is_ok());
    assert!(moo.parse("abs(x)").is_ok());
    assert_eq!(moo.parse("tan(x)").err().unwrap(), ParseError::SemanticError);
}

#[test]
fn parse_addition_shape() {
    let moo = Moo::new(vec![]);
    let program = moo.parse("10 + x").ok().unwrap().unwrap();
    match &program.body {
        Expression::ExpressionOperation((left, op, right)) => {
            assert_eq!(*op, '+');
            match (&**left, &**right) {
                (
                    Expression::Primitive(Primitive::Number(n)),
                    Expression::Primitive(Primitive::Identifier(v)),
                ) => {
                    assert_eq!(n, "10");
                    assert_eq!(v, "x");
                },
                _ => panic!("unexpected operands"),
            }
        },
        _ => panic!("expected an operator node"),
    }
}

#[test]
fn parse_subtraction_groups_to_the_right() {
    let moo = Moo::new(vec![]);
    let program = moo.parse("10 - 5 - 2").ok().unwrap().unwrap();
    match &program.body {
        Expression::ExpressionOperation((_, op, right)) => {
            assert_eq!(*op, '-');
            match &**right {
                Expression::ExpressionOperation((_, inner_op, _)) => assert_eq!(*inner_op, '-'),
                _ => panic!("expected the right operand to be the nested chain"),
            }
        },
        _ => panic!("expected an operator node"),
    }
}

#[test]
fn parse_unknown_function_is_semantic_error() {
    let moo = Moo::new(vec![]);
    assert_eq!(moo.parse("unknown_fn(x)").err().unwrap(), ParseError::SemanticError);
}

#[test]
fn parse_unknown_identifier_is_semantic_error() {
    let moo = Moo::new(vec![]);
    assert_eq!(moo.parse("z").err().unwrap(), ParseError::SemanticError);
    assert_eq!(moo.parse("y").err().unwrap(), ParseError::SemanticError);
}

#[test]
fn parse_unterminated_group_is_syntax_error() {
    let moo = Moo::new(vec![]);
    assert_eq!(moo.parse("(10 / 5").err().unwrap(), ParseError::SyntaxError);
}

#[test]
fn parse_unterminated_call_is_syntax_error() {
    let moo = Moo::new(vec![]);
    assert_eq!(moo.parse("sin(x").err().unwrap(), ParseError::SyntaxError);
    assert_eq!(moo.parse("sin(").err().unwrap(), ParseError::SyntaxError);
    assert_eq!(moo.parse("sin").err().unwrap(), ParseError::SyntaxError);
    assert_eq!(moo.parse("sin 1").err().unwrap(), ParseError::SyntaxError);
}

#[test]
fn parse_missing_argument_is_syntax_error() {
    let moo = Moo::new(vec![]);
    assert_eq!(moo.parse("sin()").err().unwrap(), ParseError::SyntaxError);
    assert_eq!(moo.parse("10 +").err().unwrap(), ParseError::SyntaxError);
    assert_eq!(moo.parse("10 *").err().unwrap(), ParseError::SyntaxError);
    assert_eq!(moo.parse("2 ^").err().unwrap(), ParseError::SyntaxError);
}

#[test]
fn parse_trailing_input_is_syntax_error() {
    let moo = Moo::new(vec![]);
    assert_eq!(moo.parse("1 2").err().unwrap(), ParseError::SyntaxError);
    assert_eq!(moo.parse("1 $").err().unwrap(), ParseError::SyntaxError);
    assert_eq!(moo.parse("+ 1").err().unwrap(), ParseError::SyntaxError);
}

#[test]
fn parse_second_caret_is_rejected() {
    let moo = Moo::new(vec![]);
    assert_eq!(moo.parse("2^3^2").err().unwrap(), ParseError::SyntaxError);
}

#[test]
fn parse_malformed_number_is_lex_error() {
    let moo = Moo::new(vec![]);
    assert_eq!(moo.parse("10.1.1").err().unwrap(), ParseError::LexError);
}

#[test]
fn parse_empty_input_and_empty_group() {
    let moo = Moo::new(vec![]);
    assert!(moo.parse("").ok().unwrap().is_none());
    assert!(moo.parse("   ").ok().unwrap().is_none());
    assert!(moo.parse("()").ok().unwrap().is_none());
}

#[test]
fn parse_caret_binds_tighter_than_product() {
    let moo = Moo::new(vec![]);
    let program = moo.parse("2 * 3 ^ 2").ok().unwrap().unwrap();
    match &program.body {
        Expression::ExpressionOperation((_, op, right)) => {
            assert_eq!(*op, '*');
            match &**right {
                Expression::ExpressionOperation((_, inner_op, _)) => assert_eq!(*inner_op, '^'),
                _ => panic!("expected the power on the right"),
            }
        },
        _ => panic!("expected an operator node"),
    }
}
