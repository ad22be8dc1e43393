use letcalc::binding_def::BindingDef;
use letcalc::binding_usage::BindingUsage;
use letcalc::environment::Environment;
use letcalc::expression::Expression;
use letcalc::number::Number;
use letcalc::operations::Operation;
use letcalc::value::Value;

#[test]
fn evaluate_add() {
    assert_eq!(
        Expression::Operation {
            lhs: Number(10),
            rhs: Number(10),
            op: Operation::Add,
        }
        .evaluate(),
        Value::Number(20),
    );
}

#[test]
fn evaluate_sub() {
    assert_eq!(
        Expression::Operation {
            lhs: Number(1),
            rhs: Number(5),
            op: Operation::Sub,
        }
        .evaluate(),
        Value::Number(-4),
    );
}

#[test]
fn evaluate_mul() {
    assert_eq!(
        Expression::Operation {
            lhs: Number(5),
            rhs: Number(6),
            op: Operation::Mul,
        }
        .evaluate(),
        Value::Number(30),
    );
}

#[test]
fn evaluate_div() {
    assert_eq!(
        Expression::Operation {
            lhs: Number(200),
            rhs: Number(20),
            op: Operation::Div,
        }
        .evaluate(),
        Value::Number(10),
    );
}

#[test]
fn eval_existing_binding_usage() {
    let mut env = Environment::default();
    env.store_binding("foo".to_string(), Value::Number(10));

    assert_eq!(
        BindingUsage {
            name: "foo".to_string(),
        }
        .evaluate(&env),
        Ok(Value::Number(10)),
    );
}

#[test]
fn eval_non_existent_binding_usage() {
    let empty_env = Environment::default();

    assert_eq!(
        BindingUsage {
            name: "i_dont_exist".to_string(),
        }
        .evaluate(&empty_env),
        Err("binding with name ‘i_dont_exist’ does not exist".to_string()),
    );
}

#[test]
fn parse_and_evaluate_expressions() {
    let cases = [("1 + 2", 3), ("1-5", -4), ("5*6", 30), ("200/20", 10)];
    for (text, expected) in cases {
        let (rest, e) = Expression::new(text).unwrap();
        assert_eq!(rest, "");
        assert_eq!(e.evaluate(), Value::Number(expected));
    }
}

#[test]
fn division_truncates_toward_zero() {
    let e = Expression::Operation { lhs: Number(7), rhs: Number(-2), op: Operation::Div };
    assert_eq!(e.evaluate(), Value::Number(-3));
    let e = Expression::Operation { lhs: Number(-7), rhs: Number(2), op: Operation::Div };
    assert_eq!(e.evaluate(), Value::Number(-3));
    let e = Expression::Operation { lhs: Number(-7), rhs: Number(-2), op: Operation::Div };
    assert_eq!(e.evaluate(), Value::Number(3));
}

#[test]
fn binding_def_then_lookup() {
    let (rest, def) = BindingDef::new("let a = 10 / 2").unwrap();
    assert_eq!(rest, "");
    assert_eq!(def.name, "a");
    let mut env = Environment::new();
    def.evaluate(&mut env);
    assert_eq!(env.get_binding_value("a"), Ok(Value::Number(5)));
}

#[test]
fn lookup_in_fresh_environment_names_the_binding() {
    let env = Environment::new();
    assert_eq!(
        env.get_binding_value("zz9"),
        Err("binding with name ‘zz9’ does not exist".to_string())
    );
}

#[test]
fn rebinding_overwrites_earlier_value() {
    let mut env = Environment::new();
    env.store_binding("x".to_string(), Value::Number(1));
    env.store_binding("y".to_string(), Value::Number(7));
    env.store_binding("x".to_string(), Value::Number(2));
    assert_eq!(env.get_binding_value("x"), Ok(Value::Number(2)));
    assert_eq!(env.get_binding_value("y"), Ok(Value::Number(7)));
}
