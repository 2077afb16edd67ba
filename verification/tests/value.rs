use glass::arithmetic::{NumOp, Task};
use glass::error::GlassError;
use glass::number;
use glass::value::{same_value, Dict, Value};

fn num(task: Task) -> u64 {
    match task {
        Task::Decimal(text) => text.parse::<f64>().unwrap().to_bits(),
        Task::Binary(op, a, b) => {
            let a = f64::from_bits(a);
            let b = f64::from_bits(b);
            let r = match op {
                NumOp::Add => a + b,
                NumOp::Sub => a - b,
                NumOp::Mul => a * b,
                NumOp::Div => a / b,
                NumOp::Rem => a % b,
                NumOp::Pow => a.powf(b),
            };
            r.to_bits()
        }
    }
}

fn show(bits: u64) -> String {
    f64::from_bits(bits).to_string()
}

fn n(x: f64) -> Value {
    Value::Num(x.to_bits())
}

fn s(text: &str) -> Value {
    Value::Str(text.to_string())
}

fn number_of(result: Result<Value, GlassError>) -> f64 {
    match result {
        Ok(Value::Num(bits)) => f64::from_bits(bits),
        other => panic!("not a number: {:?}", other),
    }
}

fn text_of(result: Result<Value, GlassError>) -> String {
    match result {
        Ok(Value::Str(text)) => text,
        other => panic!("not a text: {:?}", other),
    }
}

fn truth_of(result: Result<Value, GlassError>) -> bool {
    match result {
        Ok(Value::Bool(b)) => b,
        other => panic!("not a boolean: {:?}", other),
    }
}

fn invalid(operation: &str, left: &str, right: &str) -> GlassError {
    GlassError::InvalidOperation {
        operation: operation.to_string(),
        left: left.to_string(),
        right: right.to_string(),
    }
}

fn error_of(result: Result<Value, GlassError>) -> GlassError {
    match result {
        Err(error) => error,
        Ok(value) => panic!("not an error: {:?}", value),
    }
}

fn dict(entries: Vec<(&str, Value)>) -> Dict {
    let mut d = Dict::new();
    for (key, value) in entries {
        d.insert(key.to_string(), value);
    }
    d
}

#[test]
fn arithmetic_on_numbers() {
    assert_eq!(number_of(n(2.0).add(n(3.5), &num, &show)), 5.5);
    assert_eq!(number_of(n(2.0).sub(n(3.5), &num)), -1.5);
    assert_eq!(number_of(n(2.0).mul(n(3.5), &num)), 7.0);
    assert_eq!(number_of(n(7.0).div(n(2.0), &num)), 3.5);
    assert_eq!(number_of(n(7.5).rem(n(2.0), &num)), 1.5);
    assert_eq!(number_of(n(2.0).pow(n(10.0), &num)), 1024.0);
    assert_eq!(number_of(n(1.0).div(n(0.0), &num)), f64::INFINITY);
    assert!(number_of(n(0.0).div(n(0.0), &num)).is_nan());
}

#[test]
fn addition_joins_texts() {
    assert_eq!(text_of(s("foo").add(s("bar"), &num, &show)), "foobar");
    assert_eq!(text_of(s("").add(s(""), &num, &show)), "");
}

#[test]
fn addition_writes_numbers_out_beside_texts() {
    assert_eq!(text_of(s("x = ").add(n(1.5), &num, &show)), "x = 1.5");
    assert_eq!(text_of(n(3.0).add(s(" apples"), &num, &show)), "3 apples");
    assert_eq!(text_of(s("").add(n(-0.25), &num, &show)), "-0.25");
}

#[test]
fn addition_concatenates_lists_in_order() {
    let left = Value::List(vec![n(1.0), n(2.0)]);
    let right = Value::List(vec![n(2.0), n(3.0)]);
    match left.add(right, &num, &show) {
        Ok(Value::List(items)) => {
            let got: Vec<f64> = items
                .iter()
                .map(|item| match item {
                    Value::Num(bits) => f64::from_bits(*bits),
                    _ => panic!("not a number"),
                })
                .collect();
            assert_eq!(got, vec![1.0, 2.0, 2.0, 3.0]);
        }
        other => panic!("not a list: {:?}", other),
    }
}

#[test]
fn addition_merges_dictionaries_and_the_right_one_wins() {
    let left = Value::Dict(dict(vec![("a", n(1.0))]));
    let right = Value::Dict(dict(vec![("a", n(2.0)), ("b", n(3.0))]));
    match left.add(right, &num, &show) {
        Ok(Value::Dict(merged)) => {
            assert!(same_value(merged.get("a").unwrap(), &n(2.0)));
            assert!(same_value(merged.get("b").unwrap(), &n(3.0)));
            assert!(merged.get("c").is_none());
            assert!(same_value(
                &Value::Dict(merged),
                &Value::Dict(dict(vec![("b", n(3.0)), ("a", n(2.0))]))
            ));
        }
        other => panic!("not a dictionary: {:?}", other),
    }
}

#[test]
fn addition_rejects_other_pairs() {
    assert_eq!(error_of(n(1.0).add(Value::Bool(true), &num, &show)), invalid("+", "number", "boolean"));
    assert_eq!(error_of(Value::Bool(true).add(n(1.0), &num, &show)), invalid("+", "boolean", "number"));
    assert_eq!(error_of(s("a").add(Value::Void, &num, &show)), invalid("+", "string", "void"));
    assert_eq!(
        error_of(Value::List(vec![]).add(Value::Dict(Dict::new()), &num, &show)),
        invalid("+", "list", "dictionary")
    );
    assert_eq!(error_of(Value::List(vec![]).add(s("a"), &num, &show)), invalid("+", "list", "string"));
}

#[test]
fn numeric_operators_reject_other_pairs() {
    assert_eq!(error_of(s("a").sub(n(1.0), &num)), invalid("-", "string", "number"));
    assert_eq!(error_of(n(1.0).div(s("a"), &num)), invalid("/", "number", "string"));
    assert_eq!(error_of(Value::Void.rem(Value::Void, &num)), invalid("%", "void", "void"));
    assert_eq!(error_of(Value::Bool(true).pow(n(2.0), &num)), invalid("**", "boolean", "number"));
    assert_eq!(error_of(Value::Bool(true).mul(n(2.0), &num)), invalid("*", "boolean", "number"));
    assert_eq!(error_of(s("a").mul(s("b"), &num)), invalid("*", "string", "string"));
}

#[test]
fn multiplication_repeats_texts() {
    assert_eq!(text_of(s("ab").mul(n(3.0), &num)), "ababab");
    assert_eq!(text_of(n(2.0).mul(s("xy"), &num)), "xyxy");
    assert_eq!(text_of(s("ab").mul(n(0.0), &num)), "");
    assert_eq!(text_of(s("é").mul(n(2.0), &num)), "éé");
}

#[test]
fn repetition_count_is_rounded_toward_zero() {
    assert_eq!(text_of(s("ab").mul(n(2.9), &num)), "abab");
    assert_eq!(text_of(s("ab").mul(n(0.99), &num)), "");
    assert_eq!(text_of(s("ab").mul(n(-3.0), &num)), "");
    assert_eq!(text_of(s("ab").mul(n(f64::NAN), &num)), "");
    assert_eq!(text_of(s("ab").mul(n(f64::NEG_INFINITY), &num)), "");
}

#[test]
fn repetition_of_nothing_is_nothing_however_often() {
    assert_eq!(text_of(s("").mul(n(f64::INFINITY), &num)), "");
    assert_eq!(text_of(s("").mul(n(1e300), &num)), "");
}

#[test]
fn repetition_beyond_what_a_text_can_hold_is_an_error() {
    assert_eq!(
        error_of(s("ab").mul(n(f64::INFINITY), &num)),
        GlassError::UnknownError { error_message: "capacity overflow".to_string() }
    );
    assert_eq!(
        error_of(n(1e300).mul(s("ab"), &num)),
        GlassError::UnknownError { error_message: "capacity overflow".to_string() }
    );
}

#[test]
fn comparisons_on_numbers() {
    assert!(truth_of(n(1.0).lt(n(2.0))));
    assert!(!truth_of(n(2.0).lt(n(2.0))));
    assert!(truth_of(n(2.0).le(n(2.0))));
    assert!(!truth_of(n(3.0).le(n(2.0))));
    assert!(truth_of(n(3.0).gt(n(2.0))));
    assert!(!truth_of(n(2.0).gt(n(2.0))));
    assert!(truth_of(n(2.0).ge(n(2.0))));
    assert!(!truth_of(n(1.0).ge(n(2.0))));
    assert!(truth_of(n(-2.0).lt(n(-1.0))));
    assert!(truth_of(n(-1.0).lt(n(1.0))));
}

#[test]
fn comparisons_with_nan_are_false() {
    assert!(!truth_of(n(f64::NAN).lt(n(1.0))));
    assert!(!truth_of(n(f64::NAN).le(n(f64::NAN))));
    assert!(!truth_of(n(1.0).gt(n(f64::NAN))));
    assert!(!truth_of(n(f64::NAN).ge(n(f64::NAN))));
}

#[test]
fn comparisons_reject_other_pairs() {
    assert_eq!(error_of(s("a").lt(s("b"))), invalid("<", "string", "string"));
    assert_eq!(error_of(n(1.0).le(Value::Bool(true))), invalid("<=", "number", "boolean"));
    assert_eq!(error_of(Value::Void.gt(n(1.0))), invalid(">", "void", "number"));
    assert_eq!(error_of(Value::List(vec![]).ge(Value::List(vec![]))), invalid(">=", "list", "list"));
}

#[test]
fn logic_on_booleans() {
    assert!(truth_of(Value::Bool(true).and(Value::Bool(true))));
    assert!(!truth_of(Value::Bool(true).and(Value::Bool(false))));
    assert!(truth_of(Value::Bool(false).or(Value::Bool(true))));
    assert!(!truth_of(Value::Bool(false).or(Value::Bool(false))));
    assert_eq!(error_of(n(1.0).and(Value::Bool(true))), invalid("and", "number", "boolean"));
    assert_eq!(error_of(Value::Bool(true).or(s("x"))), invalid("or", "boolean", "string"));
}

#[test]
fn unary_operators() {
    assert!(!truth_of(Value::Bool(true).not()));
    assert!(truth_of(Value::Bool(false).not()));
    assert_eq!(number_of(n(2.5).neg()), -2.5);
    assert_eq!(number_of(n(-2.5).neg()), 2.5);
    assert!(number_of(n(0.0).neg()).is_sign_negative());
    assert_eq!(
        error_of(n(1.0).not()),
        GlassError::InvalidUnaryOperation { operation: "not".to_string(), operand: "number".to_string() }
    );
    assert_eq!(
        error_of(s("x").neg()),
        GlassError::InvalidUnaryOperation { operation: "-".to_string(), operand: "string".to_string() }
    );
    assert_eq!(
        error_of(Value::Dict(Dict::new()).neg()),
        GlassError::InvalidUnaryOperation {
            operation: "-".to_string(),
            operand: "dictionary".to_string()
        }
    );
}

#[test]
fn equality_is_structural() {
    assert!(truth_of(n(1.0).eq(n(1.0))));
    assert!(!truth_of(n(1.0).eq(n(2.0))));
    assert!(truth_of(s("a").eq(s("a"))));
    assert!(!truth_of(s("a").eq(s("b"))));
    assert!(truth_of(Value::Bool(true).eq(Value::Bool(true))));
    assert!(truth_of(Value::Void.eq(Value::Void)));
    assert!(truth_of(Value::List(vec![n(1.0), s("a")]).eq(Value::List(vec![n(1.0), s("a")]))));
    assert!(!truth_of(Value::List(vec![n(1.0), s("a")]).eq(Value::List(vec![s("a"), n(1.0)]))));
    assert!(!truth_of(Value::List(vec![n(1.0)]).eq(Value::List(vec![n(1.0), n(1.0)]))));
    assert!(truth_of(n(1.0).ne(n(2.0))));
    assert!(!truth_of(s("a").ne(s("a"))));
}

#[test]
fn values_of_different_types_are_unequal() {
    assert!(!truth_of(n(1.0).eq(s("1"))));
    assert!(!truth_of(n(1.0).eq(Value::Bool(true))));
    assert!(!truth_of(Value::Void.eq(Value::Bool(false))));
    assert!(!truth_of(Value::List(vec![]).eq(Value::Dict(Dict::new()))));
    assert!(truth_of(n(0.0).ne(Value::Void)));
}

#[test]
fn number_equality_follows_ieee() {
    assert!(truth_of(n(0.0).eq(n(-0.0))));
    assert!(!truth_of(n(f64::NAN).eq(n(f64::NAN))));
    assert!(truth_of(n(f64::NAN).ne(n(f64::NAN))));
    assert!(!truth_of(Value::List(vec![n(f64::NAN)]).eq(Value::List(vec![n(f64::NAN)]))));
}

#[test]
fn dictionaries_are_equal_key_by_key() {
    let a = dict(vec![("x", n(1.0)), ("y", s("two"))]);
    let b = dict(vec![("y", s("two")), ("x", n(1.0))]);
    assert!(same_value(&Value::Dict(a), &Value::Dict(b)));
    let a = dict(vec![("x", n(1.0))]);
    let b = dict(vec![("x", n(1.0)), ("y", n(2.0))]);
    assert!(!same_value(&Value::Dict(a), &Value::Dict(b)));
    let a = dict(vec![("x", n(1.0)), ("y", n(2.0))]);
    let b = dict(vec![("x", n(1.0))]);
    assert!(!same_value(&Value::Dict(a), &Value::Dict(b)));
    let a = dict(vec![("x", n(1.0))]);
    let b = dict(vec![("x", n(2.0))]);
    assert!(!same_value(&Value::Dict(a), &Value::Dict(b)));
    let a = dict(vec![("x", n(1.0))]);
    let b = dict(vec![("z", n(1.0))]);
    assert!(!same_value(&Value::Dict(a), &Value::Dict(b)));
}

#[test]
fn dictionary_keeps_one_value_for_each_key() {
    let mut d = Dict::new();
    assert!(d.get("a").is_none());
    d.insert("a".to_string(), n(1.0));
    d.insert("b".to_string(), n(2.0));
    d.insert("a".to_string(), n(3.0));
    assert!(same_value(d.get("a").unwrap(), &n(3.0)));
    assert!(same_value(d.get("b").unwrap(), &n(2.0)));
    assert!(same_value(
        &Value::Dict(d),
        &Value::Dict(dict(vec![("a", n(3.0)), ("b", n(2.0))]))
    ));
}

#[test]
fn dictionary_extend_takes_every_entry_of_the_other() {
    let mut d = dict(vec![("a", n(1.0)), ("b", n(2.0))]);
    d.extend(dict(vec![("b", n(20.0)), ("c", n(30.0)), ("d", n(40.0))]));
    assert!(same_value(d.get("a").unwrap(), &n(1.0)));
    assert!(same_value(d.get("b").unwrap(), &n(20.0)));
    assert!(same_value(d.get("c").unwrap(), &n(30.0)));
    assert!(same_value(d.get("d").unwrap(), &n(40.0)));
    d.extend(Dict::new());
    assert!(same_value(d.get("d").unwrap(), &n(40.0)));
}

#[test]
fn bit_pattern_order_agrees_with_the_numbers() {
    let samples = [
        f64::NEG_INFINITY, -1e300, -2.5, -1.0, -f64::MIN_POSITIVE, -5e-324, -0.0, 0.0, 5e-324,
        f64::MIN_POSITIVE, 0.5, 1.0, 1.5, 2.0, 1e300, f64::MAX, f64::INFINITY, f64::NAN,
    ];
    for a in samples {
        for b in samples {
            assert_eq!(number::less(a.to_bits(), b.to_bits()), a < b, "{} < {}", a, b);
            assert_eq!(number::less_or_equal(a.to_bits(), b.to_bits()), a <= b, "{} <= {}", a, b);
            assert_eq!(number::equal(a.to_bits(), b.to_bits()), a == b, "{} == {}", a, b);
        }
        assert_eq!(number::nan(a.to_bits()), a.is_nan());
        assert_eq!(number::negate(a.to_bits()), (-a).to_bits());
    }
}

#[test]
fn truncate_agrees_with_the_cast() {
    let samples = [
        0.0, -0.0, 0.4, 0.99, 1.0, 1.5, 2.0, 2.999, 3.0, 255.9, 4294967295.0, 4294967296.5,
        9007199254740992.0, 9007199254740993.0, 1e18, 1.8446744073709552e19, 1e19, 1e20, 1e300,
        f64::MAX, f64::INFINITY, f64::NAN, -1.0, -1e300, f64::NEG_INFINITY, 5e-324,
        f64::MIN_POSITIVE,
    ];
    for x in samples {
        assert_eq!(number::truncate(x.to_bits()), x as usize, "{}", x);
    }
    assert_eq!(number::truncate(2.5f64.to_bits()), 2);
    assert_eq!(number::truncate(f64::INFINITY.to_bits()), usize::MAX);
}
