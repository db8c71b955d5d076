use lispy::number::order_floats;
use lispy::text::order_texts;
use lispy::{Env, InterpreterError, Operation, Order, Store, SymbolicExpression};

fn float_texts(floats: Vec<u64>) -> Vec<(u64, String)> {
    floats
        .into_iter()
        .map(|bits| (bits, format!("{}", f64::from_bits(bits))))
        .collect()
}

fn show(value: &SymbolicExpression) -> String {
    value.render(&float_texts(value.floats_in()))
}

fn show_error(error: &InterpreterError) -> String {
    error.render(&float_texts(error.floats_in()))
}

fn float(value: f64) -> SymbolicExpression {
    SymbolicExpression::Float(value.to_bits())
}

fn pair(head: SymbolicExpression, tail: SymbolicExpression) -> SymbolicExpression {
    SymbolicExpression::Cons { head: Box::new(head), tail: Box::new(tail) }
}

fn expected(order: Option<std::cmp::Ordering>) -> Option<Order> {
    order.map(|order| match order {
        std::cmp::Ordering::Less => Order::Less,
        std::cmp::Ordering::Equal => Order::Equal,
        std::cmp::Ordering::Greater => Order::Greater,
    })
}

#[test]
fn floats_are_ordered_as_numbers() {
    let samples = [
        0.0,
        -0.0,
        1.0,
        -1.0,
        0.5,
        -0.5,
        1.5,
        2.0,
        1e308,
        -1e308,
        5e-324,
        -5e-324,
        f64::MIN_POSITIVE,
        f64::MAX,
        f64::MIN,
        f64::INFINITY,
        f64::NEG_INFINITY,
        f64::NAN,
        -f64::NAN,
        f64::EPSILON,
        28.274333877,
    ];
    for left in samples {
        for right in samples {
            assert_eq!(
                order_floats(left.to_bits(), right.to_bits()),
                expected(left.partial_cmp(&right)),
                "{} and {}",
                left,
                right
            );
        }
    }
    assert_eq!(order_floats(1.0f64.to_bits(), 2.0f64.to_bits()), Some(Order::Less));
    assert_eq!(order_floats((-1.0f64).to_bits(), (-2.0f64).to_bits()), Some(Order::Greater));
    assert_eq!(order_floats(0.0f64.to_bits(), (-0.0f64).to_bits()), Some(Order::Equal));
    assert_eq!(order_floats(f64::NAN.to_bits(), 0.0f64.to_bits()), None);
    // Every bit pattern above infinity is no number.
    assert_eq!(order_floats(0x7ff0_0000_0000_0001, 0), None);
    assert_eq!(order_floats(0xffff_ffff_ffff_ffff, 0), None);
    assert_eq!(order_floats(0x7ff0_0000_0000_0000, 0), Some(Order::Greater));
    assert_eq!(order_floats(0xfff0_0000_0000_0000, 0), Some(Order::Less));
}

#[test]
fn texts_are_ordered_as_strings_are() {
    let samples = [
        "", "a", "b", "ab", "abc", "abd", "B", "Z", "z", "\u{e9}", "e\u{301}", "\u{1f600}",
        "\u{ffff}", "\u{10000}", "zz", "a\u{0}", "10", "9",
    ];
    for left in samples {
        for right in samples {
            assert_eq!(
                Some(order_texts(left, right)),
                expected(Some(left.cmp(right))),
                "{:?} and {:?}",
                left,
                right
            );
        }
    }
    assert_eq!(order_texts("a", "b"), Order::Less);
    assert_eq!(order_texts("b", "a"), Order::Greater);
    assert_eq!(order_texts("a", "ab"), Order::Less);
    assert_eq!(order_texts("ab", "ab"), Order::Equal);
}

#[test]
fn values_as_text() {
    assert_eq!(show(&SymbolicExpression::Int(0)), "0");
    assert_eq!(show(&SymbolicExpression::Int(7)), "7");
    assert_eq!(show(&SymbolicExpression::Int(10)), "10");
    assert_eq!(show(&SymbolicExpression::Int(-42)), "-42");
    assert_eq!(show(&SymbolicExpression::Int(1234567890)), "1234567890");
    assert_eq!(show(&SymbolicExpression::Int(i128::MAX)), i128::MAX.to_string());
    assert_eq!(show(&SymbolicExpression::Int(i128::MIN)), i128::MIN.to_string());
    assert_eq!(show(&float(80.0)), "80");
    assert_eq!(show(&float(0.5)), "0.5");
    assert_eq!(show(&float(-1.25)), "-1.25");
    assert_eq!(show(&SymbolicExpression::Str("text".to_string())), "text");
    assert_eq!(show(&SymbolicExpression::Symbol("name".to_string())), "#name");
    assert_eq!(show(&SymbolicExpression::Bool(true)), "#t");
    assert_eq!(show(&SymbolicExpression::Bool(false)), "#f");
    assert_eq!(show(&SymbolicExpression::Nil), "#nil");
    assert_eq!(
        show(&pair(SymbolicExpression::Int(1), SymbolicExpression::Int(2))),
        "(1 . 2)"
    );
    assert_eq!(
        show(&pair(
            SymbolicExpression::Int(1),
            pair(float(2.5), SymbolicExpression::Nil)
        )),
        "(1 . (2.5 . #nil))"
    );
    assert_eq!(show(&SymbolicExpression::Operation(Operation::Add)), "Add");
    assert_eq!(show(&SymbolicExpression::Operation(Operation::Assign)), "Set");
    assert_eq!(
        show(&SymbolicExpression::Operation(Operation::SmallerOrEqual)),
        "SmallerOrEqual"
    );
    assert_eq!(show(&SymbolicExpression::Expression(vec![])), "()");
    assert_eq!(
        show(&SymbolicExpression::Expression(vec![SymbolicExpression::Int(1)])),
        "(1)"
    );
    assert_eq!(
        show(&SymbolicExpression::Expression(vec![
            SymbolicExpression::Operation(Operation::Add),
            SymbolicExpression::Int(1),
            SymbolicExpression::Expression(vec![
                SymbolicExpression::Operation(Operation::Multiply),
                SymbolicExpression::Symbol("x".to_string()),
                float(1.5),
            ]),
        ])),
        "(Add 1 (Multiply #x 1.5))"
    );
}

#[test]
fn a_closure_shows_its_parameters_and_its_body() {
    let mut store = Store::new();
    let env = Env::new(&mut store);
    let body = SymbolicExpression::Expression(vec![
        SymbolicExpression::Operation(Operation::Add),
        SymbolicExpression::Symbol("a".to_string()),
        float(0.5),
    ]);
    let closure = |parameters: Vec<&str>| SymbolicExpression::Lambda {
        parameters: parameters.into_iter().map(str::to_string).collect(),
        env,
        body: Box::new(body.clone()),
    };
    assert_eq!(show(&closure(vec!["a", "b"])), "(lambda (a b) (Add #a 0.5))");
    assert_eq!(show(&closure(vec!["a"])), "(lambda (a) (Add #a 0.5))");
    assert_eq!(show(&closure(vec![])), "(lambda () (Add #a 0.5))");
}

#[test]
fn floats_show_as_the_host_writes_them() {
    let value = SymbolicExpression::Expression(vec![float(1.5), float(2.5), float(1.5)]);
    assert_eq!(value.floats_in(), vec![1.5f64.to_bits(), 2.5f64.to_bits(), 1.5f64.to_bits()]);
    let texts = vec![
        (1.5f64.to_bits(), "one and a half".to_string()),
        (1.5f64.to_bits(), "never".to_string()),
    ];
    assert_eq!(value.render(&texts), "(one and a half #float one and a half)");
    assert_eq!(float(1.0).render(&vec![]), "#float");
    let nested = pair(
        float(1.0),
        SymbolicExpression::Expression(vec![SymbolicExpression::Int(2), pair(float(3.0), float(4.0))]),
    );
    assert_eq!(
        nested.floats_in(),
        vec![1.0f64.to_bits(), 3.0f64.to_bits(), 4.0f64.to_bits()]
    );
    assert_eq!(SymbolicExpression::Int(1).floats_in(), Vec::<u64>::new());
}

#[test]
fn errors_as_text() {
    assert_eq!(
        show_error(&InterpreterError::VariableNotFound("x".to_string())),
        "RuntimeError: variable x not found"
    );
    assert_eq!(
        show_error(&InterpreterError::SyntaxError(float(1.5))),
        "SyntaxError 1.5"
    );
    assert_eq!(
        show_error(&InterpreterError::SyntaxError(SymbolicExpression::Int(1))),
        "SyntaxError 1"
    );
    assert_eq!(
        show_error(&InterpreterError::RuntimeError("cond all predicate false".to_string())),
        "RuntimeError: cond all predicate false"
    );
    assert_eq!(
        show_error(&InterpreterError::ValueError("wrong type for +".to_string())),
        "ValueError: wrong type for +"
    );
    assert_eq!(
        show_error(&InterpreterError::ArgumentError("missing arguments".to_string())),
        "ArgumentError: missing arguments"
    );
    assert_eq!(
        InterpreterError::SyntaxError(float(1.5)).floats_in(),
        vec![1.5f64.to_bits()]
    );
    assert_eq!(
        InterpreterError::ValueError("1.5".to_string()).floats_in(),
        Vec::<u64>::new()
    );
}

#[test]
fn a_copy_is_equal_and_apart() {
    let value = SymbolicExpression::Expression(vec![
        SymbolicExpression::Symbol("a".to_string()),
        pair(float(1.0), SymbolicExpression::Str("s".to_string())),
    ]);
    let copy = value.clone();
    assert_eq!(copy, value);
    assert_eq!(value.duplicate(), value);
}
