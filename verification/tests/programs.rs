use lispy::{
    eval, parse, split, tokenize, Env, FloatRequest, InterpreterError, Machine, Number, Operation,
    Store, SymbolicExpression,
};

fn float_of(number: Number) -> f64 {
    match number {
        Number::Int(whole) => whole as f64,
        Number::Float(bits) => f64::from_bits(bits),
    }
}

fn answer(request: FloatRequest) -> u64 {
    let result = match request {
        FloatRequest::Arithmetic { operation, left, right } => {
            let (left, right) = (float_of(left), float_of(right));
            match operation {
                Operation::Add => left + right,
                Operation::Substract => left - right,
                Operation::Multiply => left * right,
                _ => left / right,
            }
        }
        FloatRequest::Exp { value } => float_of(value).exp(),
        FloatRequest::Pow { base, exponent } => match exponent {
            Number::Int(whole) => float_of(base).powi(whole as i32),
            Number::Float(bits) => float_of(base).powf(f64::from_bits(bits)),
        },
        FloatRequest::Widen { integer } => integer as f64,
    };
    result.to_bits()
}

fn read(code: &str) -> SymbolicExpression {
    let floats: Vec<Option<u64>> = split(code)
        .iter()
        .map(|piece| piece.parse::<f64>().ok().map(f64::to_bits))
        .collect();
    let mut tokens = tokenize(code, &floats);
    tokens.pop_front();
    parse(&mut tokens)
}

fn finish(store: &mut Store, machine: Machine) -> Result<SymbolicExpression, InterpreterError> {
    let mut machine = machine;
    loop {
        match machine.request() {
            Some(request) => {
                machine = machine.resume(answer(request)).run(store, u64::MAX);
            }
            None => {
                if machine.is_halted() {
                    return machine.result().unwrap();
                }
                machine = machine.run(store, u64::MAX);
            }
        }
    }
}

fn eval_str(
    store: &mut Store,
    env: &Env,
    code: &str,
) -> Result<SymbolicExpression, InterpreterError> {
    let expression = read(code);
    let machine = eval(store, env, &expression, u64::MAX);
    finish(store, machine)
}

fn float(value: f64) -> SymbolicExpression {
    SymbolicExpression::Float(value.to_bits())
}

fn run(code: &str) -> Result<SymbolicExpression, InterpreterError> {
    let mut store = Store::new();
    let env = Env::new(&mut store);
    eval_str(&mut store, &env, code)
}

fn integer(value: i128) -> SymbolicExpression {
    SymbolicExpression::Int(value)
}

fn truth(value: bool) -> SymbolicExpression {
    SymbolicExpression::Bool(value)
}

fn runtime_error(message: &str) -> InterpreterError {
    InterpreterError::RuntimeError(message.to_string())
}

fn value_error(message: &str) -> InterpreterError {
    InterpreterError::ValueError(message.to_string())
}

fn argument_error(message: &str) -> InterpreterError {
    InterpreterError::ArgumentError(message.to_string())
}

fn not_found(name: &str) -> InterpreterError {
    InterpreterError::VariableNotFound(name.to_string())
}

#[test]
fn simple_define_function() {
    let mut store = Store::new();
    let env = Env::new(&mut store);
    eval_str(&mut store, &env, "(define pi 3.141592653)").unwrap();
    eval_str(&mut store, &env, "(define circle-area (lambda (r) (* pi (* r r))))").unwrap();
    assert_eq!(
        eval_str(&mut store, &env, "(circle-area 3)").unwrap(),
        float(28.274333877)
    );
    assert_eq!(
        eval_str(&mut store, &env, "(circle-area 3)").unwrap(),
        float(28.274333877)
    );
}

#[test]
fn account_state() {
    let mut store = Store::new();
    let env = Env::new(&mut store);
    let code = "
        (define make-account
            (lambda (balance)
              (lambda (amt)
                  (begin (set! balance (+ balance amt))
                          balance))))
        ";
    eval_str(&mut store, &env, code).unwrap();
    let code = "(define account (make-account 100.00))";
    eval_str(&mut store, &env, code).unwrap();
    let code = "(account -20.00)";
    assert_eq!(eval_str(&mut store, &env, code).unwrap(), float(80.0));
    assert_eq!(eval_str(&mut store, &env, code).unwrap(), float(60.0));
}

#[test]
fn fib() {
    let code =
        "(define fib (lambda (n) (cond ((< n 2) 1) (#t (+ (fib (- n 1)) (fib (- n 2)))))))";
    let mut store = Store::new();
    let env = Env::new(&mut store);
    eval_str(&mut store, &env, code).unwrap();
    assert_eq!(
        eval_str(&mut store, &env, "(fib 0)").unwrap(),
        SymbolicExpression::Int(1)
    );
    assert_eq!(
        eval_str(&mut store, &env, "(fib 1)").unwrap(),
        SymbolicExpression::Int(1)
    );
    assert_eq!(
        eval_str(&mut store, &env, "(fib 2)").unwrap(),
        SymbolicExpression::Int(2)
    );
    assert_eq!(
        eval_str(&mut store, &env, "(fib 9)").unwrap(),
        SymbolicExpression::Int(55)
    );
}

#[test]
fn test_let() {
    let code = "(let ((a 5) (b (+ 5 a))) (+ a b))";
    let mut store = Store::new();
    let env = Env::new(&mut store);
    assert_eq!(
        eval_str(&mut store, &env, code).unwrap(),
        SymbolicExpression::Int(15)
    );
}

#[test]
fn integers_stay_integers() {
    assert_eq!(run("(+ 1 2)"), Ok(integer(3)));
    assert_eq!(run("(+ 1 2 3 4)"), Ok(integer(10)));
    assert_eq!(run("(- 10 1 2)"), Ok(integer(7)));
    assert_eq!(run("(* 2 3 4)"), Ok(integer(24)));
    assert_eq!(run("(- 5)"), Ok(integer(5)));
    assert_eq!(run("(+ -7 7)"), Ok(integer(0)));
}

#[test]
fn a_float_operand_makes_a_float() {
    assert_eq!(run("(+ 1 2.0)"), Ok(float(3.0)));
    assert_eq!(run("(+ 1.5 2)"), Ok(float(3.5)));
    assert_eq!(run("(- 1.5 0.25)"), Ok(float(1.25)));
    assert_eq!(run("(* 2 0.5 3)"), Ok(float(3.0)));
    assert_eq!(run("(+ 1 2 0.5 4)"), Ok(float(7.5)));
}

#[test]
fn division_is_always_floating_point() {
    assert_eq!(run("(/ 4 2)"), Ok(float(2.0)));
    assert_eq!(run("(/ 1 2)"), Ok(float(0.5)));
    assert_eq!(run("(/ 7 2.0)"), Ok(float(3.5)));
    assert_eq!(run("(/ 1 0)"), Ok(float(f64::INFINITY)));
    assert_eq!(run("(/ 8 2 2)"), Ok(float(2.0)));
}

#[test]
fn powers() {
    assert_eq!(run("(pow 2 10)"), Ok(integer(1024)));
    assert_eq!(run("(pow 2 -1)"), Ok(float(0.5)));
    assert_eq!(run("(pow 2 0)"), Ok(integer(1)));
    assert_eq!(run("(pow 0 0)"), Ok(integer(1)));
    assert_eq!(run("(pow 0 5)"), Ok(integer(0)));
    assert_eq!(run("(pow -2 3)"), Ok(integer(-8)));
    assert_eq!(run("(pow -1 1000000000000000000001)"), Ok(integer(-1)));
    assert_eq!(run("(pow 1 100000000000000000000)"), Ok(integer(1)));
    assert_eq!(run("(pow 2 126)"), Ok(integer(1i128 << 126)));
    assert_eq!(run("(pow -2 127)"), Ok(integer(i128::MIN)));
    assert_eq!(run("(pow 2.0 3)"), Ok(float(8.0)));
    assert_eq!(run("(pow 4 0.5)"), Ok(float(2.0)));
    assert_eq!(run("(pow 2.0 0.5)"), Ok(float(2.0f64.powf(0.5))));
}

#[test]
fn integer_overflow_is_an_error() {
    let overflow = runtime_error("integer overflow");
    assert_eq!(run("(+ 170141183460469231731687303715884105727 1)"), Err(runtime_error("integer overflow")));
    assert_eq!(run("(- -170141183460469231731687303715884105728 1)"), Err(runtime_error("integer overflow")));
    assert_eq!(run("(* 170141183460469231731687303715884105727 2)"), Err(runtime_error("integer overflow")));
    assert_eq!(run("(pow 2 127)"), Err(runtime_error("integer overflow")));
    assert_eq!(run("(pow 10 39)"), Err(overflow));
    assert_eq!(
        run("(+ 170141183460469231731687303715884105726 1)"),
        Ok(integer(i128::MAX))
    );
}

#[test]
fn exponential_function() {
    assert_eq!(run("(exp 0)"), Ok(float(1.0)));
    assert_eq!(run("(exp 1.0)"), Ok(float(1.0f64.exp())));
    assert_eq!(run("(exp 2)"), Ok(float(2.0f64.exp())));
    assert_eq!(
        run("(exp #t)"),
        Err(runtime_error("exp on a value that is no number"))
    );
}

#[test]
fn operands_of_the_wrong_kind() {
    assert_eq!(run("(+ 1 #t)"), Err(value_error("wrong type for +")));
    assert_eq!(run("(- #nil 1)"), Err(value_error("wrong type for -")));
    assert_eq!(run("(* 2 \"a\")"), Err(value_error("wrong type for *")));
    assert_eq!(run("(/ 2 #f)"), Err(value_error("wrong types for /")));
    assert_eq!(run("(pow 2 #f)"), Err(value_error("wrong types for pow")));
    // A single operand is not combined with anything.
    assert_eq!(run("(+ #t)"), Ok(truth(true)));
}

#[test]
fn a_fold_stops_at_the_first_error() {
    let mut store = Store::new();
    let env = Env::new(&mut store);
    eval_str(&mut store, &env, "(define hits 0)").unwrap();
    assert_eq!(
        eval_str(&mut store, &env, "(+ 1 #t (begin (set! hits 1) 2))"),
        Err(value_error("wrong type for +"))
    );
    assert_eq!(eval_str(&mut store, &env, "(+ hits)"), Ok(integer(0)));
    assert_eq!(
        eval_str(&mut store, &env, "(+ 1 nowhere (begin (set! hits 1) 2))"),
        Err(not_found("nowhere"))
    );
    assert_eq!(eval_str(&mut store, &env, "(+ hits)"), Ok(integer(0)));
}

#[test]
fn pairs_and_lists() {
    assert_eq!(run("(car (cons 1 2))"), Ok(integer(1)));
    assert_eq!(run("(cdr (cons 1 2))"), Ok(integer(2)));
    assert_eq!(run("(car (list 1 2 3))"), Ok(integer(1)));
    assert_eq!(
        run("(cons 1 2)"),
        Ok(SymbolicExpression::Cons { head: Box::new(integer(1)), tail: Box::new(integer(2)) })
    );
    assert_eq!(
        run("(list 1 2)"),
        Ok(SymbolicExpression::Cons {
            head: Box::new(integer(1)),
            tail: Box::new(SymbolicExpression::Cons {
                head: Box::new(integer(2)),
                tail: Box::new(SymbolicExpression::Nil),
            }),
        })
    );
    assert_eq!(run("(list)"), Ok(SymbolicExpression::Nil));
    assert_eq!(run("(car (cdr (list 1 2 3)))"), Ok(integer(2)));
    assert_eq!(run("(cdr (cdr (cdr (list 1 2 3))))"), Ok(SymbolicExpression::Nil));
    assert_eq!(run("(car 1)"), Err(runtime_error("car on non cons type")));
    assert_eq!(run("(cdr #nil)"), Err(runtime_error("cdr on non cons type")));
}

#[test]
fn list_arguments_are_evaluated_from_the_left() {
    let mut store = Store::new();
    let env = Env::new(&mut store);
    eval_str(&mut store, &env, "(define n 1)").unwrap();
    assert_eq!(
        eval_str(
            &mut store,
            &env,
            "(car (cdr (list (begin (set! n (* n 2)) n) (begin (set! n (+ n 1)) n))))"
        ),
        Ok(integer(3))
    );
}

#[test]
fn chained_comparison() {
    assert_eq!(run("(< 1 2 3)"), Ok(truth(true)));
    assert_eq!(run("(< 1 3 2)"), Ok(truth(false)));
    assert_eq!(run("(= 1 1.0)"), Ok(truth(true)));
    assert_eq!(run("(< 1 2)"), Ok(truth(true)));
    assert_eq!(run("(< 2 1)"), Ok(truth(false)));
    assert_eq!(run("(< 2 2)"), Ok(truth(false)));
    assert_eq!(run("(<= 2 2 3)"), Ok(truth(true)));
    assert_eq!(run("(> 3 2 1)"), Ok(truth(true)));
    assert_eq!(run("(> 3 1 2)"), Ok(truth(false)));
    assert_eq!(run("(>= 3 3 2)"), Ok(truth(true)));
    assert_eq!(run("(>= 3 4)"), Ok(truth(false)));
    assert_eq!(run("(= 1 1 1)"), Ok(truth(true)));
    assert_eq!(run("(= 1 1 2)"), Ok(truth(false)));
    // The second and third are compared with each other, not with the first.
    assert_eq!(run("(< 5 6 1)"), Ok(truth(false)));
    assert_eq!(run("(< 1 5 3)"), Ok(truth(false)));
    assert_eq!(run("(< 7)"), Ok(truth(true)));
    assert_eq!(run("(<)"), Err(argument_error("missing arguments")));
}

#[test]
fn integers_beside_floats_compare_as_floats() {
    assert_eq!(run("(< 1 2.5)"), Ok(truth(true)));
    assert_eq!(run("(< 2.5 1)"), Ok(truth(false)));
    assert_eq!(run("(<= 1 1.0 2)"), Ok(truth(true)));
    assert_eq!(run("(< 1 1.5 2 2.5 3)"), Ok(truth(true)));
    assert_eq!(run("(< 1 1.5 2 1.75 3)"), Ok(truth(false)));
    assert_eq!(run("(= 2 2.5)"), Ok(truth(false)));
    assert_eq!(run("(> 3.5 3)"), Ok(truth(true)));
    // 2^53 + 1 is not a floating-point number; the nearest one is 2^53.
    assert_eq!(run("(= 9007199254740993 9007199254740992.0)"), Ok(truth(true)));
}

#[test]
fn floats_compare_as_numbers() {
    assert_eq!(run("(< 1.5 2.5)"), Ok(truth(true)));
    assert_eq!(run("(< -1.5 -2.5)"), Ok(truth(false)));
    assert_eq!(run("(> -1.5 -2.5)"), Ok(truth(true)));
    assert_eq!(run("(< -1.0 1.0)"), Ok(truth(true)));
    assert_eq!(run("(= 0.0 -0.0)"), Ok(truth(true)));
    assert_eq!(run("(< -0.0 0.0)"), Ok(truth(false)));
    assert_eq!(run("(<= -0.0 0.0)"), Ok(truth(true)));
    assert_eq!(run("(= (/ 0.0 0.0) (/ 0.0 0.0))"), Ok(truth(false)));
    assert_eq!(run("(< (/ 0.0 0.0) 1.0)"), Ok(truth(false)));
    assert_eq!(run("(>= (/ 0.0 0.0) 1.0)"), Ok(truth(false)));
    assert_eq!(run("(< 1.0 (/ 1.0 0.0))"), Ok(truth(true)));
    assert_eq!(run("(< (/ -1.0 0.0) -1e308)"), Ok(truth(true)));
}

#[test]
fn equality_by_kind() {
    assert_eq!(run("(= \"a\" \"a\")"), Ok(truth(true)));
    assert_eq!(run("(= \"a\" \"b\")"), Ok(truth(false)));
    assert_eq!(run("(= #t #t)"), Ok(truth(true)));
    assert_eq!(run("(= #t #f)"), Ok(truth(false)));
    assert_eq!(run("(= #nil #nil)"), Ok(truth(true)));
    assert_eq!(run("(= #nil #f)"), Ok(truth(false)));
    assert_eq!(run("(= 1 #t)"), Ok(truth(false)));
    assert_eq!(run("(= (cons 1 2) (cons 1 2))"), Ok(truth(true)));
    assert_eq!(run("(= (cons 1 2) (cons 1 3))"), Ok(truth(false)));
    assert_eq!(run("(= (list 1 2 3) (list 1 2 3))"), Ok(truth(true)));
    assert_eq!(run("(= (list 1 2 3) (list 1 2))"), Ok(truth(false)));
    assert_eq!(run("(= (quote (1 a)) (quote (1 a)))"), Ok(truth(true)));
    assert_eq!(run("(= (quote (1 a)) (quote (1 b)))"), Ok(truth(false)));
    assert_eq!(run("(= (quote a) (quote a))"), Ok(truth(true)));
    assert_eq!(run("(= (quote +) (quote +))"), Ok(truth(true)));
    assert_eq!(run("(= (quote +) (quote -))"), Ok(truth(false)));
    // Inside a pair an integer is no floating-point number.
    assert_eq!(run("(= (cons 1 2) (cons 1.0 2))"), Ok(truth(false)));
    assert_eq!(run("(= (cons 1.5 2) (cons 1.5 2))"), Ok(truth(true)));
    // Closures equal nothing, not even themselves.
    assert_eq!(run("(let ((f (lambda (x) x))) (= f f))"), Ok(truth(false)));
}

#[test]
fn what_cannot_be_ordered_is_in_no_order() {
    assert_eq!(run("(< 1 \"a\")"), Ok(truth(false)));
    assert_eq!(run("(> 1 \"a\")"), Ok(truth(false)));
    assert_eq!(run("(<= #t #t)"), Ok(truth(false)));
    assert_eq!(run("(>= #nil #nil)"), Ok(truth(false)));
    assert_eq!(run("(< (cons 1 2) (cons 3 4))"), Ok(truth(false)));
    assert_eq!(run("(< \"a\" \"b\")"), Ok(truth(true)));
    assert_eq!(run("(< \"b\" \"a\")"), Ok(truth(false)));
    assert_eq!(run("(<= \"a\" \"a\")"), Ok(truth(true)));
    assert_eq!(run("(< \"a\" \"ab\")"), Ok(truth(true)));
}

#[test]
fn unbound_symbol() {
    let mut store = Store::new();
    let env = Env::new(&mut store);
    let lone = SymbolicExpression::Symbol("nowhere".to_string());
    let machine = eval(&mut store, &env, &lone, u64::MAX);
    assert_eq!(finish(&mut store, machine), Err(not_found("nowhere")));
    assert_eq!(run("(nowhere)"), Err(not_found("nowhere")));
    assert_eq!(run("(+ 1 nowhere)"), Err(not_found("nowhere")));
}

#[test]
fn values_evaluate_to_themselves() {
    let mut store = Store::new();
    let env = Env::new(&mut store);
    for value in [
        integer(7),
        float(1.5),
        truth(false),
        SymbolicExpression::Nil,
        SymbolicExpression::Str("text".to_string()),
        SymbolicExpression::Operation(Operation::Add),
        SymbolicExpression::Cons { head: Box::new(integer(1)), tail: Box::new(integer(2)) },
    ] {
        let machine = eval(&mut store, &env, &value, u64::MAX);
        assert_eq!(finish(&mut store, machine), Ok(value));
    }
}

#[test]
fn quoting() {
    assert_eq!(
        run("(quote (1 2 3))"),
        Ok(SymbolicExpression::Expression(vec![integer(1), integer(2), integer(3)]))
    );
    assert_eq!(
        run("(quote (+ 1 nowhere))"),
        Ok(SymbolicExpression::Expression(vec![
            SymbolicExpression::Operation(Operation::Add),
            integer(1),
            SymbolicExpression::Symbol("nowhere".to_string()),
        ]))
    );
    assert_eq!(run("(quote x)"), Ok(SymbolicExpression::Symbol("x".to_string())));
    assert_eq!(run("(quote)"), Err(argument_error("missing arguments")));
}

#[test]
fn sequences() {
    assert_eq!(run("(begin)"), Ok(SymbolicExpression::Nil));
    assert_eq!(run("(begin 1 2 3)"), Ok(integer(3)));
    assert_eq!(run("(begin (define a 1) (+ a 1))"), Ok(integer(2)));
    assert_eq!(run("(module 1 2 3)"), Ok(SymbolicExpression::Nil));
    assert_eq!(run("(module)"), Ok(SymbolicExpression::Nil));
    assert_eq!(run("(begin 1 nowhere 3)"), Err(not_found("nowhere")));
    assert_eq!(run("(module 1 nowhere 3)"), Err(not_found("nowhere")));
}

#[test]
fn begin_has_a_frame_of_its_own_and_module_has_none() {
    let mut store = Store::new();
    let env = Env::new(&mut store);
    eval_str(&mut store, &env, "(begin (define inner 1))").unwrap();
    assert_eq!(eval_str(&mut store, &env, "(+ inner)"), Err(not_found("inner")));
    assert_eq!(
        eval_str(&mut store, &env, "(module (define a 1) (define b 2))"),
        Ok(SymbolicExpression::Nil)
    );
    assert_eq!(eval_str(&mut store, &env, "(+ a b)"), Ok(integer(3)));
}

#[test]
fn a_failed_evaluation_leaves_no_frame_behind() {
    let mut store = Store::new();
    let env = Env::new(&mut store);
    eval_str(&mut store, &env, "(define a 1)").unwrap();
    assert!(eval_str(&mut store, &env, "(begin (define a 2) nowhere)").is_err());
    assert!(eval_str(&mut store, &env, "(let ((a 3) (b nowhere)) a)").is_err());
    assert!(eval_str(&mut store, &env, "((lambda (a) nowhere) 4)").is_err());
    assert_eq!(eval_str(&mut store, &env, "(+ a)"), Ok(integer(1)));
    eval_str(&mut store, &env, "(define b 5)").unwrap();
    assert_eq!(env.find_symbol(&store, "b"), Ok(integer(5)));
}

#[test]
fn conditionals() {
    assert_eq!(run("(if #t 1 2)"), Ok(integer(1)));
    assert_eq!(run("(if #f 1 2)"), Ok(integer(2)));
    assert_eq!(run("(if (< 1 2) (+ 1 1) (+ 2 2))"), Ok(integer(2)));
    // The branch that is not chosen is not evaluated.
    assert_eq!(run("(if #t 1 nowhere)"), Ok(integer(1)));
    assert_eq!(run("(if #f nowhere 2)"), Ok(integer(2)));
    assert_eq!(run("(if 1 2 3)"), Err(value_error("predicate must evaluate to boolean")));
    assert_eq!(run("(if #nil 2 3)"), Err(value_error("predicate must evaluate to boolean")));
    assert_eq!(run("(if)"), Err(argument_error("missing arguments")));
    assert_eq!(run("(if #t)"), Err(argument_error("missing arguments")));
    assert_eq!(run("(if #f 1)"), Err(argument_error("missing arguments")));
    assert_eq!(run("(if #t 1)"), Ok(integer(1)));
}

#[test]
fn cond_takes_the_first_true_clause() {
    assert_eq!(run("(cond (#f 1) (#t 2) (#t 3))"), Ok(integer(2)));
    assert_eq!(run("(cond ((< 2 1) 1) ((< 1 2) 2))"), Ok(integer(2)));
    // Clauses behind the first true one are not looked at.
    assert_eq!(run("(cond (#t 1) (nowhere 2))"), Ok(integer(1)));
    assert_eq!(run("(cond (#t 1) 7)"), Ok(integer(1)));
    assert_eq!(run("(cond (#f 1) (#f 2))"), Err(runtime_error("cond all predicate false")));
    assert_eq!(run("(cond)"), Err(runtime_error("cond all predicate false")));
    assert_eq!(run("(cond (1 2))"), Err(value_error("predicate must evaluate to boolean")));
    assert_eq!(run("(cond 7)"), Err(argument_error("invalid argument to cond")));
    assert_eq!(run("(cond ())"), Err(argument_error("invalid argument to cond")));
    assert_eq!(run("(cond (#t))"), Err(argument_error("invalid argument to cond")));
    assert_eq!(run("(cond (nowhere 1))"), Err(not_found("nowhere")));
}

#[test]
fn define_binds_in_the_current_frame() {
    let mut store = Store::new();
    let env = Env::new(&mut store);
    assert_eq!(eval_str(&mut store, &env, "(define a 1)"), Ok(SymbolicExpression::Nil));
    assert_eq!(eval_str(&mut store, &env, "(+ a)"), Ok(integer(1)));
    assert_eq!(eval_str(&mut store, &env, "(define a (+ a 1))"), Ok(SymbolicExpression::Nil));
    assert_eq!(eval_str(&mut store, &env, "(+ a)"), Ok(integer(2)));
    assert_eq!(eval_str(&mut store, &env, "(begin (define a 10) a)"), Ok(integer(10)));
    assert_eq!(eval_str(&mut store, &env, "(+ a)"), Ok(integer(2)));
    assert_eq!(
        eval_str(&mut store, &env, "(define 1 2)"),
        Err(argument_error("first argument to define has to be symbol"))
    );
    assert_eq!(
        eval_str(&mut store, &env, "(define)"),
        Err(argument_error("first argument to define has to be symbol"))
    );
    assert_eq!(
        eval_str(&mut store, &env, "(define b)"),
        Err(argument_error("empty arguments for define"))
    );
    assert_eq!(eval_str(&mut store, &env, "(define c nowhere)"), Err(not_found("nowhere")));
    assert_eq!(eval_str(&mut store, &env, "(+ c)"), Err(not_found("c")));
}

#[test]
fn assignment_changes_the_nearest_binding() {
    let mut store = Store::new();
    let env = Env::new(&mut store);
    eval_str(&mut store, &env, "(define a 1)").unwrap();
    assert_eq!(eval_str(&mut store, &env, "(set! a 2)"), Ok(SymbolicExpression::Nil));
    assert_eq!(eval_str(&mut store, &env, "(+ a)"), Ok(integer(2)));
    assert_eq!(eval_str(&mut store, &env, "(begin (set! a 3) a)"), Ok(integer(3)));
    assert_eq!(eval_str(&mut store, &env, "(+ a)"), Ok(integer(3)));
    assert_eq!(
        eval_str(&mut store, &env, "(begin (define a 10) (set! a 11) a)"),
        Ok(integer(11))
    );
    assert_eq!(eval_str(&mut store, &env, "(+ a)"), Ok(integer(3)));
    assert_eq!(eval_str(&mut store, &env, "(set! nowhere 1)"), Err(not_found("nowhere")));
    assert_eq!(eval_str(&mut store, &env, "(+ nowhere)"), Err(not_found("nowhere")));
    assert_eq!(
        eval_str(&mut store, &env, "(set! 1 2)"),
        Err(argument_error("first argument to set! has to be symbol"))
    );
    assert_eq!(
        eval_str(&mut store, &env, "(set! a)"),
        Err(argument_error("empty arguments for set!"))
    );
}

#[test]
fn closures() {
    assert_eq!(run("((lambda (x) (* x x)) 7)"), Ok(integer(49)));
    assert_eq!(run("((lambda (x y) (- x y)) 7 2)"), Ok(integer(5)));
    assert_eq!(run("((lambda () 3))"), Ok(integer(3)));
    assert_eq!(run("(((lambda (x) (lambda (y) (+ x y))) 1) 2)"), Ok(integer(3)));
    assert_eq!(run("(let ((twice (lambda (f x) (f (f x))))) (twice (lambda (n) (* n 3)) 2))"), Ok(integer(18)));
    assert_eq!(
        run("(lambda 1 2)"),
        Err(argument_error("invalid arg list for lambda"))
    );
    assert_eq!(run("(lambda)"), Err(argument_error("invalid arg list for lambda")));
    assert_eq!(run("(lambda (1) 2)"), Err(argument_error("non symbol arg in lambda")));
    assert_eq!(run("(lambda (x))"), Err(argument_error("missing body for lambda")));
}

#[test]
fn a_lambda_is_a_closure_over_a_fresh_frame() {
    let mut store = Store::new();
    let env = Env::new(&mut store);
    let made = eval_str(&mut store, &env, "(lambda (a b) (+ a b))").unwrap();
    match made {
        SymbolicExpression::Lambda { parameters, env: closed, body } => {
            assert_eq!(parameters, vec!["a".to_string(), "b".to_string()]);
            assert_eq!(
                *body,
                SymbolicExpression::Expression(vec![
                    SymbolicExpression::Operation(Operation::Add),
                    SymbolicExpression::Symbol("a".to_string()),
                    SymbolicExpression::Symbol("b".to_string()),
                ])
            );
            assert_ne!(closed, env);
            assert_eq!(closed.outer(&store), Some(env));
        }
        other => panic!("no closure: {:?}", other),
    }
}

#[test]
fn arguments_and_parameters_pair_up_as_far_as_both_go() {
    assert_eq!(run("((lambda (a b) a) 1)"), Ok(integer(1)));
    assert_eq!(run("((lambda (a b) b) 1)"), Err(not_found("b")));
    assert_eq!(run("((lambda (a) a) 1 2)"), Ok(integer(1)));
    // Every argument is evaluated, also one too many.
    assert_eq!(run("((lambda (a) a) 1 nowhere)"), Err(not_found("nowhere")));
    // A name that occurs twice has the value of its last argument.
    assert_eq!(run("((lambda (a a) a) 1 2)"), Ok(integer(2)));
}

#[test]
fn arguments_are_evaluated_in_the_callers_environment() {
    let mut store = Store::new();
    let env = Env::new(&mut store);
    eval_str(&mut store, &env, "(define x 1)").unwrap();
    eval_str(&mut store, &env, "(define show (lambda (x) x))").unwrap();
    assert_eq!(eval_str(&mut store, &env, "(begin (define x 2) (show x))"), Ok(integer(2)));
    eval_str(&mut store, &env, "(define get (lambda () x))").unwrap();
    // The body sees the frame the closure was made in, not the caller's.
    assert_eq!(eval_str(&mut store, &env, "(begin (define x 2) (get))"), Ok(integer(1)));
}

#[test]
fn calls_do_not_share_their_locals() {
    let mut store = Store::new();
    let env = Env::new(&mut store);
    eval_str(
        &mut store,
        &env,
        "(define count (lambda (n) (if (< n 1) 0 (+ 1 (count (- n 1))))))",
    )
    .unwrap();
    assert_eq!(eval_str(&mut store, &env, "(count 25)"), Ok(integer(25)));
    eval_str(
        &mut store,
        &env,
        "(define make-counter (lambda () (begin (define n 0) (lambda () (begin (set! n (+ n 1)) n)))))",
    )
    .unwrap();
    eval_str(&mut store, &env, "(define first (make-counter))").unwrap();
    eval_str(&mut store, &env, "(define second (make-counter))").unwrap();
    assert_eq!(eval_str(&mut store, &env, "(first)"), Ok(integer(1)));
    assert_eq!(eval_str(&mut store, &env, "(first)"), Ok(integer(2)));
    assert_eq!(eval_str(&mut store, &env, "(second)"), Ok(integer(1)));
    assert_eq!(eval_str(&mut store, &env, "(first)"), Ok(integer(3)));
}

#[test]
fn closures_made_in_one_scope_share_it() {
    let mut store = Store::new();
    let env = Env::new(&mut store);
    eval_str(&mut store, &env, "(define balance 100)").unwrap();
    eval_str(&mut store, &env, "(define pay (lambda (n) (set! balance (- balance n))))").unwrap();
    eval_str(&mut store, &env, "(define look (lambda () balance))").unwrap();
    eval_str(&mut store, &env, "(pay 30)").unwrap();
    assert_eq!(eval_str(&mut store, &env, "(look)"), Ok(integer(70)));
    assert_eq!(eval_str(&mut store, &env, "(+ balance)"), Ok(integer(70)));
}

#[test]
fn let_binds_one_after_the_other() {
    assert_eq!(run("(let ((a 1)) a)"), Ok(integer(1)));
    assert_eq!(run("(let () 7)"), Ok(integer(7)));
    assert_eq!(run("(let ((a 1) (b (+ a 1)) (c (* b 10))) (list a b c))"), run("(list 1 2 20)"));
    assert_eq!(run("(let ((a 1) (a (+ a 1))) a)"), Ok(integer(2)));
    assert_eq!(run("(let ((a b) (b 1)) a)"), Err(not_found("b")));
    assert_eq!(run("(let 1 2)"), Err(argument_error("invalid args for let")));
    assert_eq!(run("(let)"), Err(argument_error("invalid args for let")));
    assert_eq!(run("(let (1) 2)"), Err(argument_error("invalid args for let")));
    assert_eq!(run("(let ((1 2)) 2)"), Err(argument_error("invalid args for let")));
    assert_eq!(run("(let ((a)) 2)"), Err(argument_error("invalid args for let")));
    assert_eq!(run("(let ((a 1)))"), Err(argument_error("missing body for let")));
}

#[test]
fn let_has_a_frame_of_its_own() {
    let mut store = Store::new();
    let env = Env::new(&mut store);
    eval_str(&mut store, &env, "(define a 1)").unwrap();
    assert_eq!(eval_str(&mut store, &env, "(let ((a 2) (q 3)) (+ a q))"), Ok(integer(5)));
    assert_eq!(eval_str(&mut store, &env, "(+ a)"), Ok(integer(1)));
    assert_eq!(eval_str(&mut store, &env, "(+ q)"), Err(not_found("q")));
}

#[test]
fn what_cannot_be_called() {
    assert_eq!(run("(1 2)"), Err(InterpreterError::SyntaxError(integer(1))));
    assert_eq!(run("(#t)"), Err(InterpreterError::SyntaxError(truth(true))));
    assert_eq!(
        run("((cons 1 2) 3)"),
        Err(InterpreterError::SyntaxError(SymbolicExpression::Cons {
            head: Box::new(integer(1)),
            tail: Box::new(integer(2)),
        }))
    );
    assert_eq!(run("()"), Err(argument_error("empty expression")));
    assert_eq!(run(""), Err(argument_error("empty expression")));
}

#[test]
fn missing_arguments() {
    let missing = || Err(argument_error("missing arguments"));
    assert_eq!(run("(+)"), missing());
    assert_eq!(run("(/)"), missing());
    assert_eq!(run("(exp)"), missing());
    assert_eq!(run("(pow 1)"), missing());
    assert_eq!(run("(cons 1)"), missing());
    assert_eq!(run("(car)"), missing());
    assert_eq!(run("(cdr)"), missing());
    assert_eq!(run("(=)"), missing());
}

#[test]
fn arguments_beyond_the_arity_are_not_evaluated() {
    assert_eq!(run("(car (cons 1 2) nowhere)"), Ok(integer(1)));
    assert_eq!(run("(exp 0 nowhere)"), Ok(float(1.0)));
    assert_eq!(run("(pow 2 3 nowhere)"), Ok(integer(8)));
    assert_eq!(run("(car (cons 1 2 nowhere))"), Ok(integer(1)));
}

#[test]
fn the_head_of_a_form_is_evaluated() {
    assert_eq!(run("((if #t + -) 5 3)"), Ok(integer(8)));
    assert_eq!(run("((if #f + -) 5 3)"), Ok(integer(2)));
    assert_eq!(run("(let ((plus +)) (plus 1 2))"), Ok(integer(3)));
}

#[test]
fn deep_recursion() {
    let mut store = Store::new();
    let env = Env::new(&mut store);
    eval_str(
        &mut store,
        &env,
        "(define sum (lambda (n) (if (< n 1) 0 (+ n (sum (- n 1))))))",
    )
    .unwrap();
    assert_eq!(eval_str(&mut store, &env, "(sum 20000)"), Ok(integer(200010000)));
    eval_str(
        &mut store,
        &env,
        "(define fib (lambda (n) (cond ((< n 2) 1) (#t (+ (fib (- n 1)) (fib (- n 2)))))))",
    )
    .unwrap();
    assert_eq!(eval_str(&mut store, &env, "(fib 15)"), Ok(integer(987)));
}
