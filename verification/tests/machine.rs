use lispy::{
    eval, Continuation, Control, Env, FloatRequest, InterpreterError, Machine, Number, Operation,
    Store, SymbolicExpression,
};

fn whole(value: i128) -> SymbolicExpression {
    SymbolicExpression::Int(value)
}

fn float(value: f64) -> SymbolicExpression {
    SymbolicExpression::Float(value.to_bits())
}

fn call(operation: Operation, arguments: Vec<SymbolicExpression>) -> SymbolicExpression {
    let mut forms = vec![SymbolicExpression::Operation(operation)];
    forms.extend(arguments);
    SymbolicExpression::Expression(forms)
}

fn started(expression: &SymbolicExpression) -> (Store, Machine) {
    let mut store = Store::new();
    let env = Env::new(&mut store);
    let machine = eval(&mut store, &env, expression, u64::MAX);
    (store, machine)
}

#[test]
fn an_evaluation_without_floats_runs_to_its_end() {
    let (_, machine) = started(&call(Operation::Add, vec![whole(1), whole(2)]));
    assert!(machine.is_halted());
    assert_eq!(machine.request(), None);
    assert_eq!(machine.result(), Some(Ok(whole(3))));
}

#[test]
fn a_failed_evaluation_has_its_error() {
    let (_, machine) = started(&call(Operation::Car, vec![whole(1)]));
    assert!(machine.is_halted());
    assert_eq!(machine.request(), None);
    assert_eq!(machine.control, Control::Failed {
        error: InterpreterError::RuntimeError("car on non cons type".to_string()),
    });
    assert!(machine.stack.is_empty());
    assert_eq!(
        machine.result(),
        Some(Err(InterpreterError::RuntimeError("car on non cons type".to_string())))
    );
}

#[test]
fn floating_point_arithmetic_is_asked_of_the_host() {
    let (mut store, machine) = started(&call(Operation::Add, vec![whole(1), float(2.0)]));
    assert!(machine.is_halted());
    assert_eq!(
        machine.request(),
        Some(FloatRequest::Arithmetic {
            operation: Operation::Add,
            left: Number::Int(1),
            right: Number::Float(2.0f64.to_bits()),
        })
    );
    let machine = machine.resume(3.0f64.to_bits());
    assert!(!machine.is_halted());
    assert_eq!(machine.control, Control::Return { value: float(3.0) });
    let machine = machine.run(&mut store, u64::MAX);
    assert!(machine.is_halted());
    assert_eq!(machine.result(), Some(Ok(float(3.0))));
}

#[test]
fn the_answer_is_what_the_host_says() {
    let (mut store, machine) =
        started(&call(Operation::Multiply, vec![float(2.0), float(3.0), whole(5)]));
    assert_eq!(
        machine.request(),
        Some(FloatRequest::Arithmetic {
            operation: Operation::Multiply,
            left: Number::Float(2.0f64.to_bits()),
            right: Number::Float(3.0f64.to_bits()),
        })
    );
    // The fold goes on with whatever the host answers.
    let machine = machine.resume(100.0f64.to_bits()).run(&mut store, u64::MAX);
    assert_eq!(
        machine.request(),
        Some(FloatRequest::Arithmetic {
            operation: Operation::Multiply,
            left: Number::Float(100.0f64.to_bits()),
            right: Number::Int(5),
        })
    );
    let machine = machine.resume(7.0f64.to_bits()).run(&mut store, u64::MAX);
    assert_eq!(machine.result(), Some(Ok(float(7.0))));
}

#[test]
fn each_floating_point_operation_has_its_request() {
    let (_, machine) = started(&call(Operation::Divide, vec![whole(4), whole(2)]));
    assert_eq!(
        machine.request(),
        Some(FloatRequest::Arithmetic {
            operation: Operation::Divide,
            left: Number::Int(4),
            right: Number::Int(2),
        })
    );
    let (_, machine) = started(&call(Operation::Substract, vec![float(4.0), whole(2)]));
    assert_eq!(
        machine.request(),
        Some(FloatRequest::Arithmetic {
            operation: Operation::Substract,
            left: Number::Float(4.0f64.to_bits()),
            right: Number::Int(2),
        })
    );
    let (_, machine) = started(&call(Operation::Exp, vec![whole(2)]));
    assert_eq!(machine.request(), Some(FloatRequest::Exp { value: Number::Int(2) }));
    let (_, machine) = started(&call(Operation::Exp, vec![float(2.0)]));
    assert_eq!(
        machine.request(),
        Some(FloatRequest::Exp { value: Number::Float(2.0f64.to_bits()) })
    );
    let (_, machine) = started(&call(Operation::Pow, vec![whole(2), whole(-1)]));
    assert_eq!(
        machine.request(),
        Some(FloatRequest::Pow { base: Number::Int(2), exponent: Number::Int(-1) })
    );
    let (_, machine) = started(&call(Operation::Pow, vec![float(2.0), whole(3)]));
    assert_eq!(
        machine.request(),
        Some(FloatRequest::Pow {
            base: Number::Float(2.0f64.to_bits()),
            exponent: Number::Int(3),
        })
    );
    let (_, machine) = started(&call(Operation::Pow, vec![whole(2), float(0.5)]));
    assert_eq!(
        machine.request(),
        Some(FloatRequest::Pow {
            base: Number::Int(2),
            exponent: Number::Float(0.5f64.to_bits()),
        })
    );
}

#[test]
fn a_comparison_asks_for_the_integer_as_a_float() {
    let (mut store, machine) = started(&call(Operation::Smaller, vec![whole(1), float(2.5)]));
    assert_eq!(machine.request(), Some(FloatRequest::Widen { integer: 1 }));
    let machine = machine.resume(1.0f64.to_bits()).run(&mut store, u64::MAX);
    assert_eq!(machine.result(), Some(Ok(SymbolicExpression::Bool(true))));

    let (mut store, machine) = started(&call(Operation::Smaller, vec![float(2.5), whole(3)]));
    assert_eq!(machine.request(), Some(FloatRequest::Widen { integer: 3 }));
    // The comparison is made with what the host answers.
    let machine = machine.resume(1.0f64.to_bits()).run(&mut store, u64::MAX);
    assert_eq!(machine.result(), Some(Ok(SymbolicExpression::Bool(false))));

    let (mut store, machine) =
        started(&call(Operation::Smaller, vec![whole(1), float(2.5), whole(3), whole(4)]));
    assert_eq!(machine.request(), Some(FloatRequest::Widen { integer: 1 }));
    let machine = machine.resume(1.0f64.to_bits()).run(&mut store, u64::MAX);
    assert_eq!(machine.request(), Some(FloatRequest::Widen { integer: 3 }));
    let machine = machine.resume(3.0f64.to_bits()).run(&mut store, u64::MAX);
    assert_eq!(machine.request(), None);
    assert_eq!(machine.result(), Some(Ok(SymbolicExpression::Bool(true))));
}

#[test]
fn a_budget_bounds_the_transitions() {
    let mut store = Store::new();
    let env = Env::new(&mut store);
    let expression = call(Operation::Add, vec![whole(1), whole(2)]);
    let machine = eval(&mut store, &env, &expression, 0);
    assert!(!machine.is_halted());
    assert_eq!(machine.control, Control::Eval { expression: expression.clone(), env });
    assert!(machine.stack.is_empty());
    assert_eq!(machine.result(), None);

    let mut machine = eval(&mut store, &env, &expression, 1);
    assert!(!machine.is_halted());
    assert_eq!(
        machine.control,
        Control::Eval { expression: SymbolicExpression::Operation(Operation::Add), env }
    );
    assert_eq!(
        machine.stack,
        vec![Continuation::Head {
            forms: vec![SymbolicExpression::Operation(Operation::Add), whole(1), whole(2)],
            env,
        }]
    );
    let mut transitions = 1;
    while !machine.is_halted() {
        machine = machine.step(&mut store);
        transitions += 1;
    }
    assert_eq!(transitions, 7);
    assert_eq!(machine.result(), Some(Ok(whole(3))));

    for budget in 0..7 {
        assert!(!eval(&mut store, &env, &expression, budget).is_halted(), "{}", budget);
    }
    for budget in 7..10 {
        assert_eq!(
            eval(&mut store, &env, &expression, budget).result(),
            Some(Ok(whole(3))),
            "{}",
            budget
        );
    }
}

#[test]
fn a_halted_machine_stays_as_it_is() {
    let (mut store, machine) = started(&whole(1));
    assert_eq!(machine.control, Control::Return { value: whole(1) });
    let machine = machine.step(&mut store).run(&mut store, 10).resume(5);
    assert_eq!(machine.control, Control::Return { value: whole(1) });
    assert!(machine.stack.is_empty());

    let (mut store, machine) = started(&call(Operation::Exp, vec![whole(1)]));
    let request = machine.request();
    assert!(request.is_some());
    let machine = machine.step(&mut store).run(&mut store, 10);
    assert_eq!(machine.request(), request);
    assert_eq!(machine.result(), None);

    let (mut store, machine) = started(&SymbolicExpression::Symbol("nowhere".to_string()));
    let machine = machine.step(&mut store).run(&mut store, 10).resume(5);
    assert_eq!(
        machine.result(),
        Some(Err(InterpreterError::VariableNotFound("nowhere".to_string())))
    );
}

#[test]
fn a_new_machine_is_about_to_evaluate() {
    let mut store = Store::new();
    let env = Env::new(&mut store);
    let machine = Machine::new(whole(1), env);
    assert_eq!(machine.control, Control::Eval { expression: whole(1), env });
    assert!(machine.stack.is_empty());
    assert!(!machine.is_halted());
    assert_eq!(machine.request(), None);
}

#[test]
fn a_handle_from_nowhere_sees_nothing() {
    let mut other = Store::new();
    let mut far = Env::new(&mut other);
    far.add_frame(&mut other);
    far.add_frame(&mut other);
    let mut store = Store::new();
    let env = Env::new(&mut store);
    env.find_symbol(&store, "a").unwrap_err();
    assert!(!store.contains(far));
    assert!(store.contains(env));
    let machine = eval(&mut store, &far, &SymbolicExpression::Symbol("a".to_string()), u64::MAX);
    assert_eq!(
        machine.result(),
        Some(Err(InterpreterError::VariableNotFound("a".to_string())))
    );
    let define = call(
        Operation::Define,
        vec![SymbolicExpression::Symbol("a".to_string()), whole(1)],
    );
    let machine = eval(&mut store, &far, &define, u64::MAX);
    assert_eq!(machine.result(), Some(Ok(SymbolicExpression::Nil)));
    assert!(env.find_symbol(&store, "a").is_err());
}
