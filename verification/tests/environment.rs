use lispy::{Env, InterpreterError, Store, SymbolicExpression};

type SE = SymbolicExpression;

#[test]
fn global_frame() -> Result<(), InterpreterError> {
    let mut store = Store::new();
    let mut global_env = Env::new(&mut store);

    let name = "a";

    global_env.define_symbol(&mut store, name, SE::Nil);
    assert_eq!(global_env.find_symbol(&store, name)?, SE::Nil);

    global_env.set_symbol(&mut store, name, SE::Bool(true))?;
    assert_eq!(global_env.find_symbol(&store, name)?, SE::Bool(true));
    Ok(())
}

#[test]
fn multiple_frames() -> Result<(), InterpreterError> {
    let mut store = Store::new();
    let mut env = Env::new(&mut store);
    let a = "a";
    let b = "b";
    let c = "c";

    env.define_symbol(&mut store, a, SE::Nil);
    assert_eq!(env.find_symbol(&store, a)?, SE::Nil);

    env.define_symbol(&mut store, b, SE::Str("b1".to_string()));
    assert_eq!(env.find_symbol(&store, b)?, SE::Str("b1".to_string()));

    env.add_frame(&mut store);

    env.define_symbol(&mut store, a, SE::Int(2));
    assert_eq!(env.find_symbol(&store, a)?, SE::Int(2));

    env.set_symbol(&mut store, b, SE::Str("b2".to_string()))?;
    assert_eq!(env.find_symbol(&store, b)?, SE::Str("b2".to_string()));

    env.define_symbol(&mut store, c, SE::Str("c".to_string()));
    assert_eq!(env.find_symbol(&store, c)?, SE::Str("c".to_string()));

    env.pop_frame(&store);

    assert_eq!(env.find_symbol(&store, a)?, SE::Nil);
    assert_eq!(env.find_symbol(&store, b)?, SE::Str("b2".to_string()));
    assert!(env.find_symbol(&store, c).is_err());
    Ok(())
}

#[test]
fn lambda_env() -> Result<(), InterpreterError> {
    let mut store = Store::new();
    let mut env = Env::new(&mut store);
    let a = "a";

    env.add_frame(&mut store);
    env.define_symbol(&mut store, a, SE::Int(1));

    let mut lambda_env = env.get_lambda_env(&mut store);
    assert_eq!(lambda_env.find_symbol(&store, a)?, SE::Int(1));

    lambda_env.set_symbol(&mut store, a, SE::Int(2))?;
    assert_eq!(lambda_env.find_symbol(&store, a)?, SE::Int(2));
    assert_eq!(env.find_symbol(&store, a)?, SE::Int(2));

    env.pop_frame(&store);
    assert_eq!(lambda_env.find_symbol(&store, a)?, SE::Int(2));
    assert!(env.find_symbol(&store, a).is_err());
    Ok(())
}

#[test]
fn an_inner_binding_shadows_the_outer_one() {
    let mut store = Store::new();
    let mut env = Env::new(&mut store);
    let outer = env;
    env.define_symbol(&mut store, "a", SE::Int(1));
    env.add_frame(&mut store);
    assert_eq!(env.find_symbol(&store, "a"), Ok(SE::Int(1)));
    env.define_symbol(&mut store, "a", SE::Int(2));
    assert_eq!(env.find_symbol(&store, "a"), Ok(SE::Int(2)));
    assert_eq!(outer.find_symbol(&store, "a"), Ok(SE::Int(1)));
    env.pop_frame(&store);
    assert_eq!(env, outer);
    assert_eq!(env.find_symbol(&store, "a"), Ok(SE::Int(1)));
}

#[test]
fn a_name_that_is_bound_nowhere() {
    let mut store = Store::new();
    let mut env = Env::new(&mut store);
    assert_eq!(
        env.find_symbol(&store, "a"),
        Err(InterpreterError::VariableNotFound("a".to_string()))
    );
    assert_eq!(
        env.set_symbol(&mut store, "a", SE::Int(1)),
        Err(InterpreterError::VariableNotFound("a".to_string()))
    );
    assert_eq!(
        env.find_symbol(&store, "a"),
        Err(InterpreterError::VariableNotFound("a".to_string()))
    );
    env.add_frame(&mut store);
    env.define_symbol(&mut store, "a", SE::Int(1));
    env.pop_frame(&store);
    assert_eq!(
        env.find_symbol(&store, "a"),
        Err(InterpreterError::VariableNotFound("a".to_string()))
    );
}

#[test]
fn define_overwrites_in_the_current_frame_only() {
    let mut store = Store::new();
    let mut env = Env::new(&mut store);
    env.define_symbol(&mut store, "a", SE::Int(1));
    env.define_symbol(&mut store, "b", SE::Int(10));
    env.define_symbol(&mut store, "a", SE::Int(2));
    assert_eq!(env.find_symbol(&store, "a"), Ok(SE::Int(2)));
    assert_eq!(env.find_symbol(&store, "b"), Ok(SE::Int(10)));
    env.add_frame(&mut store);
    env.define_symbol(&mut store, "b", SE::Int(20));
    env.set_symbol(&mut store, "b", SE::Int(30)).unwrap();
    env.set_symbol(&mut store, "a", SE::Int(3)).unwrap();
    assert_eq!(env.find_symbol(&store, "b"), Ok(SE::Int(30)));
    env.pop_frame(&store);
    assert_eq!(env.find_symbol(&store, "a"), Ok(SE::Int(3)));
    assert_eq!(env.find_symbol(&store, "b"), Ok(SE::Int(10)));
}

#[test]
fn handles_on_one_frame_see_the_same_bindings() {
    let mut store = Store::new();
    let mut env = Env::new(&mut store);
    env.define_symbol(&mut store, "balance", SE::Int(100));
    let mut first = env.get_lambda_env(&mut store);
    let mut second = env.get_lambda_env(&mut store);
    assert_ne!(first, second);
    first.set_symbol(&mut store, "balance", SE::Int(80)).unwrap();
    assert_eq!(second.find_symbol(&store, "balance"), Ok(SE::Int(80)));
    assert_eq!(env.find_symbol(&store, "balance"), Ok(SE::Int(80)));
    second.define_symbol(&mut store, "balance", SE::Int(5));
    assert_eq!(second.find_symbol(&store, "balance"), Ok(SE::Int(5)));
    assert_eq!(first.find_symbol(&store, "balance"), Ok(SE::Int(80)));
    let copy = first;
    first.add_frame(&mut store);
    first.define_symbol(&mut store, "local", SE::Nil);
    assert!(copy.find_symbol(&store, "local").is_err());
    assert_eq!(first.outer(&store), Some(copy));
    assert_eq!(copy.outer(&store), Some(env));
    assert_eq!(env.outer(&store), None);
}

#[test]
fn a_store_may_hold_several_roots() {
    let mut store = Store::new();
    let mut one = Env::new(&mut store);
    let mut other = Env::new(&mut store);
    assert_ne!(one, other);
    one.define_symbol(&mut store, "a", SE::Int(1));
    assert!(other.find_symbol(&store, "a").is_err());
    other.define_symbol(&mut store, "a", SE::Int(2));
    assert_eq!(one.find_symbol(&store, "a"), Ok(SE::Int(1)));
    assert_eq!(other.find_symbol(&store, "a"), Ok(SE::Int(2)));
    assert_eq!(one.outer(&store), None);
    assert_eq!(other.outer(&store), None);
}
