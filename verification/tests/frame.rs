use rever::{EvalError, StackFrame, Value};

fn frame() -> StackFrame {
    StackFrame::new(vec![("a".to_string(), Value::Int(1)), ("b".to_string(), Value::Bool(false))])
}

fn unknown<T: std::fmt::Debug>(r: Result<T, EvalError>) -> String {
    match r {
        Err(EvalError::UnknownIdent(s)) => s,
        other => panic!("expected an unknown name, got {:?}", other),
    }
}

#[test]
fn new_frame_reads_its_arguments() {
    let f = frame();
    assert_eq!(*f.get("a").unwrap(), Value::Int(1));
    assert_eq!(*f.get("b").unwrap(), Value::Bool(false));
    assert_eq!(unknown(f.get("c")), "c");
}

#[test]
fn pop_on_empty_frame() {
    let mut f = frame();
    assert!(f.pop().is_none());
    assert_eq!(*f.get("a").unwrap(), Value::Int(1));
}

#[test]
fn pop_undoes_push() {
    let mut f = frame();
    f.push("x".to_string(), Value::Int(7));
    let (n, v) = f.pop().unwrap();
    assert_eq!(n, "x");
    assert_eq!(v, Value::Int(7));
    assert!(f.pop().is_none());
    assert_eq!(unknown(f.get("x")), "x");
}

#[test]
fn get_after_push() {
    let mut f = frame();
    f.push("x".to_string(), Value::Int(7));
    assert_eq!(*f.get("x").unwrap(), Value::Int(7));
    // a local shadows an argument of the same name
    f.push("a".to_string(), Value::Int(99));
    assert_eq!(*f.get("a").unwrap(), Value::Int(99));
    // and the innermost local shadows older ones
    f.push("x".to_string(), Value::Int(8));
    assert_eq!(*f.get("x").unwrap(), Value::Int(8));
    // other names are unaffected
    assert_eq!(*f.get("b").unwrap(), Value::Bool(false));
}

#[test]
fn remove_undoes_push() {
    let mut f = frame();
    f.push("x".to_string(), Value::Int(1));
    f.push("y".to_string(), Value::Int(2));
    f.push("x".to_string(), Value::Int(3));
    assert_eq!(f.remove("x").unwrap(), Value::Int(3));
    assert_eq!(*f.get("x").unwrap(), Value::Int(1));
    assert_eq!(f.remove("x").unwrap(), Value::Int(1));
    assert_eq!(unknown(f.get("x")), "x");
    // y is still there, and now the only local
    let (n, v) = f.pop().unwrap();
    assert_eq!((n.as_str(), v), ("y", Value::Int(2)));
    assert!(f.pop().is_none());
}

#[test]
fn remove_does_not_touch_arguments() {
    let mut f = frame();
    assert_eq!(unknown(f.remove("a")), "a");
    assert_eq!(*f.get("a").unwrap(), Value::Int(1));
}

#[test]
fn get_after_get_mut_on_local() {
    let mut f = frame();
    f.push("x".to_string(), Value::Int(1));
    f.push("x".to_string(), Value::Int(2));
    *f.get_mut("x").unwrap() = Value::Int(20);
    assert_eq!(*f.get("x").unwrap(), Value::Int(20));
    assert_eq!(f.pop().unwrap().1, Value::Int(20));
    assert_eq!(*f.get("x").unwrap(), Value::Int(1));
}

#[test]
fn get_after_get_mut_on_argument() {
    let mut f = frame();
    *f.get_mut("b").unwrap() = Value::Bool(true);
    assert_eq!(*f.get("b").unwrap(), Value::Bool(true));
    assert_eq!(*f.get("a").unwrap(), Value::Int(1));
    assert_eq!(unknown(f.get_mut("zz")), "zz");
}

#[test]
fn argument_names_stay_distinct() {
    let mut f = frame();
    *f.get_mut("a").unwrap() = Value::Int(5);
    f.args_are_distinct();
    assert_eq!(*f.get("a").unwrap(), Value::Int(5));
    assert_eq!(*f.get("b").unwrap(), Value::Bool(false));
}
