use numlang::span::Span;
use numlang::typecheck::symtab::{FunctionSig, ScopeEnvironment, Symbol};
use numlang::typecheck::types::Type;

#[test]
fn test_scope_and_shadowing() {
    let mut env = ScopeEnvironment::new();
    let sym1 = Symbol {
        name: "x".to_string(),
        ty: Type::I64,
        is_mutable: false,
        span: Span::new(0, 5),
    };
    assert!(env.define_variable(sym1.clone()).is_ok());

    // Duplicate in same scope rejected
    assert!(env.define_variable(sym1.clone()).is_err());

    // Enter nested scope and shadow x
    env.enter_scope();
    let sym2 = Symbol {
        name: "x".to_string(),
        ty: Type::F64,
        is_mutable: true,
        span: Span::new(10, 15),
    };
    assert!(env.define_variable(sym2).is_ok());
    assert_eq!(env.lookup_variable("x").unwrap().ty, Type::F64);
    assert!(env.lookup_variable("x").unwrap().is_mutable);

    // Exit scope restores outer x
    env.exit_scope();
    assert_eq!(env.lookup_variable("x").unwrap().ty, Type::I64);
    assert!(!env.lookup_variable("x").unwrap().is_mutable);
}

#[test]
fn test_function_registration() {
    let mut env = ScopeEnvironment::new();
    let sig = FunctionSig {
        name: "add".to_string(),
        param_names: vec!["a".to_string(), "b".to_string()],
        param_types: vec![Type::F64, Type::F64],
        return_ty: Type::F64,
        span: Span::new(0, 20),
    };

    assert!(env.define_function(sig.clone()).is_ok());
    assert!(env.define_function(sig).is_err());
    assert_eq!(env.lookup_function("add").unwrap().return_ty, Type::F64);
    assert!(env.lookup_function("unknown").is_none());
}

#[test]
fn test_depth_and_outermost_scope_kept() {
    let mut env = ScopeEnvironment::new();
    assert_eq!(env.depth(), 1);
    env.enter_scope();
    assert_eq!(env.depth(), 2);
    env.exit_scope();
    env.exit_scope();
    assert_eq!(env.depth(), 1);
    assert!(env.functions().is_empty());
}

#[test]
fn closing_a_scope_forgets_all_its_definitions() {
    let mut env = ScopeEnvironment::new();
    let sym = |name: &str, ty: Type| Symbol { name: name.to_string(), ty, is_mutable: false, span: Span::new(0, 1) };
    assert!(env.define_variable(sym("x", Type::I64)).is_ok());
    env.enter_scope();
    assert!(env.define_variable(sym("x", Type::F64)).is_ok());
    assert!(env.define_variable(sym("y", Type::Bool)).is_ok());
    assert!(env.define_variable(sym("y", Type::I32)).is_err());
    assert!(env.define_variable(sym("z", Type::I32)).is_ok());
    env.exit_scope();
    assert_eq!(env.depth(), 1);
    assert_eq!(env.lookup_variable("x").unwrap().ty, Type::I64);
    assert!(env.lookup_variable("y").is_none());
    assert!(env.lookup_variable("z").is_none());
}

#[test]
fn type_names_are_trimmed_of_unicode_white_space() {
    assert_eq!(Type::from_name("  i64\t"), Some(Type::I64));
    assert_eq!(Type::from_name("\u{A0}bool\u{3000}"), Some(Type::Bool));
    assert_eq!(Type::from_name("[\u{2003}f64; 3 ]"), Some(Type::Array(Box::new(Type::F64), 3)));
    assert_eq!(Type::from_name("i6 4"), None);
}
