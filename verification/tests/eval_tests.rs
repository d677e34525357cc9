use nixeval::eval::{eval, step, EvalError};
use nixeval::expr::{Cont, Env, Expr, ExprRoot, Heap};

#[test]
fn check_pap_primop() {
    let mut heap = Heap::new();
    // 2 + 1
    // ((+ 2) 1)
    let plus = heap.allocate(Expr::PrimOp {
        name: String::from("+"),
        arity: 2,
    });
    let two = heap.allocate(Expr::Int(2));
    let one = heap.allocate(Expr::Int(1));
    let inner = heap.allocate(Expr::App {
        f: plus,
        arity: 1,
        args: vec![two],
    });
    let outer = heap.allocate(Expr::App {
        f: inner,
        arity: 1,
        args: vec![one],
    });
    let env = heap.allocate_env(Env::new_root());
    let mut root = ExprRoot {
        root: outer,
        env,
        stack: Vec::new(),
    };
    let mut s = (root.root, root.env);
    let mut seen = false;
    for _i in 0..10 {
        s = step(&mut heap, s.0, s.1, &mut root.stack).unwrap();
        match heap.get(s.0) {
            Expr::Int(v) => {
                assert_eq!(*v, 3);
                seen = true;
                break;
            }
            _ => (),
        }
    }
    assert!(seen);
}

#[test]
fn check_app_primop() {
    let mut heap = Heap::new();
    let plus = heap.allocate(Expr::PrimOp {
        name: String::from("+"),
        arity: 2,
    });
    let two = heap.allocate(Expr::Int(2));
    let one = heap.allocate(Expr::Int(1));
    let outer = heap.allocate(Expr::App {
        f: plus,
        arity: 2,
        args: vec![two, one],
    });
    let env = heap.allocate_env(Env::new_root());
    let mut root = ExprRoot {
        root: outer,
        env,
        stack: Vec::new(),
    };
    let mut s = (root.root, root.env);
    let mut seen = false;
    for _i in 0..10 {
        s = step(&mut heap, s.0, s.1, &mut root.stack).unwrap();
        match heap.get(s.0) {
            Expr::Int(v) => {
                assert_eq!(*v, 3);
                seen = true;
                break;
            }
            _ => (),
        }
    }
    assert!(seen);
}

#[test]
fn check_thunk() {
    let mut heap = Heap::new();
    let inner = heap.allocate(Expr::String("thunk".to_string()));
    let thunk = heap.allocate(Expr::Thunk { t: inner });
    let env = heap.allocate_env(Env::new_root());
    let mut root = ExprRoot {
        root: thunk,
        env,
        stack: Vec::new(),
    };
    let mut s = (root.root, root.env);
    let mut seen = false;
    for _i in 0..10 {
        s = step(&mut heap, s.0, s.1, &mut root.stack).unwrap();
        match heap.get(s.0) {
            Expr::String(st) => {
                assert_eq!(st, "thunk");
                seen = true;
                break;
            }
            _ => (),
        }
    }
    assert!(seen);
}

/// Build the primitive tree for `2 * (3 * 4)`: two nested saturated
/// multiplications.
fn nested_mult_tree(heap: &mut Heap) -> usize {
    let mult_inner = heap.allocate(Expr::PrimOp {
        name: String::from("*"),
        arity: 2,
    });
    let three = heap.allocate(Expr::Int(3));
    let four = heap.allocate(Expr::Int(4));
    let inner = heap.allocate(Expr::App {
        f: mult_inner,
        arity: 2,
        args: vec![three, four],
    });
    let mult_outer = heap.allocate(Expr::PrimOp {
        name: String::from("*"),
        arity: 2,
    });
    let two = heap.allocate(Expr::Int(2));
    heap.allocate(Expr::App {
        f: mult_outer,
        arity: 2,
        args: vec![two, inner],
    })
}

#[test]
fn check_simple_eval() {
    let mut heap = Heap::new();
    // 2 * (3 * 4)
    let root = nested_mult_tree(&mut heap);
    let e = eval(&mut heap, root, 12).unwrap();
    println!("eval: {:?}", heap.get(e));
    match heap.get(e) {
        Expr::Int(v) => assert_eq!(*v, 24),
        other => panic!("expected an integer, got {:?}", other),
    }
}

#[test]
fn scenario_nested_mult_within_budget() {
    let mut heap = Heap::new();
    let root = nested_mult_tree(&mut heap);
    let e = eval(&mut heap, root, 12).expect("2 * (3 * 4) must converge within 12 steps");
    match heap.get(e) {
        Expr::Int(v) => assert_eq!(*v, 24),
        other => panic!("expected an integer, got {:?}", other),
    }
}

#[test]
fn currying_equivalence() {
    // App(App(PrimOp("+", 2), [Int(2)]), [Int(1)])
    let mut heap1 = Heap::new();
    let plus1 = heap1.allocate(Expr::PrimOp {
        name: String::from("+"),
        arity: 2,
    });
    let two1 = heap1.allocate(Expr::Int(2));
    let one1 = heap1.allocate(Expr::Int(1));
    let inner = heap1.allocate(Expr::App {
        f: plus1,
        arity: 1,
        args: vec![two1],
    });
    let curried = heap1.allocate(Expr::App {
        f: inner,
        arity: 1,
        args: vec![one1],
    });
    let r1 = eval(&mut heap1, curried, 20).unwrap();

    // App(PrimOp("+", 2), [Int(2), Int(1)])
    let mut heap2 = Heap::new();
    let plus2 = heap2.allocate(Expr::PrimOp {
        name: String::from("+"),
        arity: 2,
    });
    let two2 = heap2.allocate(Expr::Int(2));
    let one2 = heap2.allocate(Expr::Int(1));
    let saturated = heap2.allocate(Expr::App {
        f: plus2,
        arity: 2,
        args: vec![two2, one2],
    });
    let r2 = eval(&mut heap2, saturated, 20).unwrap();

    match (heap1.get(r1), heap2.get(r2)) {
        (Expr::Int(a), Expr::Int(b)) => {
            assert_eq!(*a, 3);
            assert_eq!(*b, 3);
        }
        other => panic!("expected integers, got {:?}", other),
    }
}

#[test]
fn thunk_transparency_one_step() {
    let mut heap = Heap::new();
    let inner = heap.allocate(Expr::String("thunk".to_string()));
    let thunk = heap.allocate(Expr::Thunk { t: inner });
    // one step suffices ...
    let r = eval(&mut heap, thunk, 1).unwrap();
    assert_eq!(r, inner);
    match heap.get(r) {
        Expr::String(s) => assert_eq!(s, "thunk"),
        other => panic!("expected a string, got {:?}", other),
    }
    // ... and zero steps do not
    let mut heap2 = Heap::new();
    let inner2 = heap2.allocate(Expr::String("thunk".to_string()));
    let thunk2 = heap2.allocate(Expr::Thunk { t: inner2 });
    assert_eq!(eval(&mut heap2, thunk2, 0), Err(EvalError::NonConvergence));
}

#[test]
fn idempotence_on_values() {
    let mut heap = Heap::new();
    let five = heap.allocate(Expr::Int(5));
    assert_eq!(eval(&mut heap, five, 1), Ok(five));

    let s = heap.allocate(Expr::String("v".to_string()));
    assert_eq!(eval(&mut heap, s, 1), Ok(s));

    let null = heap.allocate(Expr::Null);
    assert_eq!(eval(&mut heap, null, 0), Ok(null));

    let b = heap.allocate(Expr::Bool(true));
    assert_eq!(eval(&mut heap, b, 1), Ok(b));
}

#[test]
fn non_convergence_detection() {
    let mut heap = Heap::new();
    // a thunk that steps to itself forever
    let own = heap.node_count();
    let cyclic = heap.allocate(Expr::Thunk { t: own });
    assert_eq!(cyclic, own);
    assert_eq!(eval(&mut heap, cyclic, 100), Err(EvalError::NonConvergence));
    assert_eq!(eval(&mut heap, cyclic, 1), Err(EvalError::NonConvergence));
}

#[test]
fn partial_application_saturation() {
    let mut heap = Heap::new();
    // App(PrimOp("*", 2), [Int(3)]) yields Pap with one argument missing
    let mult = heap.allocate(Expr::PrimOp {
        name: String::from("*"),
        arity: 2,
    });
    let three = heap.allocate(Expr::Int(3));
    let under = heap.allocate(Expr::App {
        f: mult,
        arity: 1,
        args: vec![three],
    });
    let pap = eval(&mut heap, under, 10).unwrap();
    match heap.get(pap) {
        Expr::Pap { arity, args, .. } => {
            assert_eq!(*arity, 1);
            assert_eq!(args.len(), 1);
        }
        other => panic!("expected a partial application, got {:?}", other),
    }
    // applying Int(4) to that Pap yields Int(12)
    let four = heap.allocate(Expr::Int(4));
    let apply = heap.allocate(Expr::App {
        f: pap,
        arity: 1,
        args: vec![four],
    });
    let r = eval(&mut heap, apply, 10).unwrap();
    match heap.get(r) {
        Expr::Int(v) => assert_eq!(*v, 12),
        other => panic!("expected an integer, got {:?}", other),
    }
}

#[test]
fn left_to_right_forcing() {
    let mut heap = Heap::new();
    // (1 + 2) + (30 + 40): both arguments need forcing
    let plus = String::from("+");
    let p1 = heap.allocate(Expr::PrimOp {
        name: plus.clone(),
        arity: 2,
    });
    let one = heap.allocate(Expr::Int(1));
    let two = heap.allocate(Expr::Int(2));
    let left = heap.allocate(Expr::App {
        f: p1,
        arity: 2,
        args: vec![one, two],
    });
    let p2 = heap.allocate(Expr::PrimOp {
        name: plus.clone(),
        arity: 2,
    });
    let thirty = heap.allocate(Expr::Int(30));
    let forty = heap.allocate(Expr::Int(40));
    let right = heap.allocate(Expr::App {
        f: p2,
        arity: 2,
        args: vec![thirty, forty],
    });
    let p3 = heap.allocate(Expr::PrimOp {
        name: plus.clone(),
        arity: 2,
    });
    let root = heap.allocate(Expr::App {
        f: p3,
        arity: 2,
        args: vec![left, right],
    });
    let r = eval(&mut heap, root, 30).unwrap();
    match heap.get(r) {
        Expr::Int(v) => assert_eq!(*v, 73),
        other => panic!("expected an integer, got {:?}", other),
    }
    // the application rebuilt from the forced arguments holds them in the
    // original left-to-right order: [3, 70]
    let mut found = false;
    for h in 0..heap.node_count() {
        if let Expr::App { args, .. } = heap.get(h) {
            if args.len() == 2 {
                let lv = match heap.get(args[0]) {
                    Expr::Int(v) => Some(*v),
                    _ => None,
                };
                let rv = match heap.get(args[1]) {
                    Expr::Int(v) => Some(*v),
                    _ => None,
                };
                if lv == Some(3) && rv == Some(70) {
                    found = true;
                }
            }
        }
    }
    assert!(found, "forced arguments were not accumulated in order");
}

#[test]
fn addition_wraps_on_overflow() {
    let mut heap = Heap::new();
    let plus = heap.allocate(Expr::PrimOp {
        name: String::from("+"),
        arity: 2,
    });
    let big = heap.allocate(Expr::Int(i64::MAX));
    let one = heap.allocate(Expr::Int(1));
    let root = heap.allocate(Expr::App {
        f: plus,
        arity: 2,
        args: vec![big, one],
    });
    let r = eval(&mut heap, root, 10).unwrap();
    match heap.get(r) {
        Expr::Int(v) => assert_eq!(*v, i64::MIN),
        other => panic!("expected an integer, got {:?}", other),
    }
}

#[test]
fn type_mismatch_error() {
    let mut heap = Heap::new();
    let plus = heap.allocate(Expr::PrimOp {
        name: String::from("+"),
        arity: 2,
    });
    let t = heap.allocate(Expr::Bool(true));
    let one = heap.allocate(Expr::Int(1));
    let root = heap.allocate(Expr::App {
        f: plus,
        arity: 2,
        args: vec![t, one],
    });
    assert_eq!(eval(&mut heap, root, 10), Err(EvalError::TypeMismatch));
}

#[test]
fn unsupported_primitive_error() {
    let mut heap = Heap::new();
    let minus = heap.allocate(Expr::PrimOp {
        name: String::from("-"),
        arity: 2,
    });
    let a = heap.allocate(Expr::Int(5));
    let b = heap.allocate(Expr::Int(3));
    let root = heap.allocate(Expr::App {
        f: minus,
        arity: 2,
        args: vec![a, b],
    });
    assert_eq!(
        eval(&mut heap, root, 10),
        Err(EvalError::UnsupportedOperation)
    );
}

#[test]
fn stuck_shape_error() {
    let mut heap = Heap::new();
    // a variable reference has no transition rule yet
    let v = heap.allocate(Expr::Var(String::from("x")));
    assert_eq!(eval(&mut heap, v, 10), Err(EvalError::UnsupportedOperation));
}

#[test]
fn arity_mismatch_error() {
    let mut heap = Heap::new();
    // three arguments for a binary primitive
    let plus = heap.allocate(Expr::PrimOp {
        name: String::from("+"),
        arity: 2,
    });
    let a = heap.allocate(Expr::Int(1));
    let b = heap.allocate(Expr::Int(2));
    let c = heap.allocate(Expr::Int(3));
    let root = heap.allocate(Expr::App {
        f: plus,
        arity: 3,
        args: vec![a, b, c],
    });
    assert_eq!(eval(&mut heap, root, 10), Err(EvalError::ArityMismatch));
}

#[test]
fn is_value_predicate() {
    assert!(Expr::Null.is_value());
    assert!(Expr::Int(1).is_value());
    assert!(Expr::Float("1.5".to_string()).is_value());
    assert!(Expr::Bool(false).is_value());
    assert!(Expr::String("s".to_string()).is_value());
    assert!(Expr::Path("./p".to_string()).is_value());
    assert!(Expr::List(vec![]).is_value());
    assert!(Expr::InterpolatedString(vec![]).is_value());
    assert!(Expr::Attrs {
        attrs: vec![],
        recursive: false
    }
    .is_value());
    assert!(Expr::Pap {
        f: 0,
        args: vec![],
        arity: 1
    }
    .is_value());
    assert!(!Expr::Var("x".to_string()).is_value());
    assert!(!Expr::Thunk { t: 0 }.is_value());
    assert!(!Expr::App {
        f: 0,
        args: vec![],
        arity: 0
    }
    .is_value());
    assert!(!Expr::PrimOp {
        name: "+".to_string(),
        arity: 2
    }
    .is_value());
}

#[test]
fn thunk_chain_needs_two_steps() {
    let mut heap = Heap::new();
    let inner = heap.allocate(Expr::Int(7));
    let t1 = heap.allocate(Expr::Thunk { t: inner });
    let t2 = heap.allocate(Expr::Thunk { t: t1 });
    assert_eq!(eval(&mut heap, t2, 1), Err(EvalError::NonConvergence));
    assert_eq!(eval(&mut heap, t2, 2), Ok(inner));
}

#[test]
fn partial_application_operand_is_a_type_error() {
    let mut heap = Heap::new();
    // (+ (* 3) 1): the first operand reduces to a partial application,
    // which no arithmetic rule accepts
    let mult = heap.allocate(Expr::PrimOp {
        name: String::from("*"),
        arity: 2,
    });
    let three = heap.allocate(Expr::Int(3));
    let under = heap.allocate(Expr::App {
        f: mult,
        arity: 1,
        args: vec![three],
    });
    let plus = heap.allocate(Expr::PrimOp {
        name: String::from("+"),
        arity: 2,
    });
    let one = heap.allocate(Expr::Int(1));
    let root = heap.allocate(Expr::App {
        f: plus,
        arity: 2,
        args: vec![under, one],
    });
    assert_eq!(eval(&mut heap, root, 20), Err(EvalError::TypeMismatch));
}
