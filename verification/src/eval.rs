use vstd::prelude::*;

use crate::expr::{is_value_v, Cont, ContV, Env, EnvV, Expr, ExprRoot, ExprV, Heap};

verus! {

/// Structured evaluation failures.  Non-convergence (the step budget ran out)
/// is kept apart from the semantic errors: an unsupported (node shape,
/// stack top) combination, an unregistered primitive, a type error, and the
/// failures of rules the machine anticipates (unbound variables, assertions,
/// cycles).
#[derive(Debug, Clone, Copy, PartialEq, Eq, Structural)]
pub enum EvalError {
    /// The step budget was exhausted before reduction reached a value over an
    /// empty continuation stack.
    NonConvergence,
    /// A primitive was applied to more arguments than its declared arity, or
    /// a merged application's arity cannot be represented.
    ArityMismatch,
    /// A registered primitive was applied to operands of the wrong shape.
    TypeMismatch,
    UnboundVariable,
    AssertionFailure,
    CyclicEvaluation,
    /// A (node shape, stack top) combination with no transition rule, or a
    /// primitive (name, operand count) with no registered rule.
    UnsupportedOperation,
}

/// One machine configuration: the heap, the environments, the handle of the
/// node under reduction, the current environment handle, and the
/// continuation stack (top = last).
#[verifier::ext_equal]
pub ghost struct Config {
    pub heap: Seq<ExprV>,
    pub envs: Seq<EnvV>,
    pub expr: usize,
    pub env: usize,
    pub stack: Seq<ContV>,
}

/// What one call of the stepper yields: the next configuration, or a
/// semantic error on which evaluation stops.
pub ghost enum StepResult {
    Next(Config),
    Stuck(EvalError),
}

/// What a bounded run of the machine yields: the final heap and the handle
/// of the value reached, or a failure.
pub ghost enum RunResult {
    Converged { heap: Seq<ExprV>, value: usize },
    Failed { err: EvalError },
}

/// Every handle in `s` is a valid index into a heap of `n` nodes.
pub open spec fn seq_ok(s: Seq<usize>, n: nat) -> bool {
    forall|i: int| 0 <= i < s.len() ==> (#[trigger] s[i]) < n
}

/// Key paths are non-empty and every handle they hold is valid.
pub open spec fn key_paths_ok(ps: Seq<(Seq<usize>, usize)>, n: nat) -> bool {
    forall|i: int|
        0 <= i < ps.len() ==> {
            let p = #[trigger] ps[i];
            p.0.len() > 0 && seq_ok(p.0, n) && p.1 < n
        }
}

/// Node well-formedness over a heap of `n` nodes: every handle is valid,
/// key paths are non-empty, and a partial application is still missing at
/// least one argument and can be saturated within machine limits.
pub open spec fn node_wf(e: ExprV, n: nat) -> bool {
    match e {
        ExprV::Null => true,
        ExprV::Int(_) => true,
        ExprV::Float(_) => true,
        ExprV::Bool(_) => true,
        ExprV::Var(_) => true,
        ExprV::Formal(_, d) => (d matches Some(h) ==> h < n),
        ExprV::InheritedVar(_) => true,
        ExprV::String(_) => true,
        ExprV::InterpolatedString(parts) => seq_ok(parts, n),
        ExprV::Path(_) => true,
        ExprV::List(items) => seq_ok(items, n),
        ExprV::Attrs { attrs, .. } => key_paths_ok(attrs, n),
        ExprV::Assert { expr, body } => expr < n && body < n,
        ExprV::With { expr, body } => expr < n && body < n,
        ExprV::IfThenElse { if_expr, then_expr, else_expr } => if_expr < n && then_expr < n
            && else_expr < n,
        ExprV::Lambda { body, formals, .. } => body < n && seq_ok(formals.0, n),
        ExprV::App { f, args, .. } => f < n && seq_ok(args, n) && args.len() <= usize::MAX,
        ExprV::Select { expr, attr_path } => expr < n && seq_ok(attr_path, n),
        ExprV::SelectOr { expr, attr_path_left, attr_path_right } => expr < n && seq_ok(
            attr_path_left,
            n,
        ) && seq_ok(attr_path_right, n),
        ExprV::Pap { f, args, arity } => f < n && seq_ok(args, n) && arity > 0 && args.len()
            <= usize::MAX,
        ExprV::Thunk { t } => t < n,
        ExprV::PrimOp { .. } => true,
        ExprV::HasAttr { expr, attr_path } => expr < n && seq_ok(attr_path, n),
        ExprV::UnaryMinus { expr } => expr < n,
        ExprV::UnaryNot { expr } => expr < n,
        ExprV::Let { bindings, body } => key_paths_ok(bindings, n) && body < n,
    }
}

/// Continuation-frame well-formedness over `n` nodes and `m` environments.
pub open spec fn cont_wf(k: ContV, n: nat, m: nat) -> bool {
    match k {
        ContV::ApplyCont { args, env, .. } => seq_ok(args, n) && env < m && args.len()
            <= usize::MAX,
        ContV::ForceAppCont { f, unforced_args, forced_args } => f < n && seq_ok(unforced_args, n)
            && seq_ok(forced_args, n) && unforced_args.len() + forced_args.len() <= usize::MAX,
    }
}

/// Environment well-formedness over `n` nodes and `m` environments.
pub open spec fn env_wf(e: EnvV, n: nat, m: nat) -> bool {
    &&& (e.up matches Some(u) ==> u < m)
    &&& forall|i: int| 0 <= i < e.values.len() ==> (#[trigger] e.values[i]).1 < n
}

/// Heap well-formedness: every node and environment is well-formed.
pub open spec fn heap_wf(heap: Seq<ExprV>, envs: Seq<EnvV>) -> bool {
    &&& heap.len() <= usize::MAX
    &&& forall|i: int| 0 <= i < heap.len() ==> node_wf(#[trigger] heap[i], heap.len())
    &&& forall|i: int| 0 <= i < envs.len() ==> env_wf(#[trigger] envs[i], heap.len(), envs.len())
}

/// Stack well-formedness: every frame is well-formed.
pub open spec fn stack_wf(stack: Seq<ContV>, n: nat, m: nat) -> bool {
    forall|i: int| 0 <= i < stack.len() ==> cont_wf(#[trigger] stack[i], n, m)
}

/// Configuration well-formedness: the precondition the stepper needs and,
/// as `lemma_step_preserves_wf` shows, preserves.
pub open spec fn config_wf(c: Config) -> bool {
    &&& heap_wf(c.heap, c.envs)
    &&& stack_wf(c.stack, c.heap.len(), c.envs.len())
    &&& c.expr < c.heap.len()
    &&& c.env < c.envs.len()
}

/// The node `h` points at is a value.
pub open spec fn value_at(heap: Seq<ExprV>, h: usize) -> bool {
    is_value_v(heap[h as int])
}

/// Every argument handle points at a value.
pub open spec fn all_values(heap: Seq<ExprV>, args: Seq<usize>) -> bool {
    forall|i: int| 0 <= i < args.len() ==> value_at(heap, #[trigger] args[i])
}

/// The primitive catalogue: dispatch on (name, operand shapes).  Integer
/// addition and multiplication wrap on overflow.  A registered name applied
/// to operands of the wrong shape is a type mismatch; any other combination
/// is unsupported.
pub open spec fn dispatch_spec(name: Seq<char>, l: ExprV, r: ExprV) -> Result<ExprV, EvalError> {
    if name == "+"@ {
        match (l, r) {
            (ExprV::Int(a), ExprV::Int(b)) => Ok(
                ExprV::Int(vstd::wrapping::i64_specs::wrapping_add(a, b)),
            ),
            _ => Err(EvalError::TypeMismatch),
        }
    } else if name == "*"@ {
        match (l, r) {
            (ExprV::Int(a), ExprV::Int(b)) => Ok(
                ExprV::Int(vstd::wrapping::i64_specs::wrapping_mul(a, b)),
            ),
            _ => Err(EvalError::TypeMismatch),
        }
    } else {
        Err(EvalError::UnsupportedOperation)
    }
}

/// Rule for a value meeting a `ForceAppCont`: record the value at the end of
/// the forced sequence (preserving left-to-right order), then either step
/// into the next pending argument or, when none is left, rebuild a saturated
/// application of the primitive to the forced values.
pub open spec fn step_force_spec(c: Config) -> StepResult {
    match c.stack.last() {
        ContV::ForceAppCont { f, unforced_args, forced_args } => {
            if unforced_args.len() == 0 {
                StepResult::Stuck(EvalError::UnsupportedOperation)
            } else {
                let rest = unforced_args.drop_last();
                let forced2 = forced_args.push(c.expr);
                if rest.len() > 0 {
                    StepResult::Next(
                        Config {
                            expr: rest.last(),
                            stack: c.stack.drop_last().push(
                                ContV::ForceAppCont {
                                    f,
                                    unforced_args: rest,
                                    forced_args: forced2,
                                },
                            ),
                            ..c
                        },
                    )
                } else {
                    StepResult::Next(
                        Config {
                            heap: c.heap.push(
                                ExprV::App { f, args: forced2, arity: forced2.len() as usize },
                            ),
                            expr: c.heap.len() as usize,
                            stack: c.stack.drop_last(),
                            ..c
                        },
                    )
                }
            }
        },
        _ => StepResult::Stuck(EvalError::UnsupportedOperation),
    }
}

/// Rules for an application node.  A primitive callee is compared against
/// the application's arity: over-saturation is an arity mismatch,
/// exact saturation either dispatches (all operands already values) or
/// pushes a `ForceAppCont` and steps into the first argument, and
/// under-saturation allocates a partial application.  Any other callee is
/// descended into under an `ApplyCont`.
pub open spec fn step_app_spec(c: Config) -> StepResult {
    match c.heap[c.expr as int] {
        ExprV::App { f, args, arity } => {
            match c.heap[f as int] {
                ExprV::PrimOp { name, arity: op_arity } => {
                    if op_arity < arity {
                        StepResult::Stuck(EvalError::ArityMismatch)
                    } else if op_arity == arity {
                        if all_values(c.heap, args) {
                            if args.len() == 2 {
                                match dispatch_spec(
                                    name,
                                    c.heap[args[0] as int],
                                    c.heap[args[1] as int],
                                ) {
                                    Ok(v) => StepResult::Next(
                                        Config {
                                            heap: c.heap.push(v),
                                            expr: c.heap.len() as usize,
                                            ..c
                                        },
                                    ),
                                    Err(err) => StepResult::Stuck(err),
                                }
                            } else {
                                StepResult::Stuck(EvalError::UnsupportedOperation)
                            }
                        } else {
                            StepResult::Next(
                                Config {
                                    expr: args[0],
                                    stack: c.stack.push(
                                        ContV::ForceAppCont {
                                            f,
                                            unforced_args: args.reverse(),
                                            forced_args: Seq::empty(),
                                        },
                                    ),
                                    ..c
                                },
                            )
                        }
                    } else {
                        StepResult::Next(
                            Config {
                                heap: c.heap.push(
                                    ExprV::Pap { f, args, arity: (op_arity - arity) as usize },
                                ),
                                expr: c.heap.len() as usize,
                                ..c
                            },
                        )
                    }
                },
                _ => StepResult::Next(
                    Config {
                        expr: f,
                        stack: c.stack.push(ContV::ApplyCont { args, env: c.env, arity }),
                        ..c
                    },
                ),
            }
        },
        _ => StepResult::Stuck(EvalError::UnsupportedOperation),
    }
}

/// Rule for a partial application meeting an `ApplyCont`: pop the frame,
/// concatenate the argument sequences and rebuild a plain application whose
/// arity is the sum — however the arguments were grouped syntactically,
/// they converge to the same saturated call.
pub open spec fn step_pap_spec(c: Config) -> StepResult {
    match (c.heap[c.expr as int], c.stack.last()) {
        (ExprV::Pap { f, args, arity }, ContV::ApplyCont { args: cont_args, arity: cont_arity, .. }) => {
            if arity + cont_arity > usize::MAX || args.len() + cont_args.len() > usize::MAX {
                StepResult::Stuck(EvalError::ArityMismatch)
            } else {
                StepResult::Next(
                    Config {
                        heap: c.heap.push(
                            ExprV::App {
                                f,
                                args: args + cont_args,
                                arity: (arity + cont_arity) as usize,
                            },
                        ),
                        expr: c.heap.len() as usize,
                        stack: c.stack.drop_last(),
                        ..c
                    },
                )
            }
        },
        _ => StepResult::Stuck(EvalError::UnsupportedOperation),
    }
}

/// The complete transition table over (node shape, stack-top shape), in the
/// order the rules fire: a value resumes a pending `ForceAppCont`; an
/// application dispatches on its callee; a partial application merges with a
/// pending `ApplyCont`; a thunk steps transparently to its inner node; every
/// other combination is stuck.
pub open spec fn step_spec(c: Config) -> StepResult {
    let cur = c.heap[c.expr as int];
    if is_value_v(cur) && c.stack.len() > 0 && (c.stack.last() is ForceAppCont) {
        step_force_spec(c)
    } else if cur is App {
        step_app_spec(c)
    } else if (cur is Pap) && c.stack.len() > 0 && (c.stack.last() is ApplyCont) {
        step_pap_spec(c)
    } else if cur is Thunk {
        StepResult::Next(Config { expr: cur->t, ..c })
    } else {
        StepResult::Stuck(EvalError::UnsupportedOperation)
    }
}

/// A bounded run of the machine: stop as soon as the current node is a value
/// over an empty stack; otherwise spend one unit of fuel per step.  Running
/// out of fuel is the non-convergence failure.
pub open spec fn run_spec(c: Config, fuel: nat) -> RunResult
    decreases fuel,
{
    if is_value_v(c.heap[c.expr as int]) && c.stack.len() == 0 {
        RunResult::Converged { heap: c.heap, value: c.expr }
    } else if fuel == 0 {
        RunResult::Failed { err: EvalError::NonConvergence }
    } else {
        match step_spec(c) {
            StepResult::Next(c2) => run_spec(c2, (fuel - 1) as nat),
            StepResult::Stuck(err) => RunResult::Failed { err },
        }
    }
}

/// The configuration that an executable machine state denotes.
pub open spec fn conf(heap: &Heap, expr: usize, env: usize, stack: &Vec<Cont>) -> Config {
    Config {
        heap: heap@,
        envs: heap.envs_view(),
        expr,
        env,
        stack: stack@.map_values(|k: Cont| k@),
    }
}

/// Copy a vector of handles.
fn clone_handles(v: &Vec<usize>) -> (r: Vec<usize>)
    ensures
        r@ == v@,
{
    let mut r: Vec<usize> = Vec::new();
    let mut i: usize = 0;
    while i < v.len()
        invariant
            i <= v.len(),
            r@ == v@.subrange(0, i as int),
        decreases v.len() - i,
    {
        r.push(v[i]);
        i = i + 1;
        proof {
            assert(r@ =~= v@.subrange(0, i as int));
        }
    }
    proof {
        assert(r@ =~= v@);
    }
    r
}

/// Copy a vector of handles in reverse order.
fn reverse_handles(v: &Vec<usize>) -> (r: Vec<usize>)
    ensures
        r@ == v@.reverse(),
{
    let mut r: Vec<usize> = Vec::new();
    let mut i: usize = v.len();
    while i > 0
        invariant
            i <= v.len(),
            r@.len() == v@.len() - i,
            forall|j: int| 0 <= j < r@.len() ==> r@[j] == v@[v@.len() - 1 - j],
        decreases i,
    {
        i = i - 1;
        r.push(v[i]);
    }
    proof {
        assert(r@ =~= v@.reverse());
    }
    r
}

/// Whether a primitive's name equals the given literal.
fn name_is(name: &String, lit: &str) -> (r: bool)
    ensures
        r == (name@ == lit@),
{
    let s = String::from_str(lit);
    let r = *name == s;
    proof {
        if name@ == s@ {
            assert(name@ == lit@);
        }
    }
    r
}

/// One transition of the machine: exactly the transition that `step_spec`
/// takes on the denoted configuration.  On `Ok` the heap may have grown by
/// the allocated result node (never mutating an existing node), the new
/// configuration is well-formed again, and the returned pair is the next
/// (node, environment); on `Err` the machine is stuck and nothing has
/// changed.
pub fn step(heap: &mut Heap, expr: usize, env: usize, stack: &mut Vec<Cont>) -> (r: Result<
    (usize, usize),
    EvalError,
>)
    requires
        config_wf(conf(old(heap), expr, env, old(stack))),
    ensures
        old(heap)@.is_prefix_of(final(heap)@),
        final(heap).envs_view() == old(heap).envs_view(),
        match r {
            Ok(p) => step_spec(conf(old(heap), expr, env, old(stack))) == StepResult::Next(
                conf(final(heap), p.0, p.1, final(stack)),
            ) && config_wf(conf(final(heap), p.0, p.1, final(stack))),
            Err(e) => step_spec(conf(old(heap), expr, env, old(stack))) == StepResult::Stuck(e)
                && final(heap)@ == old(heap)@ && final(stack)@ == old(stack)@,
        },
{
    let ghost c0 = conf(old(heap), expr, env, old(stack));
    proof {
        assert(c0.heap[expr as int] == old(heap)@[expr as int]);
        assert(node_wf(c0.heap[expr as int], c0.heap.len()));
    }
    let n = stack.len();
    let cur_is_value = heap.get(expr).is_value();
    let top_is_fac = n > 0 && (matches!(&stack[n - 1], Cont::ForceAppCont { .. }));
    proof {
        if n > 0 {
            assert(c0.stack.last() == old(stack)@[n - 1]@);
        }
    }

    // A value resumes a pending ForceAppCont.
    if cur_is_value && top_is_fac {
        let top = stack.pop().unwrap();
        match top {
            Cont::ForceAppCont { f, unforced_args: mut unforced, forced_args: mut forced } => {
                let ghost unforced0 = unforced@;
                let ghost forced0 = forced@;
                if unforced.len() == 0 {
                    stack.push(
                        Cont::ForceAppCont { f, unforced_args: unforced, forced_args: forced },
                    );
                    proof {
                        assert(stack@ =~= old(stack)@);
                    }
                    return Err(EvalError::UnsupportedOperation);
                }
                // The argument just forced sits at the end of the pending
                // sequence; its value is the current node, recorded at the
                // end of the forced sequence to keep left-to-right order.
                unforced.pop();
                forced.push(expr);
                let ghost rest = unforced0.drop_last();
                let ghost forced2 = forced0.push(expr);
                proof {
                    assert(unforced@ =~= rest);
                    assert(forced@ =~= forced2);
                }
                if unforced.len() > 0 {
                    let nxt = unforced[unforced.len() - 1];
                    stack.push(
                        Cont::ForceAppCont { f, unforced_args: unforced, forced_args: forced },
                    );
                    proof {
                        let cn = Config {
                            expr: rest.last(),
                            stack: c0.stack.drop_last().push(
                                ContV::ForceAppCont {
                                    f,
                                    unforced_args: rest,
                                    forced_args: forced2,
                                },
                            ),
                            ..c0
                        };
                        assert(step_spec(c0) == StepResult::Next(cn));
                        assert(stack@.map_values(|k: Cont| k@) =~= cn.stack);
                        assert(conf(heap, nxt, env, stack) =~= cn);
                    }
                    return Ok((nxt, env));
                } else {
                    let arity = forced.len();
                    let h = heap.allocate(Expr::App { f, args: forced, arity });
                    proof {
                        let cn = Config {
                            heap: c0.heap.push(
                                ExprV::App { f, args: forced2, arity: forced2.len() as usize },
                            ),
                            expr: c0.heap.len() as usize,
                            stack: c0.stack.drop_last(),
                            ..c0
                        };
                        assert(step_spec(c0) == StepResult::Next(cn));
                        assert(stack@.map_values(|k: Cont| k@) =~= cn.stack);
                        assert(heap@ =~= cn.heap);
                        assert(conf(heap, h, env, stack) =~= cn);
                        assert(c0.heap.is_prefix_of(heap@));
                    }
                    return Ok((h, env));
                }
            },
            Cont::ApplyCont { args, env: aenv, arity } => {
                // unreachable: the guard above saw a ForceAppCont on top
                proof {
                    assert(false);
                }
                stack.push(Cont::ApplyCont { args, env: aenv, arity });
                return Err(EvalError::UnsupportedOperation);
            },
        }
    }

    // An application dispatches on the shape of its callee.
    let (is_app, app_f, app_args, app_arity) = match heap.get(expr) {
        Expr::App { f, args, arity } => (true, *f, clone_handles(args), *arity),
        _ => (false, 0usize, Vec::new(), 0usize),
    };
    if is_app {
        let ghost args0 = app_args@;
        let (is_prim, prim_name, prim_arity) = match heap.get(app_f) {
            Expr::PrimOp { name, arity } => (true, name.clone(), *arity),
            _ => (false, String::new(), 0usize),
        };
        if is_prim {
            if prim_arity < app_arity {
                return Err(EvalError::ArityMismatch);
            } else if prim_arity == app_arity {
                let mut all_vals = true;
                let mut i: usize = 0;
                while i < app_args.len()
                    invariant
                        i <= app_args.len(),
                        app_args@ == args0,
                        seq_ok(args0, heap@.len() as nat),
                        heap@ == c0.heap,
                        all_vals == (forall|j: int|
                            0 <= j < i ==> value_at(c0.heap, #[trigger] args0[j])),
                    decreases app_args.len() - i,
                {
                    if !heap.get(app_args[i]).is_value() {
                        all_vals = false;
                    }
                    i = i + 1;
                }
                proof {
                    assert(all_vals == all_values(c0.heap, args0));
                }
                if all_vals {
                    if app_args.len() == 2 {
                        let a0 = app_args[0];
                        let a1 = app_args[1];
                        let is_plus = name_is(&prim_name, "+");
                        let is_star = name_is(&prim_name, "*");
                        let l_int = match heap.get(a0) {
                            Expr::Int(v) => Some(*v),
                            _ => None,
                        };
                        let r_int = match heap.get(a1) {
                            Expr::Int(v) => Some(*v),
                            _ => None,
                        };
                        if is_plus || is_star {
                            match (l_int, r_int) {
                                (Some(a), Some(b)) => {
                                    let v = if is_plus {
                                        a.wrapping_add(b)
                                    } else {
                                        a.wrapping_mul(b)
                                    };
                                    let h = heap.allocate(Expr::Int(v));
                                    proof {
                                        let cn = Config {
                                            heap: c0.heap.push(ExprV::Int(v)),
                                            expr: c0.heap.len() as usize,
                                            ..c0
                                        };
                                        assert(step_spec(c0) == StepResult::Next(cn));
                                        assert(conf(heap, h, env, stack) =~= cn);
                                    }
                                    return Ok((h, env));
                                },
                                _ => {
                                    return Err(EvalError::TypeMismatch);
                                },
                            }
                        } else {
                            return Err(EvalError::UnsupportedOperation);
                        }
                    } else {
                        return Err(EvalError::UnsupportedOperation);
                    }
                } else {
                    let first = app_args[0];
                    let rev = reverse_handles(&app_args);
                    stack.push(
                        Cont::ForceAppCont {
                            f: app_f,
                            unforced_args: rev,
                            forced_args: Vec::new(),
                        },
                    );
                    proof {
                        let cn = Config {
                            expr: args0[0],
                            stack: c0.stack.push(
                                ContV::ForceAppCont {
                                    f: app_f,
                                    unforced_args: args0.reverse(),
                                    forced_args: Seq::empty(),
                                },
                            ),
                            ..c0
                        };
                        assert(step_spec(c0) == StepResult::Next(cn));
                        assert(stack@.map_values(|k: Cont| k@) =~= cn.stack);
                        assert(conf(heap, first, env, stack) =~= cn);
                    }
                    return Ok((first, env));
                }
            } else {
                let h = heap.allocate(
                    Expr::Pap { f: app_f, args: app_args, arity: prim_arity - app_arity },
                );
                proof {
                    let cn = Config {
                        heap: c0.heap.push(
                            ExprV::Pap {
                                f: app_f,
                                args: args0,
                                arity: (prim_arity - app_arity) as usize,
                            },
                        ),
                        expr: c0.heap.len() as usize,
                        ..c0
                    };
                    assert(step_spec(c0) == StepResult::Next(cn));
                    assert(conf(heap, h, env, stack) =~= cn);
                }
                return Ok((h, env));
            }
        } else {
            stack.push(Cont::ApplyCont { args: app_args, env, arity: app_arity });
            proof {
                let cn = Config {
                    expr: (match c0.heap[expr as int] {
                        ExprV::App { f, .. } => f,
                        _ => 0,
                    }),
                    stack: c0.stack.push(
                        ContV::ApplyCont { args: args0, env, arity: app_arity },
                    ),
                    ..c0
                };
                assert(step_spec(c0) == StepResult::Next(cn));
                assert(stack@.map_values(|k: Cont| k@) =~= cn.stack);
                assert(conf(heap, app_f, env, stack) =~= cn);
            }
            return Ok((app_f, env));
        }
    }

    // A partial application merges with a pending ApplyCont.
    let (is_pap, pap_f, pap_args, pap_arity) = match heap.get(expr) {
        Expr::Pap { f, args, arity } => (true, *f, clone_handles(args), *arity),
        _ => (false, 0usize, Vec::new(), 0usize),
    };
    let top_is_apply = {
        let m = stack.len();
        m > 0 && (matches!(&stack[m - 1], Cont::ApplyCont { .. }))
    };
    if is_pap && top_is_apply {
        let ghost pargs0 = pap_args@;
        let (carity, clen) = match &stack[stack.len() - 1] {
            Cont::ApplyCont { arity, args, .. } => (*arity, args.len()),
            _ => (0usize, 0usize),
        };
        // A merged application whose arity or argument count cannot be
        // represented in a machine word cannot be built.
        if pap_arity > usize::MAX - carity || pap_args.len() > usize::MAX - clen {
            return Err(EvalError::ArityMismatch);
        }
        let top = stack.pop().unwrap();
        match top {
            Cont::ApplyCont { args: cargs, env: aenv, arity: carity2 } => {
                let ghost cargs0 = cargs@;
                let mut newargs = pap_args;
                let mut tail = cargs;
                newargs.append(&mut tail);
                let h = heap.allocate(
                    Expr::App { f: pap_f, args: newargs, arity: pap_arity + carity2 },
                );
                proof {
                    let cn = Config {
                        heap: c0.heap.push(
                            ExprV::App {
                                f: pap_f,
                                args: pargs0 + cargs0,
                                arity: (pap_arity + carity2) as usize,
                            },
                        ),
                        expr: c0.heap.len() as usize,
                        stack: c0.stack.drop_last(),
                        ..c0
                    };
                    assert(step_spec(c0) == StepResult::Next(cn));
                    assert(stack@.map_values(|k: Cont| k@) =~= cn.stack);
                    assert(heap@ =~= cn.heap);
                    assert(conf(heap, h, env, stack) =~= cn);
                }
                return Ok((h, env));
            },
            Cont::ForceAppCont { f, unforced_args, forced_args } => {
                // unreachable: the guard above saw an ApplyCont on top
                proof {
                    assert(false);
                }
                stack.push(Cont::ForceAppCont { f, unforced_args, forced_args });
                return Err(EvalError::UnsupportedOperation);
            },
        }
    }

    // A thunk steps transparently to its inner node.
    match heap.get(expr) {
        Expr::Thunk { t } => {
            return Ok((*t, env));
        },
        _ => {},
    }

    // No rule applies: the machine is stuck.
    Err(EvalError::UnsupportedOperation)
}

/// The configuration `eval` starts from: the given root node over a fresh
/// root environment and an empty continuation stack.
pub open spec fn init_config(heap: Seq<ExprV>, envs: Seq<EnvV>, expr: usize) -> Config {
    Config {
        heap,
        envs: envs.push(EnvV { up: None, values: Seq::empty() }),
        expr,
        env: envs.len() as usize,
        stack: Seq::empty(),
    }
}

/// Drive the machine: step until the current node is a value over an empty
/// stack, or a transition is stuck (its semantic error), or `max_steps`
/// steps have been spent (the non-convergence failure).  The result is
/// exactly what `run_spec` yields on the initial configuration with
/// `max_steps` fuel; on success the returned handle points at a value.  A
/// node that is already a value evaluates to itself under any budget, the
/// heap grows append-only, and one fresh root environment is allocated.
#[verifier::loop_isolation(false)]
pub fn eval(heap: &mut Heap, expr: usize, max_steps: usize) -> (r: Result<usize, EvalError>)
    requires
        heap_wf(old(heap)@, old(heap).envs_view()),
        expr < old(heap)@.len(),
    ensures
        old(heap)@.is_prefix_of(final(heap)@),
        final(heap).envs_view() == old(heap).envs_view().push(
            EnvV { up: None, values: Seq::empty() },
        ),
        heap_wf(final(heap)@, final(heap).envs_view()),
        match r {
            Ok(h) => run_spec(init_config(old(heap)@, old(heap).envs_view(), expr), max_steps as nat)
                == (RunResult::Converged { heap: final(heap)@, value: h }) && h < final(heap)@.len()
                && is_value_v(final(heap)@[h as int]),
            Err(e) => run_spec(init_config(old(heap)@, old(heap).envs_view(), expr), max_steps as nat)
                == (RunResult::Failed { err: e }),
        },
        is_value_v(old(heap)@[expr as int]) ==> r == Ok::<usize, EvalError>(expr) && final(heap)@
            == old(heap)@,
{
    let mut stack: Vec<Cont> = Vec::new();
    let root_env = heap.allocate_env(Env::new_root());
    let ghost init = init_config(old(heap)@, old(heap).envs_view(), expr);
    proof {
        assert(heap.envs_view().last() =~= (EnvV { up: None, values: Seq::empty() }));
        assert(heap.envs_view() =~= init.envs);
        assert(conf(heap, expr, root_env, &stack) =~= init);
        let m2 = init.envs.len();
        assert forall|i: int| 0 <= i < m2 implies env_wf(
            #[trigger] init.envs[i],
            init.heap.len(),
            m2,
        ) by {
            if i < m2 - 1 {
                assert(init.envs[i] == old(heap).envs_view()[i]);
            }
        }
        assert(config_wf(init));
    }
    let mut cur = expr;
    let mut envh = root_env;
    let mut steps: usize = 0;
    while steps < max_steps
        invariant
            steps <= max_steps,
            config_wf(conf(heap, cur, envh, &stack)),
            old(heap)@.is_prefix_of(heap@),
            heap.envs_view() == old(heap).envs_view().push(
                EnvV { up: None, values: Seq::empty() },
            ),
            envh == root_env,
            run_spec(init, max_steps as nat) == run_spec(
                conf(heap, cur, envh, &stack),
                (max_steps - steps) as nat,
            ),
            steps == 0 ==> heap@ == old(heap)@ && cur == expr,
        decreases max_steps - steps,
    {
        let is_val = heap.get(cur).is_value();
        if is_val && stack.len() == 0 {
            proof {
                assert(conf(heap, cur, envh, &stack).stack.len() == 0);
                assert(run_spec(init, max_steps as nat) == (RunResult::Converged {
                    heap: heap@,
                    value: cur,
                }));
            }
            return Ok(cur);
        }
        let ghost pre = conf(heap, cur, envh, &stack);
        let ghost fuel = (max_steps - steps) as nat;
        let ghost before_nodes = heap@;
        match step(heap, cur, envh, &mut stack) {
            Ok(p) => {
                proof {
                    assert(run_spec(pre, fuel) == run_spec(
                        conf(heap, p.0, p.1, &stack),
                        (fuel - 1) as nat,
                    ));
                    assert(old(heap)@.is_prefix_of(heap@)) by {
                        assert(old(heap)@ =~= heap@.subrange(0, old(heap)@.len() as int));
                    }
                }
                cur = p.0;
                envh = p.1;
                steps = steps + 1;
            },
            Err(e) => {
                proof {
                    assert(run_spec(pre, fuel) == (RunResult::Failed { err: e }));
                }
                return Err(e);
            },
        }
    }
    let is_val = heap.get(cur).is_value();
    if is_val && stack.len() == 0 {
        proof {
            assert(run_spec(init, max_steps as nat) == (RunResult::Converged {
                heap: heap@,
                value: cur,
            }));
        }
        return Ok(cur);
    }
    proof {
        assert(run_spec(init, max_steps as nat) == (RunResult::Failed {
            err: EvalError::NonConvergence,
        }));
    }
    Err(EvalError::NonConvergence)
}

/// The arity bookkeeping of a node: an application holds exactly as many
/// arguments as its arity field says (and at least one), a partial
/// application holds exactly as many as it still misses, and a primitive is
/// one of the binary catalogue.
pub open spec fn node_arity_ok(e: ExprV) -> bool {
    match e {
        ExprV::App { args, arity, .. } => args.len() == arity && arity >= 1,
        ExprV::Pap { args, arity, .. } => args.len() == arity,
        ExprV::PrimOp { arity, .. } => arity == 2,
        _ => true,
    }
}

/// The arity bookkeeping of a frame: a pending application carries exactly
/// as many arguments as its arity field says, and at least one.
pub open spec fn cont_arity_ok(k: ContV) -> bool {
    match k {
        ContV::ApplyCont { args, arity, .. } => args.len() == arity && arity >= 1,
        ContV::ForceAppCont { .. } => true,
    }
}

/// The arity invariant over a whole configuration.
pub open spec fn config_arity_ok(c: Config) -> bool {
    &&& forall|i: int| 0 <= i < c.heap.len() ==> node_arity_ok(#[trigger] c.heap[i])
    &&& forall|i: int| 0 <= i < c.stack.len() ==> cont_arity_ok(#[trigger] c.stack[i])
}

/// Arity law: on a well-formed configuration whose primitives all belong to
/// the binary catalogue and whose applications are non-empty, every
/// transition that constructs an `App` node gives it exactly as many
/// arguments as its arity field says — `args.len() == arity` holds of every
/// application, old or new, after every step.  (A primitive of another
/// arity, partially applied, could break the bookkeeping, which is why the
/// catalogue restriction is part of the invariant.)
pub proof fn lemma_step_preserves_arity_invariant(c: Config)
    requires
        config_wf(c),
        config_arity_ok(c),
        step_spec(c) matches StepResult::Next(_),
    ensures
        step_spec(c) matches StepResult::Next(c2) ==> config_arity_ok(c2)
            && forall|i: int|
                0 <= i < c2.heap.len() ==> ((#[trigger] c2.heap[i]) matches ExprV::App {
                    args,
                    arity,
                    ..
                } ==> args.len() == arity),
{
    let c2 = step_spec(c)->Next_0;
    let n = c.heap.len();
    let cur = c.heap[c.expr as int];
    assert(node_arity_ok(cur));
    assert(node_wf(cur, n));
    if is_value_v(cur) && c.stack.len() > 0 && (c.stack.last() is ForceAppCont) {
        assert(cont_wf(c.stack.last(), n, c.envs.len()));
    } else if cur is App {
        match cur {
            ExprV::App { f, args, arity } => {
                assert(node_arity_ok(c.heap[f as int]));
            },
            _ => {},
        }
    } else if (cur is Pap) && c.stack.len() > 0 && (c.stack.last() is ApplyCont) {
        assert(cont_arity_ok(c.stack.last()));
    }
    assert forall|i: int| 0 <= i < c2.heap.len() implies node_arity_ok(#[trigger] c2.heap[i]) by {
        if i < n {
            assert(c2.heap[i] == c.heap[i]);
        }
    }
    assert forall|i: int| 0 <= i < c2.stack.len() implies cont_arity_ok(
        #[trigger] c2.stack[i],
    ) by {
        if i < c.stack.len() && c2.stack[i] == c.stack[i] {
        }
    }
}

/// Left-to-right forcing, first half: stepping a exactly-saturated primitive
/// application with an un-evaluated argument pushes a frame holding all
/// arguments in stack order (the first argument on top) over an empty forced
/// sequence, and steps into the first argument.
pub proof fn lemma_force_starts_left(c: Config, f: usize, args: Seq<usize>, arity: usize)
    requires
        config_wf(c),
        c.heap[c.expr as int] == (ExprV::App { f, args, arity }),
        c.heap[f as int] matches ExprV::PrimOp { arity: op_arity, .. } && op_arity == arity,
        !all_values(c.heap, args),
    ensures
        step_spec(c) == StepResult::Next(
            Config {
                expr: args[0],
                stack: c.stack.push(
                    ContV::ForceAppCont {
                        f,
                        unforced_args: args.reverse(),
                        forced_args: Seq::empty(),
                    },
                ),
                ..c
            },
        ),
        args.reverse().last() == args[0],
{
    assert(args.len() > 0);
}

/// Left-to-right forcing, second half: when a freshly forced value resumes
/// the pending frame, it is appended at the end of the forced sequence —
/// every previously forced value keeps its place and order — and exactly
/// the top pending argument is consumed.  Once no argument is pending, the
/// primitive receives the forced values in exactly that accumulated order.
pub proof fn lemma_force_accumulates_in_order(
    c: Config,
    f: usize,
    unforced: Seq<usize>,
    forced: Seq<usize>,
)
    requires
        config_wf(c),
        is_value_v(c.heap[c.expr as int]),
        c.stack.len() > 0,
        c.stack.last() == (ContV::ForceAppCont { f, unforced_args: unforced, forced_args: forced }),
        unforced.len() > 0,
    ensures
        unforced.len() > 1 ==> step_spec(c) == StepResult::Next(
            Config {
                expr: unforced.drop_last().last(),
                stack: c.stack.drop_last().push(
                    ContV::ForceAppCont {
                        f,
                        unforced_args: unforced.drop_last(),
                        forced_args: forced.push(c.expr),
                    },
                ),
                ..c
            },
        ),
        unforced.len() == 1 ==> step_spec(c) == StepResult::Next(
            Config {
                heap: c.heap.push(
                    ExprV::App {
                        f,
                        args: forced.push(c.expr),
                        arity: (forced.len() + 1) as usize,
                    },
                ),
                expr: c.heap.len() as usize,
                stack: c.stack.drop_last(),
                ..c
            },
        ),
{
    let forced2 = forced.push(c.expr);
    assert(forced2.len() == forced.len() + 1);
    if unforced.len() == 1 {
        assert(cont_wf(c.stack.last(), c.heap.len(), c.envs.len()));
        assert(forced2.len() <= usize::MAX);
    }
}

/// Thunk transparency: a thunk steps to its inner node in exactly one
/// transition that changes nothing else; over an empty stack, a thunk
/// wrapping a value therefore evaluates to that value with a budget of one
/// step, and fails to converge with a budget of zero.
pub proof fn lemma_thunk_transparent(c: Config, t: usize)
    requires
        config_wf(c),
        c.heap[c.expr as int] == (ExprV::Thunk { t }),
    ensures
        step_spec(c) == StepResult::Next(Config { expr: t, ..c }),
        c.stack.len() == 0 && is_value_v(c.heap[t as int]) ==> run_spec(c, 1)
            == (RunResult::Converged { heap: c.heap, value: t }),
        c.stack.len() == 0 ==> run_spec(c, 0) == (RunResult::Failed {
            err: EvalError::NonConvergence,
        }),
{
    assert(!is_value_v(c.heap[c.expr as int]));
    if c.stack.len() == 0 && is_value_v(c.heap[t as int]) {
        let c1 = Config { expr: t, ..c };
        assert(run_spec(c1, 0) == (RunResult::Converged { heap: c.heap, value: t }));
    }
}

/// A converged run is stable: spending a larger budget changes nothing.
pub proof fn lemma_run_fuel_mono(c: Config, fuel: nat, fuel2: nat)
    requires
        run_spec(c, fuel) is Converged,
        fuel <= fuel2,
    ensures
        run_spec(c, fuel2) == run_spec(c, fuel),
    decreases fuel,
{
    if !(is_value_v(c.heap[c.expr as int]) && c.stack.len() == 0) {
        match step_spec(c) {
            StepResult::Next(c2) => {
                lemma_run_fuel_mono(c2, (fuel - 1) as nat, (fuel2 - 1) as nat);
            },
            StepResult::Stuck(err) => {
                assert(false);
            },
        }
    }
}

/// Currying equivalence: applying a binary primitive to two value operands
/// one at a time (`(f a) b`) or both at once (`f a b`) converges to the
/// same result node, or fails with the same error — the groupings differ
/// only in the intermediate partial application, the two nodes it
/// allocates, and the step count (four steps against one).  Together with
/// `lemma_run_fuel_mono`, any budgets of at least four and one agree.
pub proof fn lemma_currying_equivalence(
    heap: Seq<ExprV>,
    envs: Seq<EnvV>,
    env: usize,
    name: Seq<char>,
    p: usize,
    x: usize,
    y: usize,
    inner: usize,
    outer: usize,
    flat: usize,
)
    requires
        heap.len() + 2 <= usize::MAX,
        p < heap.len() && x < heap.len() && y < heap.len(),
        inner < heap.len() && outer < heap.len() && flat < heap.len(),
        heap[p as int] == (ExprV::PrimOp { name, arity: 2 }),
        heap[inner as int] == (ExprV::App { f: p, args: seq![x], arity: 1 }),
        heap[outer as int] == (ExprV::App { f: inner, args: seq![y], arity: 1 }),
        heap[flat as int] == (ExprV::App { f: p, args: seq![x, y], arity: 2 }),
        is_value_v(heap[x as int]),
        is_value_v(heap[y as int]),
    ensures
        ({
            let curried = Config { heap, envs, expr: outer, env, stack: Seq::empty() };
            let flatc = Config { heap, envs, expr: flat, env, stack: Seq::empty() };
            match dispatch_spec(name, heap[x as int], heap[y as int]) {
                Ok(v) => run_spec(curried, 4) == (RunResult::Converged {
                    heap: heap.push(ExprV::Pap { f: p, args: seq![x], arity: 1 }).push(
                        ExprV::App { f: p, args: seq![x, y], arity: 2 },
                    ).push(v),
                    value: (heap.len() + 2) as usize,
                }) && run_spec(flatc, 1) == (RunResult::Converged {
                    heap: heap.push(v),
                    value: heap.len() as usize,
                }),
                Err(err) => run_spec(curried, 4) == (RunResult::Failed { err }) && run_spec(
                    flatc,
                    1,
                ) == (RunResult::Failed { err }),
            }
        }),
{
    let n = heap.len();
    let curried = Config { heap, envs, expr: outer, env, stack: Seq::empty() };
    let flatc = Config { heap, envs, expr: flat, env, stack: Seq::empty() };
    let heap1 = heap.push(ExprV::Pap { f: p, args: seq![x], arity: 1 });
    let heap2 = heap1.push(ExprV::App { f: p, args: seq![x, y], arity: 2 });

    // First step: the operator position is itself an application, so the
    // machine descends into it under an ApplyCont.
    let c1 = Config {
        heap,
        envs,
        expr: inner,
        env,
        stack: Seq::empty().push(ContV::ApplyCont { args: seq![y], env, arity: 1 }),
    };
    assert(step_spec(curried) == StepResult::Next(c1)) by {
        assert(curried.stack.push(ContV::ApplyCont { args: seq![y], env, arity: 1 })
            =~= c1.stack);
    }

    // Second step: the primitive is under-saturated, so a partial
    // application is allocated.
    let c2 = Config { heap: heap1, envs, expr: n as usize, env, stack: c1.stack };
    assert(step_spec(c1) == StepResult::Next(c2));

    // Third step: the partial application merges with the pending argument.
    let c3 = Config { heap: heap2, envs, expr: (n + 1) as usize, env, stack: Seq::empty() };
    assert(step_spec(c2) == StepResult::Next(c3)) by {
        assert(seq![x] + seq![y] =~= seq![x, y]);
        assert(c2.stack.drop_last() =~= Seq::<ContV>::empty());
    }

    // Fourth step (and the flat form's only step): the saturated
    // application dispatches on the two forced values.
    assert(all_values(heap2, seq![x, y])) by {
        assert(value_at(heap2, x));
        assert(value_at(heap2, y));
        assert(seq![x, y][0] == x && seq![x, y][1] == y);
    }
    assert(all_values(heap, seq![x, y])) by {
        assert(value_at(heap, x));
        assert(value_at(heap, y));
        assert(seq![x, y][0] == x && seq![x, y][1] == y);
    }
    match dispatch_spec(name, heap[x as int], heap[y as int]) {
        Ok(v) => {
            let c4 = Config {
                heap: heap2.push(v),
                envs,
                expr: (n + 2) as usize,
                env,
                stack: Seq::empty(),
            };
            assert(step_spec(c3) == StepResult::Next(c4));
            assert(is_value_v(v));
            assert(run_spec(c4, 0) == (RunResult::Converged { heap: c4.heap, value: c4.expr }));
            assert(run_spec(c3, 1) == run_spec(c4, 0));
            assert(run_spec(c2, 2) == run_spec(c3, 1));
            assert(run_spec(c1, 3) == run_spec(c2, 2));
            assert(run_spec(curried, 4) == run_spec(c1, 3));

            let cf = Config {
                heap: heap.push(v),
                envs,
                expr: n as usize,
                env,
                stack: Seq::empty(),
            };
            assert(step_spec(flatc) == StepResult::Next(cf));
            assert(run_spec(cf, 0) == (RunResult::Converged { heap: cf.heap, value: cf.expr }));
            assert(run_spec(flatc, 1) == run_spec(cf, 0));
        },
        Err(err) => {
            assert(step_spec(c3) == StepResult::Stuck(err));
            assert(run_spec(c3, 1) == (RunResult::Failed { err }));
            assert(run_spec(c2, 2) == run_spec(c3, 1));
            assert(run_spec(c1, 3) == run_spec(c2, 2));
            assert(run_spec(curried, 4) == run_spec(c1, 3));
            assert(step_spec(flatc) == StepResult::Stuck(err));
            assert(run_spec(flatc, 1) == (RunResult::Failed { err }));
        },
    }
}

} // verus!

