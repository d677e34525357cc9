use vstd::prelude::*;

verus! {

/// Names bound in environments, lambdas and attribute sets.
pub type Symbol = String;

/// The AST / runtime value union.  Every node lives in a `Heap` and refers to
/// other nodes through `usize` handles into that heap.  A node is either a
/// *value* (fully reduced, see `Expr::is_value`) or a *redex* that the stepper
/// must reduce further.
#[derive(Debug)]
pub enum Expr {
    Null,
    Int(i64),
    /// Float literals carry their raw text; numeric coercion is deferred.
    Float(String),
    Bool(bool),
    Var(Symbol),
    /// A formal lambda parameter: name plus optional default-value expression.
    Formal(Symbol, Option<usize>),
    InheritedVar(Symbol),
    String(String),
    /// An ordered sequence of sub-nodes, each of which must evaluate to a string.
    InterpolatedString(Vec<usize>),
    Path(String),
    List(Vec<usize>),
    Attrs {
        /// Each entry is a key path (keys may be computed dynamically, so a
        /// key path is itself a sequence of nodes) paired with a value node.
        attrs: Vec<(Vec<usize>, usize)>,
        recursive: bool,
    },
    Assert {
        expr: usize,
        body: usize,
    },
    With {
        expr: usize,
        body: usize,
    },
    IfThenElse {
        if_expr: usize,
        then_expr: usize,
        else_expr: usize,
    },
    Lambda {
        arg: Option<Symbol>,
        body: usize,
        /// Formal parameters plus the ellipsis flag ("accept extra attrs").
        formals: (Vec<usize>, bool),
    },
    App {
        f: usize,
        args: Vec<usize>,
        arity: usize,
    },
    Select {
        expr: usize,
        attr_path: Vec<usize>,
    },
    SelectOr {
        expr: usize,
        attr_path_left: Vec<usize>,
        attr_path_right: Vec<usize>,
    },
    /// A partial application: a callable plus the arguments applied so far,
    /// still missing `arity` further arguments.
    Pap {
        f: usize,
        args: Vec<usize>,
        arity: usize,
    },
    /// A suspended computation, forced transparently by the stepper.
    Thunk {
        t: usize,
    },
    /// A fixed-arity primitive operation, identified by name and arity.
    PrimOp {
        name: String,
        arity: usize,
    },
    HasAttr {
        expr: usize,
        attr_path: Vec<usize>,
    },
    UnaryMinus {
        expr: usize,
    },
    UnaryNot {
        expr: usize,
    },
    Let {
        /// Key paths are statically known here: dynamic keys are disallowed
        /// in `let`, unlike in attribute sets.
        bindings: Vec<(Vec<usize>, usize)>,
        body: usize,
    },
}

/// The mathematical mirror of `Expr`: strings as character sequences and
/// handle vectors as sequences.  Contracts speak of this type.
#[verifier::ext_equal]
pub ghost enum ExprV {
    Null,
    Int(i64),
    Float(Seq<char>),
    Bool(bool),
    Var(Seq<char>),
    Formal(Seq<char>, Option<usize>),
    InheritedVar(Seq<char>),
    String(Seq<char>),
    InterpolatedString(Seq<usize>),
    Path(Seq<char>),
    List(Seq<usize>),
    Attrs { attrs: Seq<(Seq<usize>, usize)>, recursive: bool },
    Assert { expr: usize, body: usize },
    With { expr: usize, body: usize },
    IfThenElse { if_expr: usize, then_expr: usize, else_expr: usize },
    Lambda { arg: Option<Seq<char>>, body: usize, formals: (Seq<usize>, bool) },
    App { f: usize, args: Seq<usize>, arity: usize },
    Select { expr: usize, attr_path: Seq<usize> },
    SelectOr { expr: usize, attr_path_left: Seq<usize>, attr_path_right: Seq<usize> },
    Pap { f: usize, args: Seq<usize>, arity: usize },
    Thunk { t: usize },
    PrimOp { name: Seq<char>, arity: usize },
    HasAttr { expr: usize, attr_path: Seq<usize> },
    UnaryMinus { expr: usize },
    UnaryNot { expr: usize },
    Let { bindings: Seq<(Seq<usize>, usize)>, body: usize },
}

impl View for Expr {
    type V = ExprV;

    open spec fn view(&self) -> ExprV {
        match self {
            Expr::Null => ExprV::Null,
            Expr::Int(i) => ExprV::Int(*i),
            Expr::Float(s) => ExprV::Float(s@),
            Expr::Bool(b) => ExprV::Bool(*b),
            Expr::Var(s) => ExprV::Var(s@),
            Expr::Formal(s, d) => ExprV::Formal(s@, *d),
            Expr::InheritedVar(s) => ExprV::InheritedVar(s@),
            Expr::String(s) => ExprV::String(s@),
            Expr::InterpolatedString(parts) => ExprV::InterpolatedString(parts@),
            Expr::Path(s) => ExprV::Path(s@),
            Expr::List(items) => ExprV::List(items@),
            Expr::Attrs { attrs, recursive } => ExprV::Attrs {
                attrs: attrs@.map_values(|p: (Vec<usize>, usize)| (p.0@, p.1)),
                recursive: *recursive,
            },
            Expr::Assert { expr, body } => ExprV::Assert { expr: *expr, body: *body },
            Expr::With { expr, body } => ExprV::With { expr: *expr, body: *body },
            Expr::IfThenElse { if_expr, then_expr, else_expr } => ExprV::IfThenElse {
                if_expr: *if_expr,
                then_expr: *then_expr,
                else_expr: *else_expr,
            },
            Expr::Lambda { arg, body, formals } => ExprV::Lambda {
                arg: match arg {
                    Some(s) => Some(s@),
                    None => None,
                },
                body: *body,
                formals: (formals.0@, formals.1),
            },
            Expr::App { f, args, arity } => ExprV::App { f: *f, args: args@, arity: *arity },
            Expr::Select { expr, attr_path } => ExprV::Select {
                expr: *expr,
                attr_path: attr_path@,
            },
            Expr::SelectOr { expr, attr_path_left, attr_path_right } => ExprV::SelectOr {
                expr: *expr,
                attr_path_left: attr_path_left@,
                attr_path_right: attr_path_right@,
            },
            Expr::Pap { f, args, arity } => ExprV::Pap { f: *f, args: args@, arity: *arity },
            Expr::Thunk { t } => ExprV::Thunk { t: *t },
            Expr::PrimOp { name, arity } => ExprV::PrimOp { name: name@, arity: *arity },
            Expr::HasAttr { expr, attr_path } => ExprV::HasAttr {
                expr: *expr,
                attr_path: attr_path@,
            },
            Expr::UnaryMinus { expr } => ExprV::UnaryMinus { expr: *expr },
            Expr::UnaryNot { expr } => ExprV::UnaryNot { expr: *expr },
            Expr::Let { bindings, body } => ExprV::Let {
                bindings: bindings@.map_values(|p: (Vec<usize>, usize)| (p.0@, p.1)),
                body: *body,
            },
        }
    }
}

/// True exactly for the fully reduced node shapes: evaluation may stop on
/// such a node (with an empty stack) and on no other.
pub open spec fn is_value_v(e: ExprV) -> bool {
    match e {
        ExprV::Null => true,
        ExprV::Int(_) => true,
        ExprV::Float(_) => true,
        ExprV::Bool(_) => true,
        ExprV::String(_) => true,
        ExprV::InterpolatedString(_) => true,
        ExprV::Path(_) => true,
        ExprV::List(_) => true,
        ExprV::Attrs { .. } => true,
        ExprV::Pap { .. } => true,
        _ => false,
    }
}

impl Expr {
    /// Values cannot be evaluated any further.  This gates every
    /// continuation-resumption rule of the stepper and decides when the
    /// driver may stop.
    pub fn is_value(&self) -> (r: bool)
        ensures
            r == is_value_v(self@),
    {
        match self {
            Expr::Null => true,
            Expr::Int(_) => true,
            Expr::Float(_) => true,
            Expr::Bool(_) => true,
            Expr::String(_) => true,
            Expr::InterpolatedString(_) => true,
            Expr::Path(_) => true,
            Expr::List(_) => true,
            Expr::Attrs { .. } => true,
            Expr::Pap { .. } => true,
            _ => false,
        }
    }
}

/// An immutable, singly-chained lexical scope: an optional parent plus a
/// mapping from names to node handles (order irrelevant).
#[derive(Debug)]
pub struct Env {
    pub up: Option<usize>,
    pub values: Vec<(Symbol, usize)>,
}

/// The mathematical mirror of `Env`.
#[verifier::ext_equal]
pub ghost struct EnvV {
    pub up: Option<usize>,
    pub values: Seq<(Seq<char>, usize)>,
}

impl View for Env {
    type V = EnvV;

    open spec fn view(&self) -> EnvV {
        EnvV {
            up: self.up,
            values: self.values@.map_values(|p: (Symbol, usize)| (p.0@, p.1)),
        }
    }
}

impl Env {
    /// The outermost scope: no parent, no bindings.
    pub fn new_root() -> (e: Env)
        ensures
            e@.up is None,
            e@.values.len() == 0,
    {
        Env { up: None, values: Vec::new() }
    }
}

/// A pending-work frame of the continuation stack.
#[derive(Debug)]
pub enum Cont {
    /// Once the expression currently being reduced becomes callable, apply it
    /// to these already-available arguments.
    ApplyCont {
        args: Vec<usize>,
        env: usize,
        arity: usize,
    },
    /// Force each argument of a saturated primitive application, left to
    /// right, then invoke the primitive `f`.  `unforced_args` is in stack
    /// order (first-to-force last); `forced_args` accumulates the values in
    /// left-to-right order.
    ForceAppCont {
        f: usize,
        unforced_args: Vec<usize>,
        forced_args: Vec<usize>,
    },
}

/// The mathematical mirror of `Cont`.
#[verifier::ext_equal]
pub ghost enum ContV {
    ApplyCont { args: Seq<usize>, env: usize, arity: usize },
    ForceAppCont { f: usize, unforced_args: Seq<usize>, forced_args: Seq<usize> },
}

impl View for Cont {
    type V = ContV;

    open spec fn view(&self) -> ContV {
        match self {
            Cont::ApplyCont { args, env, arity } => ContV::ApplyCont {
                args: args@,
                env: *env,
                arity: *arity,
            },
            Cont::ForceAppCont { f, unforced_args, forced_args } => ContV::ForceAppCont {
                f: *f,
                unforced_args: unforced_args@,
                forced_args: forced_args@,
            },
        }
    }
}

/// The top-level unit of one evaluation: the root node, the root environment
/// and the continuation stack.
#[derive(Debug)]
pub struct ExprRoot {
    pub root: usize,
    pub env: usize,
    pub stack: Vec<Cont>,
}

/// Owns every node and every environment allocated during an evaluation.
/// All cross-node references are `usize` handles into this heap; the heap is
/// append-only, so a handle, once valid, stays valid and the node it names is
/// never mutated in place.
#[derive(Debug)]
pub struct Heap {
    nodes: Vec<Expr>,
    envs: Vec<Env>,
}

impl View for Heap {
    type V = Seq<ExprV>;

    closed spec fn view(&self) -> Seq<ExprV> {
        self.nodes@.map_values(|e: Expr| e@)
    }
}

impl Heap {
    pub closed spec fn envs_view(&self) -> Seq<EnvV> {
        self.envs@.map_values(|e: Env| e@)
    }

    pub fn new() -> (h: Heap)
        ensures
            h@.len() == 0,
            h.envs_view().len() == 0,
    {
        Heap { nodes: Vec::new(), envs: Vec::new() }
    }

    pub fn node_count(&self) -> (n: usize)
        ensures
            n == self@.len(),
    {
        self.nodes.len()
    }

    /// Allocate a node; the new handle is the previous node count.
    pub fn allocate(&mut self, e: Expr) -> (h: usize)
        ensures
            final(self)@ == old(self)@.push(e@),
            final(self).envs_view() == old(self).envs_view(),
            h == old(self)@.len(),
            old(self)@.len() + 1 <= usize::MAX,
    {
        let h = self.nodes.len();
        self.nodes.push(e);
        let n2 = self.nodes.len();
        proof {
            assert(final(self)@ =~= old(self)@.push(e@));
            assert(final(self).envs_view() =~= old(self).envs_view());
            assert(n2 == old(self)@.len() + 1);
        }
        h
    }

    /// Allocate an environment; the new handle is the previous count.
    pub fn allocate_env(&mut self, e: Env) -> (h: usize)
        ensures
            final(self).envs_view() == old(self).envs_view().push(e@),
            final(self)@ == old(self)@,
            h == old(self).envs_view().len(),
    {
        let h = self.envs.len();
        self.envs.push(e);
        proof {
            assert(final(self).envs_view() =~= old(self).envs_view().push(e@));
            assert(final(self)@ =~= old(self)@);
        }
        h
    }

    /// Read a node.
    pub fn get(&self, h: usize) -> (e: &Expr)
        requires
            h < self@.len(),
        ensures
            e@ == self@[h as int],
    {
        &self.nodes[h]
    }

    /// Read an environment.
    pub fn get_env(&self, h: usize) -> (e: &Env)
        requires
            h < self.envs_view().len(),
        ensures
            e@ == self.envs_view()[h as int],
    {
        &self.envs[h]
    }
}

} // verus!
