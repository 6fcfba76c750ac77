//! The environment chain and the tree-walking evaluator.
//!
//! Environments form a tree of scopes. The tree is held as an arena: a
//! vector of scopes, each with its local bindings and an optional parent
//! index. A handle (an index into the arena) names a scope; handle 0 is the
//! root scope. Lookups walk the parent chain; `set` writes only to the named
//! scope, so a child's bindings never leak into an ancestor.
use vstd::prelude::*;

use crate::parser::Object;
use crate::parser::ExprView;
use crate::parser::exprs_view;
use crate::parser::lemma_exprs_view_elems;
use crate::parser::clone_objects;

verus! {

/// Mathematical image of one scope: its bindings, oldest first, and its
/// optional parent handle.
#[verifier::ext_equal]
pub struct ScopeView {
    pub vars: Seq<(Seq<char>, ExprView)>,
    pub parent: Option<int>,
}

/// Mathematical image of the whole environment arena.
#[verifier::ext_equal]
pub struct EnvView {
    pub nodes: Seq<ScopeView>,
}

/// One scope of the arena.
struct Scope {
    vars: Vec<(String, Object)>,
    parent: Option<usize>,
}

impl View for Scope {
    type V = ScopeView;

    closed spec fn view(&self) -> ScopeView {
        ScopeView {
            vars: Seq::new(self.vars@.len(), |i: int| (self.vars@[i].0@, self.vars@[i].1@)),
            parent: match self.parent {
                Some(p) => Some(p as int),
                None => None,
            },
        }
    }
}

/// The binding table: an arena of parent-linked scopes.
pub struct Env {
    nodes: Vec<Scope>,
}

impl View for Env {
    type V = EnvView;

    closed spec fn view(&self) -> EnvView {
        EnvView { nodes: Seq::new(self.nodes@.len(), |i: int| self.nodes@[i]@) }
    }
}

/// A well-formed arena has a root scope and every parent handle points to
/// an earlier scope, so parent chains always reach a scope without a parent.
pub open spec fn env_wf(env: EnvView) -> bool {
    &&& env.nodes.len() > 0
    &&& forall|i: int| 0 <= i < env.nodes.len() ==> match (#[trigger] env.nodes[i]).parent {
        Some(p) => 0 <= p < i,
        None => true,
    }
}

/// Looks a name up in one binding table, newest binding first.
pub open spec fn find_var(vars: Seq<(Seq<char>, ExprView)>, name: Seq<char>) -> Option<ExprView>
    decreases vars.len(),
{
    if vars.len() == 0 {
        None
    } else if vars.last().0 == name {
        Some(vars.last().1)
    } else {
        find_var(vars.drop_last(), name)
    }
}

/// Looks a name up in a scope, delegating to the parent chain on a miss.
pub open spec fn env_lookup(env: EnvView, scope: int, name: Seq<char>) -> Option<ExprView>
    decreases scope,
{
    if !(0 <= scope < env.nodes.len()) {
        None
    } else {
        match find_var(env.nodes[scope].vars, name) {
            Some(v) => Some(v),
            None => match env.nodes[scope].parent {
                Some(p) => if 0 <= p < scope {
                    env_lookup(env, p, name)
                } else {
                    None
                },
                None => None,
            },
        }
    }
}

/// The arena after binding `name` to `val` in the scope `scope` alone.
pub open spec fn env_set(env: EnvView, scope: int, name: Seq<char>, val: ExprView) -> EnvView {
    EnvView {
        nodes: env.nodes.update(
            scope,
            ScopeView { vars: env.nodes[scope].vars.push((name, val)), parent: env.nodes[scope].parent },
        ),
    }
}

/// The arena after adding a fresh empty scope whose parent is `parent`.
pub open spec fn env_extend(env: EnvView, parent: int) -> EnvView {
    EnvView { nodes: env.nodes.push(ScopeView { vars: Seq::empty(), parent: Some(parent) }) }
}

impl Env {
    /// A fresh arena holding only the root scope, handle 0, with no bindings.
    pub fn new() -> (e: Env)
        ensures
            e@.nodes.len() == 1,
            e@.nodes[0].vars.len() == 0,
            e@.nodes[0].parent is None,
            env_wf(e@),
    {
        Env { nodes: vec![Scope { vars: Vec::new(), parent: None }] }
    }

    /// Looks `name` up in the scope `scope` and its ancestors; the value
    /// returned is a copy of the newest binding of the nearest scope that
    /// has one, and `None` means no ancestor binds the name.
    #[verifier::loop_isolation(false)]
    pub fn get(&self, scope: usize, name: &str) -> (r: Option<Object>)
        requires
            env_wf(self@),
            scope < self@.nodes.len(),
        ensures
            match r {
                Some(o) => env_lookup(self@, scope as int, name@) == Some(o@),
                None => env_lookup(self@, scope as int, name@) is None,
            },
        decreases scope,
    {
        let key = String::from_str(name);
        let node = &self.nodes[scope];
        let ghost nv = self@.nodes[scope as int].vars;
        let mut i: usize = node.vars.len();
        proof {
            assert(nv.take(i as int) =~= nv);
        }
        while i > 0
            invariant
                i <= node.vars@.len(),
                nv == node@.vars,
                find_var(nv, name@) == find_var(nv.take(i as int), name@),
            decreases i,
        {
            i -= 1;
            proof {
                assert(nv[i as int] == (node.vars@[i as int].0@, node.vars@[i as int].1@));
                assert(nv.take(i as int + 1).last() == nv[i as int]);
                assert(nv.take(i as int + 1).drop_last() =~= nv.take(i as int));
            }
            if node.vars[i].0 == key {
                return Some(node.vars[i].1.clone());
            }
        }
        proof {
            assert(nv.take(0) =~= Seq::<(Seq<char>, ExprView)>::empty());
        }
        match node.parent {
            Some(p) => {
                proof {
                    assert(self@.nodes[scope as int].parent == Some(p as int));
                }
                self.get(p, name)
            },
            None => None,
        }
    }

    /// Binds `name` to `val` in the scope `scope` alone, shadowing any older
    /// binding there; ancestors are untouched.
    pub fn set(&mut self, scope: usize, name: &str, val: Object)
        requires
            scope < old(self)@.nodes.len(),
        ensures
            final(self)@ == env_set(old(self)@, scope as int, name@, val@),
            env_wf(old(self)@) ==> env_wf(final(self)@),
    {
        let key = String::from_str(name);
        self.nodes[scope].vars.push((key, val));
        proof {
            assert(self@ =~~= env_set(old(self)@, scope as int, name@, val@));
        }
    }

    /// Adds a fresh scope with empty bindings and parent `parent`, and
    /// returns its handle.
    pub fn extend(&mut self, parent: usize) -> (h: usize)
        requires
            parent < old(self)@.nodes.len(),
        ensures
            h == old(self)@.nodes.len(),
            final(self)@ == env_extend(old(self)@, parent as int),
            env_wf(old(self)@) ==> env_wf(final(self)@),
    {
        let h = self.nodes.len();
        self.nodes.push(Scope { vars: Vec::new(), parent: Some(parent) });
        proof {
            assert(self@ =~~= env_extend(old(self)@, parent as int));
        }
        h
    }
}

/// Which operand of a binary operator, or which element of a special form,
/// had the wrong kind of value.
#[derive(Debug, PartialEq, Eq, Clone, Copy, Structural)]
pub enum TypeFault {
    LeftOperand,
    RightOperand,
    Condition,
    DefineName,
    LambdaParams,
    LambdaBody,
}

/// Why an evaluation failed. Every error is a value handed back up the call
/// chain; no evaluation aborts the process.
#[derive(Debug, PartialEq)]
pub enum EvalError {
    /// A symbol that no scope in the chain binds.
    UnboundSymbol(String),
    /// A call head that is bound but not to a lambda.
    NotCallable(String),
    /// The wrong number of operands, special-form elements, or arguments.
    ArityError,
    /// An operand or special-form element of the wrong kind.
    TypeError(TypeFault),
    /// A division whose right operand evaluated to zero.
    DivisionByZero,
    /// An arithmetic result outside the 64-bit signed range.
    Overflow,
    /// The recursion budget given to `eval` ran out.
    DepthExceeded,
    /// An application with no head expression.
    EmptyList,
}

/// Mathematical image of an `EvalError`.
pub enum ErrView {
    UnboundSymbol(Seq<char>),
    NotCallable(Seq<char>),
    ArityError,
    TypeError(TypeFault),
    DivisionByZero,
    Overflow,
    DepthExceeded,
    EmptyList,
}

impl View for EvalError {
    type V = ErrView;

    open spec fn view(&self) -> ErrView {
        match self {
            EvalError::UnboundSymbol(s) => ErrView::UnboundSymbol(s@),
            EvalError::NotCallable(s) => ErrView::NotCallable(s@),
            EvalError::ArityError => ErrView::ArityError,
            EvalError::TypeError(f) => ErrView::TypeError(*f),
            EvalError::DivisionByZero => ErrView::DivisionByZero,
            EvalError::Overflow => ErrView::Overflow,
            EvalError::DepthExceeded => ErrView::DepthExceeded,
            EvalError::EmptyList => ErrView::EmptyList,
        }
    }
}

/// The image of an evaluation outcome.
pub open spec fn res_view(r: Result<Object, EvalError>) -> Result<ExprView, ErrView> {
    match r {
        Ok(o) => Ok(o@),
        Err(e) => Err(e@),
    }
}

/// The eight binary operators.
#[derive(Debug, PartialEq, Eq, Clone, Copy, Structural)]
pub enum BinOp {
    Add,
    Sub,
    Mul,
    Div,
    Less,
    Greater,
    Equal,
    NotEqual,
}

/// The operator a symbol names, if any.
pub open spec fn op_of(s: Seq<char>) -> Option<BinOp> {
    if s == "+"@ {
        Some(BinOp::Add)
    } else if s == "-"@ {
        Some(BinOp::Sub)
    } else if s == "*"@ {
        Some(BinOp::Mul)
    } else if s == "/"@ {
        Some(BinOp::Div)
    } else if s == "<"@ {
        Some(BinOp::Less)
    } else if s == ">"@ {
        Some(BinOp::Greater)
    } else if s == "="@ {
        Some(BinOp::Equal)
    } else if s == "!="@ {
        Some(BinOp::NotEqual)
    } else {
        None
    }
}

/// Magnitude of an integer.
pub open spec fn iabs(a: int) -> int {
    if a < 0 {
        -a
    } else {
        a
    }
}

/// Integer division truncating toward zero, as the host's signed division
/// does.
pub open spec fn trunc_div(a: int, b: int) -> int {
    if (a < 0) == (b < 0) {
        iabs(a) / iabs(b)
    } else {
        -(iabs(a) / iabs(b))
    }
}

/// `Integer(n)` if `n` fits in 64 signed bits, else the overflow error.
pub open spec fn fit_i64(n: int) -> Result<ExprView, ErrView> {
    if i64::MIN <= n <= i64::MAX {
        Ok(ExprView::Integer(n))
    } else {
        Err(ErrView::Overflow)
    }
}

/// What a binary operator yields on two integer operands. Arithmetic that
/// leaves the 64-bit signed range is the overflow error; division by zero is
/// its own error; comparisons yield booleans.
pub open spec fn apply_op(op: BinOp, a: int, b: int) -> Result<ExprView, ErrView> {
    match op {
        BinOp::Add => fit_i64(a + b),
        BinOp::Sub => fit_i64(a - b),
        BinOp::Mul => fit_i64(a * b),
        BinOp::Div => if b == 0 {
            Err(ErrView::DivisionByZero)
        } else {
            fit_i64(trunc_div(a, b))
        },
        BinOp::Less => Ok(ExprView::Bool(a < b)),
        BinOp::Greater => Ok(ExprView::Bool(a > b)),
        BinOp::Equal => Ok(ExprView::Bool(a == b)),
        BinOp::NotEqual => Ok(ExprView::Bool(a != b)),
    }
}

/// The parameter names of a lambda's parameter list, or `None` if some
/// element is not a symbol.
pub open spec fn spec_params(ps: Seq<ExprView>) -> Option<Seq<Seq<char>>>
    decreases ps.len(),
{
    if ps.len() == 0 {
        Some(Seq::empty())
    } else {
        match ps[0] {
            ExprView::Symbol(s) => match spec_params(ps.drop_first()) {
                Some(rest) => Some(seq![s] + rest),
                None => None,
            },
            _ => None,
        }
    }
}

/// What the `lambda` special form yields: the lambda value built from the
/// parameter list and the body list, or the error naming the malformed part.
/// The environment is never touched and the body is not evaluated.
pub open spec fn spec_eval_lambda(items: Seq<ExprView>) -> Result<ExprView, ErrView> {
    if items.len() != 3 {
        Err(ErrView::ArityError)
    } else {
        match items[1] {
            ExprView::List(ps) => match spec_params(ps) {
                Some(names) => match items[2] {
                    ExprView::List(body) => Ok(ExprView::Lambda(names, body)),
                    _ => Err(ErrView::TypeError(TypeFault::LambdaBody)),
                },
                None => Err(ErrView::TypeError(TypeFault::LambdaParams)),
            },
            _ => Err(ErrView::TypeError(TypeFault::LambdaParams)),
        }
    }
}

/// What evaluating an expression yields, and the environment it leaves
/// behind. `fuel` bounds the depth of nested evaluations; an evaluation
/// deeper than the budget yields the depth error.
pub open spec fn spec_eval(e: ExprView, env: EnvView, scope: int, fuel: nat) -> (Result<
    ExprView,
    ErrView,
>, EnvView)
    decreases fuel, 4int, 0int,
{
    if fuel == 0 {
        (Err(ErrView::DepthExceeded), env)
    } else {
        match e {
            ExprView::Void => (Ok(ExprView::Void), env),
            ExprView::Lambda(ps, body) => (Ok(ExprView::Void), env),
            ExprView::Integer(n) => (Ok(ExprView::Integer(n)), env),
            ExprView::Bool(b) => (Ok(ExprView::Bool(b)), env),
            ExprView::Symbol(s) => (
                match env_lookup(env, scope, s) {
                    Some(v) => Ok(v),
                    None => Err(ErrView::UnboundSymbol(s)),
                },
                env,
            ),
            ExprView::List(items) => spec_eval_list(items, env, scope, fuel),
        }
    }
}

/// Dispatch on the head of a list under evaluation: a binary operator, a
/// special form, a function call, or, for a non-symbol head, element-wise
/// evaluation with `Void` results dropped.
pub open spec fn spec_eval_list(items: Seq<ExprView>, env: EnvView, scope: int, fuel: nat) -> (
    Result<ExprView, ErrView>,
    EnvView,
)
    decreases fuel, 3int, 0int,
{
    if items.len() == 0 {
        (Err(ErrView::EmptyList), env)
    } else {
        match items[0] {
            ExprView::Symbol(s) => match op_of(s) {
                Some(op) => spec_eval_binop(op, items, env, scope, fuel),
                None => if s == "define"@ {
                    spec_eval_define(items, env, scope, fuel)
                } else if s == "if"@ {
                    spec_eval_if(items, env, scope, fuel)
                } else if s == "lambda"@ {
                    (spec_eval_lambda(items), env)
                } else {
                    spec_eval_call(s, items, env, scope, fuel)
                },
            },
            _ => {
                let (r, env2) = spec_eval_elems(items, 0, env, scope, fuel);
                match r {
                    Ok(vs) => (Ok(ExprView::List(vs)), env2),
                    Err(e) => (Err(e), env2),
                }
            },
        }
    }
}

/// A binary operator form: exactly two operands, evaluated left to right;
/// both must yield integers, and the operator is applied to them.
pub open spec fn spec_eval_binop(op: BinOp, items: Seq<ExprView>, env: EnvView, scope: int, fuel: nat) -> (
    Result<ExprView, ErrView>,
    EnvView,
)
    decreases fuel, 2int, 0int,
{
    if fuel == 0 {
        (Err(ErrView::DepthExceeded), env)
    } else if items.len() != 3 {
        (Err(ErrView::ArityError), env)
    } else {
        let (r1, env1) = spec_eval(items[1], env, scope, (fuel - 1) as nat);
        match r1 {
            Err(e) => (Err(e), env1),
            Ok(lv) => {
                let (r2, env2) = spec_eval(items[2], env1, scope, (fuel - 1) as nat);
                match r2 {
                    Err(e) => (Err(e), env2),
                    Ok(rv) => match (lv, rv) {
                        (ExprView::Integer(a), ExprView::Integer(b)) => (apply_op(op, a, b), env2),
                        (ExprView::Integer(a), _) => (Err(ErrView::TypeError(TypeFault::RightOperand)), env2),
                        _ => (Err(ErrView::TypeError(TypeFault::LeftOperand)), env2),
                    },
                }
            },
        }
    }
}

/// The `define` form: exactly a symbol and a value expression; the value is
/// evaluated in the current scope and bound there, and the form yields
/// `Void`.
pub open spec fn spec_eval_define(items: Seq<ExprView>, env: EnvView, scope: int, fuel: nat) -> (
    Result<ExprView, ErrView>,
    EnvView,
)
    decreases fuel, 2int, 0int,
{
    if fuel == 0 {
        (Err(ErrView::DepthExceeded), env)
    } else if items.len() != 3 {
        (Err(ErrView::ArityError), env)
    } else {
        match items[1] {
            ExprView::Symbol(name) => {
                let (r, env1) = spec_eval(items[2], env, scope, (fuel - 1) as nat);
                match r {
                    Err(e) => (Err(e), env1),
                    Ok(v) => (Ok(ExprView::Void), env_set(env1, scope, name, v)),
                }
            },
            _ => (Err(ErrView::TypeError(TypeFault::DefineName)), env),
        }
    }
}

/// The `if` form: exactly a condition and two branches; the condition must
/// yield a boolean, and exactly the taken branch is evaluated.
pub open spec fn spec_eval_if(items: Seq<ExprView>, env: EnvView, scope: int, fuel: nat) -> (
    Result<ExprView, ErrView>,
    EnvView,
)
    decreases fuel, 2int, 0int,
{
    if fuel == 0 {
        (Err(ErrView::DepthExceeded), env)
    } else if items.len() != 4 {
        (Err(ErrView::ArityError), env)
    } else {
        let (rc, env1) = spec_eval(items[1], env, scope, (fuel - 1) as nat);
        match rc {
            Err(e) => (Err(e), env1),
            Ok(ExprView::Bool(b)) => spec_eval(
                if b {
                    items[2]
                } else {
                    items[3]
                },
                env1,
                scope,
                (fuel - 1) as nat,
            ),
            Ok(_) => (Err(ErrView::TypeError(TypeFault::Condition)), env1),
        }
    }
}

/// A function call: the head symbol must resolve, in the calling scope's
/// chain, to a lambda of matching arity. Arguments are evaluated left to
/// right in the calling scope; a fresh child of the calling scope binds the
/// parameters; the body is evaluated in that child as an implicit list.
pub open spec fn spec_eval_call(s: Seq<char>, items: Seq<ExprView>, env: EnvView, scope: int, fuel: nat) -> (
    Result<ExprView, ErrView>,
    EnvView,
)
    decreases fuel, 2int, 0int,
{
    if fuel == 0 {
        (Err(ErrView::DepthExceeded), env)
    } else {
        match env_lookup(env, scope, s) {
            None => (Err(ErrView::UnboundSymbol(s)), env),
            Some(ExprView::Lambda(params, body)) => {
                if params.len() != items.len() - 1 {
                    (Err(ErrView::ArityError), env)
                } else {
                    let child = env.nodes.len() as int;
                    let env1 = env_extend(env, scope);
                    let (berr, env2) = spec_bind_args(params, items, 0, env1, scope, child, fuel);
                    match berr {
                        Some(e) => (Err(e), env2),
                        None => spec_eval(ExprView::List(body), env2, child, (fuel - 1) as nat),
                    }
                }
            },
            Some(_) => (Err(ErrView::NotCallable(s)), env),
        }
    }
}

/// Binds the parameters from `params[k]` on: each argument `items[k + 1]`
/// is evaluated in the calling scope and bound in the child scope.
pub open spec fn spec_bind_args(
    params: Seq<Seq<char>>,
    items: Seq<ExprView>,
    k: int,
    env: EnvView,
    scope: int,
    child: int,
    fuel: nat,
) -> (Option<ErrView>, EnvView)
    decreases fuel, 1int, params.len() - k,
{
    if fuel == 0 {
        (Some(ErrView::DepthExceeded), env)
    } else if k < 0 || k >= params.len() {
        (None, env)
    } else {
        let (r, env1) = spec_eval(items[k + 1], env, scope, (fuel - 1) as nat);
        match r {
            Err(e) => (Some(e), env1),
            Ok(v) => spec_bind_args(params, items, k + 1, env_set(env1, child, params[k], v), scope, child, fuel),
        }
    }
}

/// Evaluates the elements from `items[k]` on, left to right, stopping at the
/// first error; results equal to `Void` are dropped from the yielded list.
pub open spec fn spec_eval_elems(items: Seq<ExprView>, k: int, env: EnvView, scope: int, fuel: nat) -> (
    Result<Seq<ExprView>, ErrView>,
    EnvView,
)
    decreases fuel, 1int, items.len() - k,
{
    if fuel == 0 {
        (Err(ErrView::DepthExceeded), env)
    } else if k < 0 || k >= items.len() {
        (Ok(Seq::empty()), env)
    } else {
        let (r, env1) = spec_eval(items[k], env, scope, (fuel - 1) as nat);
        match r {
            Err(e) => (Err(e), env1),
            Ok(v) => {
                let (rest, env2) = spec_eval_elems(items, k + 1, env1, scope, fuel);
                match rest {
                    Err(e) => (Err(e), env2),
                    Ok(vs) => (
                        Ok(
                            if v is Void {
                                vs
                            } else {
                                seq![v] + vs
                            },
                        ),
                        env2,
                    ),
                }
            },
        }
    }
}


/// The operator a symbol names, if any.
fn binop_of(s: &String) -> (o: Option<BinOp>)
    ensures
        o == op_of(s@),
{
    if *s == String::from_str("+") {
        Some(BinOp::Add)
    } else if *s == String::from_str("-") {
        Some(BinOp::Sub)
    } else if *s == String::from_str("*") {
        Some(BinOp::Mul)
    } else if *s == String::from_str("/") {
        Some(BinOp::Div)
    } else if *s == String::from_str("<") {
        Some(BinOp::Less)
    } else if *s == String::from_str(">") {
        Some(BinOp::Greater)
    } else if *s == String::from_str("=") {
        Some(BinOp::Equal)
    } else if *s == String::from_str("!=") {
        Some(BinOp::NotEqual)
    } else {
        None
    }
}

/// Whether a symbol is the given keyword.
fn sym_is(s: &String, w: &str) -> (r: bool)
    ensures
        r == (s@ == w@),
{
    *s == String::from_str(w)
}

/// Evaluates an expression against the scope `scope` of the arena.
///
/// `fuel` bounds the depth of nested evaluations: every recursive descent
/// spends one unit, and running out yields the depth error rather than
/// unbounded recursion.
pub fn eval(obj: &Object, env: &mut Env, scope: usize, fuel: u64) -> (r: Result<Object, EvalError>)
    requires
        env_wf(old(env)@),
        scope < old(env)@.nodes.len(),
    ensures
        env_wf(final(env)@),
        old(env)@.nodes.len() <= final(env)@.nodes.len(),
        ({
            let (sr, se) = spec_eval(obj@, old(env)@, scope as int, fuel as nat);
            res_view(r) == sr && final(env)@ == se
        }),
    decreases fuel as nat, 4int, 0int,
{
    if fuel == 0 {
        return Err(EvalError::DepthExceeded);
    }
    match obj {
        Object::Void => Ok(Object::Void),
        Object::Lambda(_, _) => Ok(Object::Void),
        Object::Bool(b) => Ok(Object::Bool(*b)),
        Object::Integer(n) => Ok(Object::Integer(*n)),
        Object::Symbol(s) => eval_symbol(s, env, scope),
        Object::List(list) => eval_list(list, env, scope, fuel),
    }
}

/// Resolves a symbol in the scope chain; a miss is the unbound-symbol error.
fn eval_symbol(s: &String, env: &Env, scope: usize) -> (r: Result<Object, EvalError>)
    requires
        env_wf(env@),
        scope < env@.nodes.len(),
    ensures
        res_view(r) == match env_lookup(env@, scope as int, s@) {
            Some(v) => Ok::<ExprView, ErrView>(v),
            None => Err::<ExprView, ErrView>(ErrView::UnboundSymbol(s@)),
        },
{
    match env.get(scope, s.as_str()) {
        Some(v) => Ok(v),
        None => Err(EvalError::UnboundSymbol(s.clone())),
    }
}

/// Dispatches a list under evaluation on its head.
fn eval_list(list: &Vec<Object>, env: &mut Env, scope: usize, fuel: u64) -> (r: Result<Object, EvalError>)
    requires
        env_wf(old(env)@),
        scope < old(env)@.nodes.len(),
        fuel >= 1,
    ensures
        env_wf(final(env)@),
        old(env)@.nodes.len() <= final(env)@.nodes.len(),
        ({
            let (sr, se) = spec_eval_list(exprs_view(list@), old(env)@, scope as int, fuel as nat);
            res_view(r) == sr && final(env)@ == se
        }),
    decreases fuel as nat, 3int, 0int,
{
    broadcast use lemma_exprs_view_elems;

    if list.len() == 0 {
        return Err(EvalError::EmptyList);
    }
    match &list[0] {
        Object::Symbol(s) => {
            match binop_of(s) {
                Some(op) => eval_binary_op(op, list, env, scope, fuel),
                None => {
                    if sym_is(s, "define") {
                        eval_define(list, env, scope, fuel)
                    } else if sym_is(s, "if") {
                        eval_if(list, env, scope, fuel)
                    } else if sym_is(s, "lambda") {
                        eval_function_definition(list)
                    } else {
                        eval_function_call(s, list, env, scope, fuel)
                    }
                },
            }
        },
        _ => {
            match eval_elems(list, 0, env, scope, fuel) {
                Ok(vs) => Ok(Object::List(vs)),
                Err(e) => Err(e),
            }
        },
    }
}

/// The `define` form: binds a symbol to the value of an expression in the
/// current scope and yields `Void`.
fn eval_define(list: &Vec<Object>, env: &mut Env, scope: usize, fuel: u64) -> (r: Result<Object, EvalError>)
    requires
        env_wf(old(env)@),
        scope < old(env)@.nodes.len(),
        fuel >= 1,
    ensures
        env_wf(final(env)@),
        old(env)@.nodes.len() <= final(env)@.nodes.len(),
        ({
            let (sr, se) = spec_eval_define(exprs_view(list@), old(env)@, scope as int, fuel as nat);
            res_view(r) == sr && final(env)@ == se
        }),
    decreases fuel as nat, 2int, 0int,
{
    broadcast use lemma_exprs_view_elems;

    if list.len() != 3 {
        return Err(EvalError::ArityError);
    }
    match &list[1] {
        Object::Symbol(name) => {
            match eval(&list[2], env, scope, fuel - 1) {
                Err(e) => Err(e),
                Ok(val) => {
                    env.set(scope, name.as_str(), val);
                    Ok(Object::Void)
                },
            }
        },
        _ => Err(EvalError::TypeError(TypeFault::DefineName)),
    }
}

/// A binary operator form: both operands are evaluated left to right and
/// must be integers; the operator is applied with explicit overflow and
/// division-by-zero errors.
fn eval_binary_op(op: BinOp, list: &Vec<Object>, env: &mut Env, scope: usize, fuel: u64) -> (r: Result<
    Object,
    EvalError,
>)
    requires
        env_wf(old(env)@),
        scope < old(env)@.nodes.len(),
        fuel >= 1,
    ensures
        env_wf(final(env)@),
        old(env)@.nodes.len() <= final(env)@.nodes.len(),
        ({
            let (sr, se) = spec_eval_binop(op, exprs_view(list@), old(env)@, scope as int, fuel as nat);
            res_view(r) == sr && final(env)@ == se
        }),
    decreases fuel as nat, 2int, 0int,
{
    broadcast use lemma_exprs_view_elems;

    if list.len() != 3 {
        return Err(EvalError::ArityError);
    }
    let left = match eval(&list[1], env, scope, fuel - 1) {
        Ok(v) => v,
        Err(e) => {
            return Err(e);
        },
    };
    let right = match eval(&list[2], env, scope, fuel - 1) {
        Ok(v) => v,
        Err(e) => {
            return Err(e);
        },
    };
    let a = match left {
        Object::Integer(n) => n,
        _ => {
            return Err(EvalError::TypeError(TypeFault::LeftOperand));
        },
    };
    let b = match right {
        Object::Integer(n) => n,
        _ => {
            return Err(EvalError::TypeError(TypeFault::RightOperand));
        },
    };
    match op {
        BinOp::Add => match a.checked_add(b) {
            Some(v) => Ok(Object::Integer(v)),
            None => Err(EvalError::Overflow),
        },
        BinOp::Sub => match a.checked_sub(b) {
            Some(v) => Ok(Object::Integer(v)),
            None => Err(EvalError::Overflow),
        },
        BinOp::Mul => match a.checked_mul(b) {
            Some(v) => Ok(Object::Integer(v)),
            None => Err(EvalError::Overflow),
        },
        BinOp::Div => {
            if b == 0 {
                Err(EvalError::DivisionByZero)
            } else {
                match a.checked_div(b) {
                    Some(v) => Ok(Object::Integer(v)),
                    None => Err(EvalError::Overflow),
                }
            }
        },
        BinOp::Less => Ok(Object::Bool(a < b)),
        BinOp::Greater => Ok(Object::Bool(a > b)),
        BinOp::Equal => Ok(Object::Bool(a == b)),
        BinOp::NotEqual => Ok(Object::Bool(a != b)),
    }
}

/// The `if` form: the condition must yield a boolean, and only the taken
/// branch is evaluated.
fn eval_if(list: &Vec<Object>, env: &mut Env, scope: usize, fuel: u64) -> (r: Result<Object, EvalError>)
    requires
        env_wf(old(env)@),
        scope < old(env)@.nodes.len(),
        fuel >= 1,
    ensures
        env_wf(final(env)@),
        old(env)@.nodes.len() <= final(env)@.nodes.len(),
        ({
            let (sr, se) = spec_eval_if(exprs_view(list@), old(env)@, scope as int, fuel as nat);
            res_view(r) == sr && final(env)@ == se
        }),
    decreases fuel as nat, 2int, 0int,
{
    broadcast use lemma_exprs_view_elems;

    if list.len() != 4 {
        return Err(EvalError::ArityError);
    }
    match eval(&list[1], env, scope, fuel - 1) {
        Err(e) => Err(e),
        Ok(Object::Bool(b)) => {
            if b {
                eval(&list[2], env, scope, fuel - 1)
            } else {
                eval(&list[3], env, scope, fuel - 1)
            }
        },
        Ok(_) => Err(EvalError::TypeError(TypeFault::Condition)),
    }
}

/// The parameter names of a lambda's parameter list, or `None` if some
/// element is not a symbol.
#[verifier::loop_isolation(false)]
fn extract_params(ps: &Vec<Object>) -> (r: Option<Vec<String>>)
    ensures
        match r {
            Some(names) => spec_params(exprs_view(ps@)) == Some(names.deep_view()),
            None => spec_params(exprs_view(ps@)) is None,
        },
{
    broadcast use lemma_exprs_view_elems;

    let ghost psv = exprs_view(ps@);
    let mut names: Vec<String> = Vec::new();
    let mut i: usize = 0;
    proof {
        assert(psv.skip(0) =~= psv);
    }
    while i < ps.len()
        invariant
            i <= ps@.len(),
            names@.len() == i,
            match spec_params(psv.skip(i as int)) {
                Some(rest) => spec_params(psv) == Some(names.deep_view() + rest),
                None => spec_params(psv) is None,
            },
        decreases ps@.len() - i,
    {
        match &ps[i] {
            Object::Symbol(s) => {
                let ghost pre = names.deep_view();
                let ghost sv = s@;
                names.push(s.clone());
                proof {
                    assert(psv.skip(i as int)[0] == ExprView::Symbol(sv));
                    assert(psv.skip(i as int).drop_first() =~= psv.skip(i as int + 1));
                    assert(names.deep_view() =~= pre + seq![sv]);
                    match spec_params(psv.skip(i as int + 1)) {
                        Some(rest) => {
                            assert((pre + (seq![sv] + rest)) =~= ((pre + seq![sv]) + rest));
                        },
                        None => {},
                    }
                }
                i += 1;
            },
            _ => {
                proof {
                    assert(psv.skip(i as int)[0] == psv[i as int]);
                }
                return None;
            },
        }
    }
    proof {
        assert(psv.skip(i as int) =~= Seq::<ExprView>::empty());
        assert(names.deep_view() + Seq::<Seq<char>>::empty() =~= names.deep_view());
    }
    Some(names)
}

/// The `lambda` form: builds a lambda value from the parameter list and the
/// body list without evaluating either.
fn eval_function_definition(list: &Vec<Object>) -> (r: Result<Object, EvalError>)
    ensures
        res_view(r) == spec_eval_lambda(exprs_view(list@)),
{
    broadcast use lemma_exprs_view_elems;

    if list.len() != 3 {
        return Err(EvalError::ArityError);
    }
    let params: Vec<String> = match &list[1] {
        Object::List(ps) => {
            match extract_params(ps) {
                Some(names) => names,
                None => {
                    return Err(EvalError::TypeError(TypeFault::LambdaParams));
                },
            }
        },
        _ => {
            return Err(EvalError::TypeError(TypeFault::LambdaParams));
        },
    };
    match &list[2] {
        Object::List(body) => Ok(Object::Lambda(params, clone_objects(body))),
        _ => Err(EvalError::TypeError(TypeFault::LambdaBody)),
    }
}

/// A function call: the head must resolve to a lambda of matching arity;
/// arguments are evaluated in the calling scope, bound in a fresh child
/// scope, and the body is evaluated there as an implicit list.
fn eval_function_call(s: &String, list: &Vec<Object>, env: &mut Env, scope: usize, fuel: u64) -> (r: Result<
    Object,
    EvalError,
>)
    requires
        env_wf(old(env)@),
        scope < old(env)@.nodes.len(),
        fuel >= 1,
        list@.len() >= 1,
    ensures
        env_wf(final(env)@),
        old(env)@.nodes.len() <= final(env)@.nodes.len(),
        ({
            let (sr, se) = spec_eval_call(s@, exprs_view(list@), old(env)@, scope as int, fuel as nat);
            res_view(r) == sr && final(env)@ == se
        }),
    decreases fuel as nat, 2int, 0int,
{
    broadcast use lemma_exprs_view_elems;

    let lam = env.get(scope, s.as_str());
    match lam {
        None => Err(EvalError::UnboundSymbol(s.clone())),
        Some(Object::Lambda(params, body)) => {
            if params.len() != list.len() - 1 {
                return Err(EvalError::ArityError);
            }
            let child = env.extend(scope);
            match bind_args(&params, list, 0, env, scope, child, fuel) {
                Some(e) => Err(e),
                None => {
                    let body_list = Object::List(body);
                    eval(&body_list, env, child, fuel - 1)
                },
            }
        },
        Some(_) => Err(EvalError::NotCallable(s.clone())),
    }
}

/// Binds the parameters from `params[k]` on: each argument is evaluated in
/// the calling scope and bound in the child scope.
fn bind_args(
    params: &Vec<String>,
    list: &Vec<Object>,
    k: usize,
    env: &mut Env,
    scope: usize,
    child: usize,
    fuel: u64,
) -> (r: Option<EvalError>)
    requires
        env_wf(old(env)@),
        scope < old(env)@.nodes.len(),
        child < old(env)@.nodes.len(),
        fuel >= 1,
        k <= params@.len(),
        params@.len() < list@.len(),
    ensures
        env_wf(final(env)@),
        old(env)@.nodes.len() <= final(env)@.nodes.len(),
        ({
            let (berr, se) = spec_bind_args(
                params.deep_view(),
                exprs_view(list@),
                k as int,
                old(env)@,
                scope as int,
                child as int,
                fuel as nat,
            );
            (match r {
                Some(e) => Some(e@),
                None => None::<ErrView>,
            }) == berr && final(env)@ == se
        }),
    decreases fuel as nat, 1int, params@.len() - k,
{
    broadcast use lemma_exprs_view_elems;

    if k == params.len() {
        return None;
    }
    match eval(&list[k + 1], env, scope, fuel - 1) {
        Err(e) => Some(e),
        Ok(v) => {
            env.set(child, params[k].as_str(), v);
            bind_args(params, list, k + 1, env, scope, child, fuel)
        },
    }
}

/// Evaluates the elements from `list[k]` on, left to right, stopping at the
/// first error; results equal to `Void` are dropped.
fn eval_elems(list: &Vec<Object>, k: usize, env: &mut Env, scope: usize, fuel: u64) -> (r: Result<
    Vec<Object>,
    EvalError,
>)
    requires
        env_wf(old(env)@),
        scope < old(env)@.nodes.len(),
        fuel >= 1,
        k <= list@.len(),
    ensures
        env_wf(final(env)@),
        old(env)@.nodes.len() <= final(env)@.nodes.len(),
        ({
            let (sr, se) = spec_eval_elems(exprs_view(list@), k as int, old(env)@, scope as int, fuel as nat);
            (match r {
                Ok(vs) => Ok::<Seq<ExprView>, ErrView>(exprs_view(vs@)),
                Err(e) => Err::<Seq<ExprView>, ErrView>(e@),
            }) == sr && final(env)@ == se
        }),
    decreases fuel as nat, 1int, list@.len() - k,
{
    broadcast use lemma_exprs_view_elems;

    if k == list.len() {
        let empty: Vec<Object> = Vec::new();
        proof {
            assert(exprs_view(empty@) =~= Seq::<ExprView>::empty());
        }
        return Ok(empty);
    }
    match eval(&list[k], env, scope, fuel - 1) {
        Err(e) => Err(e),
        Ok(v) => {
            let ghost vv = v@;
            match eval_elems(list, k + 1, env, scope, fuel) {
                Err(e) => Err(e),
                Ok(mut vs) => {
                    match v {
                        Object::Void => Ok(vs),
                        other => {
                            let ghost pre = vs@;
                            vs.insert(0, other);
                            proof {
                                assert(exprs_view(vs@) =~= seq![vv] + exprs_view(pre));
                            }
                            Ok(vs)
                        },
                    }
                },
            }
        },
    }
}


impl EvalError {
    /// The printable description of this error.
    pub fn message(&self) -> (r: String)
        ensures
            match self {
                EvalError::UnboundSymbol(s) => r@ == "Unbound symbol: "@ + s@,
                EvalError::NotCallable(s) => r@ == "Not a lambda: "@ + s@,
                EvalError::ArityError => r@ == "Invalid number of arguments"@,
                EvalError::TypeError(f) => r@ == match f {
                    TypeFault::LeftOperand => "Left operand must be an integer"@,
                    TypeFault::RightOperand => "Right operand must be an integer"@,
                    TypeFault::Condition => "Condition must be boolean"@,
                    TypeFault::DefineName => "Invalid define"@,
                    TypeFault::LambdaParams => "Invalid lambda parameter"@,
                    TypeFault::LambdaBody => "Invalid lambda"@,
                },
                EvalError::DivisionByZero => r@ == "Division by zero"@,
                EvalError::Overflow => r@ == "Integer overflow"@,
                EvalError::DepthExceeded => r@ == "Recursion depth exceeded"@,
                EvalError::EmptyList => r@ == "Cannot evaluate an empty list"@,
            },
    {
        match self {
            EvalError::UnboundSymbol(s) => String::from_str("Unbound symbol: ").concat(s.as_str()),
            EvalError::NotCallable(s) => String::from_str("Not a lambda: ").concat(s.as_str()),
            EvalError::ArityError => String::from_str("Invalid number of arguments"),
            EvalError::TypeError(TypeFault::LeftOperand) => String::from_str("Left operand must be an integer"),
            EvalError::TypeError(TypeFault::RightOperand) => String::from_str("Right operand must be an integer"),
            EvalError::TypeError(TypeFault::Condition) => String::from_str("Condition must be boolean"),
            EvalError::TypeError(TypeFault::DefineName) => String::from_str("Invalid define"),
            EvalError::TypeError(TypeFault::LambdaParams) => String::from_str("Invalid lambda parameter"),
            EvalError::TypeError(TypeFault::LambdaBody) => String::from_str("Invalid lambda"),
            EvalError::DivisionByZero => String::from_str("Division by zero"),
            EvalError::Overflow => String::from_str("Integer overflow"),
            EvalError::DepthExceeded => String::from_str("Recursion depth exceeded"),
            EvalError::EmptyList => String::from_str("Cannot evaluate an empty list"),
        }
    }
}

/// Law: a binding made by `define` is immediately visible — looking the
/// name up in the scope it was bound in yields exactly the bound value.
pub proof fn lemma_set_then_lookup(env: EnvView, scope: int, name: Seq<char>, val: ExprView)
    requires
        0 <= scope < env.nodes.len(),
    ensures
        env_lookup(env_set(env, scope, name, val), scope, name) == Some(val),
{
    let env2 = env_set(env, scope, name, val);
    assert(env2.nodes[scope].vars.last() == (name, val));
}

/// Law: `set` writes to the named scope alone — every other scope of the
/// arena is left exactly as it was, so a child's `define` never reaches an
/// ancestor.
pub proof fn lemma_set_leaves_other_scopes(env: EnvView, scope: int, name: Seq<char>, val: ExprView, other: int)
    requires
        0 <= scope < env.nodes.len(),
        0 <= other < env.nodes.len(),
        other != scope,
    ensures
        env_set(env, scope, name, val).nodes[other] == env.nodes[other],
{
}

/// Law: the `if` form evaluates only the taken branch. When the condition
/// evaluates to the boolean `b`, the whole form evaluates exactly as the
/// taken branch alone does, starting from the environment the condition
/// left behind — the untaken branch is never evaluated, so no binding it
/// would make can appear.
pub proof fn lemma_if_takes_one_branch(
    cond: ExprView,
    thn: ExprView,
    els: ExprView,
    env: EnvView,
    scope: int,
    fuel: nat,
    b: bool,
)
    requires
        fuel >= 1,
        spec_eval(cond, env, scope, (fuel - 1) as nat).0 == Ok::<ExprView, ErrView>(ExprView::Bool(b)),
    ensures
        spec_eval(ExprView::List(seq![ExprView::Symbol("if"@), cond, thn, els]), env, scope, fuel)
            == spec_eval(
            if b {
                thn
            } else {
                els
            },
            spec_eval(cond, env, scope, (fuel - 1) as nat).1,
            scope,
            (fuel - 1) as nat,
        ),
{
    reveal_strlit("if");
    reveal_strlit("+");
    reveal_strlit("-");
    reveal_strlit("*");
    reveal_strlit("/");
    reveal_strlit("<");
    reveal_strlit(">");
    reveal_strlit("=");
    reveal_strlit("!=");
    reveal_strlit("define");
    reveal_strlit("lambda");
    let items = seq![ExprView::Symbol("if"@), cond, thn, els];
    assert(items[0] == ExprView::Symbol("if"@));
    assert(items.len() == 4);
    assert("if"@ =~= seq!['i', 'f']);
    assert("define"@.len() == 6);
    assert(op_of("if"@) is None);
    assert("if"@ != "define"@);
    assert("if"@ != "lambda"@);
    assert(items[1] == cond && items[2] == thn && items[3] == els);
}

} // verus!
