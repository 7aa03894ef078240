use vstd::prelude::*;
use vstd::string::*;

use crate::text::{push_signed_decimal, signed_decimal};

verus! {

/// The result of using the solver to solve an expression.
#[derive(Clone, Copy, Debug, PartialEq, Eq, Structural, Hash)]
pub enum SmtResult {
    /// There is an assignment of values to the free variables for which the expression is true.
    Satisfiable,
    /// There is a proof that no assignment of values to the free variables can make the expression true.
    Unsatisfiable,
    /// The solver gave up (for instance, it ran out of time) while trying to solve this expression.
    Undefined,
}

/// One value that the solver reported for a free variable.
#[derive(Clone, Copy, Debug, PartialEq, Eq, Structural, Hash)]
#[allow(inconsistent_fields)]
pub enum SmtParamValue {
    Bool { val: bool },
    Numeral { val: i128 },
    Unknown,
}

/// The text that stands for a model value in generated code: a literal, or `_` when
/// the value could not be recovered.
pub open spec fn value_text(v: SmtParamValue) -> Seq<char> {
    match v {
        SmtParamValue::Bool { val } => if val { seq!['t', 'r', 'u', 'e'] } else { seq!['f', 'a', 'l', 's', 'e'] },
        SmtParamValue::Numeral { val } => signed_decimal(val as int),
        SmtParamValue::Unknown => seq!['_'],
    }
}

impl SmtParamValue {
    /// Renders the value as it appears in generated code.
    pub fn to_text(&self) -> (r: String)
        ensures
            r@ == value_text(*self),
    {
        let mut out = String::new();
        match self {
            SmtParamValue::Bool { val } => {
                if *val {
                    proof { reveal_strlit("true"); }
                    out.append("true");
                } else {
                    proof { reveal_strlit("false"); }
                    out.append("false");
                }
            },
            SmtParamValue::Numeral { val } => {
                push_signed_decimal(&mut out, *val);
            },
            SmtParamValue::Unknown => {
                proof { reveal_strlit("_"); }
                out.append("_");
            },
        }
        assert(out@ =~= value_text(*self));
        out
    }
}

/// Any of the verifier's values that a model parameter may stand for: an access path
/// (an index into a `PathArena`), an abstract value, an expression, a tag or a constant.
#[derive(Clone, Debug)]
pub enum Combined<V, X, T, C> {
    Path { val: usize },
    AbstractValue { val: V },
    Expression { val: X },
    Tag { val: T },
    ConstantDomain { val: C },
    Solver {},
}

impl<V, X, T, C> From<usize> for Combined<V, X, T, C> {
    fn from(val: usize) -> (r: Self) {
        Combined::Path { val }
    }
}

impl<V, X, T, C> vstd::std_specs::convert::FromSpecImpl<usize> for Combined<V, X, T, C> {
    open spec fn obeys_from_spec() -> bool {
        true
    }

    open spec fn from_spec(val: usize) -> Self {
        Combined::Path { val }
    }
}

/// A free variable of a satisfying assignment, as the test generator reads it.
pub trait SmtParam: Sized {
    /// The display name of the variable.
    spec fn spec_name(&self) -> Seq<char>;

    /// The access path the variable stands for, if it is known.
    spec fn spec_path(&self) -> Option<usize>;

    /// The value the solver gave the variable.
    spec fn spec_val(&self) -> SmtParamValue;

    fn get_name(&self) -> (r: String)
        ensures
            r@ == self.spec_name(),
    ;

    fn get_path(&self) -> (r: Option<usize>)
        ensures
            r == self.spec_path(),
    ;

    fn get_val(&self) -> (r: SmtParamValue)
        ensures
            r == self.spec_val(),
    ;

    fn get_initializer(&self) -> Option<String>;

    fn get_debug_string(&self) -> String;
}

/// A model parameter: one free variable of a satisfying assignment, with the access
/// path (an index into a `PathArena`) it stands for and its value.
#[derive(Debug)]
pub struct ModelParam {
    pub name: String,
    pub path: Option<usize>,
    pub value: SmtParamValue,
    pub initializer: Option<String>,
}

impl ModelParam {
    pub fn new(name: String, path: Option<usize>, value: SmtParamValue, initializer: Option<String>) -> (r: Self)
        ensures
            r.name == name,
            r.path == path,
            r.value == value,
            r.initializer == initializer,
    {
        ModelParam { name, path, value, initializer }
    }
}

impl SmtParam for ModelParam {
    open spec fn spec_name(&self) -> Seq<char> {
        self.name@
    }

    open spec fn spec_path(&self) -> Option<usize> {
        self.path
    }

    open spec fn spec_val(&self) -> SmtParamValue {
        self.value
    }

    fn get_name(&self) -> (r: String) {
        self.name.clone()
    }

    fn get_path(&self) -> (r: Option<usize>) {
        self.path
    }

    fn get_val(&self) -> (r: SmtParamValue) {
        self.value
    }

    fn get_initializer(&self) -> Option<String> {
        match &self.initializer {
            Some(s) => Some(s.clone()),
            None => None,
        }
    }

    fn get_debug_string(&self) -> String {
        self.name.clone()
    }
}

/// Largest number of nested contexts that may be open at once.
pub const MAX_BACKTRACK_DEPTH: usize = 1000;

/// The context stack after a new, empty nested context is opened.
pub open spec fn pushed<E>(contexts: Seq<Seq<E>>) -> Seq<Seq<E>> {
    contexts.push(Seq::empty())
}

/// The context stack after `e` is asserted in the innermost context.
pub open spec fn asserted<E>(contexts: Seq<Seq<E>>, e: E) -> Seq<Seq<E>> {
    contexts.update(contexts.len() - 1, contexts.last().push(e))
}

/// The context stack after the innermost context is discarded.
pub open spec fn popped<E>(contexts: Seq<Seq<E>>) -> Seq<Seq<E>> {
    contexts.drop_last()
}

/// The context stack after `n` nested contexts are opened.
pub open spec fn pushed_n<E>(contexts: Seq<Seq<E>>, n: nat) -> Seq<Seq<E>>
    decreases n,
{
    if n == 0 {
        contexts
    } else {
        pushed(pushed_n(contexts, (n - 1) as nat))
    }
}

/// Number of nested contexts open above the root context.
pub open spec fn depth<E>(contexts: Seq<Seq<E>>) -> int {
    contexts.len() - 1
}

/// Whether one more nested context may be opened.
pub open spec fn may_push<E>(contexts: Seq<Seq<E>>) -> bool {
    depth(contexts) < MAX_BACKTRACK_DEPTH
}

/// All predicates asserted in any active context, outermost first.
pub open spec fn all_asserted<E>(contexts: Seq<Seq<E>>) -> Seq<E>
    decreases contexts.len(),
{
    if contexts.len() == 0 {
        Seq::empty()
    } else {
        all_asserted(contexts.drop_last()) + contexts.last()
    }
}

/// The context stack of a solver with nothing asserted and no nested context.
pub open spec fn root_only<E>() -> Seq<Seq<E>> {
    seq![Seq::empty()]
}

/// One call of the context protocol.
pub enum SolverOp<E> {
    Assert(E),
    Push,
    Pop,
}

/// The context stack after one call.
pub open spec fn apply_op<E>(contexts: Seq<Seq<E>>, op: SolverOp<E>) -> Seq<Seq<E>> {
    match op {
        SolverOp::Assert(e) => asserted(contexts, e),
        SolverOp::Push => pushed(contexts),
        SolverOp::Pop => popped(contexts),
    }
}

/// The context stack after a sequence of calls.
pub open spec fn run_ops<E>(contexts: Seq<Seq<E>>, ops: Seq<SolverOp<E>>) -> Seq<Seq<E>>
    decreases ops.len(),
{
    if ops.len() == 0 {
        contexts
    } else {
        apply_op(run_ops(contexts, ops.drop_last()), ops.last())
    }
}

/// Pushes less pops in a sequence of calls.
pub open spec fn net_depth<E>(ops: Seq<SolverOp<E>>) -> int
    decreases ops.len(),
{
    if ops.len() == 0 {
        0
    } else {
        net_depth(ops.drop_last()) + match ops.last() {
            SolverOp::Push => 1int,
            SolverOp::Pop => -1int,
            SolverOp::Assert(_) => 0int,
        }
    }
}

/// Whether no call of the sequence pops a context that the sequence did not push.
pub open spec fn never_below<E>(ops: Seq<SolverOp<E>>) -> bool {
    forall|k: int| 0 <= k <= ops.len() ==> net_depth(#[trigger] ops.take(k)) >= 0
}

proof fn lemma_run_ops_keeps_base<E>(contexts: Seq<Seq<E>>, ops: Seq<SolverOp<E>>)
    requires
        contexts.len() > 0,
        never_below(ops),
    ensures
        run_ops(pushed(contexts), ops).len() == contexts.len() + 1 + net_depth(ops),
        run_ops(pushed(contexts), ops).take(contexts.len() as int) == contexts,
    decreases ops.len(),
{
    let n = contexts.len() as int;
    if ops.len() == 0 {
        assert(pushed(contexts).take(n) =~= contexts);
    } else {
        let prefix = ops.drop_last();
        assert forall|k: int| 0 <= k <= prefix.len() implies net_depth(#[trigger] prefix.take(k)) >= 0 by {
            assert(prefix.take(k) =~= ops.take(k));
        }
        lemma_run_ops_keeps_base(contexts, prefix);
        assert(ops.take(ops.len() as int) =~= ops);
        assert(ops.drop_last() =~= prefix);
        let before = run_ops(pushed(contexts), prefix);
        let after = run_ops(pushed(contexts), ops);
        assert(after.take(n) =~= contexts);
    }
}

/// Opening a nested context, making any sequence of calls that pops no more contexts
/// than it pushes and leaves none of its own open, and backtracking leaves the context
/// stack, and so the set of asserted predicates, as it was before.
pub proof fn lemma_backtrack_symmetry<E>(contexts: Seq<Seq<E>>, ops: Seq<SolverOp<E>>)
    requires
        contexts.len() > 0,
        never_below(ops),
        net_depth(ops) == 0,
    ensures
        run_ops(pushed(contexts), ops).len() == contexts.len() + 1,
        popped(run_ops(pushed(contexts), ops)) == contexts,
        all_asserted(popped(run_ops(pushed(contexts), ops))) == all_asserted(contexts),
{
    lemma_run_ops_keeps_base(contexts, ops);
    let r = run_ops(pushed(contexts), ops);
    assert(popped(r) =~= r.take(contexts.len() as int));
}

/// Whether each call of a sequence meets its precondition when the calls are made, in
/// order, on the given context stack.
pub open spec fn ops_allowed<E>(contexts: Seq<Seq<E>>, ops: Seq<SolverOp<E>>) -> bool {
    &&& contexts.len() > 0
    &&& forall|k: int|
        0 <= k < ops.len() ==> match #[trigger] ops[k] {
            SolverOp::Push => may_push(run_ops(contexts, ops.take(k))),
            SolverOp::Pop => run_ops(contexts, ops.take(k)).len() > 1,
            SolverOp::Assert(_) => true,
        }
}

proof fn lemma_run_ops_nonempty<E>(contexts: Seq<Seq<E>>, ops: Seq<SolverOp<E>>, k: int)
    requires
        ops_allowed(contexts, ops),
        0 <= k <= ops.len(),
    ensures
        run_ops(contexts, ops.take(k)).len() > 0,
    decreases k,
{
    if k > 0 {
        lemma_run_ops_nonempty(contexts, ops, k - 1);
        assert(ops.take(k).drop_last() =~= ops.take(k - 1));
    } else {
        assert(ops.take(0) =~= Seq::<SolverOp<E>>::empty());
    }
}

/// Makes the given protocol calls on a solver, in order: its context stack then is
/// what the calls make of it.
pub fn apply_ops<E, S: SmtSolver<E>>(solver: &mut S, ops: &Vec<SolverOp<E>>)
    requires
        ops_allowed(old(solver).contexts(), ops@),
    ensures
        final(solver).contexts() == run_ops(old(solver).contexts(), ops@),
{
    let ghost c0 = solver.contexts();
    let mut i: usize = 0;
    assert(ops@.take(0) =~= Seq::<SolverOp<E>>::empty());
    while i < ops.len()
        invariant
            i <= ops@.len(),
            ops_allowed(c0, ops@),
            solver.contexts() == run_ops(c0, ops@.take(i as int)),
        decreases ops@.len() - i,
    {
        proof {
            lemma_run_ops_nonempty(c0, ops@, i as int);
            assert(ops@.take(i + 1).drop_last() =~= ops@.take(i as int));
            assert(ops@.take(i + 1).last() == ops@[i as int]);
        }
        match &ops[i] {
            SolverOp::Assert(e) => solver.assert_predicate(e),
            SolverOp::Push => solver.set_backtrack_position(),
            SolverOp::Pop => solver.backtrack(),
        }
        i = i + 1;
    }
    assert(ops@.take(i as int) =~= ops@);
}

/// Opening `n` nested contexts over a bare root context leaves `n` of them open.
pub proof fn lemma_pushed_n_depth<E>(n: nat)
    ensures
        depth(pushed_n(root_only::<E>(), n)) == n,
    decreases n,
{
    if n > 0 {
        lemma_pushed_n_depth::<E>((n - 1) as nat);
    }
}

/// From a fresh solver, the thousandth nested context may be opened, and a thousand
/// and first may not.
pub proof fn lemma_depth_bound<E>()
    ensures
        may_push(pushed_n(root_only::<E>(), 999)),
        !may_push(pushed_n(root_only::<E>(), 1000)),
{
    lemma_pushed_n_depth::<E>(999);
    lemma_pushed_n_depth::<E>(1000);
}

/// The functionality that a solver must expose in order to be driven by the verifier.
///
/// A solver's state is a stack of contexts, the root context first; each holds the
/// predicates that were asserted while it was innermost.
pub trait SmtSolver<SmtExpressionType>: Sized {
    /// The stack of active contexts, the root context first.
    spec fn contexts(&self) -> Seq<Seq<SmtExpressionType>>;

    /// Whether `r` is an answer the solver may give for the conjunction of the
    /// predicates in the given context stack.
    spec fn answers(contexts: Seq<Seq<SmtExpressionType>>, r: SmtResult) -> bool;

    /// Returns a string representation of the given expression for use in debugging.
    fn as_debug_string(&self, expression: &SmtExpressionType) -> String;

    /// Adds the given expression to the current context.
    fn assert_predicate(&mut self, expression: &SmtExpressionType)
        requires
            old(self).contexts().len() > 0,
        ensures
            final(self).contexts() == asserted(old(self).contexts(), *expression),
    ;

    /// Discards all contexts and predicates, leaving a single empty root context.
    fn reset(&mut self)
        ensures
            final(self).contexts() == root_only::<SmtExpressionType>(),
    ;

    /// Destroy the current context and restore the containing context as current.
    fn backtrack(&mut self)
        requires
            old(self).contexts().len() > 1,
        ensures
            final(self).contexts() == popped(old(self).contexts()),
    ;

    /// Translate the verifier's symbolic expression into a corresponding expression for the solver.
    fn get_as_smt_predicate<Expression>(&self, expression: &Expression) -> SmtExpressionType;

    /// Provides a string that contains a set of variable assignments that satisfied the
    /// assertions in the solver.
    fn get_model_as_string(&self) -> String;

    /// The model parameters of the last satisfying assignment that are reachable from
    /// the given expression.
    fn get_model_params<Expression>(&self, expression: &Expression) -> Vec<ModelParam>;

    /// Provides a string that contains a listing of all of the definitions and assertions that
    /// have been added to the solver.
    fn get_solver_state_as_string(&self) -> String;

    /// Returns an expression that is the logical inverse of the given expression.
    fn invert_predicate(&self, expression: &SmtExpressionType) -> SmtExpressionType;

    /// Create a nested context. When a matching backtrack is called, the current context (state)
    /// of the solver will be restored to what it was when this was called.
    fn set_backtrack_position(&mut self)
        requires
            old(self).contexts().len() > 0,
            may_push(old(self).contexts()),
        ensures
            final(self).contexts() == pushed(old(self).contexts()),
    ;

    /// Try to find an assignment of values to the free variables so that the assertions in the
    /// current context are all true.
    fn solve(&mut self) -> (result: SmtResult)
        ensures
            final(self).contexts() == old(self).contexts(),
            Self::answers(old(self).contexts(), result),
    ;

    /// Establish if the given expression can be satisfied (or not) without changing the
    /// current context.
    fn solve_expression(&mut self, expression: &SmtExpressionType) -> (result: SmtResult)
        requires
            old(self).contexts().len() > 0,
            may_push(old(self).contexts()),
        ensures
            final(self).contexts() == old(self).contexts(),
            Self::answers(asserted(pushed(old(self).contexts()), *expression), result),
    {
        self.set_backtrack_position();
        self.assert_predicate(expression);
        let result = self.solve();
        self.backtrack();
        proof {
            let c = old(self).contexts();
            assert(popped(asserted(pushed(c), *expression)) =~= c);
        }
        result
    }
}

/// A solver that decides nothing, for configurations where no real solver is available.
///
/// It keeps track of the protocol's context stack in ghost state only: every `solve`
/// gives `Undefined` and no model parameters are ever reported.
pub struct SolverStub {
    contexts: Ghost<Seq<Seq<usize>>>,
}

impl SolverStub {
    pub fn new() -> (r: Self)
        ensures
            r.contexts() == root_only::<usize>(),
    {
        SolverStub { contexts: Ghost(root_only::<usize>()) }
    }
}

impl Default for SolverStub {
    fn default() -> (r: Self)
        ensures
            r.contexts() == root_only::<usize>(),
    {
        SolverStub::new()
    }
}

impl SmtSolver<usize> for SolverStub {
    closed spec fn contexts(&self) -> Seq<Seq<usize>> {
        self.contexts@
    }

    /// The stub decides nothing: its only answer is `Undefined`.
    open spec fn answers(contexts: Seq<Seq<usize>>, r: SmtResult) -> bool {
        r == SmtResult::Undefined
    }

    fn as_debug_string(&self, expression: &usize) -> (r: String)
        ensures
            r@ == "not implemented"@,
    {
        String::from_str("not implemented")
    }

    fn assert_predicate(&mut self, expression: &usize) {
        self.contexts = Ghost(asserted(self.contexts@, *expression));
    }

    fn reset(&mut self) {
        self.contexts = Ghost(root_only::<usize>());
    }

    fn backtrack(&mut self) {
        self.contexts = Ghost(popped(self.contexts@));
    }

    fn get_as_smt_predicate<Expression>(&self, expression: &Expression) -> (r: usize)
        ensures
            r == 0,
    {
        0
    }

    fn get_model_as_string(&self) -> (r: String)
        ensures
            r@ == "not implemented"@,
    {
        String::from_str("not implemented")
    }

    fn get_model_params<Expression>(&self, expression: &Expression) -> (r: Vec<ModelParam>)
        ensures
            r@.len() == 0,
    {
        Vec::new()
    }

    fn get_solver_state_as_string(&self) -> (r: String)
        ensures
            r@ == "not implemented"@,
    {
        String::from_str("not implemented")
    }

    fn invert_predicate(&self, expression: &usize) -> (r: usize)
        ensures
            r == 0,
    {
        0
    }

    fn set_backtrack_position(&mut self) {
        self.contexts = Ghost(pushed(self.contexts@));
    }

    fn solve(&mut self) -> (r: SmtResult)
        ensures
            r == SmtResult::Undefined,
    {
        SmtResult::Undefined
    }
}

} // verus!
