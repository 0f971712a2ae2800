//! Partial evaluation of expressions.
//!
//! Evaluation substitutes variables and memory cells and folds every operation
//! whose operands became numbers. The complex arithmetic of a fold is not done
//! here: the caller hands in a table of results it has already computed, and
//! evaluation either completes or names the first operation whose result is
//! missing. The caller computes that one, adds it to the table and evaluates
//! again.
use vstd::prelude::*;
use crate::complex::Complex;
use crate::expression::{
    EvaluationError, Expression, ExpressionFunction, InfixOperator, MemoryReference, PrefixOperator,
};
use crate::table::NameTable;

verus! {

/// The bit pattern of the binary64 value nearest to pi.
pub const PI_BITS: u64 = 0x4009_21fb_5444_2d18;

/// The bit pattern of the binary64 value nearest to minus pi.
pub const NEG_PI_BITS: u64 = 0xc009_21fb_5444_2d18;

/// The sign bit of a binary64 bit pattern.
pub const SIGN_BIT: u64 = 0x8000_0000_0000_0000;

/// Values of variables, by name.
pub type EvaluationEnvironment = NameTable<Complex>;

/// Contents of memory regions, by name: the bit patterns of binary64 values.
pub type PatchValues = NameTable<Vec<u64>>;

/// A complex operation on numbers that evaluation needs the result of.
#[derive(Clone, Copy, Debug, PartialEq, Eq, Structural)]
pub enum NumericOperation {
    /// A function applied to a number; `cis(x)` stands for `cos(x) + i sin(x)`.
    Function { function: ExpressionFunction, argument: Complex },
    /// A binary operator applied to two numbers; `^` is complex exponentiation.
    Infix { left: Complex, operator: InfixOperator, right: Complex },
}

/// Results of numeric operations, computed by the caller.
pub struct NumericResults {
    entries: Vec<(NumericOperation, Complex)>,
}

/// The map that a list of results describes; a later entry replaces an earlier one.
pub open spec fn results_map(entries: Seq<(NumericOperation, Complex)>) -> Map<
    NumericOperation,
    Complex,
>
    decreases entries.len(),
{
    if entries.len() == 0 {
        Map::empty()
    } else {
        results_map(entries.drop_last()).insert(entries.last().0, entries.last().1)
    }
}

impl View for NumericResults {
    type V = Map<NumericOperation, Complex>;

    closed spec fn view(&self) -> Map<NumericOperation, Complex> {
        results_map(self.entries@)
    }
}

impl NumericResults {
    /// An empty table of results.
    pub fn new() -> (r: Self)
        ensures
            r@ == Map::<NumericOperation, Complex>::empty(),
    {
        NumericResults { entries: Vec::new() }
    }

    /// Records the result of `operation`.
    pub fn insert(&mut self, operation: NumericOperation, result: Complex)
        ensures
            final(self)@ == old(self)@.insert(operation, result),
    {
        self.entries.push((operation, result));
        assert(self.entries@.drop_last() =~= old(self).entries@);
    }

    /// The recorded result of `operation`, if any.
    pub fn get(&self, operation: &NumericOperation) -> (r: Option<Complex>)
        ensures
            match r {
                Some(c) => self@.contains_key(*operation) && c == self@[*operation],
                None => !self@.contains_key(*operation),
            },
    {
        let mut i: usize = self.entries.len();
        assert(self.entries@.take(i as int) =~= self.entries@);
        while i > 0
            invariant
                i <= self.entries@.len(),
                self@.contains_key(*operation) == results_map(
                    self.entries@.take(i as int),
                ).contains_key(*operation),
                self@.contains_key(*operation) ==> self@[*operation] == results_map(
                    self.entries@.take(i as int),
                )[*operation],
            decreases i,
        {
            let ghost prefix = self.entries@.take(i as int);
            assert(prefix.drop_last() =~= self.entries@.take(i - 1));
            assert(prefix.last() == self.entries@[i - 1]);
            if self.entries[i - 1].0 == *operation {
                return Some(self.entries[i - 1].1);
            }
            i = i - 1;
        }
        None
    }
}

/// Pi as a complex number.
pub open spec fn pi_complex() -> Complex {
    Complex { re: PI_BITS, im: 0 }
}

/// The number that an evaluated expression stands for, if it is a number or pi.
pub open spec fn numeric_value(e: Expression) -> Option<Complex> {
    match e {
        Expression::Number(c) => Some(c),
        Expression::PiConstant => Some(pi_complex()),
        _ => None,
    }
}

/// The negation of a complex number: both parts change sign.
pub open spec fn negated(c: Complex) -> Complex {
    Complex { re: c.re ^ SIGN_BIT, im: c.im ^ SIGN_BIT }
}

/// The negation of an evaluated operand: minus pi has a zero imaginary part.
pub open spec fn negation_of(e: Expression) -> Complex {
    match e {
        Expression::PiConstant => Complex { re: NEG_PI_BITS, im: 0 },
        Expression::Number(c) => negated(c),
        _ => Complex { re: 0, im: 0 },
    }
}

/// Whether an infix node with these evaluated operands folds to a number:
/// both are numbers, or one is a number and the other pi.
pub open spec fn infix_folds(l: Expression, r: Expression) -> bool {
    (l is Number && r is Number) || (l is PiConstant && r is Number) || (l is Number
        && r is PiConstant)
}

/// The number that `operation` yields according to `results`, or the
/// operation itself where its result is missing.
pub open spec fn fold(operation: NumericOperation, results: Map<NumericOperation, Complex>) -> Result<
    Expression,
    NumericOperation,
> {
    if results.contains_key(operation) {
        Ok(Expression::Number(results[operation]))
    } else {
        Err(operation)
    }
}

/// The memory cell `name[index]`, if the patch values hold it, as a real number.
pub open spec fn patched(
    patches: Option<Map<Seq<char>, Vec<u64>>>,
    name: Seq<char>,
    index: u64,
) -> Option<Complex> {
    match patches {
        Some(p) => if p.contains_key(name) && index < p[name]@.len() {
            Some(Complex { re: p[name]@[index as int], im: 0 })
        } else {
            None
        },
        None => None,
    }
}

/// The result of evaluating `e`: the reduced expression, or the first numeric
/// operation (operands before their node, left before right) whose result
/// `results` lacks.
pub open spec fn evaluated(
    e: Expression,
    env: Map<Seq<char>, Complex>,
    patches: Option<Map<Seq<char>, Vec<u64>>>,
    results: Map<NumericOperation, Complex>,
) -> Result<Expression, NumericOperation>
    decreases e,
{
    match e {
        Expression::Address(m) => match patched(patches, m.name@, m.index) {
            Some(c) => Ok(Expression::Number(c)),
            None => Ok(e),
        },
        Expression::FunctionCall { function, expression } => match evaluated(
            *expression,
            env,
            patches,
            results,
        ) {
            Err(op) => Err(op),
            Ok(x) => match numeric_value(x) {
                Some(c) => fold(NumericOperation::Function { function, argument: c }, results),
                None => Ok(Expression::FunctionCall { function, expression: Box::new(x) }),
            },
        },
        Expression::Infix { left, operator, right } => match evaluated(
            *left,
            env,
            patches,
            results,
        ) {
            Err(op) => Err(op),
            Ok(l) => match evaluated(*right, env, patches, results) {
                Err(op) => Err(op),
                Ok(r) => if infix_folds(l, r) {
                    fold(
                        NumericOperation::Infix {
                            left: numeric_value(l).unwrap(),
                            operator,
                            right: numeric_value(r).unwrap(),
                        },
                        results,
                    )
                } else {
                    Ok(Expression::Infix { left: Box::new(l), operator, right: Box::new(r) })
                },
            },
        },
        Expression::Number(c) => Ok(e),
        Expression::PiConstant => Ok(e),
        Expression::Prefix { operator, expression } => match evaluated(
            *expression,
            env,
            patches,
            results,
        ) {
            Err(op) => Err(op),
            Ok(x) => match operator {
                PrefixOperator::Plus => Ok(x),
                PrefixOperator::Minus => if numeric_value(x) is Some {
                    Ok(Expression::Number(negation_of(x)))
                } else {
                    Ok(Expression::Prefix { operator, expression: Box::new(x) })
                },
            },
        },
        Expression::Variable(v) => if env.contains_key(v@) {
            Ok(Expression::Number(env[v@]))
        } else {
            Ok(e)
        },
    }
}

/// The number that a fully evaluated expression stands for, or `Incomplete`
/// where free variables or memory cells remain.
pub open spec fn complex_of(e: Expression) -> Result<Complex, EvaluationError> {
    match numeric_value(e) {
        Some(c) => Ok(c),
        None => Err(EvaluationError::Incomplete),
    }
}

/// The view of optional patch values.
pub open spec fn patches_view(p: Option<&PatchValues>) -> Option<Map<Seq<char>, Vec<u64>>> {
    match p {
        Some(t) => Some(t@),
        None => None,
    }
}

fn numeric_value_of(e: &Expression) -> (r: Option<Complex>)
    ensures
        r == numeric_value(*e),
{
    match e {
        Expression::Number(c) => Some(*c),
        Expression::PiConstant => Some(Complex { re: PI_BITS, im: 0 }),
        _ => None,
    }
}

fn negation(e: &Expression) -> (r: Complex)
    ensures
        r == negation_of(*e),
{
    match e {
        Expression::PiConstant => Complex { re: NEG_PI_BITS, im: 0 },
        Expression::Number(c) => Complex { re: c.re ^ SIGN_BIT, im: c.im ^ SIGN_BIT },
        _ => Complex { re: 0, im: 0 },
    }
}

fn fold_with(operation: NumericOperation, results: &NumericResults) -> (r: Result<
    Expression,
    NumericOperation,
>)
    ensures
        r == fold(operation, results@),
{
    match results.get(&operation) {
        Some(c) => Ok(Expression::Number(c)),
        None => Err(operation),
    }
}

fn patched_value(patch_values: Option<&PatchValues>, m: &MemoryReference) -> (r: Option<Complex>)
    ensures
        r == patched(patches_view(patch_values), m.name@, m.index),
{
    match patch_values {
        Some(p) => match p.get(&m.name) {
            Some(values) => {
                if m.index < values.len() as u64 {
                    let i = m.index as usize;
                    Some(Complex { re: values[i], im: 0 })
                } else {
                    None
                }
            },
            None => None,
        },
        None => None,
    }
}

impl Expression {
    /// Simplifies this expression as far as `environment`, `patch_values` and
    /// the computed `results` allow. Returns the simplified expression, or the
    /// numeric operation whose result is needed next.
    pub fn evaluate(
        &self,
        environment: &EvaluationEnvironment,
        patch_values: Option<&PatchValues>,
        results: &NumericResults,
    ) -> (r: Result<Expression, NumericOperation>)
        ensures
            r == evaluated(*self, environment@, patches_view(patch_values), results@),
        decreases self,
    {
        match self {
            Expression::Address(m) => match patched_value(patch_values, m) {
                Some(c) => Ok(Expression::Number(c)),
                None => Ok(self.clone()),
            },
            Expression::FunctionCall { function, expression } => {
                match expression.evaluate(environment, patch_values, results) {
                    Err(op) => Err(op),
                    Ok(x) => match numeric_value_of(&x) {
                        Some(c) => fold_with(
                            NumericOperation::Function { function: *function, argument: c },
                            results,
                        ),
                        None => Ok(Expression::FunctionCall { function: *function, expression: Box::new(x) }),
                    },
                }
            },
            Expression::Infix { left, operator, right } => {
                match left.evaluate(environment, patch_values, results) {
                    Err(op) => Err(op),
                    Ok(l) => match right.evaluate(environment, patch_values, results) {
                        Err(op) => Err(op),
                        Ok(r) => {
                            let folds = match (&l, &r) {
                                (Expression::Number(_), Expression::Number(_)) => true,
                                (Expression::PiConstant, Expression::Number(_)) => true,
                                (Expression::Number(_), Expression::PiConstant) => true,
                                _ => false,
                            };
                            match (folds, numeric_value_of(&l), numeric_value_of(&r)) {
                                (true, Some(a), Some(b)) => fold_with(
                                    NumericOperation::Infix { left: a, operator: *operator, right: b },
                                    results,
                                ),
                                _ => Ok(
                                    Expression::Infix {
                                        left: Box::new(l),
                                        operator: *operator,
                                        right: Box::new(r),
                                    },
                                ),
                            }
                        },
                    },
                }
            },
            Expression::Number(c) => Ok(Expression::Number(*c)),
            Expression::PiConstant => Ok(Expression::PiConstant),
            Expression::Prefix { operator, expression } => {
                match expression.evaluate(environment, patch_values, results) {
                    Err(op) => Err(op),
                    Ok(x) => match operator {
                        PrefixOperator::Plus => Ok(x),
                        PrefixOperator::Minus => {
                            if numeric_value_of(&x).is_some() {
                                Ok(Expression::Number(negation(&x)))
                            } else {
                                Ok(Expression::Prefix { operator: *operator, expression: Box::new(x) })
                            }
                        },
                    },
                }
            },
            Expression::Variable(v) => match environment.get(v) {
                Some(c) => Ok(Expression::Number(*c)),
                None => Ok(self.clone()),
            },
        }
    }

    /// Evaluates this expression and expects a single number: pi or a number
    /// comes back as `Ok`, any other residue as `Err(Incomplete)`. The outer
    /// `Err` names the numeric operation whose result is needed next.
    pub fn evaluate_to_complex(
        &self,
        environment: &EvaluationEnvironment,
        patch_values: Option<&PatchValues>,
        results: &NumericResults,
    ) -> (r: Result<Result<Complex, EvaluationError>, NumericOperation>)
        ensures
            r == match evaluated(*self, environment@, patches_view(patch_values), results@) {
                Ok(x) => Ok(complex_of(x)),
                Err(op) => Err(op),
            },
    {
        match self.evaluate(environment, patch_values, results) {
            Ok(x) => Ok(x.as_complex()),
            Err(op) => Err(op),
        }
    }

    /// The number that this expression stands for, if it is a number or pi.
    pub fn as_complex(&self) -> (r: Result<Complex, EvaluationError>)
        ensures
            r == complex_of(*self),
    {
        match numeric_value_of(self) {
            Some(c) => Ok(c),
            None => Err(EvaluationError::Incomplete),
        }
    }
}

/// An operation that evaluation asks for is one whose result `results` lacks,
/// so each round of adding the requested result makes progress.
pub proof fn lemma_requested_result_is_missing(
    e: Expression,
    env: Map<Seq<char>, Complex>,
    patches: Option<Map<Seq<char>, Vec<u64>>>,
    results: Map<NumericOperation, Complex>,
)
    ensures
        evaluated(e, env, patches, results) is Err ==> !results.contains_key(
            evaluated(e, env, patches, results)->Err_0,
        ),
    decreases e,
{
    match e {
        Expression::FunctionCall { function, expression } => {
            lemma_requested_result_is_missing(*expression, env, patches, results);
        },
        Expression::Infix { left, operator, right } => {
            lemma_requested_result_is_missing(*left, env, patches, results);
            lemma_requested_result_is_missing(*right, env, patches, results);
        },
        Expression::Prefix { operator, expression } => {
            lemma_requested_result_is_missing(*expression, env, patches, results);
        },
        _ => {},
    }
}

/// Evaluation never fails: with the result of every numeric operation at
/// hand, it yields an expression for every expression, environment and
/// patch table.
pub proof fn lemma_evaluation_total(
    e: Expression,
    env: Map<Seq<char>, Complex>,
    patches: Option<Map<Seq<char>, Vec<u64>>>,
    results: Map<NumericOperation, Complex>,
)
    requires
        forall|op: NumericOperation| results.contains_key(op),
    ensures
        evaluated(e, env, patches, results) is Ok,
{
    lemma_requested_result_is_missing(e, env, patches, results);
}

/// The number of function calls and binary nodes in `e`: the operations
/// that evaluation may fold.
pub open spec fn fold_nodes(e: Expression) -> nat
    decreases e,
{
    match e {
        Expression::FunctionCall { expression, .. } => fold_nodes(*expression) + 1,
        Expression::Infix { left, right, .. } => fold_nodes(*left) + fold_nodes(*right) + 1,
        Expression::Prefix { expression, .. } => fold_nodes(*expression),
        _ => 0,
    }
}

/// How many of those nodes evaluate completely under `results`.
pub open spec fn completed_nodes(
    e: Expression,
    env: Map<Seq<char>, Complex>,
    patches: Option<Map<Seq<char>, Vec<u64>>>,
    results: Map<NumericOperation, Complex>,
) -> nat
    decreases e,
{
    let own: nat = if evaluated(e, env, patches, results) is Ok {
        1
    } else {
        0
    };
    match e {
        Expression::FunctionCall { expression, .. } => completed_nodes(
            *expression,
            env,
            patches,
            results,
        ) + own,
        Expression::Infix { left, right, .. } => completed_nodes(*left, env, patches, results)
            + completed_nodes(*right, env, patches, results) + own,
        Expression::Prefix { expression, .. } => completed_nodes(*expression, env, patches, results),
        _ => 0,
    }
}

/// A completed evaluation stays as it was when a result it did not use is added.
pub proof fn lemma_new_result_keeps_completed(
    e: Expression,
    env: Map<Seq<char>, Complex>,
    patches: Option<Map<Seq<char>, Vec<u64>>>,
    results: Map<NumericOperation, Complex>,
    op: NumericOperation,
    value: Complex,
)
    requires
        !results.contains_key(op),
        evaluated(e, env, patches, results) is Ok,
    ensures
        evaluated(e, env, patches, results.insert(op, value)) == evaluated(e, env, patches, results),
        completed_nodes(e, env, patches, results.insert(op, value)) == completed_nodes(
            e,
            env,
            patches,
            results,
        ),
    decreases e,
{
    match e {
        Expression::FunctionCall { expression, .. } => {
            lemma_new_result_keeps_completed(*expression, env, patches, results, op, value);
        },
        Expression::Infix { left, right, .. } => {
            lemma_new_result_keeps_completed(*left, env, patches, results, op, value);
            lemma_new_result_keeps_completed(*right, env, patches, results, op, value);
        },
        Expression::Prefix { expression, .. } => {
            lemma_new_result_keeps_completed(*expression, env, patches, results, op, value);
        },
        _ => {},
    }
}

/// At most every function call and binary node completes.
pub proof fn lemma_completed_nodes_bounded(
    e: Expression,
    env: Map<Seq<char>, Complex>,
    patches: Option<Map<Seq<char>, Vec<u64>>>,
    results: Map<NumericOperation, Complex>,
)
    ensures
        completed_nodes(e, env, patches, results) <= fold_nodes(e),
    decreases e,
{
    match e {
        Expression::FunctionCall { expression, .. } => {
            lemma_completed_nodes_bounded(*expression, env, patches, results);
        },
        Expression::Infix { left, right, .. } => {
            lemma_completed_nodes_bounded(*left, env, patches, results);
            lemma_completed_nodes_bounded(*right, env, patches, results);
        },
        Expression::Prefix { expression, .. } => {
            lemma_completed_nodes_bounded(*expression, env, patches, results);
        },
        _ => {},
    }
}

/// Adding a result never undoes a completed node.
pub proof fn lemma_completed_nodes_grow(
    e: Expression,
    env: Map<Seq<char>, Complex>,
    patches: Option<Map<Seq<char>, Vec<u64>>>,
    results: Map<NumericOperation, Complex>,
    op: NumericOperation,
    value: Complex,
)
    requires
        !results.contains_key(op),
    ensures
        completed_nodes(e, env, patches, results.insert(op, value)) >= completed_nodes(
            e,
            env,
            patches,
            results,
        ),
    decreases e,
{
    if evaluated(e, env, patches, results) is Ok {
        lemma_new_result_keeps_completed(e, env, patches, results, op, value);
    }
    match e {
        Expression::FunctionCall { expression, .. } => {
            lemma_completed_nodes_grow(*expression, env, patches, results, op, value);
        },
        Expression::Infix { left, right, .. } => {
            lemma_completed_nodes_grow(*left, env, patches, results, op, value);
            lemma_completed_nodes_grow(*right, env, patches, results, op, value);
        },
        Expression::Prefix { expression, .. } => {
            lemma_completed_nodes_grow(*expression, env, patches, results, op, value);
        },
        _ => {},
    }
}

/// Evaluation always finishes: each request, answered with any value,
/// completes one more function call or binary node, and there are
/// `fold_nodes(e)` of them. So after at most that many answers, evaluation
/// yields an expression for every expression, environment and patch table.
pub proof fn lemma_answered_request_makes_progress(
    e: Expression,
    env: Map<Seq<char>, Complex>,
    patches: Option<Map<Seq<char>, Vec<u64>>>,
    results: Map<NumericOperation, Complex>,
    value: Complex,
)
    requires
        evaluated(e, env, patches, results) is Err,
    ensures
        completed_nodes(
            e,
            env,
            patches,
            results.insert(evaluated(e, env, patches, results)->Err_0, value),
        ) > completed_nodes(e, env, patches, results),
        completed_nodes(
            e,
            env,
            patches,
            results.insert(evaluated(e, env, patches, results)->Err_0, value),
        ) <= fold_nodes(e),
    decreases e,
{
    let op = evaluated(e, env, patches, results)->Err_0;
    let more = results.insert(op, value);
    lemma_requested_result_is_missing(e, env, patches, results);
    lemma_completed_nodes_grow(e, env, patches, results, op, value);
    lemma_completed_nodes_bounded(e, env, patches, more);
    match e {
        Expression::FunctionCall { expression, .. } => {
            let x = *expression;
            if evaluated(x, env, patches, results) is Err {
                lemma_answered_request_makes_progress(x, env, patches, results, value);
            } else {
                lemma_new_result_keeps_completed(x, env, patches, results, op, value);
            }
        },
        Expression::Infix { left, right, .. } => {
            let l = *left;
            let r = *right;
            lemma_completed_nodes_grow(l, env, patches, results, op, value);
            lemma_completed_nodes_grow(r, env, patches, results, op, value);
            if evaluated(l, env, patches, results) is Err {
                lemma_answered_request_makes_progress(l, env, patches, results, value);
            } else {
                lemma_new_result_keeps_completed(l, env, patches, results, op, value);
                if evaluated(r, env, patches, results) is Err {
                    lemma_answered_request_makes_progress(r, env, patches, results, value);
                } else {
                    lemma_new_result_keeps_completed(r, env, patches, results, op, value);
                }
            }
        },
        Expression::Prefix { expression, .. } => {
            lemma_answered_request_makes_progress(*expression, env, patches, results, value);
        },
        _ => {},
    }
}

/// No variable of `e` has a value in `env`, and no memory cell of `e` is held
/// by `patches`.
pub open spec fn nothing_to_substitute(
    e: Expression,
    env: Map<Seq<char>, Complex>,
    patches: Option<Map<Seq<char>, Vec<u64>>>,
) -> bool
    decreases e,
{
    match e {
        Expression::Address(m) => patched(patches, m.name@, m.index) is None,
        Expression::FunctionCall { expression, .. } => nothing_to_substitute(*expression, env, patches),
        Expression::Infix { left, right, .. } => nothing_to_substitute(*left, env, patches)
            && nothing_to_substitute(*right, env, patches),
        Expression::Prefix { expression, .. } => nothing_to_substitute(*expression, env, patches),
        Expression::Variable(v) => !env.contains_key(v@),
        _ => true,
    }
}

/// Evaluation substitutes every variable that has a value and every memory
/// cell that the patch values hold.
pub proof fn lemma_evaluation_substitutes_all(
    e: Expression,
    env: Map<Seq<char>, Complex>,
    patches: Option<Map<Seq<char>, Vec<u64>>>,
    results: Map<NumericOperation, Complex>,
)
    requires
        evaluated(e, env, patches, results) is Ok,
    ensures
        nothing_to_substitute(evaluated(e, env, patches, results)->Ok_0, env, patches),
    decreases e,
{
    match e {
        Expression::FunctionCall { expression, .. } => {
            lemma_evaluation_substitutes_all(*expression, env, patches, results);
        },
        Expression::Infix { left, right, .. } => {
            lemma_evaluation_substitutes_all(*left, env, patches, results);
            lemma_evaluation_substitutes_all(*right, env, patches, results);
        },
        Expression::Prefix { expression, .. } => {
            lemma_evaluation_substitutes_all(*expression, env, patches, results);
        },
        _ => {},
    }
}

/// Evaluating an evaluated expression again, under the same environment,
/// patch values and results, changes nothing: a number stays that number.
pub proof fn lemma_evaluation_idempotent(
    e: Expression,
    env: Map<Seq<char>, Complex>,
    patches: Option<Map<Seq<char>, Vec<u64>>>,
    results: Map<NumericOperation, Complex>,
)
    requires
        evaluated(e, env, patches, results) is Ok,
    ensures
        evaluated(evaluated(e, env, patches, results)->Ok_0, env, patches, results)
            == evaluated(e, env, patches, results),
    decreases e,
{
    match e {
        Expression::FunctionCall { function, expression } => {
            lemma_evaluation_idempotent(*expression, env, patches, results);
        },
        Expression::Infix { left, operator, right } => {
            lemma_evaluation_idempotent(*left, env, patches, results);
            lemma_evaluation_idempotent(*right, env, patches, results);
        },
        Expression::Prefix { operator, expression } => {
            lemma_evaluation_idempotent(*expression, env, patches, results);
        },
        _ => {},
    }
}

} // verus!
