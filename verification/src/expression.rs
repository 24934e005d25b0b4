//! The expression tree and its evaluation semantics.
//!
//! The specification functions in this module are the mathematical meaning
//! of a formula: `spec_eval` gives the value of a tree under a mapping from
//! component id to optional value, and `spec_components` gives the set of
//! component ids the tree mentions. The executable methods are verified to
//! return exactly these.

use vstd::prelude::*;

use crate::error::FormulaError;
use crate::traits::NumberLike;
use std::collections::HashMap;
use std::collections::HashSet;

verus! {

/// A binary arithmetic operator.
#[derive(Clone, Copy, Debug)]
pub enum Op {
    Add,
    Sub,
    Mul,
    Div,
}

/// A built-in function of the formula language.
#[derive(Clone, Copy, Debug)]
pub enum Function {
    Coalesce,
    Min,
    Max,
}

/// An immutable expression tree, built once from a formula string and
/// evaluated repeatedly.
#[derive(Debug)]
pub enum Expr<T> {
    /// A constant; `None` only arises if a numeric literal failed to parse
    /// as `T`, which the parser of this crate reports as an error instead.
    Value(Option<T>),
    /// Unary minus.
    UnaryMinus(Box<Expr<T>>),
    /// A binary operator applied to two sub-expressions.
    Op { lhs: Box<Expr<T>>, op: Op, rhs: Box<Expr<T>> },
    /// A built-in function applied to an ordered, non-empty argument list.
    Function { function: Function, args: Vec<Expr<T>> },
    /// A placeholder resolved at evaluation time against a values mapping.
    Component(usize),
}

/// The mathematical shape of an expression tree: the same variants as
/// [`Expr`], with the heap indirection erased and the argument list of a
/// function call held as a sequence. The parser's specification functions
/// describe the tree they require in this shape; `expr_view` maps a built
/// tree to it.
pub enum ExprV<T> {
    /// A constant.
    Value(Option<T>),
    /// Unary minus.
    UnaryMinus(Box<ExprV<T>>),
    /// A binary operator applied to two sub-expressions.
    Op { lhs: Box<ExprV<T>>, op: Op, rhs: Box<ExprV<T>> },
    /// A built-in function applied to an ordered argument list.
    Function { function: Function, args: Seq<ExprV<T>> },
    /// A placeholder resolved at evaluation time.
    Component(usize),
}

/// The mathematical shape of a built tree.
pub open spec fn expr_view<T>(e: Expr<T>) -> ExprV<T>
    decreases e,
{
    match e {
        Expr::Value(v) => ExprV::Value(v),
        Expr::UnaryMinus(inner) => ExprV::UnaryMinus(Box::new(expr_view(*inner))),
        Expr::Op { lhs, op, rhs } => ExprV::Op {
            lhs: Box::new(expr_view(*lhs)),
            op,
            rhs: Box::new(expr_view(*rhs)),
        },
        Expr::Function { function, args } => ExprV::Function {
            function,
            args: expr_list_view(args@),
        },
        Expr::Component(i) => ExprV::Component(i),
    }
}

/// The mathematical shapes of a list of built trees, in order.
pub open spec fn expr_list_view<T>(s: Seq<Expr<T>>) -> Seq<ExprV<T>>
    decreases s,
{
    if s.len() == 0 {
        Seq::empty()
    } else {
        expr_list_view(s.drop_last()).push(expr_view(s.last()))
    }
}

/// What a binary operator yields: absent if either operand is absent,
/// otherwise the arithmetic result of the two present operands.
pub open spec fn spec_op_apply<T: NumberLike>(op: Op, lhs: Option<T>, rhs: Option<T>) -> Option<T> {
    match (lhs, rhs) {
        (Some(l), Some(r)) => Some(
            match op {
                Op::Add => l.spec_add(r),
                Op::Sub => l.spec_sub(r),
                Op::Mul => l.spec_mul(r),
                Op::Div => l.spec_div(r),
            },
        ),
        _ => None,
    }
}

/// The first present value in argument order, or absent if every argument
/// is absent.
pub open spec fn spec_coalesce<T>(vals: Seq<Option<T>>) -> Option<T>
    decreases vals.len(),
{
    if vals.len() == 0 {
        None
    } else if vals[0] is Some {
        vals[0]
    } else {
        spec_coalesce(vals.drop_first())
    }
}

/// One left-fold step of `MIN`: a present value always beats an absent one,
/// and of two present values the accumulator is kept only when it is
/// strictly below the incoming value.
pub open spec fn spec_min_step<T: NumberLike>(acc: Option<T>, x: Option<T>) -> Option<T> {
    match (acc, x) {
        (Some(a), Some(b)) => if a.spec_lt(b) {
            Some(a)
        } else {
            Some(b)
        },
        (Some(a), None) => Some(a),
        (None, Some(b)) => Some(b),
        (None, None) => None,
    }
}

/// One left-fold step of `MAX`: a present value always beats an absent one,
/// and of two present values the accumulator is kept only when it is
/// strictly above the incoming value.
pub open spec fn spec_max_step<T: NumberLike>(acc: Option<T>, x: Option<T>) -> Option<T> {
    match (acc, x) {
        (Some(a), Some(b)) => if a.spec_gt(b) {
            Some(a)
        } else {
            Some(b)
        },
        (Some(a), None) => Some(a),
        (None, Some(b)) => Some(b),
        (None, None) => None,
    }
}

/// `MIN` over an argument list: the left-to-right fold of `spec_min_step`
/// starting from absent.
pub open spec fn spec_min<T: NumberLike>(vals: Seq<Option<T>>) -> Option<T>
    decreases vals.len(),
{
    if vals.len() == 0 {
        None
    } else {
        spec_min_step(spec_min(vals.drop_last()), vals.last())
    }
}

/// `MAX` over an argument list: the left-to-right fold of `spec_max_step`
/// starting from absent.
pub open spec fn spec_max<T: NumberLike>(vals: Seq<Option<T>>) -> Option<T>
    decreases vals.len(),
{
    if vals.len() == 0 {
        None
    } else {
        spec_max_step(spec_max(vals.drop_last()), vals.last())
    }
}

/// What a built-in function yields on its evaluated argument list.
pub open spec fn spec_function_apply<T: NumberLike>(
    function: Function,
    vals: Seq<Option<T>>,
) -> Option<T> {
    match function {
        Function::Coalesce => spec_coalesce(vals),
        Function::Min => spec_min(vals),
        Function::Max => spec_max(vals),
    }
}

/// The set of distinct component ids referenced anywhere in the tree.
pub open spec fn spec_components<T>(e: Expr<T>) -> Set<usize>
    decreases e,
{
    match e {
        Expr::Value(_) => Set::empty(),
        Expr::UnaryMinus(inner) => spec_components(*inner),
        Expr::Op { lhs, rhs, .. } => spec_components(*lhs).union(spec_components(*rhs)),
        Expr::Function { args, .. } => spec_components_list(args@),
        Expr::Component(i) => set![i],
    }
}

/// The set of component ids referenced by a list of sub-expressions.
pub open spec fn spec_components_list<T>(s: Seq<Expr<T>>) -> Set<usize>
    decreases s,
{
    if s.len() == 0 {
        Set::empty()
    } else {
        spec_components_list(s.drop_last()).union(spec_components(s.last()))
    }
}

/// Whether every component the tree references is a key of the mapping.
/// Evaluation succeeds exactly on mappings that cover the tree.
pub open spec fn spec_bound<T>(e: Expr<T>, m: Map<usize, Option<T>>) -> bool {
    spec_components(e).subset_of(m.dom())
}

/// The value of a tree under a mapping, with null propagation: literals
/// yield themselves, unary minus and the binary operators propagate an
/// absent operand, functions fold their evaluated arguments, and a
/// component reference yields the mapped value. An unbound reference is
/// given the value absent here; `Expr::calculate` reports it as an error
/// instead and only agrees with this function on mappings that cover the
/// tree.
pub open spec fn spec_eval<T: NumberLike>(e: Expr<T>, m: Map<usize, Option<T>>) -> Option<T>
    decreases e,
{
    match e {
        Expr::Value(v) => v,
        Expr::UnaryMinus(inner) => match spec_eval(*inner, m) {
            Some(v) => Some(v.spec_neg()),
            None => None,
        },
        Expr::Op { lhs, op, rhs } => spec_op_apply(op, spec_eval(*lhs, m), spec_eval(*rhs, m)),
        Expr::Function { function, args } => spec_function_apply(
            function,
            spec_eval_list(args@, m),
        ),
        Expr::Component(i) => if m.dom().contains(i) {
            m[i]
        } else {
            None
        },
    }
}

/// The evaluated argument list, in argument order.
pub open spec fn spec_eval_list<T: NumberLike>(
    s: Seq<Expr<T>>,
    m: Map<usize, Option<T>>,
) -> Seq<Option<T>>
    decreases s,
{
    if s.len() == 0 {
        Seq::empty()
    } else {
        spec_eval_list(s.drop_last(), m).push(spec_eval(s.last(), m))
    }
}

/// A binary operator propagates absence: it yields an absent result if and
/// only if at least one operand is absent.
pub proof fn lemma_op_null_propagation<T: NumberLike>(op: Op, lhs: Option<T>, rhs: Option<T>)
    ensures
        spec_op_apply(op, lhs, rhs) is None <==> (lhs is None || rhs is None),
{
}

/// Evaluation reads only the components the tree references: two
/// mappings that agree on every referenced id (both have it as a key,
/// mapped to the same optional value) give equal results. In particular a
/// tree without component references evaluates the same against every
/// mapping, and keys that the tree does not reference never matter.
pub proof fn lemma_eval_agree<T: NumberLike>(
    e: Expr<T>,
    m1: Map<usize, Option<T>>,
    m2: Map<usize, Option<T>>,
)
    requires
        forall|c: usize| #[trigger] spec_components(e).contains(c) ==> m1.dom().contains(c)
            && m2.dom().contains(c) && m1[c] == m2[c],
    ensures
        spec_eval(e, m1) == spec_eval(e, m2),
    decreases e,
{
    match e {
        Expr::Value(_) => {},
        Expr::UnaryMinus(inner) => {
            assert forall|c: usize| #[trigger] spec_components(*inner).contains(c) implies
                m1.dom().contains(c) && m2.dom().contains(c) && m1[c] == m2[c] by {
                assert(spec_components(e).contains(c));
            }
            lemma_eval_agree(*inner, m1, m2);
        },
        Expr::Op { lhs, rhs, .. } => {
            assert forall|c: usize| #[trigger] spec_components(*lhs).contains(c) implies
                m1.dom().contains(c) && m2.dom().contains(c) && m1[c] == m2[c] by {
                assert(spec_components(e).contains(c));
            }
            assert forall|c: usize| #[trigger] spec_components(*rhs).contains(c) implies
                m1.dom().contains(c) && m2.dom().contains(c) && m1[c] == m2[c] by {
                assert(spec_components(e).contains(c));
            }
            lemma_eval_agree(*lhs, m1, m2);
            lemma_eval_agree(*rhs, m1, m2);
        },
        Expr::Function { args, .. } => {
            assert forall|c: usize| #[trigger] spec_components_list(args@).contains(c) implies
                m1.dom().contains(c) && m2.dom().contains(c) && m1[c] == m2[c] by {
                assert(spec_components(e).contains(c));
            }
            lemma_eval_list_agree(args@, m1, m2);
        },
        Expr::Component(i) => {
            assert(spec_components(e).contains(i));
        },
    }
}

/// The list form of `lemma_eval_agree`.
proof fn lemma_eval_list_agree<T: NumberLike>(
    s: Seq<Expr<T>>,
    m1: Map<usize, Option<T>>,
    m2: Map<usize, Option<T>>,
)
    requires
        forall|c: usize| #[trigger] spec_components_list(s).contains(c) ==> m1.dom().contains(c)
            && m2.dom().contains(c) && m1[c] == m2[c],
    ensures
        spec_eval_list(s, m1) == spec_eval_list(s, m2),
    decreases s,
{
    if s.len() > 0 {
        assert forall|c: usize| #[trigger] spec_components_list(s.drop_last()).contains(c) implies
            m1.dom().contains(c) && m2.dom().contains(c) && m1[c] == m2[c] by {
            assert(spec_components_list(s).contains(c));
        }
        assert forall|c: usize| #[trigger] spec_components(s.last()).contains(c) implies
            m1.dom().contains(c) && m2.dom().contains(c) && m1[c] == m2[c] by {
            assert(spec_components_list(s).contains(c));
        }
        lemma_eval_list_agree(s.drop_last(), m1, m2);
        lemma_eval_agree(s.last(), m1, m2);
    }
}

/// `COALESCE` returns the first present argument in argument order: if
/// every argument before position `i` is absent and the argument at `i` is
/// present, the result is that argument.
pub proof fn lemma_coalesce_first<T>(vals: Seq<Option<T>>, i: int)
    requires
        0 <= i < vals.len(),
        forall|k: int| 0 <= k < i ==> vals[k] is None,
        vals[i] is Some,
    ensures
        spec_coalesce(vals) == vals[i],
    decreases i,
{
    if i > 0 {
        lemma_coalesce_first(vals.drop_first(), i - 1);
    }
}

/// `COALESCE` is absent exactly when every argument is absent.
pub proof fn lemma_coalesce_none<T>(vals: Seq<Option<T>>)
    ensures
        spec_coalesce(vals) is None <==> (forall|k: int| 0 <= k < vals.len() ==> vals[k] is None),
    decreases vals.len(),
{
    if vals.len() > 0 {
        lemma_coalesce_none(vals.drop_first());
        if spec_coalesce(vals) is None {
            assert forall|k: int| 0 <= k < vals.len() implies vals[k] is None by {
                if k > 0 {
                    assert(vals.drop_first()[k - 1] is None);
                }
            }
        } else {
            if !(vals[0] is Some) {
                let k = choose|k: int| 0 <= k < vals.drop_first().len()
                    && !(vals.drop_first()[k] is None);
                assert(vals[k + 1] is Some);
            }
        }
    }
}

/// An absent argument never wins in `MIN`: the fold is absent exactly when
/// every argument is absent, and a present result is always one of the
/// present arguments.
pub proof fn lemma_min_present<T: NumberLike>(vals: Seq<Option<T>>)
    ensures
        spec_min(vals) is None <==> (forall|k: int| 0 <= k < vals.len() ==> vals[k] is None),
        spec_min(vals) matches Some(v) ==> exists|k: int|
            0 <= k < vals.len() && vals[k] == Some(v),
    decreases vals.len(),
{
    if vals.len() > 0 {
        lemma_min_present(vals.drop_last());
        if spec_min(vals) is None {
            assert forall|k: int| 0 <= k < vals.len() implies vals[k] is None by {
                if k < vals.len() - 1 {
                    assert(vals.drop_last()[k] is None);
                }
            }
        } else {
            let v = spec_min(vals)->0;
            if vals.last() != Some(v) {
                let k = choose|k: int|
                    0 <= k < vals.drop_last().len() && vals.drop_last()[k] == Some(v);
                assert(vals[k] == Some(v));
            }
        }
    }
}

/// An absent argument never wins in `MAX`: the fold is absent exactly when
/// every argument is absent, and a present result is always one of the
/// present arguments.
pub proof fn lemma_max_present<T: NumberLike>(vals: Seq<Option<T>>)
    ensures
        spec_max(vals) is None <==> (forall|k: int| 0 <= k < vals.len() ==> vals[k] is None),
        spec_max(vals) matches Some(v) ==> exists|k: int|
            0 <= k < vals.len() && vals[k] == Some(v),
    decreases vals.len(),
{
    if vals.len() > 0 {
        lemma_max_present(vals.drop_last());
        if spec_max(vals) is None {
            assert forall|k: int| 0 <= k < vals.len() implies vals[k] is None by {
                if k < vals.len() - 1 {
                    assert(vals.drop_last()[k] is None);
                }
            }
        } else {
            let v = spec_max(vals)->0;
            if vals.last() != Some(v) {
                let k = choose|k: int|
                    0 <= k < vals.drop_last().len() && vals.drop_last()[k] == Some(v);
                assert(vals[k] == Some(v));
            }
        }
    }
}

/// Every component referenced by an element of a list is referenced by the
/// list.
proof fn lemma_components_list_superset<T>(s: Seq<Expr<T>>, i: int)
    requires
        0 <= i < s.len(),
    ensures
        spec_components(s[i]).subset_of(spec_components_list(s)),
    decreases s.len(),
{
    if i < s.len() - 1 {
        lemma_components_list_superset(s.drop_last(), i);
    }
}

impl Op {
    /// Apply the operator with null propagation: absent if either operand
    /// is absent, otherwise the arithmetic result of the present operands.
    pub fn apply<T: NumberLike>(&self, lhs: Option<T>, rhs: Option<T>) -> (res: Option<T>)
        ensures
            res == spec_op_apply(*self, lhs, rhs),
    {
        if let (Some(l), Some(r)) = (lhs, rhs) {
            Some(
                match self {
                    Op::Add => l.add(r),
                    Op::Sub => l.sub(r),
                    Op::Mul => l.mul(r),
                    Op::Div => l.div(r),
                },
            )
        } else {
            None
        }
    }
}

impl Function {
    /// Apply the function to an evaluated argument list: `COALESCE` takes
    /// the first present value, `MIN` and `MAX` fold left-to-right with an
    /// absent value never beating a present one.
    pub fn apply<T: NumberLike>(&self, values: &[Option<T>]) -> (res: Option<T>)
        ensures
            res == spec_function_apply(*self, values@),
    {
        match self {
            Function::Coalesce => {
                let mut i: usize = 0;
                while i < values.len()
                    invariant
                        *self == Function::Coalesce,
                        i <= values@.len(),
                        forall|k: int| 0 <= k < i ==> values@[k] is None,
                    decreases values@.len() - i,
                {
                    if values[i].is_some() {
                        proof {
                            lemma_coalesce_first(values@, i as int);
                        }
                        return values[i];
                    }
                    i += 1;
                }
                proof {
                    lemma_coalesce_none(values@);
                }
                None
            },
            Function::Min => {
                let mut acc: Option<T> = None;
                let mut i: usize = 0;
                while i < values.len()
                    invariant
                        i <= values@.len(),
                        acc == spec_min(values@.subrange(0, i as int)),
                    decreases values@.len() - i,
                {
                    let x = values[i];
                    acc = match (acc, x) {
                        (Some(a), Some(b)) => if a.lt(b) {
                            Some(a)
                        } else {
                            Some(b)
                        },
                        (Some(a), None) => Some(a),
                        (None, Some(b)) => Some(b),
                        (None, None) => None,
                    };
                    proof {
                        assert(values@.subrange(0, i + 1).drop_last() =~= values@.subrange(
                            0,
                            i as int,
                        ));
                    }
                    i += 1;
                }
                proof {
                    assert(values@.subrange(0, values@.len() as int) =~= values@);
                }
                acc
            },
            Function::Max => {
                let mut acc: Option<T> = None;
                let mut i: usize = 0;
                while i < values.len()
                    invariant
                        i <= values@.len(),
                        acc == spec_max(values@.subrange(0, i as int)),
                    decreases values@.len() - i,
                {
                    let x = values[i];
                    acc = match (acc, x) {
                        (Some(a), Some(b)) => if a.gt(b) {
                            Some(a)
                        } else {
                            Some(b)
                        },
                        (Some(a), None) => Some(a),
                        (None, Some(b)) => Some(b),
                        (None, None) => None,
                    };
                    proof {
                        assert(values@.subrange(0, i + 1).drop_last() =~= values@.subrange(
                            0,
                            i as int,
                        ));
                    }
                    i += 1;
                }
                proof {
                    assert(values@.subrange(0, values@.len() as int) =~= values@);
                }
                acc
            },
        }
    }
}

impl<T: NumberLike> Expr<T> {
    /// Evaluate the tree against a values mapping. If every referenced
    /// component is a key of the mapping the result is exactly
    /// `spec_eval`; otherwise the walk halts with an error. A key mapped
    /// to an absent value is not an error: absence propagates as a value.
    pub fn calculate(&self, values: &HashMap<usize, Option<T>>) -> (res: Result<
        Option<T>,
        FormulaError,
    >)
        ensures
            spec_bound(*self, values@) ==> res == Ok::<Option<T>, FormulaError>(
                spec_eval(*self, values@),
            ),
            !spec_bound(*self, values@) ==> res is Err,
        decreases *self,
    {
        broadcast use vstd::std_specs::hash::group_hash_axioms;

        match self {
            Expr::Value(value) => Ok(*value),
            Expr::UnaryMinus(expr) => match expr.calculate(values) {
                Ok(Some(v)) => Ok(Some(v.neg())),
                Ok(None) => Ok(None),
                Err(e) => Err(e),
            },
            Expr::Op { lhs, op, rhs } => match lhs.calculate(values) {
                Err(e) => Err(e),
                Ok(l) => match rhs.calculate(values) {
                    Err(e) => Err(e),
                    Ok(r) => Ok(op.apply(l, r)),
                },
            },
            Expr::Function { function, args } => {
                let mut results: Vec<Option<T>> = Vec::new();
                let mut i: usize = 0;
                while i < args.len()
                    invariant
                        i <= args@.len(),
                        *self == (Expr::Function { function: *function, args: *args }),
                        results@ == spec_eval_list(args@.subrange(0, i as int), values@),
                        forall|k: int| 0 <= k < i ==> spec_bound(#[trigger] args@[k], values@),
                    decreases args@.len() - i,
                {
                    proof {
                        assert(decreases_to!(*self => (*self)->args));
                        assert(decreases_to!(*args => (*args)[i as int]));
                    }
                    match args[i].calculate(values) {
                        Ok(v) => results.push(v),
                        Err(e) => {
                            proof {
                                lemma_components_list_superset(args@, i as int);
                            }
                            return Err(e);
                        },
                    }
                    proof {
                        assert(args@.subrange(0, i + 1).drop_last() =~= args@.subrange(
                            0,
                            i as int,
                        ));
                    }
                    i += 1;
                }
                proof {
                    assert(args@.subrange(0, args@.len() as int) =~= args@);
                    if !spec_bound(*self, values@) {
                        let c = choose|c: usize|
                            spec_components(*self).contains(c) && !values@.dom().contains(c);
                        let k = choose|k: int|
                            0 <= k < args@.len() && spec_components(args@[k]).contains(c);
                        lemma_components_witness(args@, c);
                        assert(spec_bound(args@[k], values@));
                    }
                }
                Ok(function.apply(results.as_slice()))
            },
            Expr::Component(i) => match values.get(i) {
                Some(v) => Ok(*v),
                None => Err(FormulaError("Placeholder out of bounds".to_owned())),
            },
        }
    }

    /// The set of distinct component ids referenced anywhere in the tree,
    /// independent of traversal order and with duplicates removed.
    pub fn components(&self) -> (res: HashSet<usize>)
        ensures
            res@ == spec_components(*self),
    {
        let mut acc: HashSet<usize> = HashSet::new();
        self.collect_components(&mut acc);
        proof {
            assert(Set::<usize>::empty().union(spec_components(*self)) =~= spec_components(
                *self,
            ));
        }
        acc
    }

    /// Add every component id referenced by the tree to the accumulator.
    fn collect_components(&self, acc: &mut HashSet<usize>)
        ensures
            final(acc)@ == old(acc)@.union(spec_components(*self)),
        decreases *self,
    {
        broadcast use vstd::std_specs::hash::group_hash_axioms;

        match self {
            Expr::Value(_) => {
                proof {
                    assert(acc@.union(Set::<usize>::empty()) =~= acc@);
                }
            },
            Expr::UnaryMinus(expr) => {
                expr.collect_components(acc);
            },
            Expr::Op { lhs, rhs, .. } => {
                lhs.collect_components(acc);
                rhs.collect_components(acc);
                proof {
                    assert(old(acc)@.union(spec_components(**lhs)).union(
                        spec_components(**rhs),
                    ) =~= old(acc)@.union(
                        spec_components(**lhs).union(spec_components(**rhs)),
                    ));
                }
            },
            Expr::Function { function, args } => {
                let mut i: usize = 0;
                while i < args.len()
                    invariant
                        *self == (Expr::Function { function: *function, args: *args }),
                        i <= args@.len(),
                        acc@ == old(acc)@.union(
                            spec_components_list(args@.subrange(0, i as int)),
                        ),
                    decreases args@.len() - i,
                {
                    proof {
                        assert(decreases_to!(*self => (*self)->args));
                        assert(decreases_to!(*args => (*args)[i as int]));
                    }
                    args[i].collect_components(acc);
                    proof {
                        assert(args@.subrange(0, i + 1).drop_last() =~= args@.subrange(
                            0,
                            i as int,
                        ));
                        assert(old(acc)@.union(
                            spec_components_list(args@.subrange(0, i as int)),
                        ).union(spec_components(args@[i as int])) =~= old(acc)@.union(
                            spec_components_list(args@.subrange(0, i + 1)),
                        ));
                    }
                    i += 1;
                }
                proof {
                    assert(args@.subrange(0, args@.len() as int) =~= args@);
                }
            },
            Expr::Component(i) => {
                acc.insert(*i);
                proof {
                    assert(old(acc)@.insert(*i) =~= old(acc)@.union(set![*i]));
                }
            },
        }
    }
}

/// If a component id is referenced by a list of sub-expressions, some
/// element of the list references it.
proof fn lemma_components_witness<T>(s: Seq<Expr<T>>, c: usize)
    requires
        spec_components_list(s).contains(c),
    ensures
        exists|k: int| 0 <= k < s.len() && spec_components(#[trigger] s[k]).contains(c),
    decreases s.len(),
{
    if s.len() > 0 {
        if spec_components(s.last()).contains(c) {
            assert(spec_components(s[s.len() - 1]).contains(c));
        } else {
            lemma_components_witness(s.drop_last(), c);
            let k = choose|k: int|
                0 <= k < s.drop_last().len() && spec_components(#[trigger] s.drop_last()[k]).contains(c);
            assert(spec_components(s[k]).contains(c));
        }
    }
}

} // verus!
