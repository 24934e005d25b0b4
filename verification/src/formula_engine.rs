//! The engine façade: parse once, evaluate repeatedly.

use vstd::prelude::*;

use crate::error::FormulaError;
use crate::expression::{expr_view, spec_bound, spec_components, spec_eval, Expr};
use crate::parser::{parse, spec_parse};
use crate::traits::NumberLike;
use std::collections::HashMap;
use std::collections::HashSet;

verus! {

/// An immutable handle produced by parsing a formula: it owns the
/// expression tree and the pre-computed set of component ids the tree
/// references, and evaluates the tree against caller-supplied values.
#[derive(Debug)]
pub struct FormulaEngine<T> {
    expr: Expr<T>,
    components: HashSet<usize>,
}

impl<T> FormulaEngine<T> {
    /// The expression tree the engine evaluates.
    pub closed spec fn spec_expr(self) -> Expr<T> {
        self.expr
    }

    /// The cached component set is exactly the set of component ids the
    /// stored tree references.
    #[verifier::type_invariant]
    pub closed spec fn wf(self) -> bool {
        self.components@ == spec_components(self.expr)
    }
}

impl<T: NumberLike> FormulaEngine<T> {
    /// Create a new engine from a formula string: succeeds with the tree
    /// that `spec_parse` gives the string, and fails exactly on the
    /// strings it rejects.
    pub fn try_new(s: &str) -> (res: Result<Self, FormulaError>)
        ensures
            res matches Ok(fe) ==> spec_parse::<T>(s@) == Some(expr_view(fe.spec_expr())),
            res is Err ==> spec_parse::<T>(s@) is None,
    {
        match parse::<T>(s) {
            Err(e) => Err(e),
            Ok(expr) => {
                let components = expr.components();
                Ok(FormulaEngine { expr, components })
            },
        }
    }

    /// The set of distinct component ids referenced by the formula,
    /// computed once at construction.
    pub fn components(&self) -> (res: &HashSet<usize>)
        ensures
            res@ == spec_components(self.spec_expr()),
    {
        proof {
            use_type_invariant(self);
        }
        &self.components
    }

    /// Evaluate the formula against the provided component values. The
    /// result is exactly `spec_eval` of the stored tree whenever every
    /// referenced component id is a key of the mapping; otherwise an
    /// error. Both the tree and the returned value are pure functions of
    /// the engine and the mapping, so repeated calls with equal mappings
    /// return equal values and never affect one another.
    pub fn calculate(&self, values: HashMap<usize, Option<T>>) -> (res: Result<
        Option<T>,
        FormulaError,
    >)
        ensures
            spec_bound(self.spec_expr(), values@) ==> res == Ok::<Option<T>, FormulaError>(
                spec_eval(self.spec_expr(), values@),
            ),
            !spec_bound(self.spec_expr(), values@) ==> res is Err,
    {
        self.expr.calculate(&values)
    }
}

} // verus!
