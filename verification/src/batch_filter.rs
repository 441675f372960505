//! Batch filters: composable boolean predicates over registered repos.
//!
//! A filter is built incrementally from label clauses: the first clause
//! becomes the base predicate as it stands, and every further clause must be
//! combined with the existing filter under an explicit [`CombinationMode`] —
//! with two or more clauses and no mode, construction fails rather than
//! guessing a default. An absent filter passes every repo.

use vstd::prelude::*;

use crate::repo::Repo;

verus! {

/// How a further filter clause combines with the existing filter.
#[derive(Debug, Clone, Copy)]
pub enum CombinationMode {
    Or,
    And,
    Unspecified,
}

/// A thing that can be asked whether a repo passes it.
pub trait BatchFilter {
    /// What the filter means: the predicate it stands for.
    spec fn spec_passes(&self, repo: &Repo) -> bool;

    /// Whether `repo` passes the filter.
    fn passes_through(&self, repo: &Repo) -> (passes: bool)
        ensures
            passes == self.spec_passes(repo),
    ;
}

/// The leaf filter: passes exactly the repos that carry the given label,
/// by exact string match.
#[derive(Debug, Clone, PartialEq, Eq)]
pub struct VerbatimLabelFilter(pub String);

impl BatchFilter for VerbatimLabelFilter {
    open spec fn spec_passes(&self, repo: &Repo) -> bool {
        repo.spec_has_label(self.0@)
    }

    fn passes_through(&self, repo: &Repo) -> (passes: bool) {
        repo.has_label(&self.0)
    }
}

/// A composed filter: a binary tree of label leaves under `Or`/`And` nodes.
#[derive(Debug)]
pub enum FilterExpr {
    Leaf(VerbatimLabelFilter),
    Or(Box<FilterExpr>, Box<FilterExpr>),
    And(Box<FilterExpr>, Box<FilterExpr>),
}

/// The predicate a composed filter stands for, by structural recursion.
pub open spec fn eval_filter(filter: FilterExpr, repo: Repo) -> bool
    decreases filter,
{
    match filter {
        FilterExpr::Leaf(leaf) => repo.spec_has_label(leaf.0@),
        FilterExpr::Or(left, right) => eval_filter(*left, repo) || eval_filter(*right, repo),
        FilterExpr::And(left, right) => eval_filter(*left, repo) && eval_filter(*right, repo),
    }
}

impl BatchFilter for FilterExpr {
    open spec fn spec_passes(&self, repo: &Repo) -> bool {
        eval_filter(*self, *repo)
    }

    fn passes_through(&self, repo: &Repo) -> (passes: bool)
        decreases *self,
    {
        match self {
            FilterExpr::Leaf(leaf) => leaf.passes_through(repo),
            FilterExpr::Or(left, right) => left.passes_through(repo) || right.passes_through(
                repo,
            ),
            FilterExpr::And(left, right) => left.passes_through(repo) && right.passes_through(
                repo,
            ),
        }
    }
}

/// An absent filter passes every repo.
impl<T: BatchFilter> BatchFilter for Option<T> {
    open spec fn spec_passes(&self, repo: &Repo) -> bool {
        match self {
            Option::Some(filter) => filter.spec_passes(repo),
            Option::None => true,
        }
    }

    fn passes_through(&self, repo: &Repo) -> (passes: bool) {
        match self {
            Option::Some(filter) => filter.passes_through(repo),
            Option::None => true,
        }
    }
}

/// Folds the next clause into the existing filter.
///
/// With no existing filter the next clause becomes the filter as it stands,
/// whatever the mode; otherwise the two are combined under `Or` or `And`,
/// and with no mode construction fails: the combination is ambiguous.
pub fn combine(existing: Option<FilterExpr>, mode: CombinationMode, next: FilterExpr) -> (combined:
    Option<FilterExpr>)
    ensures
        existing is None ==> combined == Option::Some(next),
        existing is Some && mode is Or ==> combined is Some && forall|repo: Repo|
            #[trigger] eval_filter(combined.unwrap(), repo) == (eval_filter(
                existing.unwrap(),
                repo,
            ) || eval_filter(next, repo)),
        existing is Some && mode is And ==> combined is Some && forall|repo: Repo|
            #[trigger] eval_filter(combined.unwrap(), repo) == (eval_filter(
                existing.unwrap(),
                repo,
            ) && eval_filter(next, repo)),
        existing is Some && mode is Unspecified ==> combined is None,
{
    match existing {
        Option::Some(filter) => match mode {
            CombinationMode::Or => Option::Some(
                FilterExpr::Or(Box::new(filter), Box::new(next)),
            ),
            CombinationMode::And => Option::Some(
                FilterExpr::And(Box::new(filter), Box::new(next)),
            ),
            CombinationMode::Unspecified => Option::None,
        },
        Option::None => Option::Some(next),
    }
}

/// Law: a single label clause, folded onto an absent filter, passes exactly
/// the repos that carry the label.
pub proof fn lemma_single_clause(label_filter: VerbatimLabelFilter, repo: Repo)
    ensures
        Option::Some(FilterExpr::Leaf(label_filter)).spec_passes(&repo) == repo.spec_has_label(
            label_filter.0@,
        ),
{
}

/// Law: an absent filter passes every repo.
pub proof fn lemma_absent_filter_passes_all(repo: Repo)
    ensures
        Option::<FilterExpr>::None.spec_passes(&repo),
{
}

} // verus!
