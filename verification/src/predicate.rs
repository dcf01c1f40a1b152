//! Row predicates and their evaluation against physical rows.
//!
//! A predicate compares numeric columns with constants and combines such
//! comparisons. A comparison with a null is unknown, and unknown combines as
//! in three-valued logic. A predicate that names a column the file lacks, or
//! a column that is not numeric, cannot be evaluated: that is a failure of
//! the read, never a silent skip.

use crate::batch::{cell_at, row_view, Cell, CellView};
use crate::error::Error;
use crate::projection::{find_column, first_index};
use vstd::prelude::*;

verus! {

/// How a column is compared with a constant.
#[derive(Debug, Clone, Copy, PartialEq, Eq, Structural)]
pub enum Comparison {
    Less,
    LessOrEqual,
    Greater,
    GreaterOrEqual,
    Equal,
    NotEqual,
}

/// A condition on one row.
#[derive(Debug, PartialEq, Eq)]
pub enum Predicate {
    /// The column's value stands in the given relation to `value`.
    Compare { column: String, op: Comparison, value: i64 },
    And(Box<Predicate>, Box<Predicate>),
    Or(Box<Predicate>, Box<Predicate>),
    Not(Box<Predicate>),
}

/// What a [`Predicate`] is, as mathematics.
pub enum PredicateView {
    Compare { column: Seq<char>, op: Comparison, value: i64 },
    And(Box<PredicateView>, Box<PredicateView>),
    Or(Box<PredicateView>, Box<PredicateView>),
    Not(Box<PredicateView>),
}

/// The view of a predicate.
pub open spec fn predicate_view(predicate: Predicate) -> PredicateView
    decreases predicate,
{
    match predicate {
        Predicate::Compare { column, op, value } => PredicateView::Compare {
            column: column@,
            op,
            value,
        },
        Predicate::And(left, right) => PredicateView::And(
            Box::new(predicate_view(*left)),
            Box::new(predicate_view(*right)),
        ),
        Predicate::Or(left, right) => PredicateView::Or(
            Box::new(predicate_view(*left)),
            Box::new(predicate_view(*right)),
        ),
        Predicate::Not(inner) => PredicateView::Not(Box::new(predicate_view(*inner))),
    }
}

impl View for Predicate {
    type V = PredicateView;

    open spec fn view(&self) -> PredicateView {
        predicate_view(*self)
    }
}

/// The view of an optional predicate.
pub open spec fn filter_view(predicate: Option<Predicate>) -> Option<PredicateView> {
    match predicate {
        Some(p) => Some(p@),
        None => None,
    }
}

/// Whether `left` stands in relation `op` to `right`.
pub open spec fn compares(op: Comparison, left: i64, right: i64) -> bool {
    match op {
        Comparison::Less => left < right,
        Comparison::LessOrEqual => left <= right,
        Comparison::Greater => left > right,
        Comparison::GreaterOrEqual => left >= right,
        Comparison::Equal => left == right,
        Comparison::NotEqual => left != right,
    }
}

/// The optional number at column `col`: a 32-bit or 64-bit integer, absent
/// for a null, a mismatch for a missing column or any other value.
pub open spec fn number_at(row: Seq<CellView>, col: int) -> Result<Option<i64>, Error> {
    match cell_at(row, col) {
        Some(CellView::Long(n)) => Ok(Some(n)),
        Some(CellView::Int(n)) => Ok(Some(n as i64)),
        Some(CellView::Null) => Ok(None),
        _ => Err(Error::SchemaMismatch),
    }
}

/// Conjunction in three-valued logic.
pub open spec fn both(left: Option<bool>, right: Option<bool>) -> Option<bool> {
    if left == Some(false) || right == Some(false) {
        Some(false)
    } else if left == Some(true) && right == Some(true) {
        Some(true)
    } else {
        None
    }
}

/// Disjunction in three-valued logic.
pub open spec fn either(left: Option<bool>, right: Option<bool>) -> Option<bool> {
    if left == Some(true) || right == Some(true) {
        Some(true)
    } else if left == Some(false) && right == Some(false) {
        Some(false)
    } else {
        None
    }
}

/// Negation in three-valued logic.
pub open spec fn negated(value: Option<bool>) -> Option<bool> {
    match value {
        Some(b) => Some(!b),
        None => None,
    }
}

/// What `predicate` says of `row`, whose columns are called `names`: true,
/// false, or unknown; or a schema mismatch where a comparison names a column
/// that is missing or not numeric. Both sides of a combination are always
/// evaluated, so a mismatch anywhere is a mismatch of the whole.
pub open spec fn evaluate(
    predicate: PredicateView,
    names: Seq<Seq<char>>,
    row: Seq<CellView>,
) -> Result<Option<bool>, Error>
    decreases predicate,
{
    match predicate {
        PredicateView::Compare { column, op, value } => match first_index(names, column) {
            None => Err(Error::SchemaMismatch),
            Some(k) => match number_at(row, k) {
                Err(e) => Err(e),
                Ok(None) => Ok(None),
                Ok(Some(n)) => Ok(Some(compares(op, n, value))),
            },
        },
        PredicateView::And(left, right) => match evaluate(*left, names, row) {
            Err(e) => Err(e),
            Ok(l) => match evaluate(*right, names, row) {
                Err(e) => Err(e),
                Ok(r) => Ok(both(l, r)),
            },
        },
        PredicateView::Or(left, right) => match evaluate(*left, names, row) {
            Err(e) => Err(e),
            Ok(l) => match evaluate(*right, names, row) {
                Err(e) => Err(e),
                Ok(r) => Ok(either(l, r)),
            },
        },
        PredicateView::Not(inner) => match evaluate(*inner, names, row) {
            Err(e) => Err(e),
            Ok(v) => Ok(negated(v)),
        },
    }
}

/// Whether a row passes the filter: every row where there is no predicate,
/// else the rows of which the predicate is true. Rows of which it is false
/// or unknown are dropped.
pub open spec fn passes(
    predicate: Option<PredicateView>,
    names: Seq<Seq<char>>,
    row: Seq<CellView>,
) -> Result<bool, Error> {
    match predicate {
        None => Ok(true),
        Some(p) => match evaluate(p, names, row) {
            Err(e) => Err(e),
            Ok(v) => Ok(v == Some(true)),
        },
    }
}

/// An evaluation fails in one way only.
pub proof fn lemma_evaluate_failure(
    predicate: PredicateView,
    names: Seq<Seq<char>>,
    row: Seq<CellView>,
)
    ensures
        evaluate(predicate, names, row) matches Err(e) ==> e == Error::SchemaMismatch,
    decreases predicate,
{
    match predicate {
        PredicateView::Compare { column, op, value } => {},
        PredicateView::And(left, right) => {
            lemma_evaluate_failure(*left, names, row);
            lemma_evaluate_failure(*right, names, row);
        },
        PredicateView::Or(left, right) => {
            lemma_evaluate_failure(*left, names, row);
            lemma_evaluate_failure(*right, names, row);
        },
        PredicateView::Not(inner) => {
            lemma_evaluate_failure(*inner, names, row);
        },
    }
}

/// Tests whether `left` stands in relation `op` to `right`.
pub fn compare(op: Comparison, left: i64, right: i64) -> (holds: bool)
    ensures
        holds == compares(op, left, right),
{
    match op {
        Comparison::Less => left < right,
        Comparison::LessOrEqual => left <= right,
        Comparison::Greater => left > right,
        Comparison::GreaterOrEqual => left >= right,
        Comparison::Equal => left == right,
        Comparison::NotEqual => left != right,
    }
}

/// Reads the optional number at column `col` of `row`.
pub fn get_number(row: &Vec<Cell>, col: usize) -> (value: Result<Option<i64>, Error>)
    ensures
        value == number_at(row_view(row@), col as int),
{
    if col < row.len() {
        assert(row_view(row@)[col as int] == row@[col as int]@);
        match &row[col] {
            Cell::Long(n) => Ok(Some(*n)),
            Cell::Int(n) => Ok(Some(*n as i64)),
            Cell::Null => Ok(None),
            _ => Err(Error::SchemaMismatch),
        }
    } else {
        Err(Error::SchemaMismatch)
    }
}

/// Evaluates `predicate` on one physical row.
pub fn evaluate_expression(
    predicate: &Predicate,
    names: &Vec<String>,
    row: &Vec<Cell>,
) -> (value: Result<Option<bool>, Error>)
    ensures
        value == evaluate(predicate@, names.deep_view(), row_view(row@)),
    decreases *predicate,
{
    match predicate {
        Predicate::Compare { column, op, value } => {
            match find_column(names, column) {
                None => Err(Error::SchemaMismatch),
                Some(k) => match get_number(row, k)? {
                    None => Ok(None),
                    Some(n) => Ok(Some(compare(*op, n, *value))),
                },
            }
        },
        Predicate::And(left, right) => {
            let l = evaluate_expression(left, names, row)?;
            let r = evaluate_expression(right, names, row)?;
            if l == Some(false) || r == Some(false) {
                Ok(Some(false))
            } else if l == Some(true) && r == Some(true) {
                Ok(Some(true))
            } else {
                Ok(None)
            }
        },
        Predicate::Or(left, right) => {
            let l = evaluate_expression(left, names, row)?;
            let r = evaluate_expression(right, names, row)?;
            if l == Some(true) || r == Some(true) {
                Ok(Some(true))
            } else if l == Some(false) && r == Some(false) {
                Ok(Some(false))
            } else {
                Ok(None)
            }
        },
        Predicate::Not(inner) => {
            match evaluate_expression(inner, names, row)? {
                Some(b) => Ok(Some(!b)),
                None => Ok(None),
            }
        },
    }
}

/// Decides whether a row passes the filter.
pub fn row_passes(
    predicate: &Option<Predicate>,
    names: &Vec<String>,
    row: &Vec<Cell>,
) -> (keep: Result<bool, Error>)
    ensures
        keep == passes(filter_view(*predicate), names.deep_view(), row_view(row@)),
{
    match predicate {
        None => Ok(true),
        Some(p) => {
            let value = evaluate_expression(p, names, row)?;
            Ok(value == Some(true))
        },
    }
}

/// A copy of a predicate.
pub fn copy_predicate(predicate: &Predicate) -> (copy: Predicate)
    ensures
        copy@ == predicate@,
    decreases *predicate,
{
    match predicate {
        Predicate::Compare { column, op, value } => Predicate::Compare {
            column: column.clone(),
            op: *op,
            value: *value,
        },
        Predicate::And(left, right) => Predicate::And(
            Box::new(copy_predicate(left)),
            Box::new(copy_predicate(right)),
        ),
        Predicate::Or(left, right) => Predicate::Or(
            Box::new(copy_predicate(left)),
            Box::new(copy_predicate(right)),
        ),
        Predicate::Not(inner) => Predicate::Not(Box::new(copy_predicate(inner))),
    }
}

} // verus!
