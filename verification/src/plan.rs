//! The parts of a query plan that the kernels share.

use vstd::prelude::*;

verus! {

/// One column of an ORDER BY clause.
#[derive(Debug)]
pub struct SortExpr {
    pub column: String,
    pub descending: bool,
    pub nulls_first: bool,
}

/// An ORDER BY clause, first column first.
#[derive(Debug)]
pub struct SortKey {
    pub expressions: Vec<SortExpr>,
}

/// The columns that a scan reads.
#[derive(Debug)]
pub enum Projection {
    All,
    Columns(Vec<String>),
}

} // verus!
