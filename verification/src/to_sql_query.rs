//! Rendering a value as query text.
//!
//! This is the contract of the textual query strategy: a filter renders
//! to the exact character sequence its spec-level rendering defines, so
//! every caller knows the full text that reaches the engine.

use vstd::prelude::*;

verus! {

/// A value that renders itself as complete query text.
pub trait ToSqlQuery: Sized {
    /// The exact text this value renders to.
    spec fn spec_sql_query(&self) -> Seq<char>;

    /// Renders the query text.
    fn to_sql_query(&self) -> (r: String)
        ensures
            r@ == self.spec_sql_query(),
    ;
}

} // verus!
