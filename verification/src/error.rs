//! Errors of the store.

use vstd::prelude::*;
use vstd::std_specs::cmp::PartialEqSpecImpl;

verus! {

/// Why an operation on the store was refused.
#[derive(Clone, Copy, Debug, PartialEq, Eq, Structural)]
pub enum DbError {
    /// The camera or completed scan that was asked for does not exist.
    NotFound,
    /// The write breaks a consistency rule of the store, such as a range
    /// that ends before it starts.
    Conflict,
    /// The table cannot take another row: its row ids are used up.
    Full,
}

/// Marker for a missing row. It compares equal to [`DbError::NotFound`].
#[derive(Clone, Copy, Default, Debug)]
pub struct NotFound;

impl NotFound {
    /// Turns the number of rows that a write touched into a result: a write
    /// that touched no row did not find its target.
    pub fn check_query(rows_affected: u64) -> (r: Result<(), NotFound>)
        ensures
            r is Err <==> rows_affected == 0,
    {
        if rows_affected == 0 {
            Err(NotFound)
        } else {
            Ok(())
        }
    }
}

impl PartialEq<DbError> for NotFound {
    fn eq(&self, other: &DbError) -> (b: bool) {
        match other {
            DbError::NotFound => true,
            _ => false,
        }
    }
}

impl PartialEqSpecImpl<DbError> for NotFound {
    open spec fn obeys_eq_spec() -> bool {
        true
    }

    open spec fn eq_spec(&self, other: &DbError) -> bool {
        *other == DbError::NotFound
    }
}

/// Marker for a refused write. It compares equal to [`DbError::Conflict`].
#[derive(Clone, Copy, Default, Debug)]
pub struct Conflict;

impl PartialEq<DbError> for Conflict {
    fn eq(&self, other: &DbError) -> (b: bool) {
        match other {
            DbError::Conflict => true,
            _ => false,
        }
    }
}

impl PartialEqSpecImpl<DbError> for Conflict {
    open spec fn obeys_eq_spec() -> bool {
        true
    }

    open spec fn eq_spec(&self, other: &DbError) -> bool {
        *other == DbError::Conflict
    }
}

impl From<NotFound> for DbError {
    fn from(e: NotFound) -> (r: DbError) {
        DbError::NotFound
    }
}

impl vstd::std_specs::convert::FromSpecImpl<NotFound> for DbError {
    open spec fn obeys_from_spec() -> bool {
        true
    }

    open spec fn from_spec(e: NotFound) -> DbError {
        DbError::NotFound
    }
}

impl From<Conflict> for DbError {
    fn from(e: Conflict) -> (r: DbError) {
        DbError::Conflict
    }
}

impl vstd::std_specs::convert::FromSpecImpl<Conflict> for DbError {
    open spec fn obeys_from_spec() -> bool {
        true
    }

    open spec fn from_spec(e: Conflict) -> DbError {
        DbError::Conflict
    }
}

} // verus!
