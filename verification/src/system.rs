//! Checking a parameter for access conflicts.
use vstd::prelude::*;
use crate::conflict_check::NoConflicts;
use crate::hlist::AccessList;
use crate::model::conflict_free;
use crate::param::{Access, Param};

verus! {

/// Returns `true` iff `P`'s flattened access list contains a conflict: two
/// accesses of overlapping resources of which at least one is a write.
pub fn has_conflict<P: Access>() -> (r: bool) where <P as Access>::Accesses: NoConflicts
    ensures
        r == !conflict_free(<<P as Access>::Accesses as AccessList>::entries()),
{
    !<<P as Access>::Accesses as NoConflicts>::value()
}

/// Checks that `P` has an access conflict; it is for `P`s that have one.
pub fn assert_conflict<P: Access>() where <P as Access>::Accesses: NoConflicts
    requires
        !conflict_free(<<P as Access>::Accesses as AccessList>::entries()),
{
    let conflicting = has_conflict::<P>();
    assert(conflicting);
}

/// Checks that `P` has no access conflict; it is for `P`s that have none.
pub fn assert_no_conflict<P: Access>() where <P as Access>::Accesses: NoConflicts
    requires
        conflict_free(<<P as Access>::Accesses as AccessList>::entries()),
{
    let conflicting = has_conflict::<P>();
    assert(!conflicting);
}

/// Checks, at a generic boundary where a `Param` is accepted, that `P` has no
/// internal access conflict; it is for `P`s that have none.
pub fn assert_no_conflicts<P: Param>() where <P as Param>::Access: NoConflicts
    requires
        conflict_free(<<P as Param>::Access as AccessList>::entries()),
{
    let free = <<P as Param>::Access as NoConflicts>::value();
    assert(free);
}

} // verus!
