//! Checking of parameter access conflicts over type-level access lists.
//!
//! A *resource* is data with a structural identity ([`HasKey`], [`HasPath`]);
//! a *parameter* declares the resources it reads and writes ([`Access`]);
//! [`has_conflict`] tells whether two accesses of a parameter, or of a tuple
//! of parameters, touch overlapping data with at least one of them a write.
pub mod access;
pub mod codegen;
pub mod conflict_check;
pub mod hash;
pub mod hlist;
pub mod model;
pub mod param;
pub mod system;
pub mod text;

pub use access::{Part, Read, Write};
pub use conflict_check::{
    ACons, ANil, AccessMarker, AnyConflict, ConflictsWith, HasKey, HasPath, KeyEq, KeyTerm,
    NoConflicts, PCons, PNil, PathList, PathOverlap, Push, Sig, TypeEq,
};
pub use hash::hash_name;
pub use hlist::{AccessList, Concat, Cons, Nil};
pub use param::{Access, Param};
pub use system::{assert_conflict, assert_no_conflict, assert_no_conflicts, has_conflict};
