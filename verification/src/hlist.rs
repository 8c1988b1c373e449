//! Type-level access lists and their concatenation.
use core::marker::PhantomData;
use vstd::prelude::*;
use crate::model::AccessEntry;
use crate::conflict_check::AccessMarker;

verus! {

/// The empty type-level list.
pub struct Nil;

/// A type-level list cell: head `H` followed by tail `T`.
pub struct Cons<H, T>(PhantomData<(H, T)>);

/// A type-level access list (a `Cons`/`Nil` chain of `Read`/`Write` markers).
pub trait AccessList {
    /// The accesses of the list, in order.
    spec fn entries() -> Seq<AccessEntry>;
}

impl AccessList for Nil {
    open spec fn entries() -> Seq<AccessEntry> {
        Seq::empty()
    }
}

impl<H: AccessMarker, T: AccessList> AccessList for Cons<H, T> {
    open spec fn entries() -> Seq<AccessEntry> {
        seq![H::entry()] + T::entries()
    }
}

/// Type-level list concatenation: appends `Rhs` onto the end of `Self`.
///
/// This is what lets a tuple splice its members' (self-contained,
/// `Nil`-terminated) access lists together. The `Nil` case is where "continue
/// on to the rest of the params" happens: reaching the end of the left list
/// grafts the entire right list on.
pub trait Concat<Rhs: AccessList>: AccessList {
    type Output: AccessList;

    /// The accesses of `Output` are those of `Self` followed by those of `Rhs`.
    proof fn lemma_concat()
        ensures
            Self::Output::entries() == Self::entries() + Rhs::entries(),
    ;
}

impl<Rhs: AccessList> Concat<Rhs> for Nil {
    type Output = Rhs;

    proof fn lemma_concat() {
        assert(Seq::<AccessEntry>::empty() + Rhs::entries() =~= Rhs::entries());
    }
}

impl<H: AccessMarker, T: Concat<Rhs>, Rhs: AccessList> Concat<Rhs> for Cons<H, T> {
    type Output = Cons<H, T::Output>;

    proof fn lemma_concat() {
        T::lemma_concat();
        assert(seq![H::entry()] + (T::entries() + Rhs::entries()) =~= (seq![H::entry()]
            + T::entries()) + Rhs::entries());
    }
}

} // verus!
