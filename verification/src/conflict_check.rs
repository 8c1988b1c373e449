//! Resource identity, containment paths and the conflict rules.
//!
//! A resource's identity is a structural key: a [`Sig`] pairing a `u64` hash of
//! its name with the keys of its generic arguments (an [`ACons`]/[`ANil`]
//! list). [`KeyEq`] decides equality of keys by comparing the name hashes and
//! recursing over the argument lists. A resource's [`HasPath::Path`] is the
//! chain of keys from its root ancestor down to itself; two resources overlap
//! iff one path is a prefix of the other ([`PathOverlap`]), and two accesses
//! conflict iff their resources overlap and at least one is a write
//! ([`ConflictsWith`]).
use core::marker::PhantomData;
use vstd::prelude::*;
use crate::access::{Read, Write};
use crate::hlist::{AccessList, Cons, Nil};
use crate::model::{
    AccessEntry, KeyTree, accesses_conflict, conflict_free, conflicts_with_any, lemma_any_cons,
    lemma_free_cons, lemma_overlap_cons, lemma_overlap_empty, paths_overlap,
};

verus! {

/// The empty argument list.
pub struct ANil;

/// An argument-list cell: head key `S` followed by tail list `R`.
pub struct ACons<S, R>(PhantomData<(S, R)>);

/// A resource key: a `u64` name hash paired with its arguments (key list).
pub struct Sig<const NAME: u64, Args>(PhantomData<Args>);

/// A key term (`Sig`, `ANil` or `ACons`) and the structure it spells.
pub trait KeyTerm {
    spec fn term() -> KeyTree;
}

impl KeyTerm for ANil {
    open spec fn term() -> KeyTree {
        KeyTree::ANil
    }
}

impl<S: KeyTerm, R: KeyTerm> KeyTerm for ACons<S, R> {
    open spec fn term() -> KeyTree {
        KeyTree::ACons(Box::new(S::term()), Box::new(R::term()))
    }
}

impl<const NAME: u64, Args: KeyTerm> KeyTerm for Sig<NAME, Args> {
    open spec fn term() -> KeyTree {
        KeyTree::Sig(NAME, Box::new(Args::term()))
    }
}

/// Associates a resource type with its structural key.
pub trait HasKey {
    type Key: KeyTerm;
}

/// Structural equality over key terms: `equal` is `true` iff the two terms
/// are identical.
pub trait KeyEq<Rhs: KeyTerm>: KeyTerm {
    fn equal() -> (b: bool)
        ensures
            b == (Self::term() == Rhs::term()),
    ;
}

impl KeyEq<ANil> for ANil {
    fn equal() -> (b: bool) {
        true
    }
}

impl<S: KeyTerm, R: KeyTerm> KeyEq<ANil> for ACons<S, R> {
    fn equal() -> (b: bool) {
        false
    }
}

impl<S: KeyTerm, R: KeyTerm> KeyEq<ACons<S, R>> for ANil {
    fn equal() -> (b: bool) {
        false
    }
}

impl<S1: KeyEq<S2>, R1: KeyEq<R2>, S2: KeyTerm, R2: KeyTerm> KeyEq<ACons<S2, R2>> for ACons<
    S1,
    R1,
> {
    fn equal() -> (b: bool) {
        S1::equal() && R1::equal()
    }
}

impl<A1: KeyEq<A2>, A2: KeyTerm, const N1: u64, const N2: u64> KeyEq<Sig<N2, A2>> for Sig<
    N1,
    A1,
> {
    fn equal() -> (b: bool) {
        N1 == N2 && A1::equal()
    }
}

/// Identity of two resources: `value` is `true` iff `Self` and `U` are the
/// same resource, that is, their structural keys are identical.
pub trait TypeEq<U: HasKey>: HasKey {
    fn value() -> (b: bool)
        ensures
            b == (<Self as HasKey>::Key::term() == <U as HasKey>::Key::term()),
    ;
}

impl<T: HasKey, U: HasKey> TypeEq<U> for T where <T as HasKey>::Key: KeyEq<<U as HasKey>::Key> {
    fn value() -> (b: bool) {
        <<T as HasKey>::Key as KeyEq<<U as HasKey>::Key>>::equal()
    }
}

/// The empty path.
pub struct PNil;

/// A path cell: ancestor key `H` followed by the rest of the path `T`.
pub struct PCons<H, T>(PhantomData<(H, T)>);

/// A resource-containment path (a `PCons`/`PNil` chain, root first).
pub trait PathList {
    /// The keys of the path, root first.
    spec fn path() -> Seq<KeyTree>;
}

impl PathList for PNil {
    open spec fn path() -> Seq<KeyTree> {
        Seq::empty()
    }
}

impl<H: KeyTerm, T: PathList> PathList for PCons<H, T> {
    open spec fn path() -> Seq<KeyTree> {
        seq![H::term()] + T::path()
    }
}

/// A path extended at its deepest end by the key `K`.
pub trait Push<K: KeyTerm>: PathList {
    type Output: PathList;

    /// The path of `Output` is this path with `K` appended.
    proof fn lemma_push()
        ensures
            Self::Output::path() == Self::path().push(K::term()),
    ;
}

impl<K: KeyTerm> Push<K> for PNil {
    type Output = PCons<K, PNil>;

    proof fn lemma_push() {
        assert(seq![K::term()] + Seq::<KeyTree>::empty() =~= Seq::<KeyTree>::empty().push(
            K::term(),
        ));
    }
}

impl<K: KeyTerm, H: KeyTerm, T: Push<K>> Push<K> for PCons<H, T> {
    type Output = PCons<H, T::Output>;

    proof fn lemma_push() {
        T::lemma_push();
        assert(seq![H::term()] + T::path().push(K::term()) =~= (seq![H::term()]
            + T::path()).push(K::term()));
    }
}

/// Associates a resource with its containment path, from the root ancestor
/// down to itself.
pub trait HasPath {
    type Path: PathList;
}

/// `value` is `true` iff the two paths overlap: one is a prefix of the other,
/// so the resources are identical or one contains the other.
pub trait PathOverlap<Other: PathList>: PathList {
    fn value() -> (b: bool)
        ensures
            b == paths_overlap(Self::path(), Other::path()),
    ;
}

impl PathOverlap<PNil> for PNil {
    fn value() -> (b: bool) {
        proof {
            lemma_overlap_empty(Seq::empty());
        }
        true
    }
}

impl<H: KeyTerm, T: PathList> PathOverlap<PCons<H, T>> for PNil {
    fn value() -> (b: bool) {
        proof {
            lemma_overlap_empty(PCons::<H, T>::path());
        }
        true
    }
}

impl<H: KeyTerm, T: PathList> PathOverlap<PNil> for PCons<H, T> {
    fn value() -> (b: bool) {
        proof {
            lemma_overlap_empty(PCons::<H, T>::path());
        }
        true
    }
}

/// Two non-empty paths overlap iff their heads name the same resource and the
/// remainders still overlap.
impl<H1: KeyEq<H2>, T1: PathOverlap<T2>, H2: KeyTerm, T2: PathList> PathOverlap<PCons<H2, T2>> for PCons<
    H1,
    T1,
> {
    fn value() -> (b: bool) {
        proof {
            lemma_overlap_cons(H1::term(), T1::path(), H2::term(), T2::path());
        }
        H1::equal() && T1::value()
    }
}

/// An access marker (`Read<R>` or `Write<R>`) and the access it stands for.
pub trait AccessMarker {
    spec fn entry() -> AccessEntry;
}

impl<R: HasPath> AccessMarker for Read<R> {
    open spec fn entry() -> AccessEntry {
        AccessEntry { write: false, path: R::Path::path() }
    }
}

impl<R: HasPath> AccessMarker for Write<R> {
    open spec fn entry() -> AccessEntry {
        AccessEntry { write: true, path: R::Path::path() }
    }
}

/// Pairwise conflict rule: two accesses conflict iff their resources overlap
/// and at least one is a `Write`.
pub trait ConflictsWith<T: AccessMarker>: AccessMarker {
    fn value() -> (b: bool)
        ensures
            b == accesses_conflict(Self::entry(), T::entry()),
    ;
}

/// `Read` vs `Read`: two shared reads never conflict.
impl<A: HasPath, B: HasPath> ConflictsWith<Read<B>> for Read<A> {
    fn value() -> (b: bool) {
        false
    }
}

/// `Read<A>` vs `Write<B>`: conflict iff `A` and `B` overlap.
impl<A: HasPath, B: HasPath> ConflictsWith<Write<B>> for Read<A> where
    <A as HasPath>::Path: PathOverlap<<B as HasPath>::Path>,
 {
    fn value() -> (b: bool) {
        <<A as HasPath>::Path as PathOverlap<<B as HasPath>::Path>>::value()
    }
}

/// `Write<A>` vs `Read<B>`: conflict iff `A` and `B` overlap.
impl<A: HasPath, B: HasPath> ConflictsWith<Read<B>> for Write<A> where
    <A as HasPath>::Path: PathOverlap<<B as HasPath>::Path>,
 {
    fn value() -> (b: bool) {
        <<A as HasPath>::Path as PathOverlap<<B as HasPath>::Path>>::value()
    }
}

/// `Write<A>` vs `Write<B>`: conflict iff `A` and `B` overlap.
impl<A: HasPath, B: HasPath> ConflictsWith<Write<B>> for Write<A> where
    <A as HasPath>::Path: PathOverlap<<B as HasPath>::Path>,
 {
    fn value() -> (b: bool) {
        <<A as HasPath>::Path as PathOverlap<<B as HasPath>::Path>>::value()
    }
}

/// `value` is `true` iff access `H` conflicts with any element of the list.
pub trait AnyConflict<H: AccessMarker>: AccessList {
    fn value() -> (b: bool)
        ensures
            b == conflicts_with_any(H::entry(), Self::entries()),
    ;
}

/// Nothing to conflict with in an empty list.
impl<H: AccessMarker> AnyConflict<H> for Nil {
    fn value() -> (b: bool) {
        false
    }
}

/// `H` conflicts with the list if it conflicts with the head or with any
/// element of the tail.
impl<H: AccessMarker, TH: ConflictsWith<H>, TT: AnyConflict<H>> AnyConflict<H> for Cons<TH, TT> {
    fn value() -> (b: bool) {
        proof {
            lemma_any_cons(H::entry(), TH::entry(), TT::entries());
        }
        <TH as ConflictsWith<H>>::value() || <TT as AnyConflict<H>>::value()
    }
}

/// `value` is `true` iff the whole access list is internally conflict-free.
pub trait NoConflicts: AccessList {
    fn value() -> (b: bool)
        ensures
            b == conflict_free(Self::entries()),
    ;
}

/// An empty list is trivially conflict-free.
impl NoConflicts for Nil {
    fn value() -> (b: bool) {
        true
    }
}

/// A list is conflict-free iff its head clashes with nothing in the tail and
/// the tail is itself conflict-free.
impl<H: AccessMarker, T: NoConflicts + AnyConflict<H>> NoConflicts for Cons<H, T> {
    fn value() -> (b: bool) {
        proof {
            lemma_free_cons(H::entry(), T::entries());
        }
        !<T as AnyConflict<H>>::value() && <T as NoConflicts>::value()
    }
}

} // verus!
