//! The `Access` trait and its access-collection machinery.
//!
//! Every `Access` declares the set of resources it touches as a
//! self-contained, `Nil`-terminated type-level list of `Read`/`Write` markers.
//! Tuples then splice their members' lists together with [`Concat`], so an
//! implementor never has to think about "the rest of the params".
use vstd::prelude::*;
use crate::access::{Read, Write};
use crate::conflict_check::{HasPath, PathList};
use crate::hlist::{AccessList, Concat, Cons, Nil};
use crate::model::{
    AccessEntry, conflict_free, cross_free, each_and_pairs_free, each_and_pairwise_free, flatten,
    is_permutation, lemma_flatten_few, lemma_free_append, lemma_free_append_commutes,
    lemma_spliced_laws, permuted,
};

verus! {

/// A parameter's access declaration: the set of resources it touches, as a
/// `Nil`-terminated type-level list of `Read`/`Write` markers. A parameter
/// that touches nothing declares `Nil`.
pub trait Access {
    /// This parameter's own accesses.
    type Accesses: AccessList;
}

/// A system parameter, as checked by `assert_no_conflicts`: implementors
/// declare the resources they touch as an access list, e.g.
/// `type Access = Cons<Read<Storage>, Cons<Write<Config<T>>, Nil>>;`. A
/// parameter that touches nothing uses `type Access = Nil;`.
pub trait Param {
    /// This parameter's own accesses.
    type Access: AccessList;
}

/// `Option<P>` has the exact same access footprint as `P`; whether the
/// parameter is present at runtime does not change what it could touch.
impl<P: Access> Access for Option<P> {
    type Accesses = <P as Access>::Accesses;
}

/// A shared reference `&R` is a read of resource `R`.
impl<R: HasPath> Access for &R {
    type Accesses = Cons<Read<R>, Nil>;
}

/// A mutable reference `&mut R` is a write of resource `R`.
impl<R: HasPath> Access for &mut R {
    type Accesses = Cons<Write<R>, Nil>;
}

/// The empty tuple accesses nothing.
impl Access for () {
    type Accesses = Nil;
}

impl<P1: Access> Access for (P1,) {
    type Accesses = <P1 as Access>::Accesses;
}

impl<P1: Access, P2: Access> Access for (P1, P2) where
    <P1 as Access>::Accesses: Concat<<P2 as Access>::Accesses>,
 {
    type Accesses = <<P1 as Access>::Accesses as Concat<<P2 as Access>::Accesses>>::Output;
}

impl<P1: Access, P2: Access, P3: Access> Access for (P1, P2, P3) where
    <P2 as Access>::Accesses: Concat<<P3 as Access>::Accesses>,
    <P1 as Access>::Accesses: Concat<
        <<P2 as Access>::Accesses as Concat<<P3 as Access>::Accesses>>::Output,
    >,
 {
    type Accesses = <<P1 as Access>::Accesses as Concat<
        <<P2 as Access>::Accesses as Concat<<P3 as Access>::Accesses>>::Output,
    >>::Output;
}

impl<P1: Access, P2: Access, P3: Access, P4: Access> Access for (P1, P2, P3, P4) where
    <P3 as Access>::Accesses: Concat<<P4 as Access>::Accesses>,
    <P2 as Access>::Accesses: Concat<
        <<P3 as Access>::Accesses as Concat<<P4 as Access>::Accesses>>::Output,
    >,
    <P1 as Access>::Accesses: Concat<
        <<P2 as Access>::Accesses as Concat<
            <<P3 as Access>::Accesses as Concat<<P4 as Access>::Accesses>>::Output,
        >>::Output,
    >,
 {
    type Accesses = <<P1 as Access>::Accesses as Concat<
        <<P2 as Access>::Accesses as Concat<
            <<P3 as Access>::Accesses as Concat<<P4 as Access>::Accesses>>::Output,
        >>::Output,
    >>::Output;
}

impl<P1: Access, P2: Access, P3: Access, P4: Access, P5: Access> Access for (
    P1,
    P2,
    P3,
    P4,
    P5,
) where
    <P4 as Access>::Accesses: Concat<<P5 as Access>::Accesses>,
    <P3 as Access>::Accesses: Concat<
        <<P4 as Access>::Accesses as Concat<<P5 as Access>::Accesses>>::Output,
    >,
    <P2 as Access>::Accesses: Concat<
        <<P3 as Access>::Accesses as Concat<
            <<P4 as Access>::Accesses as Concat<<P5 as Access>::Accesses>>::Output,
        >>::Output,
    >,
    <P1 as Access>::Accesses: Concat<
        <<P2 as Access>::Accesses as Concat<
            <<P3 as Access>::Accesses as Concat<
                <<P4 as Access>::Accesses as Concat<<P5 as Access>::Accesses>>::Output,
            >>::Output,
        >>::Output,
    >,
 {
    type Accesses = <<P1 as Access>::Accesses as Concat<
        <<P2 as Access>::Accesses as Concat<
            <<P3 as Access>::Accesses as Concat<
                <<P4 as Access>::Accesses as Concat<<P5 as Access>::Accesses>>::Output,
            >>::Output,
        >>::Output,
    >>::Output;
}

/// `Option<P>` has the exact same access footprint as `P`.
impl<P: Param> Param for Option<P> {
    type Access = <P as Param>::Access;
}

/// The empty tuple accesses nothing.
impl Param for () {
    type Access = Nil;
}

impl<P1: Param> Param for (P1,) {
    type Access = <P1 as Param>::Access;
}

impl<P1: Param, P2: Param> Param for (P1, P2) where
    <P1 as Param>::Access: Concat<<P2 as Param>::Access>,
 {
    type Access = <<P1 as Param>::Access as Concat<<P2 as Param>::Access>>::Output;
}

impl<P1: Param, P2: Param, P3: Param> Param for (P1, P2, P3) where
    <P2 as Param>::Access: Concat<<P3 as Param>::Access>,
    <P1 as Param>::Access: Concat<<<P2 as Param>::Access as Concat<<P3 as Param>::Access>>::Output>,
 {
    type Access = <<P1 as Param>::Access as Concat<<<P2 as Param>::Access as Concat<<P3 as Param>::Access>>::Output>>::Output;
}

impl<P1: Param, P2: Param, P3: Param, P4: Param> Param for (P1, P2, P3, P4) where
    <P3 as Param>::Access: Concat<<P4 as Param>::Access>,
    <P2 as Param>::Access: Concat<<<P3 as Param>::Access as Concat<<P4 as Param>::Access>>::Output>,
    <P1 as Param>::Access: Concat<<<P2 as Param>::Access as Concat<<<P3 as Param>::Access as Concat<<P4 as Param>::Access>>::Output>>::Output>,
 {
    type Access = <<P1 as Param>::Access as Concat<<<P2 as Param>::Access as Concat<<<P3 as Param>::Access as Concat<<P4 as Param>::Access>>::Output>>::Output>>::Output;
}

impl<P1: Param, P2: Param, P3: Param, P4: Param, P5: Param> Param for (P1, P2, P3, P4, P5) where
    <P4 as Param>::Access: Concat<<P5 as Param>::Access>,
    <P3 as Param>::Access: Concat<<<P4 as Param>::Access as Concat<<P5 as Param>::Access>>::Output>,
    <P2 as Param>::Access: Concat<<<P3 as Param>::Access as Concat<<<P4 as Param>::Access as Concat<<P5 as Param>::Access>>::Output>>::Output>,
    <P1 as Param>::Access: Concat<<<P2 as Param>::Access as Concat<<<P3 as Param>::Access as Concat<<<P4 as Param>::Access as Concat<<P5 as Param>::Access>>::Output>>::Output>>::Output>,
 {
    type Access = <<P1 as Param>::Access as Concat<<<P2 as Param>::Access as Concat<<<P3 as Param>::Access as Concat<<<P4 as Param>::Access as Concat<<P5 as Param>::Access>>::Output>>::Output>>::Output>>::Output;
}

/// The accesses of a parameter `P`.
pub open spec fn footprint<P: Access>() -> Seq<AccessEntry> {
    <<P as Access>::Accesses as AccessList>::entries()
}

/// `Option<P>` touches exactly what `P` touches.
pub proof fn lemma_option_footprint<P: Access>()
    ensures
        footprint::<Option<P>>() == footprint::<P>(),
{
}

/// `&R` is a single read of `R`, and `&mut R` a single write of it.
pub proof fn lemma_reference_footprints<'a, R: HasPath>()
    ensures
        footprint::<&'a R>() == seq![AccessEntry { write: false, path: <R as HasPath>::Path::path() }],
        footprint::<&'a mut R>() == seq![AccessEntry { write: true, path: <R as HasPath>::Path::path() }],
{
    assert(footprint::<&'a R>() =~= seq![AccessEntry { write: false, path: <R as HasPath>::Path::path() }]);
    assert(footprint::<&'a mut R>() =~= seq![AccessEntry { write: true, path: <R as HasPath>::Path::path() }]);
}

/// The empty tuple touches nothing, and a one-tuple what its member touches.
pub proof fn lemma_small_tuple_footprints<P1: Access>()
    ensures
        footprint::<()>() == Seq::<AccessEntry>::empty(),
        footprint::<(P1,)>() == footprint::<P1>(),
{
}

/// A pair touches what its members touch, in order.
pub proof fn lemma_pair_footprint<P1: Access, P2: Access>() where
    <P1 as Access>::Accesses: Concat<<P2 as Access>::Accesses>,

    ensures
        footprint::<(P1, P2)>() == footprint::<P1>() + footprint::<P2>(),
{
    <<P1 as Access>::Accesses as Concat<<P2 as Access>::Accesses>>::lemma_concat();
}

/// A triple touches what its members touch, in order.
pub proof fn lemma_triple_footprint<P1: Access, P2: Access, P3: Access>() where
    <P2 as Access>::Accesses: Concat<<P3 as Access>::Accesses>,
    <P1 as Access>::Accesses: Concat<
        <<P2 as Access>::Accesses as Concat<<P3 as Access>::Accesses>>::Output,
    >,

    ensures
        footprint::<(P1, P2, P3)>() == footprint::<P1>() + footprint::<P2>() + footprint::<P3>(),
{
    <<P2 as Access>::Accesses as Concat<<P3 as Access>::Accesses>>::lemma_concat();
    <<P1 as Access>::Accesses as Concat<
        <<P2 as Access>::Accesses as Concat<<P3 as Access>::Accesses>>::Output,
    >>::lemma_concat();
    assert(footprint::<P1>() + (footprint::<P2>() + footprint::<P3>()) =~= footprint::<P1>()
        + footprint::<P2>() + footprint::<P3>());
}

/// A 4-tuple touches what its members touch, in order.
pub proof fn lemma_quadruple_footprint<P1: Access, P2: Access, P3: Access, P4: Access>() where
    <P3 as Access>::Accesses: Concat<<P4 as Access>::Accesses>,
    <P2 as Access>::Accesses: Concat<
        <<P3 as Access>::Accesses as Concat<<P4 as Access>::Accesses>>::Output,
    >,
    <P1 as Access>::Accesses: Concat<
        <<P2 as Access>::Accesses as Concat<
            <<P3 as Access>::Accesses as Concat<<P4 as Access>::Accesses>>::Output,
        >>::Output,
    >,

    ensures
        footprint::<(P1, P2, P3, P4)>() == footprint::<P1>() + footprint::<P2>() + footprint::<P3>()
            + footprint::<P4>(),
{
    <<P3 as Access>::Accesses as Concat<<P4 as Access>::Accesses>>::lemma_concat();
    <<P2 as Access>::Accesses as Concat<
        <<P3 as Access>::Accesses as Concat<<P4 as Access>::Accesses>>::Output,
    >>::lemma_concat();
    <<P1 as Access>::Accesses as Concat<
        <<P2 as Access>::Accesses as Concat<
            <<P3 as Access>::Accesses as Concat<<P4 as Access>::Accesses>>::Output,
        >>::Output,
    >>::lemma_concat();
    assert(footprint::<P1>() + (footprint::<P2>() + (footprint::<P3>() + footprint::<P4>()))
        =~= footprint::<P1>() + footprint::<P2>() + footprint::<P3>() + footprint::<P4>());
}

/// A 5-tuple touches what its members touch, in order.
pub proof fn lemma_quintuple_footprint<P1: Access, P2: Access, P3: Access, P4: Access, P5: Access>() where
    <P4 as Access>::Accesses: Concat<<P5 as Access>::Accesses>,
    <P3 as Access>::Accesses: Concat<
        <<P4 as Access>::Accesses as Concat<<P5 as Access>::Accesses>>::Output,
    >,
    <P2 as Access>::Accesses: Concat<
        <<P3 as Access>::Accesses as Concat<
            <<P4 as Access>::Accesses as Concat<<P5 as Access>::Accesses>>::Output,
        >>::Output,
    >,
    <P1 as Access>::Accesses: Concat<
        <<P2 as Access>::Accesses as Concat<
            <<P3 as Access>::Accesses as Concat<
                <<P4 as Access>::Accesses as Concat<<P5 as Access>::Accesses>>::Output,
            >>::Output,
        >>::Output,
    >,

    ensures
        footprint::<(P1, P2, P3, P4, P5)>() == footprint::<P1>() + footprint::<P2>()
            + footprint::<P3>() + footprint::<P4>() + footprint::<P5>(),
{
    <<P4 as Access>::Accesses as Concat<<P5 as Access>::Accesses>>::lemma_concat();
    <<P3 as Access>::Accesses as Concat<
        <<P4 as Access>::Accesses as Concat<<P5 as Access>::Accesses>>::Output,
    >>::lemma_concat();
    <<P2 as Access>::Accesses as Concat<
        <<P3 as Access>::Accesses as Concat<
            <<P4 as Access>::Accesses as Concat<<P5 as Access>::Accesses>>::Output,
        >>::Output,
    >>::lemma_concat();
    <<P1 as Access>::Accesses as Concat<
        <<P2 as Access>::Accesses as Concat<
            <<P3 as Access>::Accesses as Concat<
                <<P4 as Access>::Accesses as Concat<<P5 as Access>::Accesses>>::Output,
            >>::Output,
        >>::Output,
    >>::lemma_concat();
    assert(footprint::<P1>() + (footprint::<P2>() + (footprint::<P3>() + (footprint::<P4>()
        + footprint::<P5>()))) =~= footprint::<P1>() + footprint::<P2>() + footprint::<P3>()
        + footprint::<P4>() + footprint::<P5>());
}

/// A pair has a conflict iff one member has one on its own or an access of
/// one member conflicts with an access of the other.
pub proof fn lemma_pair_conflict_decomposes<P1: Access, P2: Access>() where
    <P1 as Access>::Accesses: Concat<<P2 as Access>::Accesses>,

    ensures
        conflict_free(footprint::<(P1, P2)>()) <==> (conflict_free(footprint::<P1>())
            && conflict_free(footprint::<P2>()) && cross_free(footprint::<P1>(), footprint::<P2>())),
        conflict_free(footprint::<(P1, P2)>()) <==> each_and_pairs_free(
            seq![footprint::<P1>(), footprint::<P2>()],
        ),
{
    lemma_pair_footprint::<P1, P2>();
    lemma_free_append(footprint::<P1>(), footprint::<P2>());
    let lists = seq![footprint::<P1>(), footprint::<P2>()];
    assert(lists[0] == footprint::<P1>() && lists[1] == footprint::<P2>());
    if conflict_free(footprint::<(P1, P2)>()) {
        assert forall|i: int, j: int| 0 <= i < j < lists.len() implies conflict_free(
            #[trigger] lists[i] + #[trigger] lists[j],
        ) by {
            assert(i == 0 && j == 1);
        }
    }
    if each_and_pairs_free(lists) {
        assert(conflict_free(lists[0] + lists[1]));
    }
}

/// Swapping the members of a pair does not change whether it has a conflict.
pub proof fn lemma_pair_order_irrelevant<P1: Access, P2: Access>() where
    <P1 as Access>::Accesses: Concat<<P2 as Access>::Accesses>,
    <P2 as Access>::Accesses: Concat<<P1 as Access>::Accesses>,

    ensures
        conflict_free(footprint::<(P1, P2)>()) == conflict_free(footprint::<(P2, P1)>()),
{
    lemma_pair_footprint::<P1, P2>();
    lemma_pair_footprint::<P2, P1>();
    lemma_free_append_commutes(footprint::<P1>(), footprint::<P2>());
}

/// A triple has a conflict iff one member has one on its own or two members,
/// spliced together, have one.
pub proof fn lemma_triple_conflict_decomposes<P1: Access, P2: Access, P3: Access>() where
    <P2 as Access>::Accesses: Concat<<P3 as Access>::Accesses>,
    <P1 as Access>::Accesses: Concat<<<P2 as Access>::Accesses as Concat<<P3 as Access>::Accesses>>::Output>,

    ensures
        conflict_free(footprint::<(P1, P2, P3)>()) <==> each_and_pairwise_free(seq![footprint::<P1>(), footprint::<P2>(), footprint::<P3>()]),
        conflict_free(footprint::<(P1, P2, P3)>()) <==> each_and_pairs_free(seq![footprint::<P1>(), footprint::<P2>(), footprint::<P3>()]),
{
    lemma_triple_footprint::<P1, P2, P3>();
    lemma_flatten_few(footprint::<P1>(), footprint::<P2>(), footprint::<P3>(), Seq::<AccessEntry>::empty(), Seq::<AccessEntry>::empty());
    lemma_spliced_laws(seq![footprint::<P1>(), footprint::<P2>(), footprint::<P3>()], Seq::empty());
}

/// Reordering the members of a triple does not change whether it has a
/// conflict: its footprint is conflict-free iff the members' footprints,
/// spliced in any other order, are.
pub proof fn lemma_triple_order_irrelevant<P1: Access, P2: Access, P3: Access>(perm: Seq<int>) where
    <P2 as Access>::Accesses: Concat<<P3 as Access>::Accesses>,
    <P1 as Access>::Accesses: Concat<<<P2 as Access>::Accesses as Concat<<P3 as Access>::Accesses>>::Output>,

    requires
        is_permutation(perm, 3),
    ensures
        conflict_free(footprint::<(P1, P2, P3)>()) == conflict_free(
            flatten(permuted(seq![footprint::<P1>(), footprint::<P2>(), footprint::<P3>()], perm)),
        ),
{
    lemma_triple_footprint::<P1, P2, P3>();
    lemma_flatten_few(footprint::<P1>(), footprint::<P2>(), footprint::<P3>(), Seq::<AccessEntry>::empty(), Seq::<AccessEntry>::empty());
    lemma_spliced_laws(seq![footprint::<P1>(), footprint::<P2>(), footprint::<P3>()], perm);
}

/// A quadruple has a conflict iff one member has one on its own or two members,
/// spliced together, have one.
pub proof fn lemma_quadruple_conflict_decomposes<P1: Access, P2: Access, P3: Access, P4: Access>() where
    <P3 as Access>::Accesses: Concat<<P4 as Access>::Accesses>,
    <P2 as Access>::Accesses: Concat<<<P3 as Access>::Accesses as Concat<<P4 as Access>::Accesses>>::Output>,
    <P1 as Access>::Accesses: Concat<<<P2 as Access>::Accesses as Concat<<<P3 as Access>::Accesses as Concat<<P4 as Access>::Accesses>>::Output>>::Output>,

    ensures
        conflict_free(footprint::<(P1, P2, P3, P4)>()) <==> each_and_pairwise_free(seq![footprint::<P1>(), footprint::<P2>(), footprint::<P3>(), footprint::<P4>()]),
        conflict_free(footprint::<(P1, P2, P3, P4)>()) <==> each_and_pairs_free(seq![footprint::<P1>(), footprint::<P2>(), footprint::<P3>(), footprint::<P4>()]),
{
    lemma_quadruple_footprint::<P1, P2, P3, P4>();
    lemma_flatten_few(footprint::<P1>(), footprint::<P2>(), footprint::<P3>(), footprint::<P4>(), Seq::<AccessEntry>::empty());
    lemma_spliced_laws(seq![footprint::<P1>(), footprint::<P2>(), footprint::<P3>(), footprint::<P4>()], Seq::empty());
}

/// Reordering the members of a quadruple does not change whether it has a
/// conflict: its footprint is conflict-free iff the members' footprints,
/// spliced in any other order, are.
pub proof fn lemma_quadruple_order_irrelevant<P1: Access, P2: Access, P3: Access, P4: Access>(perm: Seq<int>) where
    <P3 as Access>::Accesses: Concat<<P4 as Access>::Accesses>,
    <P2 as Access>::Accesses: Concat<<<P3 as Access>::Accesses as Concat<<P4 as Access>::Accesses>>::Output>,
    <P1 as Access>::Accesses: Concat<<<P2 as Access>::Accesses as Concat<<<P3 as Access>::Accesses as Concat<<P4 as Access>::Accesses>>::Output>>::Output>,

    requires
        is_permutation(perm, 4),
    ensures
        conflict_free(footprint::<(P1, P2, P3, P4)>()) == conflict_free(
            flatten(permuted(seq![footprint::<P1>(), footprint::<P2>(), footprint::<P3>(), footprint::<P4>()], perm)),
        ),
{
    lemma_quadruple_footprint::<P1, P2, P3, P4>();
    lemma_flatten_few(footprint::<P1>(), footprint::<P2>(), footprint::<P3>(), footprint::<P4>(), Seq::<AccessEntry>::empty());
    lemma_spliced_laws(seq![footprint::<P1>(), footprint::<P2>(), footprint::<P3>(), footprint::<P4>()], perm);
}

/// A quintuple has a conflict iff one member has one on its own or two members,
/// spliced together, have one.
pub proof fn lemma_quintuple_conflict_decomposes<P1: Access, P2: Access, P3: Access, P4: Access, P5: Access>() where
    <P4 as Access>::Accesses: Concat<<P5 as Access>::Accesses>,
    <P3 as Access>::Accesses: Concat<<<P4 as Access>::Accesses as Concat<<P5 as Access>::Accesses>>::Output>,
    <P2 as Access>::Accesses: Concat<<<P3 as Access>::Accesses as Concat<<<P4 as Access>::Accesses as Concat<<P5 as Access>::Accesses>>::Output>>::Output>,
    <P1 as Access>::Accesses: Concat<<<P2 as Access>::Accesses as Concat<<<P3 as Access>::Accesses as Concat<<<P4 as Access>::Accesses as Concat<<P5 as Access>::Accesses>>::Output>>::Output>>::Output>,

    ensures
        conflict_free(footprint::<(P1, P2, P3, P4, P5)>()) <==> each_and_pairwise_free(seq![footprint::<P1>(), footprint::<P2>(), footprint::<P3>(), footprint::<P4>(), footprint::<P5>()]),
        conflict_free(footprint::<(P1, P2, P3, P4, P5)>()) <==> each_and_pairs_free(seq![footprint::<P1>(), footprint::<P2>(), footprint::<P3>(), footprint::<P4>(), footprint::<P5>()]),
{
    lemma_quintuple_footprint::<P1, P2, P3, P4, P5>();
    lemma_flatten_few(footprint::<P1>(), footprint::<P2>(), footprint::<P3>(), footprint::<P4>(), footprint::<P5>());
    lemma_spliced_laws(seq![footprint::<P1>(), footprint::<P2>(), footprint::<P3>(), footprint::<P4>(), footprint::<P5>()], Seq::empty());
}

/// Reordering the members of a quintuple does not change whether it has a
/// conflict: its footprint is conflict-free iff the members' footprints,
/// spliced in any other order, are.
pub proof fn lemma_quintuple_order_irrelevant<P1: Access, P2: Access, P3: Access, P4: Access, P5: Access>(perm: Seq<int>) where
    <P4 as Access>::Accesses: Concat<<P5 as Access>::Accesses>,
    <P3 as Access>::Accesses: Concat<<<P4 as Access>::Accesses as Concat<<P5 as Access>::Accesses>>::Output>,
    <P2 as Access>::Accesses: Concat<<<P3 as Access>::Accesses as Concat<<<P4 as Access>::Accesses as Concat<<P5 as Access>::Accesses>>::Output>>::Output>,
    <P1 as Access>::Accesses: Concat<<<P2 as Access>::Accesses as Concat<<<P3 as Access>::Accesses as Concat<<<P4 as Access>::Accesses as Concat<<P5 as Access>::Accesses>>::Output>>::Output>>::Output>,

    requires
        is_permutation(perm, 5),
    ensures
        conflict_free(footprint::<(P1, P2, P3, P4, P5)>()) == conflict_free(
            flatten(permuted(seq![footprint::<P1>(), footprint::<P2>(), footprint::<P3>(), footprint::<P4>(), footprint::<P5>()], perm)),
        ),
{
    lemma_quintuple_footprint::<P1, P2, P3, P4, P5>();
    lemma_flatten_few(footprint::<P1>(), footprint::<P2>(), footprint::<P3>(), footprint::<P4>(), footprint::<P5>());
    lemma_spliced_laws(seq![footprint::<P1>(), footprint::<P2>(), footprint::<P3>(), footprint::<P4>(), footprint::<P5>()], perm);
}

} // verus!
