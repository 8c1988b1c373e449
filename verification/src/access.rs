//! Access markers. An access list is a type-level list of [`Read`]/[`Write`]
//! markers over resources; [`Part`] names a `Key`-indexed sub-region of a
//! resource for partitioned access.
use core::marker::PhantomData;
use vstd::prelude::*;
use crate::conflict_check::{HasKey, HasPath, KeyTerm, PathList, Push};
use crate::model::{lemma_partitions_overlap_iff_same_key, lemma_whole_overlaps_partition, paths_overlap};

verus! {

/// A shared (read) access to resource `T`.
pub struct Read<T>(PhantomData<T>);

/// An exclusive (write) access to resource `T`.
pub struct Write<T>(PhantomData<T>);

/// A `K`-indexed partition of resource `R`: `Read<Part<Storage, T>>` reads
/// only the `T`-region of `Storage`, `Write<Part<Storage, T>>` writes it. A
/// whole-`R` access overlaps every partition, but `Part<R, A>` and `Part<R, B>`
/// are disjoint whenever `A` and `B` are different resources.
pub struct Part<R, K>(PhantomData<(R, K)>);

/// A partition `Part<R, K>` sits one level below `R`: its path is `R`'s path
/// with the partition key appended.
impl<R: HasPath, K: HasKey> HasPath for Part<R, K> where
    <R as HasPath>::Path: Push<<K as HasKey>::Key>,
 {
    type Path = <<R as HasPath>::Path as Push<<K as HasKey>::Key>>::Output;
}

/// The path of `Part<R, K>` is `R`'s path with `K`'s key appended.
pub proof fn lemma_part_path<R: HasPath, K: HasKey>() where
    <R as HasPath>::Path: Push<<K as HasKey>::Key>,

    ensures
        <Part<R, K> as HasPath>::Path::path() == <R as HasPath>::Path::path().push(
            <K as HasKey>::Key::term(),
        ),
{
    <<R as HasPath>::Path as Push<<K as HasKey>::Key>>::lemma_push();
}

/// A whole-`R` access overlaps every partition of `R`.
pub proof fn lemma_whole_overlaps_part<R: HasPath, K: HasKey>() where
    <R as HasPath>::Path: Push<<K as HasKey>::Key>,

    ensures
        paths_overlap(<R as HasPath>::Path::path(), <Part<R, K> as HasPath>::Path::path()),
{
    lemma_part_path::<R, K>();
    lemma_whole_overlaps_partition(<R as HasPath>::Path::path(), <K as HasKey>::Key::term());
}

/// Two partitions of one resource overlap iff their keys are identical, so
/// `Part<R, A>` and `Part<R, B>` are disjoint whenever `A` and `B` are
/// different resources.
pub proof fn lemma_parts_overlap_iff_same_key<R: HasPath, A: HasKey, B: HasKey>() where
    <R as HasPath>::Path: Push<<A as HasKey>::Key>,
    <R as HasPath>::Path: Push<<B as HasKey>::Key>,

    ensures
        paths_overlap(<Part<R, A> as HasPath>::Path::path(), <Part<R, B> as HasPath>::Path::path())
            <==> <A as HasKey>::Key::term() == <B as HasKey>::Key::term(),
{
    lemma_part_path::<R, A>();
    lemma_part_path::<R, B>();
    lemma_partitions_overlap_iff_same_key(
        <R as HasPath>::Path::path(),
        <A as HasKey>::Key::term(),
        <B as HasKey>::Key::term(),
    );
}

} // verus!
