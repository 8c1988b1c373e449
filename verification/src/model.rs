//! The mathematical model of the conflict checker.
//!
//! A resource key (`Sig<NAME, Args>`) is a [`KeyTree`]; a resource's
//! containment path is the sequence of keys from its root ancestor down to
//! itself; an access is a read or a write of such a path ([`AccessEntry`]); and
//! a parameter's footprint is the sequence of its accesses. Every type-level
//! trait of the crate states its result over these definitions.
use vstd::prelude::*;

verus! {

/// The structure of a key term as the types `Sig`, `ANil` and `ACons` spell it.
pub enum KeyTree {
    /// `Sig<NAME, Args>`: a name hash with the key list of its generic arguments.
    Sig(u64, Box<KeyTree>),
    /// `ANil`: the empty argument list.
    ANil,
    /// `ACons<S, R>`: an argument key followed by the rest of the list.
    ACons(Box<KeyTree>, Box<KeyTree>),
}

/// One access of a footprint: a read (`write == false`) or a write of the
/// resource whose containment path is `path` (root ancestor first).
pub struct AccessEntry {
    pub write: bool,
    pub path: Seq<KeyTree>,
}

/// Two resources overlap iff one path is a prefix of the other: they are the
/// same resource, or one contains the other.
pub open spec fn paths_overlap(p: Seq<KeyTree>, q: Seq<KeyTree>) -> bool {
    p.is_prefix_of(q) || q.is_prefix_of(p)
}

/// Two accesses conflict iff their resources overlap and at least one is a write.
pub open spec fn accesses_conflict(a: AccessEntry, b: AccessEntry) -> bool {
    (a.write || b.write) && paths_overlap(a.path, b.path)
}

/// The access `h` conflicts with some access of `list`.
pub open spec fn conflicts_with_any(h: AccessEntry, list: Seq<AccessEntry>) -> bool {
    exists|i: int| 0 <= i < list.len() && accesses_conflict(#[trigger] list[i], h)
}

/// No two distinct positions of `list` hold conflicting accesses.
pub open spec fn conflict_free(list: Seq<AccessEntry>) -> bool {
    forall|i: int, j: int|
        0 <= i < j < list.len() ==> !accesses_conflict(#[trigger] list[i], #[trigger] list[j])
}

/// No access of `a` conflicts with an access of `b`.
pub open spec fn cross_free(a: Seq<AccessEntry>, b: Seq<AccessEntry>) -> bool {
    forall|i: int, j: int|
        0 <= i < a.len() && 0 <= j < b.len() ==> !accesses_conflict(#[trigger] a[i], #[trigger] b[j])
}

/// The footprints of a list of parameters, spliced together in order.
pub open spec fn flatten(lists: Seq<Seq<AccessEntry>>) -> Seq<AccessEntry>
    decreases lists.len(),
{
    if lists.len() == 0 {
        Seq::empty()
    } else {
        flatten(lists.drop_last()) + lists.last()
    }
}

/// Every parameter is conflict-free on its own, and every pair of distinct
/// parameters is free of conflicts between the two.
pub open spec fn each_and_pairwise_free(lists: Seq<Seq<AccessEntry>>) -> bool {
    &&& forall|i: int| 0 <= i < lists.len() ==> conflict_free(#[trigger] lists[i])
    &&& forall|i: int, j: int|
        0 <= i < j < lists.len() ==> cross_free(#[trigger] lists[i], #[trigger] lists[j])
}

/// The path with every key replaced by its image under `f`.
pub open spec fn rename_path(p: Seq<KeyTree>, f: spec_fn(KeyTree) -> KeyTree) -> Seq<KeyTree> {
    p.map_values(f)
}

/// The footprint with every key of every path replaced by its image under `f`.
pub open spec fn rename_entries(list: Seq<AccessEntry>, f: spec_fn(KeyTree) -> KeyTree) -> Seq<
    AccessEntry,
> {
    list.map_values(|e: AccessEntry| AccessEntry { write: e.write, path: rename_path(e.path, f) })
}

/// Path overlap is symmetric.
pub proof fn lemma_overlap_symmetric(p: Seq<KeyTree>, q: Seq<KeyTree>)
    ensures
        paths_overlap(p, q) == paths_overlap(q, p),
{
}

/// Conflict between two accesses does not depend on their order.
pub proof fn lemma_conflict_symmetric(a: AccessEntry, b: AccessEntry)
    ensures
        accesses_conflict(a, b) == accesses_conflict(b, a),
{
}

/// Two reads never conflict, whatever they read.
pub proof fn lemma_reads_never_conflict(a: AccessEntry, b: AccessEntry)
    requires
        !a.write,
        !b.write,
    ensures
        !accesses_conflict(a, b),
{
}

/// A write conflicts with any access of the same resource, a read included.
pub proof fn lemma_write_conflicts_with_same_resource(a: AccessEntry, b: AccessEntry)
    requires
        a.write || b.write,
        a.path == b.path,
    ensures
        accesses_conflict(a, b),
{
    assert(a.path.is_prefix_of(b.path)) by {
        assert(a.path =~= b.path.subrange(0, a.path.len() as int));
    }
}

/// An access to a whole resource overlaps every partition of it.
pub proof fn lemma_whole_overlaps_partition(p: Seq<KeyTree>, k: KeyTree)
    ensures
        paths_overlap(p, p.push(k)),
{
    assert(p =~= p.push(k).subrange(0, p.len() as int));
}

/// Two partitions of one resource overlap iff their keys are identical.
pub proof fn lemma_partitions_overlap_iff_same_key(p: Seq<KeyTree>, a: KeyTree, b: KeyTree)
    ensures
        paths_overlap(p.push(a), p.push(b)) <==> a == b,
{
    if paths_overlap(p.push(a), p.push(b)) {
        assert(p.push(a)[p.len() as int] == p.push(b)[p.len() as int]);
    }
    if a == b {
        assert(p.push(a) =~= p.push(b).subrange(0, p.len() + 1 as int));
    }
}

/// Overlap of two non-empty paths: equal roots and overlapping remainders.
pub proof fn lemma_overlap_cons(a: KeyTree, p: Seq<KeyTree>, b: KeyTree, q: Seq<KeyTree>)
    ensures
        paths_overlap(seq![a] + p, seq![b] + q) <==> (a == b && paths_overlap(p, q)),
{
    let ap = seq![a] + p;
    let bq = seq![b] + q;
    if ap.is_prefix_of(bq) {
        assert(ap[0] == bq[0]);
        assert(p =~= q.subrange(0, p.len() as int)) by {
            assert forall|i: int| 0 <= i < p.len() implies p[i] == q[i] by {
                assert(ap[i + 1] == bq[i + 1]);
            }
        }
    }
    if bq.is_prefix_of(ap) {
        assert(ap[0] == bq[0]);
        assert(q =~= p.subrange(0, q.len() as int)) by {
            assert forall|i: int| 0 <= i < q.len() implies q[i] == p[i] by {
                assert(ap[i + 1] == bq[i + 1]);
            }
        }
    }
    if a == b && p.is_prefix_of(q) {
        assert(ap =~= bq.subrange(0, ap.len() as int));
    }
    if a == b && q.is_prefix_of(p) {
        assert(bq =~= ap.subrange(0, bq.len() as int));
    }
}

/// The empty path overlaps every path.
pub proof fn lemma_overlap_empty(q: Seq<KeyTree>)
    ensures
        paths_overlap(Seq::empty(), q),
        paths_overlap(q, Seq::empty()),
{
    assert(Seq::<KeyTree>::empty() =~= q.subrange(0, 0));
}

/// The access `h` conflicts with a list iff it conflicts with its head or its tail.
pub proof fn lemma_any_cons(h: AccessEntry, x: AccessEntry, t: Seq<AccessEntry>)
    ensures
        conflicts_with_any(h, seq![x] + t) <==> (accesses_conflict(x, h) || conflicts_with_any(h, t)),
{
    let l = seq![x] + t;
    if conflicts_with_any(h, l) {
        let i = choose|i: int| 0 <= i < l.len() && accesses_conflict(#[trigger] l[i], h);
        if i > 0 {
            assert(t[i - 1] == l[i]);
        }
    }
    if accesses_conflict(x, h) {
        assert(l[0] == x);
    }
    if conflicts_with_any(h, t) {
        let i = choose|i: int| 0 <= i < t.len() && accesses_conflict(#[trigger] t[i], h);
        assert(l[i + 1] == t[i]);
    }
}

/// A list is conflict-free iff its head clashes with nothing in the tail and
/// the tail is itself conflict-free.
pub proof fn lemma_free_cons(x: AccessEntry, t: Seq<AccessEntry>)
    ensures
        conflict_free(seq![x] + t) <==> (!conflicts_with_any(x, t) && conflict_free(t)),
{
    let l = seq![x] + t;
    if conflict_free(l) {
        assert forall|i: int, j: int| 0 <= i < j < t.len() implies !accesses_conflict(
            #[trigger] t[i],
            #[trigger] t[j],
        ) by {
            assert(l[i + 1] == t[i] && l[j + 1] == t[j]);
        }
        if conflicts_with_any(x, t) {
            let i = choose|i: int| 0 <= i < t.len() && accesses_conflict(#[trigger] t[i], x);
            assert(l[0] == x && l[i + 1] == t[i]);
            lemma_conflict_symmetric(t[i], x);
        }
    }
    if !conflicts_with_any(x, t) && conflict_free(t) {
        assert forall|i: int, j: int| 0 <= i < j < l.len() implies !accesses_conflict(
            #[trigger] l[i],
            #[trigger] l[j],
        ) by {
            if i == 0 {
                assert(l[j] == t[j - 1]);
                lemma_conflict_symmetric(t[j - 1], x);
                if accesses_conflict(t[j - 1], x) {
                    assert(conflicts_with_any(x, t));
                }
            } else {
                assert(l[i] == t[i - 1] && l[j] == t[j - 1]);
            }
        }
    }
}

/// Splicing two footprints together: the result is conflict-free iff each part
/// is, and no access of one conflicts with an access of the other.
pub proof fn lemma_free_append(a: Seq<AccessEntry>, b: Seq<AccessEntry>)
    ensures
        conflict_free(a + b) <==> (conflict_free(a) && conflict_free(b) && cross_free(a, b)),
{
    let l = a + b;
    if conflict_free(l) {
        assert forall|i: int, j: int| 0 <= i < j < a.len() implies !accesses_conflict(
            #[trigger] a[i],
            #[trigger] a[j],
        ) by {
            assert(l[i] == a[i] && l[j] == a[j]);
        }
        assert forall|i: int, j: int| 0 <= i < j < b.len() implies !accesses_conflict(
            #[trigger] b[i],
            #[trigger] b[j],
        ) by {
            assert(l[a.len() + i] == b[i] && l[a.len() + j] == b[j]);
        }
        assert forall|i: int, j: int| 0 <= i < a.len() && 0 <= j < b.len() implies !accesses_conflict(
            #[trigger] a[i],
            #[trigger] b[j],
        ) by {
            assert(l[i] == a[i] && l[a.len() + j] == b[j]);
        }
    }
    if conflict_free(a) && conflict_free(b) && cross_free(a, b) {
        assert forall|i: int, j: int| 0 <= i < j < l.len() implies !accesses_conflict(
            #[trigger] l[i],
            #[trigger] l[j],
        ) by {
            if j < a.len() {
                assert(l[i] == a[i] && l[j] == a[j]);
            } else if i < a.len() {
                assert(l[i] == a[i] && l[j] == b[j - a.len()]);
            } else {
                assert(l[i] == b[i - a.len()] && l[j] == b[j - a.len()]);
            }
        }
    }
}

/// The order in which two footprints are spliced does not change whether
/// the result has a conflict.
pub proof fn lemma_free_append_commutes(a: Seq<AccessEntry>, b: Seq<AccessEntry>)
    ensures
        conflict_free(a + b) == conflict_free(b + a),
{
    lemma_free_append(a, b);
    lemma_free_append(b, a);
    lemma_cross_free_symmetric(a, b);
}

/// Splicing the footprint of one more parameter onto a list of parameters.
proof fn lemma_cross_flatten(lists: Seq<Seq<AccessEntry>>, b: Seq<AccessEntry>)
    ensures
        cross_free(flatten(lists), b) <==> (forall|i: int|
            0 <= i < lists.len() ==> cross_free(#[trigger] lists[i], b)),
    decreases lists.len(),
{
    if lists.len() > 0 {
        let init = lists.drop_last();
        let a = flatten(init);
        let c = lists.last();
        lemma_cross_flatten(init, b);
        let l = a + c;
        assert(flatten(lists) == l);
        if cross_free(l, b) {
            assert forall|i: int| 0 <= i < lists.len() implies cross_free(#[trigger] lists[i], b) by {
                if i < lists.len() - 1 {
                    assert(init[i] == lists[i]);
                    assert forall|x: int, y: int|
                        0 <= x < a.len() && 0 <= y < b.len() implies !accesses_conflict(
                        #[trigger] a[x],
                        #[trigger] b[y],
                    ) by {
                        assert(l[x] == a[x]);
                    }
                } else {
                    assert forall|x: int, y: int|
                        0 <= x < c.len() && 0 <= y < b.len() implies !accesses_conflict(
                        #[trigger] c[x],
                        #[trigger] b[y],
                    ) by {
                        assert(l[a.len() + x] == c[x]);
                    }
                }
            }
        }
        if forall|i: int| 0 <= i < lists.len() ==> cross_free(#[trigger] lists[i], b) {
            assert forall|i: int| 0 <= i < init.len() implies cross_free(#[trigger] init[i], b) by {
                assert(init[i] == lists[i]);
            }
            assert(cross_free(c, b)) by {
                assert(lists[lists.len() - 1] == c);
            }
            assert forall|x: int, y: int| 0 <= x < l.len() && 0 <= y < b.len() implies !accesses_conflict(
                #[trigger] l[x],
                #[trigger] b[y],
            ) by {
                if x < a.len() {
                    assert(l[x] == a[x]);
                } else {
                    assert(l[x] == c[x - a.len()]);
                }
            }
        }
    }
}

/// The footprints of several parameters, spliced together, are conflict-free
/// iff every parameter is conflict-free on its own and every pair of distinct
/// parameters is free of conflicts between the two. This is what lets a
/// conflict among many parameters be reported as the self-conflict of one or
/// as the clash of one pair.
pub proof fn lemma_free_flatten(lists: Seq<Seq<AccessEntry>>)
    ensures
        conflict_free(flatten(lists)) <==> each_and_pairwise_free(lists),
    decreases lists.len(),
{
    if lists.len() == 0 {
        assert(flatten(lists) =~= Seq::<AccessEntry>::empty());
    } else {
        let init = lists.drop_last();
        let c = lists.last();
        let n = lists.len() - 1;
        lemma_free_flatten(init);
        lemma_free_append(flatten(init), c);
        lemma_cross_flatten(init, c);
        assert(flatten(lists) == flatten(init) + c);
        assert(c == lists[n]);
        if conflict_free(flatten(lists)) {
            assert forall|i: int| 0 <= i < lists.len() implies conflict_free(#[trigger] lists[i]) by {
                if i < n {
                    assert(init[i] == lists[i]);
                }
            }
            assert forall|i: int, j: int| 0 <= i < j < lists.len() implies cross_free(
                #[trigger] lists[i],
                #[trigger] lists[j],
            ) by {
                assert(init[i] == lists[i]);
                if j < n {
                    assert(init[j] == lists[j]);
                }
            }
        }
        if each_and_pairwise_free(lists) {
            assert forall|i: int| 0 <= i < init.len() implies conflict_free(#[trigger] init[i]) by {
                assert(init[i] == lists[i]);
            }
            assert forall|i: int, j: int| 0 <= i < j < init.len() implies cross_free(
                #[trigger] init[i],
                #[trigger] init[j],
            ) by {
                assert(init[i] == lists[i] && init[j] == lists[j]);
            }
            assert forall|i: int| 0 <= i < init.len() implies cross_free(#[trigger] init[i], c) by {
                assert(init[i] == lists[i]);
            }
        }
    }
}

/// Renaming keys by any function keeps overlapping paths overlapping.
pub proof fn lemma_rename_keeps_overlap(p: Seq<KeyTree>, q: Seq<KeyTree>, f: spec_fn(KeyTree) -> KeyTree)
    requires
        paths_overlap(p, q),
    ensures
        paths_overlap(rename_path(p, f), rename_path(q, f)),
{
    let rp = rename_path(p, f);
    let rq = rename_path(q, f);
    if p.is_prefix_of(q) {
        assert forall|i: int| 0 <= i < rp.len() implies rp[i] == rq[i] by {
            assert(p[i] == q[i]);
        }
        assert(rp =~= rq.subrange(0, rp.len() as int));
    } else {
        assert forall|i: int| 0 <= i < rq.len() implies rq[i] == rp[i] by {
            assert(q[i] == p[i]);
        }
        assert(rq =~= rp.subrange(0, rq.len() as int));
    }
}

/// Identifying resources by an image of their keys (such as a hash of their
/// names) can only add conflicts: a conflict among the true keys is still a
/// conflict after renaming, so none is ever missed.
pub proof fn lemma_renaming_never_hides_conflict(list: Seq<AccessEntry>, f: spec_fn(KeyTree) -> KeyTree)
    requires
        !conflict_free(list),
    ensures
        !conflict_free(rename_entries(list, f)),
{
    let (i, j) = choose|i: int, j: int|
        0 <= i < j < list.len() && accesses_conflict(#[trigger] list[i], #[trigger] list[j]);
    let r = rename_entries(list, f);
    lemma_rename_keeps_overlap(list[i].path, list[j].path, f);
    assert(r[i].path == rename_path(list[i].path, f));
    assert(r[j].path == rename_path(list[j].path, f));
    assert(accesses_conflict(r[i], r[j]));
}

/// `perm` reorders `n` items: it lists every index below `n` exactly once.
pub open spec fn is_permutation(perm: Seq<int>, n: nat) -> bool {
    &&& perm.len() == n
    &&& forall|k: int| 0 <= k < n ==> 0 <= #[trigger] perm[k] < n
    &&& forall|a: int, b: int| 0 <= a < b < n ==> #[trigger] perm[a] != #[trigger] perm[b]
    &&& forall|i: int| 0 <= i < n ==> #[trigger] lists_index(perm, i)
}

/// `perm` lists the index `i` at some position.
pub open spec fn lists_index(perm: Seq<int>, i: int) -> bool {
    exists|k: int| 0 <= k < perm.len() && #[trigger] perm[k] == i
}

/// The lists taken in the order `perm` gives.
pub open spec fn permuted(lists: Seq<Seq<AccessEntry>>, perm: Seq<int>) -> Seq<Seq<AccessEntry>> {
    Seq::new(perm.len(), |k: int| lists[perm[k]])
}

/// Every parameter is conflict-free on its own, and every pair of distinct
/// parameters, spliced together, is conflict-free.
pub open spec fn each_and_pairs_free(lists: Seq<Seq<AccessEntry>>) -> bool {
    &&& forall|i: int| 0 <= i < lists.len() ==> conflict_free(#[trigger] lists[i])
    &&& forall|i: int, j: int|
        0 <= i < j < lists.len() ==> conflict_free(#[trigger] lists[i] + #[trigger] lists[j])
}

/// Splicing one footprint list after another.
pub proof fn lemma_flatten_push(lists: Seq<Seq<AccessEntry>>, x: Seq<AccessEntry>)
    ensures
        flatten(lists.push(x)) == flatten(lists) + x,
{
    assert(lists.push(x).drop_last() =~= lists);
}

/// No access of `a` conflicts with one of `b` iff none of `b` conflicts with one of `a`.
pub proof fn lemma_cross_free_symmetric(a: Seq<AccessEntry>, b: Seq<AccessEntry>)
    ensures
        cross_free(a, b) == cross_free(b, a),
{
    if cross_free(a, b) {
        assert forall|i: int, j: int| 0 <= i < b.len() && 0 <= j < a.len() implies !accesses_conflict(
            #[trigger] b[i],
            #[trigger] a[j],
        ) by {
            lemma_conflict_symmetric(a[j], b[i]);
        }
    }
    if cross_free(b, a) {
        assert forall|i: int, j: int| 0 <= i < a.len() && 0 <= j < b.len() implies !accesses_conflict(
            #[trigger] a[i],
            #[trigger] b[j],
        ) by {
            lemma_conflict_symmetric(b[j], a[i]);
        }
    }
}

/// The per-parameter and per-pair conditions, with each pair spliced.
pub proof fn lemma_pairs_spliced(lists: Seq<Seq<AccessEntry>>)
    ensures
        each_and_pairwise_free(lists) <==> each_and_pairs_free(lists),
{
    if each_and_pairwise_free(lists) {
        assert forall|i: int, j: int| 0 <= i < j < lists.len() implies conflict_free(
            #[trigger] lists[i] + #[trigger] lists[j],
        ) by {
            lemma_free_append(lists[i], lists[j]);
        }
    }
    if each_and_pairs_free(lists) {
        assert forall|i: int, j: int| 0 <= i < j < lists.len() implies cross_free(
            #[trigger] lists[i],
            #[trigger] lists[j],
        ) by {
            lemma_free_append(lists[i], lists[j]);
        }
    }
}

/// The per-parameter and pairwise conditions do not depend on the order of
/// the parameters.
proof fn lemma_pairwise_permutation(lists: Seq<Seq<AccessEntry>>, perm: Seq<int>)
    requires
        is_permutation(perm, lists.len()),
        each_and_pairwise_free(lists),
    ensures
        each_and_pairwise_free(permuted(lists, perm)),
{
    let q = permuted(lists, perm);
    assert forall|k: int| 0 <= k < q.len() implies conflict_free(#[trigger] q[k]) by {
        assert(q[k] == lists[perm[k]]);
    }
    assert forall|a: int, b: int| 0 <= a < b < q.len() implies cross_free(
        #[trigger] q[a],
        #[trigger] q[b],
    ) by {
        assert(q[a] == lists[perm[a]] && q[b] == lists[perm[b]]);
        assert(perm[a] != perm[b]);
        if perm[b] < perm[a] {
            lemma_cross_free_symmetric(lists[perm[b]], lists[perm[a]]);
        }
    }
}

/// Splicing the footprints of several parameters in any other order does
/// not change whether the result has a conflict.
pub proof fn lemma_free_flatten_permutation(lists: Seq<Seq<AccessEntry>>, perm: Seq<int>)
    requires
        is_permutation(perm, lists.len()),
    ensures
        conflict_free(flatten(lists)) == conflict_free(flatten(permuted(lists, perm))),
{
    let n = lists.len();
    let q = permuted(lists, perm);
    lemma_free_flatten(lists);
    lemma_free_flatten(q);
    if each_and_pairwise_free(lists) {
        lemma_pairwise_permutation(lists, perm);
    }
    if each_and_pairwise_free(q) {
        assert forall|i: int| 0 <= i < n implies conflict_free(#[trigger] lists[i]) by {
            assert(lists_index(perm, i));
            let k = choose|k: int| 0 <= k < n && #[trigger] perm[k] == i;
            assert(q[k] == lists[i]);
        }
        assert forall|i: int, j: int| 0 <= i < j < n implies cross_free(
            #[trigger] lists[i],
            #[trigger] lists[j],
        ) by {
            assert(lists_index(perm, i) && lists_index(perm, j));
            let ki = choose|k: int| 0 <= k < n && #[trigger] perm[k] == i;
            let kj = choose|k: int| 0 <= k < n && #[trigger] perm[k] == j;
            assert(q[ki] == lists[i] && q[kj] == lists[j]);
            if kj < ki {
                lemma_cross_free_symmetric(lists[j], lists[i]);
            }
        }
    }
}

/// Splicing the footprints of up to five parameters.
pub proof fn lemma_flatten_few(
    a: Seq<AccessEntry>,
    b: Seq<AccessEntry>,
    c: Seq<AccessEntry>,
    d: Seq<AccessEntry>,
    e: Seq<AccessEntry>,
)
    ensures
        flatten(seq![a]) == a,
        flatten(seq![a, b]) == a + b,
        flatten(seq![a, b, c]) == a + b + c,
        flatten(seq![a, b, c, d]) == a + b + c + d,
        flatten(seq![a, b, c, d, e]) == a + b + c + d + e,
{
    let none = Seq::<Seq<AccessEntry>>::empty();
    assert(flatten(none) =~= Seq::<AccessEntry>::empty());
    lemma_flatten_push(none, a);
    assert(none.push(a) =~= seq![a]);
    assert(Seq::<AccessEntry>::empty() + a =~= a);
    lemma_flatten_push(seq![a], b);
    assert(seq![a].push(b) =~= seq![a, b]);
    lemma_flatten_push(seq![a, b], c);
    assert(seq![a, b].push(c) =~= seq![a, b, c]);
    lemma_flatten_push(seq![a, b, c], d);
    assert(seq![a, b, c].push(d) =~= seq![a, b, c, d]);
    lemma_flatten_push(seq![a, b, c, d], e);
    assert(seq![a, b, c, d].push(e) =~= seq![a, b, c, d, e]);
}

/// What the footprint of several parameters spliced together decides: it is
/// conflict-free iff each parameter is, alone and paired with each other
/// one, and the same holds whatever the order of the parameters.
pub proof fn lemma_spliced_laws(lists: Seq<Seq<AccessEntry>>, perm: Seq<int>)
    ensures
        conflict_free(flatten(lists)) <==> each_and_pairwise_free(lists),
        conflict_free(flatten(lists)) <==> each_and_pairs_free(lists),
        is_permutation(perm, lists.len()) ==> conflict_free(flatten(lists)) == conflict_free(
            flatten(permuted(lists, perm)),
        ),
{
    lemma_free_flatten(lists);
    lemma_pairs_spliced(lists);
    if is_permutation(perm, lists.len()) {
        lemma_free_flatten_permutation(lists, perm);
    }
}

} // verus!
