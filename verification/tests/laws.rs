//! The laws of the conflict checker, on concrete parameters.
use core::marker::PhantomData;
use params::codegen::{assert_no_conflicts, Check};
use params::{
    has_conflict, ACons, ANil, Access, AnyConflict, ConflictsWith, Cons, HasKey, HasPath, KeyEq,
    Nil, NoConflicts, PCons, PNil, Part, PathOverlap, Read, Sig, TypeEq, Write,
};

struct Alpha;
impl HasKey for Alpha {
    type Key = Sig<1, ANil>;
}
impl HasPath for Alpha {
    type Path = PCons<Sig<1, ANil>, PNil>;
}

struct Beta;
impl HasKey for Beta {
    type Key = Sig<2, ANil>;
}
impl HasPath for Beta {
    type Path = PCons<Sig<2, ANil>, PNil>;
}

// A type whose key collides with `Alpha`'s (same name hash, same arguments).
struct AlphaTwin;
impl HasKey for AlphaTwin {
    type Key = Sig<1, ANil>;
}
impl HasPath for AlphaTwin {
    type Path = PCons<Sig<1, ANil>, PNil>;
}

struct Store;
impl HasPath for Store {
    type Path = PCons<Sig<10, ANil>, PNil>;
}

struct Slot<T>(PhantomData<T>);
impl<T: HasKey> HasKey for Slot<T> {
    type Key = Sig<20, ACons<<T as HasKey>::Key, ANil>>;
}
impl<T: HasKey> HasPath for Slot<T> {
    type Path = PCons<Sig<20, ACons<<T as HasKey>::Key, ANil>>, PNil>;
}

// `Sig<20, ANil>`: same name as `Slot<T>` but no argument.
struct BareSlot;
impl HasPath for BareSlot {
    type Path = PCons<Sig<20, ANil>, PNil>;
}

struct ReadPart<T>(PhantomData<T>);
impl<T: HasKey> Access for ReadPart<T> {
    type Accesses = Cons<Read<Part<Store, T>>, Nil>;
}

struct WritePart<T>(PhantomData<T>);
impl<T: HasKey> Access for WritePart<T> {
    type Accesses = Cons<Write<Part<Store, T>>, Nil>;
}

struct Nested<T>(PhantomData<T>);
impl<T: HasKey> Access for Nested<T> {
    type Accesses = Cons<Read<Part<Part<Store, T>, Beta>>, Nil>;
}

struct ReadsTwice;
impl Access for ReadsTwice {
    type Accesses = Cons<Read<Alpha>, Cons<Read<Alpha>, Nil>>;
}

struct WritesTwice;
impl Access for WritesTwice {
    type Accesses = Cons<Write<Alpha>, Cons<Write<Alpha>, Nil>>;
}

#[test]
fn reads_never_conflict() {
    assert!(!has_conflict::<(&Alpha, &Alpha)>());
    assert!(!has_conflict::<ReadsTwice>());
    assert!(!has_conflict::<(ReadPart<Alpha>, &Store, ReadPart<Alpha>)>());
}

#[test]
fn a_write_conflicts_with_any_access_of_the_same_resource() {
    assert!(has_conflict::<(&mut Alpha, &Alpha)>());
    assert!(has_conflict::<(&mut Alpha, &mut Alpha)>());
    assert!(has_conflict::<WritesTwice>());
    assert!(!has_conflict::<(&mut Alpha, &mut Beta)>());
}

#[test]
fn order_of_params_is_irrelevant() {
    assert_eq!(has_conflict::<(&mut Alpha, &Beta)>(), has_conflict::<(&Beta, &mut Alpha)>());
    assert_eq!(has_conflict::<(&mut Alpha, &Alpha)>(), has_conflict::<(&Alpha, &mut Alpha)>());
    assert!(has_conflict::<(&Beta, &Alpha, &mut Alpha)>());
    assert!(has_conflict::<(&mut Alpha, &Beta, &Alpha)>());
}

#[test]
fn whole_resource_overlaps_every_partition() {
    assert!(has_conflict::<(&mut Store, ReadPart<Alpha>)>());
    assert!(has_conflict::<(&Store, WritePart<Beta>)>());
    assert!(has_conflict::<(&mut Store, Nested<Alpha>)>());
    assert!(has_conflict::<(WritePart<Alpha>, Nested<Alpha>)>());
}

#[test]
fn partitions_with_different_keys_are_disjoint() {
    assert!(!has_conflict::<(WritePart<Alpha>, WritePart<Beta>)>());
    assert!(has_conflict::<(WritePart<Alpha>, WritePart<Alpha>)>());
    assert!(!has_conflict::<(WritePart<Beta>, Nested<Alpha>)>());
}

#[test]
fn keys_differ_in_name_or_in_arguments() {
    assert!(!has_conflict::<(&mut Slot<Alpha>, &Slot<Beta>)>());
    assert!(has_conflict::<(&mut Slot<Alpha>, &Slot<Alpha>)>());
    assert!(!has_conflict::<(&mut Slot<Alpha>, &BareSlot)>());
    assert!(!has_conflict::<(&BareSlot, &mut Slot<Alpha>)>());
}

#[test]
fn a_key_collision_over_reports_and_never_misses() {
    // Different types with one key are treated as one resource.
    assert!(has_conflict::<(&mut Alpha, &AlphaTwin)>());
    assert!(has_conflict::<(&mut Alpha, &Alpha)>());
}

#[test]
fn option_keeps_the_footprint() {
    assert_eq!(has_conflict::<(Option<&mut Alpha>, &Alpha)>(), has_conflict::<(&mut Alpha, &Alpha)>());
    assert!(!has_conflict::<(Option<&Alpha>, &Alpha)>());
    assert!(has_conflict::<Option<WritesTwice>>());
}

#[test]
fn tuples_splice_their_members_in_order() {
    assert!(!has_conflict::<()>());
    assert!(!has_conflict::<(&mut Alpha,)>());
    assert!(has_conflict::<((&mut Alpha,), (&Beta, &Alpha))>());
    assert!(!has_conflict::<((&mut Alpha,), (&Beta, Option<&Store>))>());
    assert!(has_conflict::<(&Beta, &Store, ReadPart<Alpha>, &mut Alpha, (&Alpha,))>());
    assert!(!has_conflict::<(&Beta, &Store, ReadPart<Alpha>, &mut Alpha, (&Slot<Beta>,))>());
}

#[test]
fn per_param_and_per_pair_checks_decide_a_tuple() {
    // (&Alpha, &Beta, &mut Alpha): every param alone is fine, the pair (0, 2) clashes.
    let alone = [
        has_conflict::<(&Alpha,)>(),
        has_conflict::<(&Beta,)>(),
        has_conflict::<(&mut Alpha,)>(),
    ];
    let pair = |i: usize, j: usize| match (i, j) {
        (0, 1) => has_conflict::<(&Alpha, &Beta)>(),
        (0, 2) => has_conflict::<(&Alpha, &mut Alpha)>(),
        (1, 2) => has_conflict::<(&Beta, &mut Alpha)>(),
        _ => unreachable!(),
    };
    let failing: Vec<Check> = assert_no_conflicts(3)
        .into_iter()
        .filter(|c| match *c {
            Check::Alone(i) => alone[i],
            Check::Between(i, j) => pair(i, j) && !alone[i] && !alone[j],
        })
        .collect();
    assert_eq!(failing, vec![Check::Between(0, 2)]);
    assert!(has_conflict::<(&Alpha, &Beta, &mut Alpha)>());
}

#[test]
fn key_equality_is_structural() {
    assert!(<Sig<1, ANil> as KeyEq<Sig<1, ANil>>>::equal());
    assert!(!<Sig<1, ANil> as KeyEq<Sig<2, ANil>>>::equal());
    assert!(!<Sig<1, ANil> as KeyEq<Sig<1, ACons<Sig<2, ANil>, ANil>>>>::equal());
    assert!(<Sig<1, ACons<Sig<2, ANil>, ANil>> as KeyEq<Sig<1, ACons<Sig<2, ANil>, ANil>>>>::equal());
    assert!(!<ACons<Sig<2, ANil>, ANil> as KeyEq<ACons<Sig<3, ANil>, ANil>>>::equal());
    assert!(<Alpha as TypeEq<AlphaTwin>>::value());
    assert!(!<Alpha as TypeEq<Beta>>::value());
    assert!(!<Slot<Alpha> as TypeEq<Slot<Beta>>>::value());
    assert!(<Slot<Alpha> as TypeEq<Slot<Alpha>>>::value());
}

#[test]
fn paths_overlap_when_one_is_a_prefix() {
    type Root = PCons<Sig<1, ANil>, PNil>;
    type ChildA = PCons<Sig<1, ANil>, PCons<Sig<2, ANil>, PNil>>;
    type ChildB = PCons<Sig<1, ANil>, PCons<Sig<3, ANil>, PNil>>;
    assert!(<PNil as PathOverlap<PNil>>::value());
    assert!(<PNil as PathOverlap<ChildA>>::value());
    assert!(<Root as PathOverlap<ChildA>>::value());
    assert!(<ChildA as PathOverlap<Root>>::value());
    assert!(<ChildA as PathOverlap<ChildA>>::value());
    assert!(!<ChildA as PathOverlap<ChildB>>::value());
    assert!(!<Root as PathOverlap<PCons<Sig<2, ANil>, PNil>>>::value());
}

#[test]
fn pairwise_and_list_rules() {
    assert!(!<Read<Alpha> as ConflictsWith<Read<Alpha>>>::value());
    assert!(<Read<Alpha> as ConflictsWith<Write<Alpha>>>::value());
    assert!(<Write<Alpha> as ConflictsWith<Read<Alpha>>>::value());
    assert!(<Write<Alpha> as ConflictsWith<Write<Alpha>>>::value());
    assert!(!<Write<Alpha> as ConflictsWith<Write<Beta>>>::value());

    type List = Cons<Read<Beta>, Cons<Read<Alpha>, Nil>>;
    assert!(!<Nil as AnyConflict<Write<Alpha>>>::value());
    assert!(<List as AnyConflict<Write<Alpha>>>::value());
    assert!(!<List as AnyConflict<Read<Alpha>>>::value());
    assert!(!<List as AnyConflict<Write<Store>>>::value());

    assert!(<Nil as NoConflicts>::value());
    assert!(<List as NoConflicts>::value());
    assert!(!<Cons<Write<Beta>, List> as NoConflicts>::value());
    assert!(<Cons<Write<Store>, List> as NoConflicts>::value());
}

#[test]
fn any_reordering_of_a_tuple_gives_the_same_answer() {
    assert!(has_conflict::<(&Beta, &Store, &Alpha, &mut Alpha)>());
    assert!(has_conflict::<(&mut Alpha, &Alpha, &Store, &Beta)>());
    assert!(has_conflict::<(&Store, &mut Alpha, &Beta, &Alpha)>());
    assert!(!has_conflict::<(&Beta, &Store, &Alpha, ReadPart<Alpha>, &mut Slot<Beta>)>());
    assert!(!has_conflict::<(&mut Slot<Beta>, ReadPart<Alpha>, &Alpha, &Store, &Beta)>());
    assert!(has_conflict::<(&Beta, WritePart<Alpha>, &Alpha, ReadPart<Alpha>, &Slot<Beta>)>());
    assert!(has_conflict::<(ReadPart<Alpha>, &Slot<Beta>, &Beta, &Alpha, WritePart<Alpha>)>());
}

#[test]
fn hashing_a_longer_name_continues_from_its_prefix() {
    let fold = |h: u64, s: &str| {
        s.bytes()
            .fold(h, |h, b| (h ^ b as u64).wrapping_mul(0x0000_0100_0000_01b3))
    };
    assert_eq!(params::hash_name(""), 0xcbf2_9ce4_8422_2325);
    assert_eq!(params::hash_name("KeyA"), fold(params::hash_name("Key"), "A"));
    assert_eq!(params::hash_name("ConfigMut"), fold(params::hash_name("Config"), "Mut"));
    assert_eq!(params::hash_name("Storage"), fold(params::hash_name(""), "Storage"));
}
