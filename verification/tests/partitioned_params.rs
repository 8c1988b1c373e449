//! Parameters whose accesses are scoped into partitions of a shared storage,
//! written out as the identity and access declarations a user gives them.
use core::marker::PhantomData;
use params::{
    has_conflict, hash_name, ACons, ANil, Access, Concat, Cons, HasKey, HasPath, Nil, PCons, PNil,
    Part, Read, Sig, Write,
};

const KEY_A: u64 = 0xd5c6_56de_734b_8917;
const KEY_B: u64 = 0xd5c6_57de_734b_8aca;
const STORAGE: u64 = 0xf495_2524_1bba_3b06;
const COMMANDS: u64 = 0xebf4_dcb0_9995_97b3;
const SERVICE: u64 = 0xf1bb_ac50_3733_77e4;
const CONFIG: u64 = 0x606c_6789_a0e0_6b07;
const CONFIG_MUT: u64 = 0x8269_b2bb_1845_e7ff;
const HOB: u64 = 0x4968_3219_cdae_be9e;
const MULTI: u64 = 0x635f_fba6_79db_4c52;

struct KeyA;
impl HasKey for KeyA {
    type Key = Sig<KEY_A, ANil>;
}
impl HasPath for KeyA {
    type Path = PCons<Sig<KEY_A, ANil>, PNil>;
}

struct KeyB;
impl HasKey for KeyB {
    type Key = Sig<KEY_B, ANil>;
}
impl HasPath for KeyB {
    type Path = PCons<Sig<KEY_B, ANil>, PNil>;
}

// Has no accesses of its own, because it is the underlying storage for all other params.
struct Storage;
impl HasKey for Storage {
    type Key = Sig<STORAGE, ANil>;
}
impl HasPath for Storage {
    type Path = PCons<Sig<STORAGE, ANil>, PNil>;
}
impl Access for Storage {
    type Accesses = Nil;
}

// A param that only conflicts with itself: it writes its own resource.
struct Commands<'a>(#[allow(dead_code)] &'a ());
impl<'a> HasKey for Commands<'a> {
    type Key = Sig<COMMANDS, ANil>;
}
impl<'a> HasPath for Commands<'a> {
    type Path = PCons<Sig<COMMANDS, ANil>, PNil>;
}
impl<'a> Access for Commands<'a> {
    type Accesses = Cons<Write<Commands<'a>>, Nil>;
}

// A param that does not conflict with anything.
struct Service<T>(PhantomData<T>);
impl<T: HasKey> HasKey for Service<T> {
    type Key = Sig<SERVICE, ACons<<T as HasKey>::Key, ANil>>;
}
impl<T: HasKey> HasPath for Service<T> {
    type Path = PCons<Sig<SERVICE, ACons<<T as HasKey>::Key, ANil>>, PNil>;
}
impl<T: HasKey> Access for Service<T> {
    type Accesses = Nil;
}

// Reads the partition of storage scoped by its own generic.
struct Config<T>(PhantomData<T>);
impl<T: HasKey> HasKey for Config<T> {
    type Key = Sig<CONFIG, ACons<<T as HasKey>::Key, ANil>>;
}
impl<T: HasKey> HasPath for Config<T> {
    type Path = PCons<Sig<CONFIG, ACons<<T as HasKey>::Key, ANil>>, PNil>;
}
impl<T: HasKey> Access for Config<T> {
    type Accesses = Cons<Read<Part<Storage, T>>, Nil>;
}

// Writes the partition of storage scoped by its own generic.
struct ConfigMut<T>(PhantomData<T>);
impl<T: HasKey> HasKey for ConfigMut<T> {
    type Key = Sig<CONFIG_MUT, ACons<<T as HasKey>::Key, ANil>>;
}
impl<T: HasKey> HasPath for ConfigMut<T> {
    type Path = PCons<Sig<CONFIG_MUT, ACons<<T as HasKey>::Key, ANil>>, PNil>;
}
impl<T: HasKey> Access for ConfigMut<T> {
    type Accesses = Cons<Write<Part<Storage, T>>, Nil>;
}

// A param that does not conflict with anything.
struct Hob<T>(PhantomData<T>);
impl<T: HasKey> HasKey for Hob<T> {
    type Key = Sig<HOB, ACons<<T as HasKey>::Key, ANil>>;
}
impl<T: HasKey> HasPath for Hob<T> {
    type Path = PCons<Sig<HOB, ACons<<T as HasKey>::Key, ANil>>, PNil>;
}
impl<T: HasKey> Access for Hob<T> {
    type Accesses = Nil;
}

// An invalid param that conflicts with itself: it writes a storage partition
// and splices in `ConfigMut<T>`, which writes the same partition.
struct Multi<'a, T>(PhantomData<T>, #[allow(dead_code)] &'a ());
impl<'a, T: HasKey> HasKey for Multi<'a, T> {
    type Key = Sig<MULTI, ACons<<T as HasKey>::Key, ANil>>;
}
impl<'a, T: HasKey> HasPath for Multi<'a, T> {
    type Path = PCons<Sig<MULTI, ACons<<T as HasKey>::Key, ANil>>, PNil>;
}
impl<'a, T: HasKey> Access for Multi<'a, T> {
    type Accesses = Cons<
        Write<Part<Storage, T>>,
        <<ConfigMut<T> as Access>::Accesses as Concat<Nil>>::Output,
    >;
}

#[test]
fn test_config_param_success_scenarios() {
    assert!(!has_conflict::<(Config<KeyA>, &Storage)>());
    assert!(!has_conflict::<(&Storage, Config<KeyA>)>());

    assert!(!has_conflict::<(Config<KeyA>, Config<KeyA>)>());

    assert!(!has_conflict::<(Config<KeyA>, ConfigMut<KeyB>)>());
    assert!(!has_conflict::<(ConfigMut<KeyA>, Config<KeyB>)>());

    assert!(!has_conflict::<(ConfigMut<KeyB>, Config<KeyA>)>());
    assert!(!has_conflict::<(Config<KeyB>, ConfigMut<KeyA>)>());
}

#[test]
fn test_config_param_conflict_scenarios() {
    assert!(has_conflict::<(Config<KeyA>, &mut Storage)>());
    assert!(has_conflict::<(&mut Storage, Config<KeyA>)>());

    assert!(has_conflict::<(Config<KeyA>, ConfigMut<KeyA>)>());
    assert!(has_conflict::<(ConfigMut<KeyA>, Config<KeyA>)>());

    assert!(has_conflict::<Multi<'_, KeyA>>());
}

#[test]
fn test_config_mut_param_conflict_scenarios() {
    assert!(has_conflict::<(ConfigMut<KeyA>, &mut Storage)>());
    assert!(has_conflict::<(&mut Storage, ConfigMut<KeyA>)>());

    assert!(has_conflict::<(ConfigMut<KeyA>, &Storage)>());
    assert!(has_conflict::<(&Storage, ConfigMut<KeyA>)>());

    assert!(has_conflict::<(ConfigMut<KeyA>, Config<KeyA>)>());
    assert!(has_conflict::<(Config<KeyA>, ConfigMut<KeyA>)>());

    assert!(has_conflict::<(ConfigMut<KeyA>, ConfigMut<KeyA>)>());
}

#[test]
fn test_commands_conflict_scenarios() {
    // Commands writes its own resource, so it conflicts only with itself.
    assert!(has_conflict::<(Commands<'_>, Commands<'_>)>());

    assert!(!has_conflict::<(Commands<'_>, Config<KeyA>)>());
    assert!(!has_conflict::<(Commands<'_>, &mut Storage)>());
}

#[test]
fn test_option_conflict_scenarios() {
    assert!(has_conflict::<(Option<Config<KeyA>>, ConfigMut<KeyA>)>());
    assert!(has_conflict::<(ConfigMut<KeyA>, Option<Config<KeyA>>)>());

    assert!(has_conflict::<(ConfigMut<KeyA>, Option<ConfigMut<KeyA>>)>());

    assert!(!has_conflict::<(Option<Config<KeyA>>, Config<KeyA>)>());
    assert!(!has_conflict::<(Config<KeyA>, Option<Config<KeyA>>)>());
}

#[test]
fn resource_keys_are_name_hashes() {
    assert_eq!(hash_name("KeyA"), KEY_A);
    assert_eq!(hash_name("KeyB"), KEY_B);
    assert_eq!(hash_name("Storage"), STORAGE);
    assert_eq!(hash_name("Commands"), COMMANDS);
    assert_eq!(hash_name("Service"), SERVICE);
    assert_eq!(hash_name("Config"), CONFIG);
    assert_eq!(hash_name("ConfigMut"), CONFIG_MUT);
    assert_eq!(hash_name("Hob"), HOB);
    assert_eq!(hash_name("Multi"), MULTI);
}
