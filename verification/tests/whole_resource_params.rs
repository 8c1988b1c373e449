//! Parameters that read and write whole resources, checked at a boundary
//! with `assert_no_conflicts`.
use core::marker::PhantomData;
use params::{
    assert_no_conflicts, ACons, ANil, Cons, HasKey, HasPath, Nil, NoConflicts, PCons, PNil, Param,
    Read, Sig, Write,
};

const STORAGE: u64 = 0xf495_2524_1bba_3b06;
const SERVICE: u64 = 0xf1bb_ac50_3733_77e4;
const CONFIG: u64 = 0x606c_6789_a0e0_6b07;
const HOB: u64 = 0x4968_3219_cdae_be9e;
const FOO_CFG: u64 = 0x4d93_c085_2d5e_be0b;
const BAR_CFG: u64 = 0x79c2_9e54_7ecd_74c0;

struct Storage;
impl HasKey for Storage {
    type Key = Sig<STORAGE, ANil>;
}
impl HasPath for Storage {
    type Path = PCons<Sig<STORAGE, ANil>, PNil>;
}

impl Param for &Storage {
    type Access = Cons<Read<Storage>, Nil>;
}
impl Param for &mut Storage {
    type Access = Cons<Write<Storage>, Nil>;
}

struct Commands<'a>(#[allow(dead_code)] &'a ());
impl Param for Commands<'_> {
    // Deferred command buffer: no direct resource access.
    type Access = Nil;
}

struct Service<T>(PhantomData<T>);
impl<T: HasKey> HasKey for Service<T> {
    type Key = Sig<SERVICE, ACons<<T as HasKey>::Key, ANil>>;
}
impl<T: HasKey> HasPath for Service<T> {
    type Path = PCons<Sig<SERVICE, ACons<<T as HasKey>::Key, ANil>>, PNil>;
}
impl<T: HasKey> Param for Service<T> {
    type Access = Cons<Read<Service<T>>, Nil>;
}

struct Config<T>(PhantomData<T>);
impl<T: HasKey> HasKey for Config<T> {
    type Key = Sig<CONFIG, ACons<<T as HasKey>::Key, ANil>>;
}
impl<T: HasKey> HasPath for Config<T> {
    type Path = PCons<Sig<CONFIG, ACons<<T as HasKey>::Key, ANil>>, PNil>;
}
impl<T: HasKey> Param for Config<T> {
    // A config lives inside Storage, so reading it also shared-reads Storage.
    type Access = Cons<Read<Storage>, Cons<Read<Config<T>>, Nil>>;
}

struct ConfigMut<T>(PhantomData<T>);
impl<T: HasKey> Param for ConfigMut<T> {
    // Mutating a config takes exclusive access to Storage and its own slot.
    type Access = Cons<Write<Storage>, Cons<Write<Config<T>>, Nil>>;
}

struct Hob<T>(PhantomData<T>);
impl<T: HasKey> HasKey for Hob<T> {
    type Key = Sig<HOB, ACons<<T as HasKey>::Key, ANil>>;
}
impl<T: HasKey> HasPath for Hob<T> {
    type Path = PCons<Sig<HOB, ACons<<T as HasKey>::Key, ANil>>, PNil>;
}
impl<T: HasKey> Param for Hob<T> {
    type Access = Cons<Read<Hob<T>>, Nil>;
}

struct FooCfg;
impl HasKey for FooCfg {
    type Key = Sig<FOO_CFG, ANil>;
}

struct BarCfg;
impl HasKey for BarCfg {
    type Key = Sig<BAR_CFG, ANil>;
}

/// Whether the parameter `P`'s access list has a conflict.
fn param_conflicts<P: Param>() -> bool
where
    <P as Param>::Access: NoConflicts,
{
    !<<P as Param>::Access as NoConflicts>::value()
}

#[test]
fn disjoint_resources_are_ok() {
    // &Storage, Config<Foo>, Hob<Bar>, Service<Foo>: all reads or distinct
    // resources, so no conflict.
    assert!(!param_conflicts::<(&Storage, Config<FooCfg>, Hob<BarCfg>, Service<FooCfg>)>());
    assert_no_conflicts::<(&Storage, Config<FooCfg>, Hob<BarCfg>, Service<FooCfg>)>();
}

#[test]
fn shared_reads_are_ok() {
    // Two readers of the same config do not conflict.
    assert!(!param_conflicts::<(Config<FooCfg>, Config<FooCfg>, Commands<'_>)>());
    assert_no_conflicts::<(Config<FooCfg>, Config<FooCfg>, Commands<'_>)>();
}

#[test]
fn nested_and_optional_params_are_ok() {
    assert!(!param_conflicts::<(Option<Config<FooCfg>>, (&Storage, Service<BarCfg>))>());
    assert_no_conflicts::<(Option<Config<FooCfg>>, (&Storage, Service<BarCfg>))>();
}

#[test]
fn write_write_same_resource_conflicts() {
    assert!(param_conflicts::<(ConfigMut<FooCfg>, ConfigMut<FooCfg>)>());
}

#[test]
fn read_write_same_resource_conflicts() {
    assert!(param_conflicts::<(Config<FooCfg>, ConfigMut<FooCfg>)>());
}

#[test]
fn aliased_storage_conflicts() {
    assert!(param_conflicts::<(&Storage, &mut Storage)>());
}

#[test]
fn mut_storage_conflicts_with_any_config() {
    assert!(param_conflicts::<(&mut Storage, Config<FooCfg>)>());
    assert!(param_conflicts::<(&mut Storage, ConfigMut<BarCfg>)>());
}

#[test]
fn shared_read_conflicts_with_config_mut() {
    assert!(param_conflicts::<(&Storage, ConfigMut<FooCfg>)>());
}

#[test]
fn two_different_config_muts_conflict() {
    // Both write Storage, so even different config types clash.
    assert!(param_conflicts::<(ConfigMut<FooCfg>, ConfigMut<BarCfg>)>());
}

#[test]
fn different_configs_are_different_resources() {
    assert!(!params::has_conflict::<(&mut Config<FooCfg>, &Config<BarCfg>)>());
    assert!(params::has_conflict::<(&mut Config<FooCfg>, &Config<FooCfg>)>());
}
