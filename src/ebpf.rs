//! The kernel side: the LSM program that denies opens of blocked devices, and
//! its two hash maps, reached through aya.
use vstd::prelude::*;

use aya::maps::MapError;
use aya::programs::ProgramError;
use aya::{Btf, BtfError, Ebpf, EbpfError};

use crate::maps::{BlockError, BlockMaps};
use crate::pci::pci_key;

verus! {

#[verifier::external_type_specification]
#[verifier::external_body]
pub struct ExEbpf(aya::Ebpf);

#[verifier::external_type_specification]
#[verifier::external_body]
pub struct ExEbpfError(aya::EbpfError);

#[verifier::external_type_specification]
#[verifier::external_body]
pub struct ExBtf(aya::Btf);

#[verifier::external_type_specification]
#[verifier::external_body]
pub struct ExBtfError(aya::BtfError);

#[verifier::external_type_specification]
#[verifier::external_body]
pub struct ExMapError(aya::maps::MapError);

#[verifier::external_type_specification]
#[verifier::external_body]
pub struct ExProgramError(aya::programs::ProgramError);

/// Name of the program in the object file, and of the LSM hook it attaches to.
pub const PROGRAM_NAME: &'static str = "file_open";

/// Name of the map keyed by device id.
pub const ID_MAP_NAME: &'static str = "BLOCKED_IDS";

/// Name of the map keyed by sixteen-byte PCI key.
pub const PCI_MAP_NAME: &'static str = "BLOCKED_PCI";

/// Value stored beside every blocked key; only presence matters.
pub const PRESENT: u8 = 1;

/// The keys of the object's plain (non-LRU) hash map of that name, read
/// with `u32` keys.
pub uninterp spec fn map_u32_keys(e: aya::Ebpf, name: Seq<char>) -> Set<u32>;

/// The keys of the object's plain (non-LRU) hash map of that name, read
/// with `[u8; 16]` keys.
pub uninterp spec fn map_key16s(e: aya::Ebpf, name: Seq<char>) -> Set<Seq<u8>>;

/// Relies on Ebpf::load: parses the object and creates its maps and programs.
#[verifier::external_body]
fn load_object(image: &[u8]) -> (r: Result<Ebpf, EbpfError>) {
    Ebpf::load(image)
}

/// Relies on Btf::from_sys_fs: the running kernel's type information.
#[verifier::external_body]
fn kernel_btf() -> (r: Result<Btf, BtfError>) {
    Btf::from_sys_fs()
}

/// Relies on Ebpf::map: whether the object holds a plain hash map
/// (`Map::HashMap`) of that name.
#[verifier::external_body]
fn has_hash_map(ebpf: &Ebpf, name: &str) -> (r: bool) {
    matches!(ebpf.map(name), Some(aya::maps::Map::HashMap(_)))
}

/// Relies on Ebpf::program_mut, the `Lsm` conversion, Lsm::load and
/// Lsm::attach: `None` when the object has no program of that name.
#[verifier::external_body]
fn attach_lsm(ebpf: &mut Ebpf, name: &str, btf: &Btf) -> (r: Option<Result<(), ProgramError>>) {
    let lsm: &mut aya::programs::Lsm = match ebpf.program_mut(name)?.try_into() {
        Ok(lsm) => lsm,
        Err(e) => return Some(Err(e)),
    };
    if let Err(e) = lsm.load(name, btf) {
        return Some(Err(e));
    }
    Some(lsm.attach().map(|_link| ()))
}

/// Relies on Ebpf::map_mut, the `HashMap<_, u32, u8>` conversion and
/// HashMap::insert (bpf_map_update_elem of this one key in this one map):
/// `None` unless the object has a plain hash map of that name. No other key
/// and no other map changes; on success the key is present.
#[verifier::external_body]
fn map_insert_u32(ebpf: &mut Ebpf, name: &str, key: u32, value: u8) -> (r: Option<Result<(), MapError>>)
    ensures
        forall|x: u32| x != key ==> (map_u32_keys(*final(ebpf), name@).contains(x) <==> map_u32_keys(*old(ebpf), name@).contains(x)),
        forall|n: Seq<char>| n != name@ ==> map_u32_keys(*final(ebpf), n) == map_u32_keys(*old(ebpf), n),
        forall|n: Seq<char>| map_key16s(*final(ebpf), n) == map_key16s(*old(ebpf), n),
        r matches Some(Ok(_)) ==> map_u32_keys(*final(ebpf), name@).contains(key),
{
    let map = match ebpf.map_mut(name)? {
        m @ aya::maps::Map::HashMap(_) => m,
        _ => return None,
    };
    match aya::maps::HashMap::<_, u32, u8>::try_from(map) {
        Ok(mut h) => Some(h.insert(key, value, 0)),
        Err(e) => Some(Err(e)),
    }
}

/// Relies on Ebpf::map_mut, the `HashMap<_, u32, u8>` conversion and
/// HashMap::remove (bpf_map_delete_elem of this one key in this one map):
/// `None` unless the object has a plain hash map of that name. The kernel's
/// ENOENT for an absent key is success. No other key and no other map
/// changes; on success the key is absent.
#[verifier::external_body]
fn map_remove_u32(ebpf: &mut Ebpf, name: &str, key: u32) -> (r: Option<Result<(), MapError>>)
    ensures
        forall|x: u32| x != key ==> (map_u32_keys(*final(ebpf), name@).contains(x) <==> map_u32_keys(*old(ebpf), name@).contains(x)),
        forall|n: Seq<char>| n != name@ ==> map_u32_keys(*final(ebpf), n) == map_u32_keys(*old(ebpf), n),
        forall|n: Seq<char>| map_key16s(*final(ebpf), n) == map_key16s(*old(ebpf), n),
        r matches Some(Ok(_)) ==> !map_u32_keys(*final(ebpf), name@).contains(key),
{
    let map = match ebpf.map_mut(name)? {
        m @ aya::maps::Map::HashMap(_) => m,
        _ => return None,
    };
    let mut h = match aya::maps::HashMap::<_, u32, u8>::try_from(map) {
        Ok(h) => h,
        Err(e) => return Some(Err(e)),
    };
    match h.remove(&key) {
        Err(MapError::SyscallError(e)) if e.io_error.kind() == std::io::ErrorKind::NotFound => Some(Ok(())),
        other => Some(other),
    }
}

/// Relies on Ebpf::map, the `HashMap<_, u32, u8>` conversion and HashMap::get:
/// `None` unless the object has a plain hash map of that name; a value means
/// the key is present, `KeyNotFound` that it is absent.
#[verifier::external_body]
fn map_contains_u32(ebpf: &Ebpf, name: &str, key: u32) -> (r: Option<Result<bool, MapError>>)
    ensures
        r matches Some(Ok(b)) ==> b == map_u32_keys(*ebpf, name@).contains(key),
{
    let map = match ebpf.map(name)? {
        m @ aya::maps::Map::HashMap(_) => m,
        _ => return None,
    };
    let h = match aya::maps::HashMap::<_, u32, u8>::try_from(map) {
        Ok(h) => h,
        Err(e) => return Some(Err(e)),
    };
    match h.get(&key, 0) {
        Ok(_) => Some(Ok(true)),
        Err(MapError::KeyNotFound) => Some(Ok(false)),
        Err(e) => Some(Err(e)),
    }
}

/// Relies on Ebpf::map_mut, the `HashMap<_, [u8; 16], u8>` conversion and
/// HashMap::insert (bpf_map_update_elem of this one key in this one map):
/// `None` unless the object has a plain hash map of that name. No other key
/// and no other map changes; on success the key is present.
#[verifier::external_body]
fn map_insert_key16(ebpf: &mut Ebpf, name: &str, key: [u8; 16], value: u8) -> (r: Option<Result<(), MapError>>)
    ensures
        forall|x: Seq<u8>| x != key@ ==> (map_key16s(*final(ebpf), name@).contains(x) <==> map_key16s(*old(ebpf), name@).contains(x)),
        forall|n: Seq<char>| n != name@ ==> map_key16s(*final(ebpf), n) == map_key16s(*old(ebpf), n),
        forall|n: Seq<char>| map_u32_keys(*final(ebpf), n) == map_u32_keys(*old(ebpf), n),
        r matches Some(Ok(_)) ==> map_key16s(*final(ebpf), name@).contains(key@),
{
    let map = match ebpf.map_mut(name)? {
        m @ aya::maps::Map::HashMap(_) => m,
        _ => return None,
    };
    match aya::maps::HashMap::<_, [u8; 16], u8>::try_from(map) {
        Ok(mut h) => Some(h.insert(key, value, 0)),
        Err(e) => Some(Err(e)),
    }
}

/// Relies on Ebpf::map_mut, the `HashMap<_, [u8; 16], u8>` conversion and
/// HashMap::remove (bpf_map_delete_elem of this one key in this one map):
/// `None` unless the object has a plain hash map of that name. The kernel's
/// ENOENT for an absent key is success. No other key and no other map
/// changes; on success the key is absent.
#[verifier::external_body]
fn map_remove_key16(ebpf: &mut Ebpf, name: &str, key: [u8; 16]) -> (r: Option<Result<(), MapError>>)
    ensures
        forall|x: Seq<u8>| x != key@ ==> (map_key16s(*final(ebpf), name@).contains(x) <==> map_key16s(*old(ebpf), name@).contains(x)),
        forall|n: Seq<char>| n != name@ ==> map_key16s(*final(ebpf), n) == map_key16s(*old(ebpf), n),
        forall|n: Seq<char>| map_u32_keys(*final(ebpf), n) == map_u32_keys(*old(ebpf), n),
        r matches Some(Ok(_)) ==> !map_key16s(*final(ebpf), name@).contains(key@),
{
    let map = match ebpf.map_mut(name)? {
        m @ aya::maps::Map::HashMap(_) => m,
        _ => return None,
    };
    let mut h = match aya::maps::HashMap::<_, [u8; 16], u8>::try_from(map) {
        Ok(h) => h,
        Err(e) => return Some(Err(e)),
    };
    match h.remove(&key) {
        Err(MapError::SyscallError(e)) if e.io_error.kind() == std::io::ErrorKind::NotFound => Some(Ok(())),
        other => Some(other),
    }
}

/// Relies on Ebpf::map, the `HashMap<_, [u8; 16], u8>` conversion and
/// HashMap::get: `None` unless the object has a plain hash map of that name;
/// a value means the key is present, `KeyNotFound` that it is absent.
#[verifier::external_body]
fn map_contains_key16(ebpf: &Ebpf, name: &str, key: [u8; 16]) -> (r: Option<Result<bool, MapError>>)
    ensures
        r matches Some(Ok(b)) ==> b == map_key16s(*ebpf, name@).contains(key@),
{
    let map = match ebpf.map(name)? {
        m @ aya::maps::Map::HashMap(_) => m,
        _ => return None,
    };
    let h = match aya::maps::HashMap::<_, [u8; 16], u8>::try_from(map) {
        Ok(h) => h,
        Err(e) => return Some(Err(e)),
    };
    match h.get(&key, 0) {
        Ok(_) => Some(Ok(true)),
        Err(MapError::KeyNotFound) => Some(Ok(false)),
        Err(e) => Some(Err(e)),
    }
}

/// The loaded and attached program, and the handle through which its maps
/// are changed and read.
pub struct EbpfBlocker {
    ebpf: Ebpf,
}

/// The error for a program or map that the object lacks.
fn missing_entity(kind: &str, name: &str) -> (e: BlockError)
    ensures
        e matches BlockError::NotFound { kind: k, name: n } && k@ == kind@ && n@ == name@,
{
    BlockError::NotFound { kind: kind.to_owned(), name: name.to_owned() }
}

/// Turns the outcome of a map access into the library's error.
fn map_outcome<T>(r: Option<Result<T, MapError>>, name: &str) -> (out: Result<T, BlockError>)
    ensures
        out is Ok <==> r matches Some(Ok(_)),
        r matches Some(Ok(v)) ==> out == Ok::<T, BlockError>(v),
        r is None ==> out matches Err(BlockError::NotFound { .. }),
{
    match r {
        None => Err(missing_entity("map", name)),
        Some(Ok(v)) => Ok(v),
        Some(Err(e)) => Err(BlockError::MapAccess(e)),
    }
}

impl EbpfBlocker {
    /// Loads the object `image`, checks that it holds the two block maps as
    /// plain hash maps, then loads the `file_open` program against the
    /// kernel's type information and attaches it to its LSM hook. A missing
    /// map or program is an error, reported by kind and name.
    pub fn new(image: &[u8]) -> (r: Result<EbpfBlocker, BlockError>)
        ensures
            r matches Err(BlockError::NotFound { kind: k, name: n }) ==> (k@ == "program"@ && n@
                == PROGRAM_NAME@) || (k@ == "map"@ && (n@ == ID_MAP_NAME@ || n@ == PCI_MAP_NAME@)),
    {
        let mut ebpf = match load_object(image) {
            Ok(e) => e,
            Err(e) => return Err(BlockError::Object(e)),
        };
        if !has_hash_map(&ebpf, ID_MAP_NAME) {
            return Err(missing_entity("map", ID_MAP_NAME));
        }
        if !has_hash_map(&ebpf, PCI_MAP_NAME) {
            return Err(missing_entity("map", PCI_MAP_NAME));
        }
        let btf = match kernel_btf() {
            Ok(b) => b,
            Err(e) => return Err(BlockError::Btf(e)),
        };
        match attach_lsm(&mut ebpf, PROGRAM_NAME, &btf) {
            None => Err(missing_entity("program", PROGRAM_NAME)),
            Some(Err(e)) => Err(BlockError::Program(e)),
            Some(Ok(())) => Ok(EbpfBlocker { ebpf }),
        }
    }
}

impl BlockMaps for EbpfBlocker {
    closed spec fn blocked_ids(&self) -> Set<u32> {
        map_u32_keys(self.ebpf, ID_MAP_NAME@)
    }

    closed spec fn blocked_pcis(&self) -> Set<Seq<u8>> {
        map_key16s(self.ebpf, PCI_MAP_NAME@)
    }

    fn block_id(&mut self, id: u32) -> (r: Result<(), BlockError>) {
        let r = map_outcome(map_insert_u32(&mut self.ebpf, ID_MAP_NAME, id, PRESENT), ID_MAP_NAME);
        assert(r is Ok ==> self.blocked_ids() =~= old(self).blocked_ids().insert(id));
        r
    }

    fn unblock_id(&mut self, id: u32) -> (r: Result<(), BlockError>) {
        let r = map_outcome(map_remove_u32(&mut self.ebpf, ID_MAP_NAME, id), ID_MAP_NAME);
        assert(r is Ok ==> self.blocked_ids() =~= old(self).blocked_ids().remove(id));
        r
    }

    fn block_pci(&mut self, pci: &str) -> (r: Result<(), BlockError>) {
        let key = pci_key(pci);
        let r = map_outcome(map_insert_key16(&mut self.ebpf, PCI_MAP_NAME, key, PRESENT), PCI_MAP_NAME);
        assert(r is Ok ==> self.blocked_pcis() =~= old(self).blocked_pcis().insert(key@));
        r
    }

    fn unblock_pci(&mut self, pci: &str) -> (r: Result<(), BlockError>) {
        let key = pci_key(pci);
        let r = map_outcome(map_remove_key16(&mut self.ebpf, PCI_MAP_NAME, key), PCI_MAP_NAME);
        assert(r is Ok ==> self.blocked_pcis() =~= old(self).blocked_pcis().remove(key@));
        r
    }

    fn is_id_blocked(&mut self, id: u32) -> (r: Result<bool, BlockError>) {
        map_outcome(map_contains_u32(&self.ebpf, ID_MAP_NAME, id), ID_MAP_NAME)
    }

    fn is_pci_blocked(&mut self, pci: &str) -> (r: Result<bool, BlockError>) {
        let key = pci_key(pci);
        map_outcome(map_contains_key16(&self.ebpf, PCI_MAP_NAME, key), PCI_MAP_NAME)
    }
}

} // verus!
