//! The block-list handle: insert, remove and look up device ids and PCI keys.
use vstd::prelude::*;
use vstd::utf8::encode_utf8;

use crate::pci::{pci_key, pci_key_of};

verus! {

/// Why a block-list operation failed.
pub enum BlockError {
    /// The loaded object has no program or map of this kind and name.
    NotFound { kind: String, name: String },
    /// The kernel refused the map access.
    MapAccess(aya::maps::MapError),
    /// The object file could not be loaded.
    Object(aya::EbpfError),
    /// The kernel's type information could not be read.
    Btf(aya::BtfError),
    /// The program could not be loaded or attached.
    Program(aya::programs::ProgramError),
    /// The list was set up to refuse changes to this key.
    Refused,
}

/// The key that a PCI address string is stored under.
pub open spec fn pci_key_of_str(pci: Seq<char>) -> Seq<u8> {
    pci_key_of(encode_utf8(pci))
}

/// The two sets agree on every element but `k`.
pub open spec fn same_except<A>(a: Set<A>, b: Set<A>, k: A) -> bool {
    forall|x: A| x != k ==> (#[trigger] a.contains(x) <==> b.contains(x))
}

/// A handle on the two block lists: one keyed by device id, one by PCI key.
/// Every insert and remove is idempotent; a lookup miss is `false`, never an
/// error.
pub trait BlockMaps {
    /// The device ids on the id list.
    spec fn blocked_ids(&self) -> Set<u32>;

    /// The sixteen-byte keys on the PCI list.
    spec fn blocked_pcis(&self) -> Set<Seq<u8>>;

    /// Lists `id`. Whatever the outcome, no other id and no PCI key changes.
    fn block_id(&mut self, id: u32) -> (r: Result<(), BlockError>)
        ensures
            final(self).blocked_pcis() == old(self).blocked_pcis(),
            same_except(final(self).blocked_ids(), old(self).blocked_ids(), id),
            r is Ok ==> final(self).blocked_ids() == old(self).blocked_ids().insert(id),
    ;

    /// Unlists `id`; an absent id is no error. Whatever the outcome, no other
    /// id and no PCI key changes.
    fn unblock_id(&mut self, id: u32) -> (r: Result<(), BlockError>)
        ensures
            final(self).blocked_pcis() == old(self).blocked_pcis(),
            same_except(final(self).blocked_ids(), old(self).blocked_ids(), id),
            r is Ok ==> final(self).blocked_ids() == old(self).blocked_ids().remove(id),
    ;

    /// Lists the key of `pci`. Whatever the outcome, no other key and no id
    /// changes.
    fn block_pci(&mut self, pci: &str) -> (r: Result<(), BlockError>)
        ensures
            final(self).blocked_ids() == old(self).blocked_ids(),
            same_except(final(self).blocked_pcis(), old(self).blocked_pcis(), pci_key_of_str(pci@)),
            r is Ok ==> final(self).blocked_pcis() == old(self).blocked_pcis().insert(
                pci_key_of_str(pci@),
            ),
    ;

    /// Unlists the key of `pci`; an absent key is no error. Whatever the
    /// outcome, no other key and no id changes.
    fn unblock_pci(&mut self, pci: &str) -> (r: Result<(), BlockError>)
        ensures
            final(self).blocked_ids() == old(self).blocked_ids(),
            same_except(final(self).blocked_pcis(), old(self).blocked_pcis(), pci_key_of_str(pci@)),
            r is Ok ==> final(self).blocked_pcis() == old(self).blocked_pcis().remove(
                pci_key_of_str(pci@),
            ),
    ;

    fn is_id_blocked(&mut self, id: u32) -> (r: Result<bool, BlockError>)
        ensures
            final(self).blocked_ids() == old(self).blocked_ids(),
            final(self).blocked_pcis() == old(self).blocked_pcis(),
            r is Ok ==> r->Ok_0 == old(self).blocked_ids().contains(id),
    ;

    fn is_pci_blocked(&mut self, pci: &str) -> (r: Result<bool, BlockError>)
        ensures
            final(self).blocked_ids() == old(self).blocked_ids(),
            final(self).blocked_pcis() == old(self).blocked_pcis(),
            r is Ok ==> r->Ok_0 == old(self).blocked_pcis().contains(pci_key_of_str(pci@)),
    ;
}

/// Blocking an id lists it; unblocking it afterwards unlists it again.
pub proof fn lemma_id_round_trip(ids: Set<u32>, id: u32)
    ensures
        ids.insert(id).contains(id),
        !ids.insert(id).remove(id).contains(id),
{
}

/// Blocking an address lists its key, so a lookup of the same address finds
/// it; unblocking the address unlists that key.
pub proof fn lemma_pci_round_trip(pcis: Set<Seq<u8>>, pci: Seq<char>)
    ensures
        pcis.insert(pci_key_of_str(pci)).contains(pci_key_of_str(pci)),
        !pcis.insert(pci_key_of_str(pci)).remove(pci_key_of_str(pci)).contains(pci_key_of_str(pci)),
{
}

/// Block lists held in process memory. They behave as the kernel maps do;
/// they serve where no kernel program is loaded. Changes to the keys they
/// were set up to refuse fail and change nothing, as a kernel map that
/// refuses an update.
pub struct MemoryBlockMaps {
    ids: Vec<u32>,
    pcis: Vec<[u8; 16]>,
    refused_ids: Vec<u32>,
    refused_pcis: Vec<[u8; 16]>,
}

fn same_key(a: &[u8; 16], b: &[u8; 16]) -> (r: bool)
    ensures
        r == (a@ == b@),
{
    let mut i: usize = 0;
    while i < 16
        invariant
            i <= 16,
            a@.len() == 16,
            b@.len() == 16,
            forall|j: int| 0 <= j < i ==> a@[j] == b@[j],
        decreases 16 - i,
    {
        if a[i] != b[i] {
            return false;
        }
        i = i + 1;
    }
    assert(a@ =~= b@);
    true
}

fn position_of_id(ids: &Vec<u32>, id: u32) -> (r: Option<usize>)
    ensures
        r is None <==> !ids@.contains(id),
        r is Some ==> r->0 < ids@.len() && ids@[r->0 as int] == id,
{
    let mut i: usize = 0;
    while i < ids.len()
        invariant
            i <= ids@.len(),
            forall|j: int| 0 <= j < i ==> ids@[j] != id,
        decreases ids@.len() - i,
    {
        if ids[i] == id {
            return Some(i);
        }
        i = i + 1;
    }
    None
}

pub open spec fn key_set(keys: Seq<[u8; 16]>) -> Set<Seq<u8>> {
    Set::new(|k: Seq<u8>| exists|j: int| 0 <= j < keys.len() && keys[j]@ == k)
}

fn position_of_key(keys: &Vec<[u8; 16]>, key: &[u8; 16]) -> (r: Option<usize>)
    ensures
        r is None <==> !key_set(keys@).contains(key@),
        r is Some ==> r->0 < keys@.len() && keys@[r->0 as int]@ == key@,
{
    let mut i: usize = 0;
    while i < keys.len()
        invariant
            i <= keys@.len(),
            forall|j: int| 0 <= j < i ==> keys@[j]@ != key@,
        decreases keys@.len() - i,
    {
        if same_key(&keys[i], key) {
            return Some(i);
        }
        i = i + 1;
    }
    None
}

impl MemoryBlockMaps {
    /// Both lists empty, as the kernel maps are after boot.
    pub fn new() -> (r: MemoryBlockMaps)
        ensures
            r.blocked_ids() == Set::<u32>::empty(),
            r.blocked_pcis() == Set::<Seq<u8>>::empty(),
    {
        MemoryBlockMaps::refusing(Vec::new(), Vec::new())
    }

    /// Both lists empty; changes to these ids and PCI keys will fail.
    pub fn refusing(refused_ids: Vec<u32>, refused_pcis: Vec<[u8; 16]>) -> (r: MemoryBlockMaps)
        ensures
            r.blocked_ids() == Set::<u32>::empty(),
            r.blocked_pcis() == Set::<Seq<u8>>::empty(),
    {
        let r = MemoryBlockMaps { ids: Vec::new(), pcis: Vec::new(), refused_ids, refused_pcis };
        assert(r.blocked_ids() =~= Set::<u32>::empty());
        assert(r.blocked_pcis() =~= Set::<Seq<u8>>::empty());
        r
    }
}

impl BlockMaps for MemoryBlockMaps {
    closed spec fn blocked_ids(&self) -> Set<u32> {
        self.ids@.to_set()
    }

    closed spec fn blocked_pcis(&self) -> Set<Seq<u8>> {
        key_set(self.pcis@)
    }

    fn block_id(&mut self, id: u32) -> (r: Result<(), BlockError>) {
        if position_of_id(&self.refused_ids, id).is_some() {
            return Err(BlockError::Refused);
        }
        if position_of_id(&self.ids, id).is_none() {
            self.ids.push(id);
        }
        assert(self.ids@.to_set() =~= old(self).ids@.to_set().insert(id)) by {
            assert forall|x: u32| #[trigger] self.ids@.contains(x) <==> (old(self).ids@.contains(
                x,
            ) || x == id) by {
                if x == id && old(self).ids@.contains(id) {
                } else if x == id {
                    assert(self.ids@[self.ids@.len() - 1] == id);
                } else if old(self).ids@.contains(x) {
                    let j = choose|j: int| 0 <= j < old(self).ids@.len() && old(self).ids@[j] == x;
                    assert(self.ids@[j] == x);
                }
            }
        }
        Ok(())
    }

    fn unblock_id(&mut self, id: u32) -> (r: Result<(), BlockError>) {
        if position_of_id(&self.refused_ids, id).is_some() {
            return Err(BlockError::Refused);
        }
        let mut kept: Vec<u32> = Vec::new();
        let mut i: usize = 0;
        while i < self.ids.len()
            invariant
                i <= self.ids@.len(),
                forall|x: u32| #[trigger]
                    kept@.contains(x) <==> (x != id && exists|j: int|
                        0 <= j < i && self.ids@[j] == x),
            decreases self.ids@.len() - i,
        {
            let x = self.ids[i];
            let ghost before = kept@;
            if x != id {
                kept.push(x);
            }
            proof {
                assert forall|y: u32| #[trigger]
                    kept@.contains(y) <==> (y != id && exists|j: int|
                        0 <= j < i + 1 && self.ids@[j] == y) by {
                    if y != id && self.ids@[i as int] == y {
                        assert(kept@[kept@.len() - 1] == y);
                    }
                    if y != id && exists|j: int| 0 <= j < i && self.ids@[j] == y {
                        assert(before.contains(y));
                        let k = choose|k: int| 0 <= k < before.len() && before[k] == y;
                        assert(kept@[k] == y);
                    }
                    if kept@.contains(y) {
                        let k = choose|k: int| 0 <= k < kept@.len() && kept@[k] == y;
                        if k < before.len() {
                            assert(before[k] == y);
                            assert(before.contains(y));
                        } else {
                            assert(self.ids@[i as int] == y);
                        }
                    }
                }
            }
            i = i + 1;
        }
        self.ids = kept;
        assert(self.ids@.to_set() =~= old(self).ids@.to_set().remove(id));
        Ok(())
    }

    fn block_pci(&mut self, pci: &str) -> (r: Result<(), BlockError>) {
        let key = pci_key(pci);
        if position_of_key(&self.refused_pcis, &key).is_some() {
            return Err(BlockError::Refused);
        }
        if position_of_key(&self.pcis, &key).is_none() {
            self.pcis.push(key);
        }
        assert(key_set(self.pcis@) =~= key_set(old(self).pcis@).insert(key@)) by {
            assert forall|k: Seq<u8>| #[trigger] key_set(self.pcis@).contains(k) <==> (key_set(
                old(self).pcis@,
            ).contains(k) || k == key@) by {
                if key_set(old(self).pcis@).contains(k) {
                    let j = choose|j: int|
                        0 <= j < old(self).pcis@.len() && old(self).pcis@[j]@ == k;
                    assert(self.pcis@[j]@ == k);
                } else if k == key@ {
                    if !key_set(old(self).pcis@).contains(key@) {
                        assert(self.pcis@[self.pcis@.len() - 1]@ == k);
                    }
                }
                if key_set(self.pcis@).contains(k) {
                    let j = choose|j: int| 0 <= j < self.pcis@.len() && self.pcis@[j]@ == k;
                    if j < old(self).pcis@.len() {
                        assert(old(self).pcis@[j]@ == k);
                    }
                }
            }
        }
        Ok(())
    }

    fn unblock_pci(&mut self, pci: &str) -> (r: Result<(), BlockError>) {
        let key = pci_key(pci);
        if position_of_key(&self.refused_pcis, &key).is_some() {
            return Err(BlockError::Refused);
        }
        let mut kept: Vec<[u8; 16]> = Vec::new();
        let mut i: usize = 0;
        while i < self.pcis.len()
            invariant
                i <= self.pcis@.len(),
                forall|k: Seq<u8>| #[trigger]
                    key_set(kept@).contains(k) <==> (k != key@ && exists|j: int|
                        0 <= j < i && self.pcis@[j]@ == k),
            decreases self.pcis@.len() - i,
        {
            let same = same_key(&self.pcis[i], &key);
            let ghost before = kept@;
            if !same {
                kept.push(self.pcis[i]);
            }
            proof {
                assert forall|k: Seq<u8>| #[trigger]
                    key_set(kept@).contains(k) <==> (k != key@ && exists|j: int|
                        0 <= j < i + 1 && self.pcis@[j]@ == k) by {
                    if k != key@ && self.pcis@[i as int]@ == k {
                        assert(kept@[kept@.len() - 1]@ == k);
                    }
                    if k != key@ && exists|j: int| 0 <= j < i && self.pcis@[j]@ == k {
                        assert(key_set(before).contains(k));
                        let m = choose|m: int| 0 <= m < before.len() && before[m]@ == k;
                        assert(kept@[m]@ == k);
                    }
                    if key_set(kept@).contains(k) {
                        let m = choose|m: int| 0 <= m < kept@.len() && kept@[m]@ == k;
                        if m < before.len() {
                            assert(before[m]@ == k);
                            assert(key_set(before).contains(k));
                        } else {
                            assert(self.pcis@[i as int]@ == k);
                        }
                    }
                }
            }
            i = i + 1;
        }
        self.pcis = kept;
        assert(key_set(self.pcis@) =~= key_set(old(self).pcis@).remove(key@));
        Ok(())
    }

    fn is_id_blocked(&mut self, id: u32) -> (r: Result<bool, BlockError>) {
        Ok(position_of_id(&self.ids, id).is_some())
    }

    fn is_pci_blocked(&mut self, pci: &str) -> (r: Result<bool, BlockError>) {
        let key = pci_key(pci);
        Ok(position_of_key(&self.pcis, &key).is_some())
    }
}

} // verus!
