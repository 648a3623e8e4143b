//! The fixed-width key under which a PCI address is stored in the kernel map.
use vstd::prelude::*;
use vstd::string::StringSliceAdditionalSpecFns;

verus! {

/// Width of a PCI map key in bytes, terminator included.
pub const PCI_KEY_LEN: usize = 16;

/// Number of address bytes a key keeps; the byte after them is always zero.
pub const PCI_KEY_SIGNIFICANT: usize = 15;

/// How many address bytes survive in the key.
pub open spec fn kept_len(addr: Seq<u8>) -> int {
    if addr.len() < PCI_KEY_SIGNIFICANT as int {
        addr.len() as int
    } else {
        PCI_KEY_SIGNIFICANT as int
    }
}

/// The key of an address: its first bytes (at most fifteen), zero-filled to
/// sixteen bytes.
pub open spec fn pci_key_of(addr: Seq<u8>) -> Seq<u8> {
    Seq::new(PCI_KEY_LEN as nat, |i: int| if i < kept_len(addr) { addr[i] } else { 0u8 })
}

/// Copies the address into a zero-filled sixteen-byte buffer, keeping at most
/// fifteen bytes so that the last byte always terminates the string.
pub fn pci_key(pci: &str) -> (key: [u8; 16])
    ensures
        key@ == pci_key_of(pci.spec_bytes()),
{
    let bytes = pci.as_bytes();
    let len: usize = if bytes.len() < PCI_KEY_SIGNIFICANT {
        bytes.len()
    } else {
        PCI_KEY_SIGNIFICANT
    };
    let mut key: [u8; 16] = [0u8; 16];
    let mut i: usize = 0;
    while i < len
        invariant
            bytes@ == pci.spec_bytes(),
            len as int == kept_len(bytes@),
            i <= len,
            key@.len() == PCI_KEY_LEN,
            forall|j: int| 0 <= j < i ==> key@[j] == bytes@[j],
            forall|j: int| i <= j < PCI_KEY_LEN ==> key@[j] == 0u8,
        decreases len - i,
    {
        key[i] = bytes[i];
        i = i + 1;
    }
    assert(key@ =~= pci_key_of(pci.spec_bytes()));
    key
}

/// Two addresses that agree on their first fifteen bytes get the same key,
/// whatever follows: longer addresses alias under the truncation.
pub proof fn lemma_pci_key_truncation(a: Seq<u8>, b: Seq<u8>)
    requires
        a.len() >= PCI_KEY_SIGNIFICANT,
        b.len() >= PCI_KEY_SIGNIFICANT,
        a.subrange(0, PCI_KEY_SIGNIFICANT as int) == b.subrange(0, PCI_KEY_SIGNIFICANT as int),
    ensures
        pci_key_of(a) == pci_key_of(b),
{
    assert forall|i: int| 0 <= i < PCI_KEY_SIGNIFICANT as int implies a[i] == b[i] by {
        assert(a[i] == a.subrange(0, PCI_KEY_SIGNIFICANT as int)[i]);
        assert(b[i] == b.subrange(0, PCI_KEY_SIGNIFICANT as int)[i]);
    }
    assert(pci_key_of(a) =~= pci_key_of(b));
}

/// The key always ends in a zero byte.
pub proof fn lemma_pci_key_terminated(addr: Seq<u8>)
    ensures
        pci_key_of(addr).len() == PCI_KEY_LEN,
        pci_key_of(addr)[PCI_KEY_SIGNIFICANT as int] == 0u8,
{
}

} // verus!
