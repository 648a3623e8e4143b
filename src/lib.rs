//! GPU access control: kernel block lists keyed by device id and PCI address,
//! and the mode policy that programs them.
pub mod daemon;
pub mod ebpf;
pub mod maps;
pub mod node;
pub mod pci;
pub mod table;
