mod paddr;
mod vaddr;
pub use paddr::PhysicalAddress;
pub use vaddr::{
    lemma_index_bits, lemma_vaddr_decomposition, spec_level_index, spec_page_offset, FlusherVirtualAddress,
    VirtualAddress,
};
