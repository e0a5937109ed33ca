//! Decoder for the tag-based boot information structure that a bootloader
//! hands to a kernel: a cursor-based byte reader, a scanner that walks the
//! self-delimiting tag sequence, and a lazy decoder for the fixed-stride
//! memory-map records found in one located tag.

pub mod reader;
pub mod multiboot;

pub use multiboot::MemoryArea;
pub use multiboot::MemoryAreaType;
pub use multiboot::MemoryAreas;
pub use multiboot::Multiboot;
