//! The boundary to the executable-container parser (goblin). A parsed image
//! reaches the library as plain values: the entry virtual address, the list
//! of program headers, and the list of section headers.

use vstd::prelude::*;

use crate::LiftError;

verus! {

/// The program-header type of a loadable segment.
pub const PT_LOAD: u32 = 1;

/// One program header: a region of the image's file content mapped into the
/// virtual address space at load time.
#[derive(Debug, PartialEq, Eq)]
pub struct Segment {
    /// The segment type; only `PT_LOAD` segments are loaded.
    pub p_type: u32,
    /// Offset of the segment's content in the image file.
    pub file_off: u64,
    /// How many bytes the segment has on disk.
    pub file_size: u64,
    /// The virtual address the segment is mapped at.
    pub vaddr: u64,
    /// How many bytes the segment covers in memory (zero-filled past the
    /// file content).
    pub mem_size: u64,
}

/// One section header: a named address range of the image.
#[derive(Debug, PartialEq, Eq)]
pub struct Section {
    /// The virtual address the section starts at.
    pub addr: u64,
    /// Offset of the section's content in the image file.
    pub off: u64,
    /// The section's size in bytes.
    pub size: u64,
}

/// A parsed executable image, as plain values.
#[derive(Debug, PartialEq, Eq)]
pub struct ElfImage {
    /// The entry virtual address.
    pub entry: u64,
    /// The program headers, in file order.
    pub segments: Vec<Segment>,
    /// The section headers, in file order.
    pub sections: Vec<Section>,
}

/// What parsing an image yields; a function of the bytes alone.
pub uninterp spec fn elf_image_of(bytes: Seq<u8>) -> Result<ElfImage, LiftError>;

/// Relies on goblin's `Elf::parse`: parsing is deterministic in the bytes,
/// and the parsed image exposes the entry address, the program headers and
/// the section headers as plain integers.
#[verifier::external_body]
pub(crate) fn parse_elf(bytes: &[u8]) -> (r: Result<ElfImage, LiftError>)
    ensures
        r == elf_image_of(bytes@),
{
    match goblin::elf::Elf::parse(bytes) {
        Ok(e) => Ok(ElfImage {
            entry: e.entry,
            segments: e.program_headers.iter().map(|p| Segment {
                p_type: p.p_type, file_off: p.p_offset, file_size: p.p_filesz,
                vaddr: p.p_vaddr, mem_size: p.p_memsz,
            }).collect(),
            sections: e.section_headers.iter().map(|s| Section {
                addr: s.sh_addr, off: s.sh_offset, size: s.sh_size,
            }).collect(),
        }),
        Err(_) => Err(LiftError::BadImage),
    }
}

} // verus!
