//! ELF and PE images as the `goblin` parser sees them, in plain values.
use vstd::prelude::*;

verus! {

/// A section of an ELF image: its name, where the string table gives one, and
/// its size.
pub struct ElfSection {
    pub name: Option<String>,
    pub size: u64,
}

/// What the library reads of a parsed ELF image: its section header table, the
/// file range (offset and size) of each segment, and its sections.
pub struct ElfLayout {
    pub section_table_offset: u64,
    pub section_entry_size: u16,
    pub section_count: u16,
    pub segments: Vec<(u64, u64)>,
    pub sections: Vec<ElfSection>,
}

/// The mathematical content of an [`ElfLayout`].
pub ghost struct ElfModel {
    pub section_table_offset: u64,
    pub section_entry_size: u16,
    pub section_count: u16,
    pub segments: Seq<(u64, u64)>,
    pub sections: Seq<(Option<Seq<char>>, u64)>,
}

/// The content of an optional string.
pub open spec fn text_of(name: Option<String>) -> Option<Seq<char>> {
    match name {
        Some(text) => Some(text@),
        None => None,
    }
}

impl View for ElfSection {
    type V = (Option<Seq<char>>, u64);

    open spec fn view(&self) -> (Option<Seq<char>>, u64) {
        (text_of(self.name), self.size)
    }
}

impl View for ElfLayout {
    type V = ElfModel;

    open spec fn view(&self) -> ElfModel {
        ElfModel {
            section_table_offset: self.section_table_offset,
            section_entry_size: self.section_entry_size,
            section_count: self.section_count,
            segments: self.segments@,
            sections: self.sections@.map_values(|section: ElfSection| section@),
        }
    }
}

/// A section of a PE image: its name, where it is readable text, and the file
/// range (offset and size) of its data.
pub struct PeSection {
    pub name: Option<String>,
    pub offset: u32,
    pub size: u32,
}

impl View for PeSection {
    type V = (Option<Seq<char>>, u32, u32);

    open spec fn view(&self) -> (Option<Seq<char>>, u32, u32) {
        (text_of(self.name), self.offset, self.size)
    }
}

/// What `goblin` makes of these bytes as an ELF image.
pub uninterp spec fn elf_model(bytes: Seq<u8>) -> Option<ElfModel>;

/// What `goblin` makes of these bytes as a PE image: its sections.
pub uninterp spec fn pe_model(bytes: Seq<u8>) -> Option<Seq<(Option<Seq<char>>, u32, u32)>>;

/// `goblin::elf::Elf::parse`: whether the bytes are an ELF image and, if so, its
/// layout, depend on nothing but the bytes. A section's name is what
/// `goblin::strtab::Strtab::get_at` finds for it.
#[verifier::external_body]
pub(crate) fn parse_elf(bytes: &[u8]) -> (r: Option<ElfLayout>)
    ensures
        (match r {
            Some(layout) => Some(layout@),
            None => None,
        }) == elf_model(bytes@),
{
    let elf = goblin::elf::Elf::parse(bytes).ok()?;
    let names = &elf.shdr_strtab;
    let sections = elf.section_headers.iter().map(|s| ElfSection {
        name: names.get_at(s.sh_name).map(String::from),
        size: s.sh_size,
    });
    Some(ElfLayout {
        section_table_offset: elf.header.e_shoff,
        section_entry_size: elf.header.e_shentsize,
        section_count: elf.header.e_shnum,
        segments: elf.program_headers.iter().map(|p| (p.p_offset, p.p_filesz)).collect(),
        sections: sections.collect(),
    })
}

/// `goblin::pe::PE::parse`: whether the bytes are a PE image and, if so, its
/// sections, depend on nothing but the bytes. A section's name is what
/// `goblin::pe::section_table::SectionTable::name` reads.
#[verifier::external_body]
pub(crate) fn parse_pe(bytes: &[u8]) -> (r: Option<Vec<PeSection>>)
    ensures
        (match r {
            Some(sections) => Some(sections@.map_values(|section: PeSection| section@)),
            None => None,
        }) == pe_model(bytes@),
{
    let pe = goblin::pe::PE::parse(bytes).ok()?;
    let sections = pe.sections.iter().map(|s| PeSection {
        name: s.name().ok().map(String::from),
        offset: s.pointer_to_raw_data,
        size: s.size_of_raw_data,
    });
    Some(sections.collect())
}

} // verus!
