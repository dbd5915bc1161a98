//! Mach-O images end and are listed as they were written.
use vstd::prelude::*;
use vstd::string::*;
use crate::entries::joined;
use crate::executables::{macho_command_reach, macho_extent, macho_reach};
use crate::header_laws::ends_after;
use crate::names::field_text;
use crate::numeral_laws::{is_free_of_nul, law_field_gives_the_name_back, nuls};
use crate::structure_listing::{macho_commands, macho_listing, macho_section, macho_sections};
use crate::tables::larger;
use crate::text::{lossy, trim};
use crate::writing::{holds_at, is_u32, is_u64, num32_bytes, num64_bytes};

verus! {

broadcast use {crate::writing::group_reads, crate::entries::group_joined};

/// A section of a segment.
pub ghost struct MachoSection {
    pub name: Seq<u8>,
    pub segment: Seq<u8>,
    pub address: Seq<u8>,
    pub size: int,
    pub rest: Seq<u8>,
}

/// The section can be written.
pub open spec fn is_macho_section(c: MachoSection, is64: bool) -> bool {
    &&& is_free_of_nul(c.name) && c.name.len() <= 16
    &&& c.segment.len() == 16
    &&& if is64 {
        c.address.len() == 8 && is_u64(c.size) && c.rest.len() == 32
    } else {
        c.address.len() == 4 && is_u32(c.size) && c.rest.len() == 28
    }
}

/// A section: its name, that of its segment, address, size and the rest.
#[verifier::opaque]
pub open spec fn section_bytes(c: MachoSection, is64: bool, is_be: bool) -> Seq<u8> {
    (c.name + nuls((16 - c.name.len()) as nat)) + c.segment + c.address + (if is64 {
        num64_bytes(c.size, is_be)
    } else {
        num32_bytes(c.size, is_be)
    }) + c.rest
}

/// Sections in a row.
pub open spec fn sections_bytes(sections: Seq<MachoSection>, is64: bool, is_be: bool) -> Seq<u8>
    decreases sections.len(),
{
    if sections.len() == 0 {
        Seq::empty()
    } else {
        section_bytes(sections[0], is64, is_be) + sections_bytes(sections.skip(1), is64, is_be)
    }
}

/// A load command.
pub ghost enum MachoCommand {
    /// A segment: name, addresses, where in the file it stands, protection, sections, flags.
    Segment {
        name: Seq<u8>,
        memory: Seq<u8>,
        offset: int,
        size: int,
        protection: Seq<u8>,
        sections: Seq<MachoSection>,
        flags: Seq<u8>,
    },
    /// Symbols and their names.
    Symbols { offset: int, count: int, names: int, names_size: int },
    /// A signature.
    Signature { offset: int, size: int },
    /// Another command.
    Other { kind: int, content: Seq<u8> },
}

/// The command can be written.
pub open spec fn is_macho_command(c: MachoCommand, is64: bool, is_be: bool) -> bool {
    &&& is_u32(command_bytes(c, is64, is_be).len() as int)
    &&& match c {
        MachoCommand::Segment { name, memory, offset, size, protection, sections, flags } => {
            &&& is_free_of_nul(name) && name.len() <= 16
            &&& protection.len() == 8 && flags.len() == 4
            &&& is_u32(sections.len() as int)
            &&& if is64 {
                memory.len() == 16 && is_u64(offset) && is_u64(size)
            } else {
                memory.len() == 8 && is_u32(offset) && is_u32(size)
            }
            &&& forall|i: int|
                0 <= i < sections.len() ==> is_macho_section(#[trigger] sections[i], is64)
        },
        MachoCommand::Symbols { offset, count, names, names_size } => {
            is_u32(offset) && is_u32(count) && is_u32(names) && is_u32(names_size)
        },
        MachoCommand::Signature { offset, size } => is_u32(offset) && is_u32(size),
        MachoCommand::Other { kind, content } => {
            &&& is_u32(kind)
            &&& kind != 1 && kind != 0x19 && kind != 2 && kind != 0x1D
        },
    }
}

/// What a command holds behind its kind and its length.
#[verifier::opaque]
pub open spec fn command_body(c: MachoCommand, is64: bool, is_be: bool) -> Seq<u8> {
    match c {
        MachoCommand::Segment { name, memory, offset, size, protection, sections, flags } => {
            if is64 {
                (name + nuls((16 - name.len()) as nat)) + memory + num64_bytes(offset, is_be) + num64_bytes(
                    size,
                    is_be,
                ) + protection + num32_bytes(sections.len() as int, is_be) + flags + sections_bytes(
                    sections,
                    is64,
                    is_be,
                )
            } else {
                (name + nuls((16 - name.len()) as nat)) + memory + num32_bytes(offset, is_be) + num32_bytes(
                    size,
                    is_be,
                ) + protection + num32_bytes(sections.len() as int, is_be) + flags + sections_bytes(
                    sections,
                    is64,
                    is_be,
                )
            }
        },
        MachoCommand::Symbols { offset, count, names, names_size } => {
            num32_bytes(offset, is_be) + num32_bytes(count, is_be) + num32_bytes(names, is_be)
                + num32_bytes(names_size, is_be)
        },
        MachoCommand::Signature { offset, size } => {
            num32_bytes(offset, is_be) + num32_bytes(size, is_be)
        },
        MachoCommand::Other { kind, content } => content,
    }
}

/// The number of the kind of a command.
pub open spec fn command_kind(c: MachoCommand, is64: bool) -> int {
    match c {
        MachoCommand::Segment { .. } => if is64 {
            0x19
        } else {
            1
        },
        MachoCommand::Symbols { .. } => 2,
        MachoCommand::Signature { .. } => 0x1D,
        MachoCommand::Other { kind, .. } => kind,
    }
}

/// A command: kind, length of the whole command, and the rest.
#[verifier::opaque]
pub open spec fn command_bytes(c: MachoCommand, is64: bool, is_be: bool) -> Seq<u8> {
    num32_bytes(command_kind(c, is64), is_be) + num32_bytes(
        8 + command_body(c, is64, is_be).len() as int,
        is_be,
    ) + command_body(c, is64, is_be)
}

/// How far what a command speaks of reaches into the file.
pub open spec fn command_end(c: MachoCommand, is64: bool) -> int {
    match c {
        MachoCommand::Segment { offset, size, .. } => offset + size,
        MachoCommand::Symbols { offset, count, names, names_size } => larger(
            offset + count * (if is64 {
                16int
            } else {
                12int
            }),
            names + names_size,
        ),
        MachoCommand::Signature { offset, size } => offset + size,
        MachoCommand::Other { .. } => 0,
    }
}

/// Load commands in a row.
pub open spec fn commands_bytes(parts: Seq<MachoCommand>, is64: bool, is_be: bool) -> Seq<u8>
    decreases parts.len(),
{
    if parts.len() == 0 {
        Seq::empty()
    } else {
        command_bytes(parts[0], is64, is_be) + commands_bytes(parts.skip(1), is64, is_be)
    }
}

/// All of them can be written.
pub open spec fn are_macho_commands(parts: Seq<MachoCommand>, is64: bool, is_be: bool) -> bool {
    forall|i: int| 0 <= i < parts.len() ==> is_macho_command(#[trigger] parts[i], is64, is_be)
}

proof fn lemma_are_macho_commands_rest(parts: Seq<MachoCommand>, is64: bool, is_be: bool)
    requires
        are_macho_commands(parts, is64, is_be),
        parts.len() > 0,
    ensures
        is_macho_command(parts[0], is64, is_be),
        are_macho_commands(parts.skip(1), is64, is_be),
{
    assert forall|i: int| 0 <= i < parts.skip(1).len() implies is_macho_command(#[trigger] parts.skip(1)[i], is64, is_be) by {
        assert(parts.skip(1)[i] == parts[i + 1]);
    }
}

/// How far the commands reach together, or `least` if that is further.
pub open spec fn commands_end(parts: Seq<MachoCommand>, is64: bool, least: int) -> int
    decreases parts.len(),
{
    if parts.len() == 0 {
        least
    } else {
        commands_end(parts.skip(1), is64, larger(least, command_end(parts[0], is64)))
    }
}

/// The end is that of the command that reaches furthest, or `least`.
pub proof fn law_commands_end_is_the_furthest(parts: Seq<MachoCommand>, is64: bool, least: int)
    ensures
        ({
            let end = commands_end(parts, is64, least);
            &&& end >= least
            &&& forall|i: int| 0 <= i < parts.len() ==> command_end(#[trigger] parts[i], is64) <= end
            &&& end == least || exists|i: int|
                0 <= i < parts.len() && command_end(#[trigger] parts[i], is64) == end
        }),
    decreases parts.len(),
{
    if parts.len() > 0 {
        let rest = parts.skip(1);
        let next = larger(least, command_end(parts[0], is64));
        law_commands_end_is_the_furthest(rest, is64, next);
        let end = commands_end(parts, is64, least);
        assert forall|i: int| 0 <= i < parts.len() implies command_end(#[trigger] parts[i], is64) <= end by {
            if i > 0 {
                assert(rest[i - 1] == parts[i]);
            }
        }
        if end == next {
            assert(end == least || command_end(parts[0], is64) == end);
        } else {
            let i = choose|i: int| 0 <= i < rest.len() && command_end(#[trigger] rest[i], is64) == end;
            assert(parts[i + 1] == rest[i]);
        }
    }
}

proof fn lemma_command_header(s: Seq<u8>, pos: int, c: MachoCommand, is64: bool, is_be: bool)
    requires
        is_macho_command(c, is64, is_be),
        holds_at(s, pos, command_bytes(c, is64, is_be)),
    ensures
        crate::bytes::num32(s, pos, is_be) == command_kind(c, is64),
        crate::bytes::num32(s, pos + 4, is_be) == command_bytes(c, is64, is_be).len(),
        holds_at(s, pos + 8, command_body(c, is64, is_be)),
        command_bytes(c, is64, is_be).len() == 8 + command_body(c, is64, is_be).len(),
{
    reveal(command_bytes);
    assert(holds_at(s, pos, num32_bytes(command_kind(c, is64), is_be)));
    assert(holds_at(s, pos + 4, num32_bytes(8 + command_body(c, is64, is_be).len() as int, is_be)));
}

proof fn lemma_command_reach(s: Seq<u8>, pos: int, c: MachoCommand, is64: bool, is_be: bool)
    requires
        is_macho_command(c, is64, is_be),
        holds_at(s, pos, command_bytes(c, is64, is_be)),
    ensures
        macho_command_reach(s, pos, is64, is_be) == Some(command_end(c, is64)),
{
    lemma_command_header(s, pos, c, is64, is_be);
    match c {
        MachoCommand::Segment { .. } => {
            lemma_segment_place(s, pos, c, is64, is_be);
        },
        MachoCommand::Symbols { .. } => {
            lemma_symbols_place(s, pos, c, is64, is_be);
        },
        MachoCommand::Signature { .. } => {
            lemma_signature_place(s, pos, c, is64, is_be);
        },
        MachoCommand::Other { .. } => {},
    }
}

proof fn lemma_segment_place(s: Seq<u8>, pos: int, c: MachoCommand, is64: bool, is_be: bool)
    requires
        c is Segment,
        is_macho_command(c, is64, is_be),
        holds_at(s, pos, command_bytes(c, is64, is_be)),
    ensures
        is64 ==> {
            &&& command_bytes(c, is64, is_be).len() >= 72
            &&& crate::bytes::num64(s, pos + 40, is_be) + crate::bytes::num64(s, pos + 48, is_be)
                == command_end(c, is64)
        },
        !is64 ==> {
            &&& command_bytes(c, is64, is_be).len() >= 56
            &&& crate::bytes::num32(s, pos + 32, is_be) + crate::bytes::num32(s, pos + 36, is_be)
                == command_end(c, is64)
        },
{
    lemma_command_header(s, pos, c, is64, is_be);
    reveal(command_body);
    if let MachoCommand::Segment { offset, size, .. } = c {
        if is64 {
            assert(holds_at(s, pos + 40, num64_bytes(offset, is_be)));
            assert(holds_at(s, pos + 48, num64_bytes(size, is_be)));
        } else {
            assert(holds_at(s, pos + 32, num32_bytes(offset, is_be)));
            assert(holds_at(s, pos + 36, num32_bytes(size, is_be)));
        }
    }
}

proof fn lemma_symbols_place(s: Seq<u8>, pos: int, c: MachoCommand, is64: bool, is_be: bool)
    requires
        c is Symbols,
        is_macho_command(c, is64, is_be),
        holds_at(s, pos, command_bytes(c, is64, is_be)),
    ensures
        command_bytes(c, is64, is_be).len() == 24,
        crate::bytes::num32(s, pos + 8, is_be) == c->Symbols_offset,
        crate::bytes::num32(s, pos + 12, is_be) == c->count,
        crate::bytes::num32(s, pos + 16, is_be) == c->names,
        crate::bytes::num32(s, pos + 20, is_be) == c->names_size,
{
    lemma_command_header(s, pos, c, is64, is_be);
    reveal(command_body);
    if let MachoCommand::Symbols { offset, count, names, names_size } = c {
        assert(holds_at(s, pos + 8, num32_bytes(offset, is_be)));
        assert(holds_at(s, pos + 12, num32_bytes(count, is_be)));
        assert(holds_at(s, pos + 16, num32_bytes(names, is_be)));
        assert(holds_at(s, pos + 20, num32_bytes(names_size, is_be)));
    }
}

proof fn lemma_signature_place(s: Seq<u8>, pos: int, c: MachoCommand, is64: bool, is_be: bool)
    requires
        c is Signature,
        is_macho_command(c, is64, is_be),
        holds_at(s, pos, command_bytes(c, is64, is_be)),
    ensures
        command_bytes(c, is64, is_be).len() == 16,
        crate::bytes::num32(s, pos + 8, is_be) + crate::bytes::num32(s, pos + 12, is_be) == command_end(
            c,
            is64,
        ),
{
    lemma_command_header(s, pos, c, is64, is_be);
    reveal(command_body);
    if let MachoCommand::Signature { offset, size } = c {
        assert(holds_at(s, pos + 8, num32_bytes(offset, is_be)));
        assert(holds_at(s, pos + 12, num32_bytes(size, is_be)));
    }
}

proof fn lemma_commands_reach(
    s: Seq<u8>,
    pos: int,
    parts: Seq<MachoCommand>,
    is64: bool,
    is_be: bool,
    reach: int,
)
    requires
        are_macho_commands(parts, is64, is_be),
        holds_at(s, pos, commands_bytes(parts, is64, is_be)),
    ensures
        macho_reach(s, pos, parts.len() as int, is64, is_be, reach) == Some(
            commands_end(parts, is64, reach),
        ),
    decreases parts.len(),
{
    if parts.len() > 0 {
        lemma_are_macho_commands_rest(parts, is64, is_be);
        lemma_command_header(s, pos, parts[0], is64, is_be);
        lemma_command_reach(s, pos, parts[0], is64, is_be);
        lemma_commands_reach(
            s,
            pos + command_bytes(parts[0], is64, is_be).len(),
            parts.skip(1),
            is64,
            is_be,
            larger(reach, command_end(parts[0], is64)),
        );
    }
}

/// A Mach-O image: sixteen bytes, the number and the length of the commands, flags, and the
/// commands.
#[verifier::opaque]
pub open spec fn macho_image(
    before: Seq<u8>,
    size: int,
    flags: Seq<u8>,
    parts: Seq<MachoCommand>,
    is64: bool,
    is_be: bool,
) -> Seq<u8> {
    before + num32_bytes(parts.len() as int, is_be) + num32_bytes(size, is_be) + flags + commands_bytes(
        parts,
        is64,
        is_be,
    )
}

/// The image can be written.
pub open spec fn is_macho_image(
    before: Seq<u8>,
    size: int,
    flags: Seq<u8>,
    parts: Seq<MachoCommand>,
    is64: bool,
    is_be: bool,
) -> bool {
    &&& before.len() == 16
    &&& flags.len() == if is64 {
        8int
    } else {
        4int
    }
    &&& is_u32(parts.len() as int) && is_u32(size)
    &&& are_macho_commands(parts, is64, is_be)
}

proof fn lemma_image(
    s: Seq<u8>,
    start: int,
    before: Seq<u8>,
    size: int,
    flags: Seq<u8>,
    parts: Seq<MachoCommand>,
    is64: bool,
    is_be: bool,
)
    requires
        is_macho_image(before, size, flags, parts, is64, is_be),
        holds_at(s, start, macho_image(before, size, flags, parts, is64, is_be)),
    ensures
        0 <= start && start + 24 <= s.len(),
        crate::bytes::num32(s, start + 16, is_be) == parts.len(),
        crate::bytes::num32(s, start + 20, is_be) == size,
        holds_at(s, start + 24 + flags.len(), commands_bytes(parts, is64, is_be)),
{
    reveal(macho_image);
    assert(holds_at(s, start + 16, num32_bytes(parts.len() as int, is_be)));
    assert(holds_at(s, start + 20, num32_bytes(size, is_be)));
}

/// A Mach-O image ends with what its commands speak of that reaches furthest, or with the
/// commands themselves.
pub proof fn law_macho_ends_with_its_furthest_part(
    s: Seq<u8>,
    start: int,
    before: Seq<u8>,
    size: int,
    flags: Seq<u8>,
    parts: Seq<MachoCommand>,
    is64: bool,
    is_be: bool,
)
    requires
        is_macho_image(before, size, flags, parts, is64, is_be),
        holds_at(s, start, macho_image(before, size, flags, parts, is64, is_be)),
    ensures
        ends_after(
            macho_extent(s, start, is64, is_be),
            s,
            start,
            commands_end(parts, is64, 24 + flags.len() + size),
            80,
        ),
{
    lemma_image(s, start, before, size, flags, parts, is64, is_be);
    let least = 24 + flags.len() + size;
    lemma_commands_reach(s, start + 24 + flags.len(), parts, is64, is_be, least);
    law_commands_end_is_the_furthest(parts, is64, least);
}

/// The sections of a segment: its name and theirs, and their sizes.
pub open spec fn section_list(segment: Seq<u8>, sections: Seq<MachoSection>) -> Seq<(Seq<char>, int)>
    decreases sections.len(),
{
    if sections.len() == 0 {
        Seq::empty()
    } else {
        seq![
            (trim(lossy(segment)) + ","@ + trim(lossy(sections[0].name)), sections[0].size),
        ] + section_list(segment, sections.skip(1))
    }
}

/// The sections of all segments.
pub open spec fn command_list(parts: Seq<MachoCommand>) -> Seq<(Seq<char>, int)>
    decreases parts.len(),
{
    if parts.len() == 0 {
        Seq::empty()
    } else {
        (match parts[0] {
            MachoCommand::Segment { name, sections, .. } => section_list(name, sections),
            _ => Seq::empty(),
        }) + command_list(parts.skip(1))
    }
}

proof fn lemma_section(s: Seq<u8>, pos: int, c: MachoSection, segment: Seq<char>, is64: bool, is_be: bool)
    requires
        is_macho_section(c, is64),
        holds_at(s, pos, section_bytes(c, is64, is_be)),
    ensures
        section_bytes(c, is64, is_be).len() == if is64 {
            80int
        } else {
            68int
        },
        macho_section(s, pos, segment, is64, is_be) == (segment + ","@ + trim(lossy(c.name)), c.size),
{
    reveal(section_bytes);
    let field = c.name + nuls((16 - c.name.len()) as nat);
    law_field_gives_the_name_back(c.name, (16 - c.name.len()) as nat);
    assert(holds_at(s, pos, field));
    assert(s.subrange(pos, pos + 16) == field);
    if is64 {
        assert(holds_at(s, pos + 40, num64_bytes(c.size, is_be)));
    } else {
        assert(holds_at(s, pos + 36, num32_bytes(c.size, is_be)));
    }
}

proof fn lemma_sections(
    s: Seq<u8>,
    pos: int,
    sections: Seq<MachoSection>,
    segment: Seq<u8>,
    is64: bool,
    is_be: bool,
    rest: Option<Seq<(Seq<char>, int)>>,
)
    requires
        forall|i: int| 0 <= i < sections.len() ==> is_macho_section(#[trigger] sections[i], is64),
        holds_at(s, pos, sections_bytes(sections, is64, is_be)),
    ensures
        macho_sections(
            s,
            pos,
            sections.len() as int,
            trim(lossy(segment)),
            is64,
            is_be,
            rest,
        ) == joined(section_list(segment, sections), rest),
    decreases sections.len(),
{
    if sections.len() > 0 {
        let c = sections[0];
        let more = sections.skip(1);
        assert forall|i: int| 0 <= i < more.len() implies is_macho_section(#[trigger] more[i], is64) by {
            assert(more[i] == sections[i + 1]);
        }
        lemma_section(s, pos, c, trim(lossy(segment)), is64, is_be);
        lemma_sections(s, pos + section_bytes(c, is64, is_be).len(), more, segment, is64, is_be, rest);
        let one = (trim(lossy(segment)) + ","@ + trim(lossy(c.name)), c.size);
        if let Some(list) = rest {
            assert(seq![one] + (section_list(segment, more) + list) == (seq![one] + section_list(
                segment,
                more,
            )) + list);
        }
    }
}

proof fn lemma_command_listed(
    s: Seq<u8>,
    pos: int,
    c: MachoCommand,
    n: int,
    is64: bool,
    is_be: bool,
)
    requires
        is_macho_command(c, is64, is_be),
        n > 0,
        holds_at(s, pos, command_bytes(c, is64, is_be)),
    ensures
        macho_commands(s, pos, n, is64, is_be) == joined(
            match c {
                MachoCommand::Segment { name, sections, .. } => section_list(name, sections),
                _ => Seq::empty(),
            },
            macho_commands(s, pos + command_bytes(c, is64, is_be).len(), n - 1, is64, is_be),
        ),
{
    lemma_command_header(s, pos, c, is64, is_be);
    let rest = macho_commands(s, pos + command_bytes(c, is64, is_be).len(), n - 1, is64, is_be);
    match c {
        MachoCommand::Segment { name, memory, offset, size, protection, sections, flags } => {
            lemma_segment_parts(s, pos, c, is64, is_be);
            lemma_sections(
                s,
                pos + if is64 {
                    72int
                } else {
                    56int
                },
                sections,
                name,
                is64,
                is_be,
                rest,
            );
        },
        _ => {},
    }
}

proof fn lemma_segment_parts(s: Seq<u8>, pos: int, c: MachoCommand, is64: bool, is_be: bool)
    requires
        c is Segment,
        is_macho_command(c, is64, is_be),
        holds_at(s, pos, command_bytes(c, is64, is_be)),
    ensures
        field_text(s.subrange(pos + 8, pos + 24)) == trim(lossy(c->name)),
        crate::bytes::num32(
            s,
            pos + if is64 {
                64int
            } else {
                48int
            },
            is_be,
        ) == c->sections.len(),
        holds_at(
            s,
            pos + if is64 {
                72int
            } else {
                56int
            },
            sections_bytes(c->sections, is64, is_be),
        ),
        command_bytes(c, is64, is_be).len() >= if is64 {
            72int
        } else {
            56int
        },
{
    lemma_command_header(s, pos, c, is64, is_be);
    reveal(command_body);
    let field = c->name + nuls((16 - c->name.len()) as nat);
    law_field_gives_the_name_back(c->name, (16 - c->name.len()) as nat);
    assert(holds_at(s, pos + 8, field));
    assert(s.subrange(pos + 8, pos + 24) == field);
    if is64 {
        assert(holds_at(s, pos + 64, num32_bytes(c->sections.len() as int, is_be)));
    } else {
        assert(holds_at(s, pos + 48, num32_bytes(c->sections.len() as int, is_be)));
    }
}

proof fn lemma_commands_listed(s: Seq<u8>, pos: int, parts: Seq<MachoCommand>, is64: bool, is_be: bool)
    requires
        are_macho_commands(parts, is64, is_be),
        holds_at(s, pos, commands_bytes(parts, is64, is_be)),
    ensures
        macho_commands(s, pos, parts.len() as int, is64, is_be) == Some(command_list(parts)),
    decreases parts.len(),
{
    if parts.len() > 0 {
        lemma_are_macho_commands_rest(parts, is64, is_be);
        lemma_command_listed(s, pos, parts[0], parts.len() as int, is64, is_be);
        lemma_commands_listed(
            s,
            pos + command_bytes(parts[0], is64, is_be).len(),
            parts.skip(1),
            is64,
            is_be,
        );
    }
}

/// A Mach-O image is listed with the sections of its segments: the names of both, and the
/// sizes of the sections, in order.
pub proof fn law_macho_lists_its_sections(
    s: Seq<u8>,
    before: Seq<u8>,
    size: int,
    flags: Seq<u8>,
    parts: Seq<MachoCommand>,
    is64: bool,
    is_be: bool,
)
    requires
        is_macho_image(before, size, flags, parts, is64, is_be),
        holds_at(s, 0, macho_image(before, size, flags, parts, is64, is_be)),
        command_list(parts).len() > 0,
    ensures
        macho_listing(s, is64, is_be) == Some(command_list(parts)),
{
    lemma_image(s, 0, before, size, flags, parts, is64, is_be);
    lemma_commands_listed(s, 24 + flags.len() as int, parts, is64, is_be);
}

} // verus!
