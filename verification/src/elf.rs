//! ELF patching: cave reuse, growth of the final loadable segment, and a
//! plain end-of-file append.
//!
//! The algorithms work on `ElfView`, a plain copy of the header fields,
//! section headers, and program headers that the strategies read; parsing
//! is delegated to `goblin` behind one trusted wrapper.

use vstd::prelude::*;

use crate::cave::{
    all_zero, best_cave_in, cave_available_in, is_maximal_run_in, CaveFinder, CodeCave,
};
use crate::patcher::{
    cave_patch_ok, largest_cave_report, placed_at, BinaryFormat, PatchError, PatchResult,
    PatchStrategy,
};
use crate::util::{align_up, align_up_spec, has_substring, spec_starts_with_chars};
use vstd::string::StringSliceAdditionalSpecFns;

verus! {

/// Program header type tag of a loadable segment (`PT_LOAD`).
pub const ELF_PT_LOAD: u32 = 1;

/// Section type tag of a section with no file-backed bytes (`SHT_NOBITS`).
pub const ELF_SHT_NOBITS: u32 = 8;

/// One section header, with its name resolved from the string table.
#[derive(Debug, Clone)]
pub struct ElfSectionView {
    pub name: Vec<u8>,
    pub sh_type: u32,
    pub sh_addr: u64,
    pub sh_offset: u64,
    pub sh_size: u64,
}

/// One program header entry.
#[derive(Debug, Clone, Copy)]
pub struct ElfProgramHeaderView {
    pub p_type: u32,
    pub p_offset: u64,
    pub p_vaddr: u64,
    pub p_filesz: u64,
    pub p_memsz: u64,
}

/// A plain view of a parsed ELF binary: the header fields, section
/// headers, and program headers that the patch strategies read.
#[derive(Debug, Clone)]
pub struct ElfView {
    pub is_64: bool,
    pub e_ehsize: u16,
    pub e_phoff: u64,
    pub e_phentsize: u16,
    pub sections: Vec<ElfSectionView>,
    pub program_headers: Vec<ElfProgramHeaderView>,
}

/// What `goblin::elf::Elf::parse` reads out of a byte buffer: `None` when
/// parsing fails. The view depends on the bytes alone.
pub uninterp spec fn elf_view_of(data: Seq<u8>) -> Option<ElfView>;

/// Relies on `goblin::elf::Elf::parse`: the ELF header, section headers
/// (with names resolved through the section string table), and program
/// headers are read deterministically from the bytes; malformed binaries
/// are rejected.
#[verifier::external_body]
fn parse_elf_view(data: &[u8]) -> (r: Result<ElfView, PatchError>)
    ensures
        match r {
            Ok(v) => elf_view_of(data@) == Some(v),
            Err(e) => elf_view_of(data@) is None && e is ParseError,
        },
{
    match goblin::elf::Elf::parse(data) {
        Ok(e) => Ok(ElfView {
            is_64: e.is_64,
            e_ehsize: e.header.e_ehsize,
            e_phoff: e.header.e_phoff,
            e_phentsize: e.header.e_phentsize,
            sections: e.section_headers.iter().map(|s| ElfSectionView { name: e.shdr_strtab.get_at(s.sh_name).unwrap_or("").as_bytes().to_vec(), sh_type: s.sh_type, sh_addr: s.sh_addr, sh_offset: s.sh_offset, sh_size: s.sh_size }).collect(),
            program_headers: e.program_headers.iter().map(|p| ElfProgramHeaderView { p_type: p.p_type, p_offset: p.p_offset, p_vaddr: p.p_vaddr, p_filesz: p.p_filesz, p_memsz: p.p_memsz }).collect(),
        }),
        Err(er) => Err(PatchError::ParseError(er.to_string())),
    }
}

/// The format tag of a parsed ELF binary.
pub open spec fn elf_format(v: ElfView) -> BinaryFormat {
    if v.is_64 {
        BinaryFormat::ELF64
    } else {
        BinaryFormat::ELF32
    }
}

/// Names of sections whose padding is expected to be inert; those
/// sections are searched for caves.
pub open spec fn elf_is_candidate(name: Seq<u8>) -> bool {
    ||| name == ".rodata".spec_bytes()
    ||| name == ".data".spec_bytes()
    ||| name == ".note.gnu.build-id".spec_bytes()
}

/// What the section table assigns to file offset `off`: `None` when no
/// file-backed section with a non-zero address contains the offset,
/// otherwise the first such section's resolution (which itself is absent
/// on overflow).
pub open spec fn elf_va_sections(sections: Seq<ElfSectionView>, off: int) -> Option<Option<u64>>
    decreases sections.len(),
{
    if sections.len() == 0 {
        None
    } else {
        let s = sections[0];
        if s.sh_type != ELF_SHT_NOBITS && s.sh_offset <= off < s.sh_offset + s.sh_size && s.sh_addr
            > 0 {
            let va = s.sh_addr + (off - s.sh_offset);
            if va <= u64::MAX {
                Some(Some(va as u64))
            } else {
                Some(None)
            }
        } else {
            elf_va_sections(sections.drop_first(), off)
        }
    }
}

/// The virtual address the program headers assign to file offset `off`:
/// the first loadable segment whose file range contains the offset.
pub open spec fn elf_va_segments(phs: Seq<ElfProgramHeaderView>, off: int) -> Option<u64>
    decreases phs.len(),
{
    if phs.len() == 0 {
        None
    } else {
        let p = phs[0];
        if p.p_type == ELF_PT_LOAD && p.p_offset <= off < p.p_offset + p.p_filesz {
            let va = p.p_vaddr + (off - p.p_offset);
            if va <= u64::MAX {
                Some(va as u64)
            } else {
                None
            }
        } else {
            elf_va_segments(phs.drop_first(), off)
        }
    }
}

/// The virtual address assigned to file offset `off`: sections first, then
/// loadable segments.
pub open spec fn elf_va_from_offset(v: ElfView, off: int) -> Option<u64> {
    match elf_va_sections(v.sections@, off) {
        Some(va) => va,
        None => elf_va_segments(v.program_headers@, off),
    }
}

/// Resolve a file offset to a virtual address: sections first, then
/// loadable segments.
fn calculate_va_from_offset(v: &ElfView, file_offset: usize) -> (r: Option<u64>)
    ensures
        r == elf_va_from_offset(*v, file_offset as int),
{
    let off = file_offset as u64;
    let mut i: usize = 0;
    proof {
        assert(v.sections@.skip(0) =~= v.sections@);
    }
    while i < v.sections.len()
        invariant
            i <= v.sections@.len(),
            off == file_offset as u64,
            elf_va_sections(v.sections@.skip(i as int), file_offset as int) == elf_va_sections(
                v.sections@,
                file_offset as int,
            ),
        decreases v.sections@.len() - i,
    {
        let s = &v.sections[i];
        proof {
            assert(v.sections@.skip(i as int)[0] == v.sections@[i as int]);
        }
        if s.sh_type != ELF_SHT_NOBITS && s.sh_offset <= off && (off as u128) < s.sh_offset as u128
            + s.sh_size as u128 && s.sh_addr > 0 {
            let va = s.sh_addr as u128 + (off - s.sh_offset) as u128;
            if va <= u64::MAX as u128 {
                return Some(va as u64);
            } else {
                return None;
            }
        }
        proof {
            assert(v.sections@.skip(i as int).drop_first() =~= v.sections@.skip(i as int + 1));
        }
        i = i + 1;
    }
    proof {
        assert(v.sections@.skip(i as int) =~= Seq::<ElfSectionView>::empty());
        assert(v.program_headers@.skip(0) =~= v.program_headers@);
    }
    let mut j: usize = 0;
    while j < v.program_headers.len()
        invariant
            j <= v.program_headers@.len(),
            off == file_offset as u64,
            elf_va_sections(v.sections@, file_offset as int) is None,
            elf_va_segments(v.program_headers@.skip(j as int), file_offset as int)
                == elf_va_segments(v.program_headers@, file_offset as int),
        decreases v.program_headers@.len() - j,
    {
        let p = &v.program_headers[j];
        proof {
            assert(v.program_headers@.skip(j as int)[0] == v.program_headers@[j as int]);
        }
        if p.p_type == ELF_PT_LOAD && p.p_offset <= off && (off as u128) < p.p_offset as u128
            + p.p_filesz as u128 {
            let va = p.p_vaddr as u128 + (off - p.p_offset) as u128;
            if va <= u64::MAX as u128 {
                return Some(va as u64);
            } else {
                return None;
            }
        }
        proof {
            assert(v.program_headers@.skip(j as int).drop_first() =~= v.program_headers@.skip(
                j as int + 1,
            ));
        }
        j = j + 1;
    }
    proof {
        assert(v.program_headers@.skip(j as int) =~= Seq::<ElfProgramHeaderView>::empty());
    }
    None
}

/// The index of the last loadable program header, if any.
pub open spec fn elf_last_load(phs: Seq<ElfProgramHeaderView>) -> Option<int>
    decreases phs.len(),
{
    if phs.len() == 0 {
        None
    } else if phs.last().p_type == ELF_PT_LOAD {
        Some(phs.len() - 1)
    } else {
        elf_last_load(phs.drop_last())
    }
}

/// Find the last loadable program header.
fn find_last_load(v: &ElfView) -> (r: Option<usize>)
    ensures
        match r {
            Some(i) => elf_last_load(v.program_headers@) == Some(i as int) && i
                < v.program_headers@.len() && v.program_headers@[i as int].p_type == ELF_PT_LOAD,
            None => elf_last_load(v.program_headers@) is None,
        },
{
    let mut j: usize = v.program_headers.len();
    proof {
        assert(v.program_headers@.subrange(0, j as int) =~= v.program_headers@);
    }
    while j > 0
        invariant
            j <= v.program_headers@.len(),
            elf_last_load(v.program_headers@) == elf_last_load(
                v.program_headers@.subrange(0, j as int),
            ),
        decreases j,
    {
        proof {
            assert(v.program_headers@.subrange(0, j as int).last() == v.program_headers@[j as int
                - 1]);
            assert(v.program_headers@.subrange(0, j as int).drop_last() =~= v.program_headers@
                .subrange(0, j as int - 1));
        }
        if v.program_headers[j - 1].p_type == ELF_PT_LOAD {
            return Some(j - 1);
        }
        j = j - 1;
    }
    None
}

/// Patch an ELF binary with the requested strategy. The overlay strategy
/// is handled before format dispatch and never reaches a format patcher.
pub fn patch_elf(data: &[u8], string: &str, strategy: PatchStrategy) -> (r: Result<
    (Vec<u8>, PatchResult),
    PatchError,
>)
    requires
        strategy != PatchStrategy::Overlay,
        string.spec_bytes().len() + 1 <= usize::MAX,
    ensures
        elf_view_of(data@) is None ==> r matches Err(PatchError::ParseError(_)),
        match r {
            Ok((out, res)) => {
                &&& elf_view_of(data@) matches Some(v) && {
                    &&& res.format == elf_format(v)
                    &&& strategy == PatchStrategy::Cave ==> elf_cave_patched(
                        data@,
                        v,
                        string.spec_bytes(),
                        out@,
                        res,
                    )
                    &&& strategy == PatchStrategy::Cave ==> exists|off: int, sz: int|
                        {
                            &&& #[trigger] elf_cave_selected(
                                data@,
                                v,
                                string.spec_bytes().len() + 1 as int,
                                off,
                                sz,
                            )
                            &&& cave_patch_ok(data@, string.spec_bytes(), out@, res, off)
                        }
                    &&& strategy == PatchStrategy::Section ==> elf_section_feasible(
                        v,
                        data@.len() as int,
                        string.spec_bytes().len() as int,
                    ) && elf_section_ok(data@, v, string.spec_bytes(), out@, res)
                    &&& strategy == PatchStrategy::Extend ==> {
                        &&& out@ == data@ + string.spec_bytes() + seq![0u8]
                        &&& res.file_offset == Some(data@.len() as u64)
                        &&& res.virtual_address == elf_extend_va(v, data@.len() as int)
                    }
                }
                &&& has_substring(out@, string.spec_bytes())
                &&& placed_at(out@, string.spec_bytes(), res)
                &&& spec_starts_with_chars(
                    res.strategy_used@,
                    crate::patcher::strategy_prefix(strategy),
                )
            },
            Err(e) => {
                &&& (e is ParseError || e is NoCaveFound || e is PatchFailed)
                &&& e is ParseError ==> elf_view_of(data@) is None
                &&& strategy == PatchStrategy::Cave ==> !(e is PatchFailed)
                &&& (strategy == PatchStrategy::Section || strategy == PatchStrategy::Extend) ==> !(
                e is NoCaveFound)
                &&& e matches PatchError::NoCaveFound { needed, found } ==> {
                    &&& needed == string.spec_bytes().len() + 1
                    &&& largest_cave_report(data@, found as int)
                    &&& elf_view_of(data@) matches Some(v) && {
                        &&& !cave_available_in(
                            data@,
                            v.e_ehsize as int,
                            data@.len() as int,
                            needed as int,
                        )
                        &&& !elf_candidate_cave(data@, v, needed as int)
                    }
                }
                &&& (strategy == PatchStrategy::Cave && (elf_view_of(data@) matches Some(v) && (
                cave_available_in(
                    data@,
                    v.e_ehsize as int,
                    data@.len() as int,
                    string.spec_bytes().len() + 1 as int,
                ) || elf_candidate_cave(data@, v, string.spec_bytes().len() + 1 as int)))) ==> false
                &&& (strategy == PatchStrategy::Section && (elf_view_of(data@) matches Some(v)
                    && elf_section_feasible(
                    v,
                    data@.len() as int,
                    string.spec_bytes().len() as int,
                ))) ==> false
                &&& strategy == PatchStrategy::Extend ==> (elf_view_of(data@) is Some ==> false)
            },
        },
{
    let string_bytes = string.as_bytes();
    let needed_size = string_bytes.len() + 1;
    let v = match parse_elf_view(data) {
        Ok(v) => v,
        Err(e) => {
            return Err(e);
        },
    };
    match strategy {
        PatchStrategy::Cave => patch_elf_cave(data, &v, string_bytes, needed_size),
        PatchStrategy::Section => patch_elf_section(data, &v, string_bytes),
        PatchStrategy::Extend => patch_elf_extend(data, &v, string_bytes),
        PatchStrategy::Overlay => vstd::pervasive::unreached(),
    }
}

/// The start of candidate section `j`'s file range.
pub open spec fn elf_window_lo(v: ElfView, j: int) -> int {
    v.sections@[j].sh_offset as int
}

/// The end of candidate section `j`'s file range.
pub open spec fn elf_window_hi(v: ElfView, j: int) -> int {
    v.sections@[j].sh_offset + v.sections@[j].sh_size
}

/// Candidate section `j` is searched for caves: it carries a candidate
/// name and its file range lies inside the buffer.
pub open spec fn elf_searchable(v: ElfView, data_len: int, j: int) -> bool {
    &&& 0 <= j < v.sections@.len()
    &&& elf_is_candidate(v.sections@[j].name@)
    &&& elf_window_hi(v, j) <= data_len
}

/// Which cave the ELF cave strategy selects. Either the window-best cave
/// of the first searchable section that attains the largest cave size any
/// searchable section offers, or — when no searchable section holds a
/// cave of the needed size — the best cave of the file body past the ELF
/// header.
pub open spec fn elf_cave_selected(
    data: Seq<u8>,
    v: ElfView,
    needed: int,
    off: int,
    sz: int,
) -> bool {
    ||| exists|j: int|
        {
            &&& #[trigger] elf_searchable(v, data.len() as int, j)
            &&& best_cave_in(data, elf_window_lo(v, j), elf_window_hi(v, j), needed, off, sz)
            &&& forall|j2: int|
                #[trigger] elf_searchable(v, data.len() as int, j2) ==> !cave_available_in(
                    data,
                    elf_window_lo(v, j2),
                    elf_window_hi(v, j2),
                    sz + 1,
                )
            &&& forall|j2: int|
                #[trigger] elf_searchable(v, data.len() as int, j2) && j2 < j
                    ==> !cave_available_in(data, elf_window_lo(v, j2), elf_window_hi(v, j2), sz)
        }
    ||| {
        &&& forall|j2: int|
            #[trigger] elf_searchable(v, data.len() as int, j2) ==> !cave_available_in(
                data,
                elf_window_lo(v, j2),
                elf_window_hi(v, j2),
                needed,
            )
        &&& best_cave_in(data, v.e_ehsize as int, data.len() as int, needed, off, sz)
    }
}

/// The cave strategy's choice is deterministic: the selection rule
/// admits exactly one offset and size for a given buffer and view.
pub proof fn lemma_elf_cave_selection_unique(
    data: Seq<u8>,
    v: ElfView,
    needed: int,
    o1: int,
    s1: int,
    o2: int,
    s2: int,
)
    requires
        elf_cave_selected(data, v, needed, o1, s1),
        elf_cave_selected(data, v, needed, o2, s2),
    ensures
        o1 == o2 && s1 == s2,
{
    let dl = data.len() as int;
    if exists|j: int|
        #[trigger] elf_searchable(v, dl, j) && best_cave_in(
            data,
            elf_window_lo(v, j),
            elf_window_hi(v, j),
            needed,
            o1,
            s1,
        ) {
        let j1 = choose|j1: int|
            #[trigger] elf_searchable(v, dl, j1) && best_cave_in(
                data,
                elf_window_lo(v, j1),
                elf_window_hi(v, j1),
                needed,
                o1,
                s1,
            ) && forall|j2: int|
                #[trigger] elf_searchable(v, dl, j2) && j2 < j1 ==> !cave_available_in(
                    data,
                    elf_window_lo(v, j2),
                    elf_window_hi(v, j2),
                    s1,
                );
        let j2 = choose|j2: int|
            #[trigger] elf_searchable(v, dl, j2) && best_cave_in(
                data,
                elf_window_lo(v, j2),
                elf_window_hi(v, j2),
                needed,
                o2,
                s2,
            ) && forall|j3: int|
                #[trigger] elf_searchable(v, dl, j3) && j3 < j2 ==> !cave_available_in(
                    data,
                    elf_window_lo(v, j3),
                    elf_window_hi(v, j3),
                    s2,
                );
        assert(is_maximal_run_in(data, elf_window_lo(v, j1), elf_window_hi(v, j1), o1, s1));
        assert(is_maximal_run_in(data, elf_window_lo(v, j2), elf_window_hi(v, j2), o2, s2));
        assert(s1 <= s2) by {
            if s1 > s2 {
                assert(cave_available_in(data, elf_window_lo(v, j1), elf_window_hi(v, j1), s2 + 1));
            }
        }
        assert(s2 <= s1) by {
            if s2 > s1 {
                assert(cave_available_in(data, elf_window_lo(v, j2), elf_window_hi(v, j2), s1 + 1));
            }
        }
        if j1 < j2 {
            assert(cave_available_in(data, elf_window_lo(v, j1), elf_window_hi(v, j1), s2));
            assert(false);
        }
        if j2 < j1 {
            assert(cave_available_in(data, elf_window_lo(v, j2), elf_window_hi(v, j2), s1));
            assert(false);
        }
        crate::cave::lemma_best_cave_in_unique(
            data,
            elf_window_lo(v, j1),
            elf_window_hi(v, j1),
            needed,
            o1,
            s1,
            o2,
            s2,
        );
    } else {
        if exists|j: int|
            #[trigger] elf_searchable(v, dl, j) && best_cave_in(
                data,
                elf_window_lo(v, j),
                elf_window_hi(v, j),
                needed,
                o2,
                s2,
            ) {
            let j2 = choose|j2: int|
                #[trigger] elf_searchable(v, dl, j2) && best_cave_in(
                    data,
                    elf_window_lo(v, j2),
                    elf_window_hi(v, j2),
                    needed,
                    o2,
                    s2,
                );
            assert(is_maximal_run_in(data, elf_window_lo(v, j2), elf_window_hi(v, j2), o2, s2));
            assert(cave_available_in(data, elf_window_lo(v, j2), elf_window_hi(v, j2), needed));
            assert(false);
        }
        crate::cave::lemma_best_cave_in_unique(
            data,
            v.e_ehsize as int,
            dl,
            needed,
            o1,
            s1,
            o2,
            s2,
        );
    }
}

/// The chosen cave lies where the search looks: inside a candidate data
/// section's file range, or at or after the ELF header's end.
pub open spec fn elf_cave_region_ok(v: ElfView, off: int, needed: int) -> bool {
    ||| off >= v.e_ehsize
    ||| exists|j: int|
        {
            &&& 0 <= j < v.sections@.len()
            &&& elf_is_candidate((#[trigger] v.sections@[j]).name@)
            &&& v.sections@[j].sh_offset <= off
            &&& off + needed <= v.sections@[j].sh_offset + v.sections@[j].sh_size
        }
}

/// Some candidate data section lies wholly inside the file and holds a
/// cave of at least `needed` bytes.
pub open spec fn elf_candidate_cave(data: Seq<u8>, v: ElfView, needed: int) -> bool {
    exists|j: int|
        {
            &&& 0 <= j < v.sections@.len()
            &&& elf_is_candidate((#[trigger] v.sections@[j]).name@)
            &&& v.sections@[j].sh_offset + v.sections@[j].sh_size <= data.len()
            &&& cave_available_in(
                data,
                v.sections@[j].sh_offset as int,
                v.sections@[j].sh_offset + v.sections@[j].sh_size,
                needed,
            )
        }
}

/// A successful ELF cave patch: an in-place write at some cave offset
/// inside the searched regions, with the virtual address resolved for
/// that offset.
pub open spec fn elf_cave_patched(
    data: Seq<u8>,
    v: ElfView,
    bytes: Seq<u8>,
    out: Seq<u8>,
    res: PatchResult,
) -> bool {
    &&& exists|off: int|
        {
            &&& #[trigger] cave_patch_ok(data, bytes, out, res, off)
            &&& res.virtual_address == elf_va_from_offset(v, off)
            &&& elf_cave_region_ok(v, off, bytes.len() + 1 as int)
        }
    &&& res.format == elf_format(v)
    &&& has_substring(out, bytes)
    &&& placed_at(out, bytes, res)
    &&& spec_starts_with_chars(res.strategy_used@, "cave"@)
}

/// Search the candidate data sections for the largest cave, falling back
/// to the file body past the ELF header, and write the string in place.
#[verifier::rlimit(100)]
#[verifier::spinoff_prover]
fn patch_elf_cave(data: &[u8], v: &ElfView, string_bytes: &[u8], needed_size: usize) -> (r: Result<
    (Vec<u8>, PatchResult),
    PatchError,
>)
    requires
        needed_size == string_bytes@.len() + 1,
    ensures
        match r {
            Ok((out, res)) => {
                &&& elf_cave_patched(data@, *v, string_bytes@, out@, res)
                &&& exists|off: int, sz: int|
                    {
                        &&& #[trigger] elf_cave_selected(data@, *v, needed_size as int, off, sz)
                        &&& cave_patch_ok(data@, string_bytes@, out@, res, off)
                    }
            },
            Err(e) => {
                &&& e matches PatchError::NoCaveFound { needed, found } && needed == needed_size
                    && largest_cave_report(data@, found as int)
                &&& !cave_available_in(
                    data@,
                    v.e_ehsize as int,
                    data@.len() as int,
                    needed_size as int,
                )
                &&& !elf_candidate_cave(data@, *v, needed_size as int)
            },
        },
{
    let dn = data.len();
    let mut best: Option<CodeCave> = None;
    let mut best_name: Vec<u8> = Vec::new();
    let mut i: usize = 0;
    while i < v.sections.len()
        invariant
            needed_size == string_bytes@.len() + 1,
            dn == data@.len(),
            i <= v.sections@.len(),
            best matches Some(c) ==> {
                &&& c.file_offset + c.size <= data@.len()
                &&& c.size >= needed_size
                &&& all_zero(data@, c.file_offset as int, c.file_offset + c.size)
                &&& elf_cave_region_ok(*v, c.file_offset as int, needed_size as int)
            },
            best matches Some(c) ==> exists|j: int|
                {
                    &&& #[trigger] elf_searchable(*v, data@.len() as int, j)
                    &&& j < i
                    &&& best_cave_in(
                        data@,
                        elf_window_lo(*v, j),
                        elf_window_hi(*v, j),
                        needed_size as int,
                        c.file_offset as int,
                        c.size as int,
                    )
                    &&& forall|j2: int|
                        #[trigger] elf_searchable(*v, data@.len() as int, j2) && j2 < j
                            ==> !cave_available_in(
                            data@,
                            elf_window_lo(*v, j2),
                            elf_window_hi(*v, j2),
                            c.size as int,
                        )
                },
            best matches Some(c) ==> forall|j2: int|
                #[trigger] elf_searchable(*v, data@.len() as int, j2) && j2 < i
                    ==> !cave_available_in(
                    data@,
                    elf_window_lo(*v, j2),
                    elf_window_hi(*v, j2),
                    c.size + 1 as int,
                ),
            best is None ==> forall|j: int|
                0 <= j < i ==> !(elf_is_candidate((#[trigger] v.sections@[j]).name@)
                    && v.sections@[j].sh_offset + v.sections@[j].sh_size <= data@.len()
                    && cave_available_in(
                    data@,
                    v.sections@[j].sh_offset as int,
                    v.sections@[j].sh_offset + v.sections@[j].sh_size,
                    needed_size as int,
                )),
        decreases v.sections@.len() - i,
    {
        let s = &v.sections[i];
        if is_elf_candidate_name(&s.name) {
            let end128 = s.sh_offset as u128 + s.sh_size as u128;
            if end128 <= dn as u128 && s.sh_offset as u128 <= usize::MAX as u128 {
                let start = s.sh_offset as usize;
                let send = end128 as usize;
                let mut caves = CaveFinder::find_caves_in_range(data, start, send, needed_size);
                proof {
                    assert(elf_searchable(*v, data@.len() as int, i as int));
                    assert(elf_window_lo(*v, i as int) == start as int);
                    assert(elf_window_hi(*v, i as int) == send as int);
                }
                if caves.len() > 0 {
                    let ghost all = caves@;
                    let c = caves.remove(0);
                    proof {
                        assert(crate::cave::is_maximal_run_in(
                            data@,
                            start as int,
                            send as int,
                            c.file_offset as int,
                            c.size as int,
                        ));
                        assert(elf_cave_region_ok(*v, c.file_offset as int, needed_size as int));
                        assert(best_cave_in(
                            data@,
                            start as int,
                            send as int,
                            needed_size as int,
                            c.file_offset as int,
                            c.size as int,
                        )) by {
                            assert forall|o2: int, s2: int|
                                #[trigger] is_maximal_run_in(
                                    data@,
                                    start as int,
                                    send as int,
                                    o2,
                                    s2,
                                ) && s2 >= needed_size implies s2 < c.size || (s2 == c.size && o2
                                >= c.file_offset) by {
                                let idx = choose|idx: int|
                                    0 <= idx < all.len() && crate::cave::cave_is(all[idx], o2, s2);
                                if idx > 0 {
                                    assert(all[0].size > all[idx].size || (all[0].size
                                        == all[idx].size && all[0].file_offset
                                        < all[idx].file_offset));
                                }
                            }
                        }
                        assert(!cave_available_in(
                            data@,
                            start as int,
                            send as int,
                            c.size + 1 as int,
                        )) by {
                            if cave_available_in(data@, start as int, send as int, c.size + 1) {
                                let (o2, s2) = choose|o2: int, s2: int|
                                    is_maximal_run_in(data@, start as int, send as int, o2, s2)
                                        && s2 >= c.size + 1;
                                assert(false);
                            }
                        }
                    }
                    let replace = match &best {
                        None => true,
                        Some(b) => c.size > b.size,
                    };
                    if replace {
                        best = Some(c);
                        best_name = copy_bytes(&s.name);
                    }
                } else {
                    proof {
                        if cave_available_in(data@, start as int, send as int, needed_size as int) {
                            let (o2, s2) = choose|o2: int, s2: int|
                                crate::cave::is_maximal_run_in(
                                    data@,
                                    start as int,
                                    send as int,
                                    o2,
                                    s2,
                                ) && s2 >= needed_size;
                            assert(false);
                        }
                    }
                }
            } else {
                proof {
                    assert(s.sh_offset + s.sh_size > data@.len() || s.sh_offset + s.sh_size
                        <= data@.len());
                }
            }
        }
        i = i + 1;
    }
    proof {
        if best is Some {
            let c = best->Some_0;
            assert(elf_cave_selected(
                data@,
                *v,
                needed_size as int,
                c.file_offset as int,
                c.size as int,
            ));
        }
    }
    if best.is_none() {
        let header_end = v.e_ehsize as usize;
        let mut fallback = CaveFinder::find_caves_in_range(data, header_end, dn, needed_size);
        if fallback.len() > 0 {
            let ghost all = fallback@;
            let c = fallback.remove(0);
            proof {
                assert(crate::cave::is_maximal_run_in(
                    data@,
                    header_end as int,
                    dn as int,
                    c.file_offset as int,
                    c.size as int,
                ));
                assert(best_cave_in(
                    data@,
                    v.e_ehsize as int,
                    dn as int,
                    needed_size as int,
                    c.file_offset as int,
                    c.size as int,
                )) by {
                    assert forall|o2: int, s2: int|
                        #[trigger] is_maximal_run_in(
                            data@,
                            v.e_ehsize as int,
                            dn as int,
                            o2,
                            s2,
                        ) && s2 >= needed_size implies s2 < c.size || (s2 == c.size && o2
                        >= c.file_offset) by {
                        let idx = choose|idx: int|
                            0 <= idx < all.len() && crate::cave::cave_is(all[idx], o2, s2);
                        if idx > 0 {
                            assert(all[0].size > all[idx].size || (all[0].size == all[idx].size
                                && all[0].file_offset < all[idx].file_offset));
                        }
                    }
                }
                assert(elf_cave_selected(
                    data@,
                    *v,
                    needed_size as int,
                    c.file_offset as int,
                    c.size as int,
                ));
            }
            best = Some(c);
        } else {
            proof {
                if cave_available_in(data@, v.e_ehsize as int, dn as int, needed_size as int) {
                    let (off, sz) = choose|off: int, sz: int|
                        crate::cave::is_maximal_run_in(data@, v.e_ehsize as int, dn as int, off, sz)
                            && sz >= needed_size;
                    assert(false);
                }
            }
        }
    }
    match best {
        Some(cave) => {
            proof {
                assert(cave.file_offset + string_bytes@.len() + 1 <= dn);
            }
            let mut patched: Vec<u8> = Vec::new();
            patched.extend_from_slice(data);
            proof {
                assert(patched@ =~= data@);
            }
            crate::util::write_bytes_at(&mut patched, cave.file_offset, string_bytes);
            patched[cave.file_offset + string_bytes.len()] = 0;
            let va = calculate_va_from_offset(v, cave.file_offset);
            let result = PatchResult {
                format: if v.is_64 {
                    BinaryFormat::ELF64
                } else {
                    BinaryFormat::ELF32
                },
                strategy_used: cave_label(&best_name),
                virtual_address: va,
                file_offset: Some(cave.file_offset as u64),
            };
            proof {
                let off = cave.file_offset as int;
                assert(patched@.subrange(off, off + string_bytes@.len()) =~= string_bytes@);
                assert(cave_patch_ok(data@, string_bytes@, patched@, result, off));
                assert(crate::util::has_sub_at(patched@, string_bytes@, off));
                assert(placed_at(patched@, string_bytes@, result));
                assert(elf_cave_region_ok(*v, off, needed_size as int));
                assert(elf_cave_patched(data@, *v, string_bytes@, patched@, result));
                assert(elf_cave_selected(data@, *v, needed_size as int, off, cave.size as int)
                    && cave_patch_ok(data@, string_bytes@, patched@, result, off));
            }
            Ok((patched, result))
        },
        None => {
            let largest = CaveFinder::largest_cave_size(data);
            Err(PatchError::NoCaveFound { needed: needed_size, found: largest })
        },
    }
}

/// Whether a resolved section name is one of the candidate names.
fn is_elf_candidate_name(name: &Vec<u8>) -> (r: bool)
    ensures
        r <==> elf_is_candidate(name@),
{
    crate::util::bytes_eq(name.as_slice(), ".rodata".as_bytes()) || crate::util::bytes_eq(
        name.as_slice(),
        ".data".as_bytes(),
    ) || crate::util::bytes_eq(name.as_slice(), ".note.gnu.build-id".as_bytes())
}

/// An owned copy of a byte vector.
fn copy_bytes(v: &Vec<u8>) -> (r: Vec<u8>)
    ensures
        r@ == v@,
{
    let mut r: Vec<u8> = Vec::new();
    r.extend_from_slice(v.as_slice());
    proof {
        assert(r@ =~= v@);
    }
    r
}

/// The human-readable `cave (<section>)` label.
fn cave_label(name: &Vec<u8>) -> (r: String)
    ensures
        spec_starts_with_chars(r@, "cave"@),
{
    let mut label = "cave (".to_owned();
    label.append(crate::strutil::bytes_label(name).as_str());
    label.append(")");
    proof {
        reveal_strlit("cave (");
        reveal_strlit("cave");
        assert(label@.subrange(0, 4) =~= "cave"@);
    }
    label
}

/// The structural conditions under which growing the final loadable
/// segment succeeds: a loadable segment exists, its file extent reaches
/// the end of the file, its program header entry lies inside the image,
/// and the grown sizes fit their fields.
pub open spec fn elf_section_feasible(v: ElfView, data_len: int, n: int) -> bool {
    &&& elf_last_load(v.program_headers@) matches Some(i) && {
        let p = v.program_headers@[i];
        let wo = p.p_offset + p.p_filesz;
        let pad = align_up_spec(n + 1, 16);
        let entry = v.e_phoff + i * v.e_phentsize;
        &&& wo >= data_len
        &&& wo + pad <= usize::MAX
        &&& p.p_filesz + pad <= u64::MAX
        &&& p.p_memsz + pad <= u64::MAX
        &&& p.p_vaddr + p.p_filesz <= u64::MAX
        &&& (v.is_64 ==> entry + 48 <= data_len)
        &&& (!v.is_64 ==> {
            &&& entry + 24 <= data_len
            &&& p.p_filesz + pad <= u32::MAX
            &&& p.p_memsz + pad <= u32::MAX
        })
    }
}

/// What a successful segment growth produces: the file grown by the
/// 16-byte-aligned size, the string and terminator at the segment's old
/// file end, the segment's file-size and memory-size fields updated in its
/// program header entry, and every other original byte untouched.
pub open spec fn elf_section_ok(
    data: Seq<u8>,
    v: ElfView,
    bytes: Seq<u8>,
    out: Seq<u8>,
    res: PatchResult,
) -> bool {
    let i = elf_last_load(v.program_headers@)->Some_0;
    let p = v.program_headers@[i];
    let wo = p.p_offset + p.p_filesz;
    let pad = align_up_spec(bytes.len() + 1 as int, 16);
    let entry = v.e_phoff + i * v.e_phentsize;
    let lo = if v.is_64 {
        entry + 32
    } else {
        entry + 16
    };
    let hi = if v.is_64 {
        entry + 48
    } else {
        entry + 24
    };
    &&& out.len() == wo + pad
    &&& out.len() >= data.len() + bytes.len() + 1
    &&& out.subrange(wo, wo + bytes.len()) == bytes
    &&& out[wo + bytes.len()] == 0
    &&& (v.is_64 ==> {
        &&& out.subrange(entry + 32, entry + 40) == vstd::bytes::spec_u64_to_le_bytes(
            (p.p_filesz + pad) as u64,
        )
        &&& out.subrange(entry + 40, entry + 48) == vstd::bytes::spec_u64_to_le_bytes(
            (p.p_memsz + pad) as u64,
        )
    })
    &&& (!v.is_64 ==> {
        &&& out.subrange(entry + 16, entry + 20) == vstd::bytes::spec_u32_to_le_bytes(
            (p.p_filesz + pad) as u32,
        )
        &&& out.subrange(entry + 20, entry + 24) == vstd::bytes::spec_u32_to_le_bytes(
            (p.p_memsz + pad) as u32,
        )
    })
    &&& forall|k: int| 0 <= k < data.len() && !(lo <= k < hi) ==> out[k] == data[k]
    &&& forall|k: int|
        data.len() <= k < out.len() && !(wo <= k < wo + bytes.len() + 1) ==> out[k] == 0
    &&& res.file_offset == Some(wo as u64)
    &&& res.virtual_address == Some((p.p_vaddr + p.p_filesz) as u64)
    &&& res.format == elf_format(v)
    &&& res.strategy_used@ == "section (segment extension)"@
    &&& has_substring(out, bytes)
    &&& placed_at(out, bytes, res)
    &&& spec_starts_with_chars(res.strategy_used@, "section"@)
}

/// Grow the final loadable segment in place: append the string after its
/// file extent and raise the segment's file and memory sizes.
#[verifier::rlimit(100)]
#[verifier::spinoff_prover]
fn patch_elf_section(data: &[u8], v: &ElfView, string_bytes: &[u8]) -> (r: Result<
    (Vec<u8>, PatchResult),
    PatchError,
>)
    requires
        string_bytes@.len() + 1 <= usize::MAX,
    ensures
        match r {
            Ok((out, res)) => elf_section_feasible(
                *v,
                data@.len() as int,
                string_bytes@.len() as int,
            ) && elf_section_ok(data@, *v, string_bytes@, out@, res),
            Err(e) => e is PatchFailed && !elf_section_feasible(
                *v,
                data@.len() as int,
                string_bytes@.len() as int,
            ),
        },
{
    let n = string_bytes.len();
    let idx = match find_last_load(v) {
        Some(i) => i,
        None => {
            return Err(PatchError::PatchFailed("no LOAD segment found".to_owned()));
        },
    };
    let p = v.program_headers[idx];
    let wo128 = p.p_offset as u128 + p.p_filesz as u128;
    if wo128 < data.len() as u128 {
        return Err(
            PatchError::PatchFailed("loadable segment ends inside the file".to_owned()),
        );
    }
    if n as u128 + 1 + 16 > u64::MAX as u128 {
        return Err(PatchError::PatchFailed("string too large".to_owned()));
    }
    let pad: u64 = align_up(n as u64 + 1, 16);
    if wo128 + pad as u128 > usize::MAX as u128 {
        return Err(PatchError::PatchFailed("grown file size exceeds memory limits".to_owned()));
    }
    if p.p_filesz as u128 + pad as u128 > u64::MAX as u128 || p.p_memsz as u128 + pad as u128
        > u64::MAX as u128 {
        return Err(PatchError::PatchFailed("grown segment size overflow".to_owned()));
    }
    if p.p_vaddr as u128 + p.p_filesz as u128 > u64::MAX as u128 {
        return Err(PatchError::PatchFailed("virtual address overflow".to_owned()));
    }
    proof {
        assert(idx as u128 * v.e_phentsize as u128 <= (u64::MAX as u128) * (u16::MAX as u128))
            by (nonlinear_arith)
            requires
                idx as u128 <= u64::MAX as u128,
                v.e_phentsize as u128 <= u16::MAX as u128,
        ;
    }
    let entry128 = v.e_phoff as u128 + idx as u128 * v.e_phentsize as u128;
    let field_end: u128 = if v.is_64 {
        48
    } else {
        24
    };
    if entry128 + field_end > data.len() as u128 {
        return Err(
            PatchError::PatchFailed("program header table lies outside the image".to_owned()),
        );
    }
    let new_filesz: u64 = p.p_filesz + pad;
    let new_memsz: u64 = p.p_memsz + pad;
    if !v.is_64 && (new_filesz > u32::MAX as u64 || new_memsz > u32::MAX as u64) {
        return Err(PatchError::PatchFailed("grown segment size overflow".to_owned()));
    }
    let wo = wo128 as usize;
    let entry = entry128 as usize;
    let mut patched: Vec<u8> = Vec::new();
    patched.extend_from_slice(data);
    proof {
        assert(patched@ =~= data@);
    }
    patched.resize(wo + pad as usize, 0u8);
    let ghost p1 = patched@;
    proof {
        assert(forall|k: int| 0 <= k < data@.len() ==> p1[k] == #[trigger] data@[k]) by {
            assert(forall|k: int|
                0 <= k < data@.len() ==> p1.subrange(0, data@.len() as int)[k] == #[trigger] p1[k]);
        }
    }
    crate::util::write_bytes_at(&mut patched, wo, string_bytes);
    let ghost p2 = patched@;
    if v.is_64 {
        crate::util::write_u64_le_at(&mut patched, entry + 32, new_filesz);
        let ghost p3 = patched@;
        crate::util::write_u64_le_at(&mut patched, entry + 40, new_memsz);
        proof {
            assert(patched@.subrange(entry + 32, entry + 40) =~= p3.subrange(
                entry + 32,
                entry + 40,
            ));
        }
    } else {
        crate::util::write_u32_le_at(&mut patched, entry + 16, new_filesz as u32);
        let ghost p3 = patched@;
        crate::util::write_u32_le_at(&mut patched, entry + 20, new_memsz as u32);
        proof {
            assert(patched@.subrange(entry + 16, entry + 20) =~= p3.subrange(
                entry + 16,
                entry + 20,
            ));
        }
    }
    let result = PatchResult {
        format: if v.is_64 {
            BinaryFormat::ELF64
        } else {
            BinaryFormat::ELF32
        },
        strategy_used: "section (segment extension)".to_owned(),
        virtual_address: Some(p.p_vaddr + p.p_filesz),
        file_offset: Some(wo as u64),
    };
    proof {
        let n_ = string_bytes@.len() as int;
        assert(patched@.subrange(wo as int, wo + n_) =~= p2.subrange(wo as int, wo + n_));
        assert(p2.subrange(wo as int, wo + n_) == string_bytes@);
        assert(patched@[wo + n_] == 0);
        assert(elf_section_ok(data@, *v, string_bytes@, patched@, result)) by {
            assert(crate::util::has_sub_at(patched@, string_bytes@, wo as int));
            assert(placed_at(patched@, string_bytes@, result));
            reveal_strlit("section (segment extension)");
            reveal_strlit("section");
            assert(result.strategy_used@.subrange(0, 7) =~= "section"@);
        }
    }
    Ok((patched, result))
}

/// The virtual address estimate for data appended at the end of the file:
/// the last loadable segment's memory end plus the gap between the write
/// offset and the segment's file end. Absent without a loadable segment,
/// when the segment's file extent lies past the write offset, or on
/// overflow.
pub open spec fn elf_extend_va(v: ElfView, write_offset: int) -> Option<u64> {
    match elf_last_load(v.program_headers@) {
        Some(i) => {
            let p = v.program_headers@[i];
            if p.p_offset + p.p_filesz <= write_offset && p.p_vaddr + p.p_memsz + (write_offset - (
            p.p_offset + p.p_filesz)) <= u64::MAX {
                Some((p.p_vaddr + p.p_memsz + (write_offset - (p.p_offset + p.p_filesz))) as u64)
            } else {
                None
            }
        },
        None => None,
    }
}

/// Append the string and terminator at the end of the file, touching no
/// header; the virtual address is estimated from the last loadable
/// segment.
fn patch_elf_extend(data: &[u8], v: &ElfView, string_bytes: &[u8]) -> (r: Result<
    (Vec<u8>, PatchResult),
    PatchError,
>)
    ensures
        match r {
            Ok((out, res)) => {
                &&& out@ == data@ + string_bytes@ + seq![0u8]
                &&& res.file_offset == Some(data@.len() as u64)
                &&& res.virtual_address == elf_extend_va(*v, data@.len() as int)
                &&& res.format == elf_format(*v)
                &&& res.strategy_used@ == "extend (file append)"@
                &&& has_substring(out@, string_bytes@)
                &&& placed_at(out@, string_bytes@, res)
                &&& spec_starts_with_chars(res.strategy_used@, "extend"@)
            },
            Err(_) => false,
        },
{
    let write_offset = data.len();
    let mut patched: Vec<u8> = Vec::new();
    patched.extend_from_slice(data);
    patched.extend_from_slice(string_bytes);
    patched.push(0);
    proof {
        assert(patched@ =~= data@ + string_bytes@ + seq![0u8]);
    }
    let va: Option<u64> = match find_last_load(v) {
        Some(i) => {
            let p = v.program_headers[i];
            let seg_end = p.p_offset as u128 + p.p_filesz as u128;
            if seg_end <= write_offset as u128 && p.p_vaddr as u128 + p.p_memsz as u128 + (
            write_offset as u128 - seg_end) <= u64::MAX as u128 {
                Some(
                    (p.p_vaddr as u128 + p.p_memsz as u128 + (write_offset as u128 - seg_end))
                        as u64,
                )
            } else {
                None
            }
        },
        None => None,
    };
    let result = PatchResult {
        format: if v.is_64 {
            BinaryFormat::ELF64
        } else {
            BinaryFormat::ELF32
        },
        strategy_used: "extend (file append)".to_owned(),
        virtual_address: va,
        file_offset: Some(write_offset as u64),
    };
    proof {
        assert(patched@.subrange(data@.len() as int, data@.len() + string_bytes@.len() as int)
            =~= string_bytes@);
        assert(crate::util::has_sub_at(patched@, string_bytes@, data@.len() as int));
        assert(placed_at(patched@, string_bytes@, result));
        reveal_strlit("extend (file append)");
        reveal_strlit("extend");
        assert(result.strategy_used@.subrange(0, 6) =~= "extend"@);
    }
    Ok((patched, result))
}

} // verus!
