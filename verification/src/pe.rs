//! PE (Portable Executable) patching: cave reuse, a new `.rtstr` section,
//! and extension of the last section.
//!
//! The algorithms work on `PeView`, a plain copy of the header fields and
//! section table that the strategies read; parsing the container is
//! delegated to `goblin` behind one trusted wrapper.

use vstd::prelude::*;

use crate::cave::{
    all_zero, best_cave, best_cave_in, cave_available, is_maximal_run, is_maximal_run_in,
    lemma_best_cave_in_unique, CaveFinder, CodeCave,
};
use crate::patcher::{
    cave_patch_ok, largest_cave_report, placed_at, BinaryFormat, PatchError, PatchResult,
    PatchStrategy,
};
use crate::util::{align_up, align_up_spec, has_substring, spec_starts_with, spec_starts_with_chars};
use vstd::string::StringSliceAdditionalSpecFns;

verus! {

/// One entry of the PE section table, as the patchers read it.
#[derive(Debug, Clone)]
pub struct PeSectionView {
    /// The raw 8-byte section name, padded with NUL bytes.
    pub name: Vec<u8>,
    pub virtual_size: u32,
    pub virtual_address: u32,
    pub size_of_raw_data: u32,
    pub pointer_to_raw_data: u32,
}

/// The optional-header fields the patchers read.
#[derive(Debug, Clone, Copy)]
pub struct PeOptionalView {
    pub file_alignment: u32,
    pub section_alignment: u32,
    pub size_of_headers: u32,
    pub image_base: u64,
}

/// A plain view of a parsed PE image: the header fields and section table
/// that the patch strategies read and mutate on disk.
#[derive(Debug, Clone)]
pub struct PeView {
    pub is_64: bool,
    /// Offset of the PE signature (`e_lfanew`).
    pub pe_pointer: u32,
    pub size_of_optional_header: u16,
    pub number_of_sections: u16,
    pub optional: Option<PeOptionalView>,
    pub sections: Vec<PeSectionView>,
}

/// What `goblin::pe::PE::parse` reads out of a byte buffer: `None` when
/// parsing fails. The view depends on the bytes alone.
pub uninterp spec fn pe_view_of(data: Seq<u8>) -> Option<PeView>;

/// Relies on `goblin::pe::PE::parse`: the DOS/COFF/optional header fields
/// and the section table of a PE image are read deterministically from the
/// bytes; malformed images are rejected.
#[verifier::external_body]
fn parse_pe_view(data: &[u8]) -> (r: Result<PeView, PatchError>)
    ensures
        match r {
            Ok(v) => pe_view_of(data@) == Some(v),
            Err(e) => pe_view_of(data@) is None && e is ParseError,
        },
{
    match goblin::pe::PE::parse(data) {
        Ok(pe) => Ok(PeView {
            is_64: pe.is_64,
            pe_pointer: pe.header.dos_header.pe_pointer,
            size_of_optional_header: pe.header.coff_header.size_of_optional_header,
            number_of_sections: pe.header.coff_header.number_of_sections,
            optional: pe.header.optional_header.map(|oh| PeOptionalView { file_alignment: oh.windows_fields.file_alignment, section_alignment: oh.windows_fields.section_alignment, size_of_headers: oh.windows_fields.size_of_headers, image_base: oh.windows_fields.image_base }),
            sections: pe.sections.iter().map(|s| PeSectionView { name: s.name.to_vec(), virtual_size: s.virtual_size, virtual_address: s.virtual_address, size_of_raw_data: s.size_of_raw_data, pointer_to_raw_data: s.pointer_to_raw_data }).collect(),
        }),
        Err(e) => Err(PatchError::ParseError(e.to_string())),
    }
}

/// The format tag of a parsed PE image.
pub open spec fn pe_format(v: PeView) -> BinaryFormat {
    if v.is_64 {
        BinaryFormat::PE64
    } else {
        BinaryFormat::PE32
    }
}

/// Sections whose padding is expected to be inert, searched for caves.
pub open spec fn pe_is_candidate(s: PeSectionView) -> bool {
    ||| spec_starts_with(s.name@, ".rdata".spec_bytes())
    ||| spec_starts_with(s.name@, ".data".spec_bytes())
    ||| spec_starts_with(s.name@, ".rsrc".spec_bytes())
    ||| spec_starts_with(s.name@, ".text".spec_bytes())
}

/// The virtual address of the first section whose raw file range contains
/// `off`: image base plus section base plus the offset within the section.
/// `None` past the table's end or on arithmetic overflow.
pub open spec fn pe_va_lookup(sections: Seq<PeSectionView>, image_base: u64, off: int) -> Option<
    u64,
>
    decreases sections.len(),
{
    if sections.len() == 0 {
        None
    } else {
        let s = sections[0];
        if s.pointer_to_raw_data <= off < s.pointer_to_raw_data + s.size_of_raw_data {
            let va = image_base + s.virtual_address + (off - s.pointer_to_raw_data);
            if va <= u64::MAX {
                Some(va as u64)
            } else {
                None
            }
        } else {
            pe_va_lookup(sections.drop_first(), image_base, off)
        }
    }
}

/// The virtual address assigned to file offset `off`, absent when the image
/// has no optional header or no section's raw range contains the offset.
pub open spec fn pe_va_from_offset(v: PeView, off: int) -> Option<u64> {
    match v.optional {
        Some(o) => pe_va_lookup(v.sections@, o.image_base, off),
        None => None,
    }
}

/// Resolve a file offset to a virtual address through the section table.
fn calculate_va_from_offset(v: &PeView, file_offset: usize) -> (r: Option<u64>)
    ensures
        r == pe_va_from_offset(*v, file_offset as int),
{
    let image_base = match &v.optional {
        Some(o) => o.image_base,
        None => {
            return None;
        },
    };
    let off = file_offset as u64;
    let mut i: usize = 0;
    proof {
        assert(v.sections@.skip(0) =~= v.sections@);
    }
    while i < v.sections.len()
        invariant
            i <= v.sections@.len(),
            v.optional matches Some(o) && o.image_base == image_base,
            off == file_offset as u64,
            pe_va_lookup(v.sections@.skip(i as int), image_base, file_offset as int)
                == pe_va_lookup(v.sections@, image_base, file_offset as int),
        decreases v.sections@.len() - i,
    {
        let s = &v.sections[i];
        let start = s.pointer_to_raw_data as u64;
        let send = start + s.size_of_raw_data as u64;
        proof {
            assert(v.sections@.skip(i as int)[0] == v.sections@[i as int]);
        }
        if off >= start && off < send {
            let va = image_base as u128 + s.virtual_address as u128 + (off - start) as u128;
            if va <= u64::MAX as u128 {
                return Some(va as u64);
            } else {
                return None;
            }
        }
        proof {
            assert(v.sections@.skip(i as int).drop_first() =~= v.sections@.skip(i as int + 1));
        }
        i = i + 1;
    }
    proof {
        assert(v.sections@.skip(i as int) =~= Seq::<PeSectionView>::empty());
    }
    None
}

/// Patch a PE image with the requested strategy. The overlay strategy is
/// handled before format dispatch and never reaches a format patcher.
pub fn patch_pe(data: &[u8], string: &str, strategy: PatchStrategy) -> (r: Result<
    (Vec<u8>, PatchResult),
    PatchError,
>)
    requires
        strategy != PatchStrategy::Overlay,
        string.spec_bytes().len() + 1 <= usize::MAX,
    ensures
        pe_view_of(data@) is None ==> r matches Err(PatchError::ParseError(_)),
        match r {
            Ok((out, res)) => {
                &&& pe_view_of(data@) matches Some(v) && {
                    &&& res.format == pe_format(v)
                    &&& strategy == PatchStrategy::Cave ==> exists|off: int|
                        {
                            &&& #[trigger] cave_patch_ok(
                                data@,
                                string.spec_bytes(),
                                out@,
                                res,
                                off,
                            )
                            &&& res.virtual_address == pe_va_from_offset(v, off)
                        }
                    &&& strategy == PatchStrategy::Cave ==> exists|off: int, sz: int|
                        {
                            &&& #[trigger] pe_cave_selected(
                                data@,
                                v,
                                string.spec_bytes().len() + 1 as int,
                                off,
                                sz,
                            )
                            &&& cave_patch_ok(data@, string.spec_bytes(), out@, res, off)
                        }
                    &&& strategy == PatchStrategy::Section ==> pe_section_feasible(
                        v,
                        data@.len() as int,
                        string.spec_bytes().len() as int,
                    ) && pe_section_ok(data@, v, string.spec_bytes(), out@, res)
                    &&& strategy == PatchStrategy::Extend ==> pe_extend_feasible(
                        v,
                        data@.len() as int,
                        string.spec_bytes().len() as int,
                    ) && pe_extend_ok(data@, v, string.spec_bytes(), out@, res)
                }
                &&& has_substring(out@, string.spec_bytes())
                &&& placed_at(out@, string.spec_bytes(), res)
                &&& spec_starts_with_chars(
                    res.strategy_used@,
                    crate::patcher::strategy_prefix(strategy),
                )
            },
            Err(e) => {
                &&& (e is ParseError || e is NoCaveFound || e is PatchFailed)
                &&& e is ParseError ==> pe_view_of(data@) is None
                &&& strategy == PatchStrategy::Cave ==> !(e is PatchFailed)
                &&& (strategy == PatchStrategy::Section || strategy == PatchStrategy::Extend) ==> !(
                e is NoCaveFound)
                &&& e matches PatchError::NoCaveFound { needed, found } ==> {
                    &&& strategy == PatchStrategy::Cave
                    &&& needed == string.spec_bytes().len() + 1
                    &&& !cave_available(data@, needed as int)
                    &&& largest_cave_report(data@, found as int)
                }
                &&& (strategy == PatchStrategy::Cave && pe_view_of(data@) is Some
                    && cave_available(data@, string.spec_bytes().len() + 1 as int)) ==> false
                &&& (strategy == PatchStrategy::Section && (pe_view_of(data@) matches Some(v)
                    && pe_section_feasible(
                    v,
                    data@.len() as int,
                    string.spec_bytes().len() as int,
                ))) ==> false
                &&& (strategy == PatchStrategy::Extend && (pe_view_of(data@) matches Some(v)
                    && pe_extend_feasible(
                    v,
                    data@.len() as int,
                    string.spec_bytes().len() as int,
                ))) ==> false
            },
        },
{
    let string_bytes = string.as_bytes();
    let needed_size = string_bytes.len() + 1;
    let v = match parse_pe_view(data) {
        Ok(v) => v,
        Err(e) => {
            return Err(e);
        },
    };
    match strategy {
        PatchStrategy::Cave => patch_pe_cave(data, &v, string_bytes, needed_size),
        PatchStrategy::Section => patch_pe_section(data, &v, string_bytes),
        PatchStrategy::Extend => patch_pe_extend(data, &v, string_bytes),
        PatchStrategy::Overlay => vstd::pervasive::unreached(),
    }
}

/// The start of candidate section `j`'s raw file range.
pub open spec fn pe_window_lo(v: PeView, j: int) -> int {
    v.sections@[j].pointer_to_raw_data as int
}

/// The end of candidate section `j`'s raw file range.
pub open spec fn pe_window_hi(v: PeView, j: int) -> int {
    v.sections@[j].pointer_to_raw_data + v.sections@[j].size_of_raw_data
}

/// Candidate section `j` is searched for caves: it carries a candidate
/// name and its raw file range lies inside the buffer.
pub open spec fn pe_searchable(v: PeView, data_len: int, j: int) -> bool {
    &&& 0 <= j < v.sections@.len()
    &&& pe_is_candidate(v.sections@[j])
    &&& pe_window_hi(v, j) <= data_len
}

/// Which cave the PE cave strategy selects. Either the window-best cave
/// of the first searchable section that attains the largest cave size any
/// searchable section offers, or — when no searchable section holds a
/// cave of the needed size — the whole-buffer best cave.
pub open spec fn pe_cave_selected(
    data: Seq<u8>,
    v: PeView,
    needed: int,
    off: int,
    sz: int,
) -> bool {
    ||| exists|j: int|
        {
            &&& #[trigger] pe_searchable(v, data.len() as int, j)
            &&& best_cave_in(data, pe_window_lo(v, j), pe_window_hi(v, j), needed, off, sz)
            &&& forall|j2: int, o2: int, s2: int|
                pe_searchable(v, data.len() as int, j2) && #[trigger] is_maximal_run_in(
                    data,
                    pe_window_lo(v, j2),
                    pe_window_hi(v, j2),
                    o2,
                    s2,
                ) && s2 >= needed ==> s2 <= sz
            &&& forall|j2: int, o2: int, s2: int|
                pe_searchable(v, data.len() as int, j2) && j2 < j && #[trigger] is_maximal_run_in(
                    data,
                    pe_window_lo(v, j2),
                    pe_window_hi(v, j2),
                    o2,
                    s2,
                ) && s2 >= needed ==> s2 < sz
        }
    ||| {
        &&& forall|j2: int, o2: int, s2: int|
            pe_searchable(v, data.len() as int, j2) && #[trigger] is_maximal_run_in(
                data,
                pe_window_lo(v, j2),
                pe_window_hi(v, j2),
                o2,
                s2,
            ) ==> s2 < needed
        &&& best_cave(data, needed, off, sz)
    }
}

/// The cave strategy's choice is deterministic: the selection rule
/// admits exactly one offset and size for a given buffer and view.
pub proof fn lemma_pe_cave_selection_unique(
    data: Seq<u8>,
    v: PeView,
    needed: int,
    o1: int,
    s1: int,
    o2: int,
    s2: int,
)
    requires
        pe_cave_selected(data, v, needed, o1, s1),
        pe_cave_selected(data, v, needed, o2, s2),
    ensures
        o1 == o2 && s1 == s2,
{
    let dl = data.len() as int;
    if exists|j: int|
        #[trigger] pe_searchable(v, dl, j) && best_cave_in(
            data,
            pe_window_lo(v, j),
            pe_window_hi(v, j),
            needed,
            o1,
            s1,
        ) {
        let j1 = choose|j1: int|
            #[trigger] pe_searchable(v, dl, j1) && best_cave_in(
                data,
                pe_window_lo(v, j1),
                pe_window_hi(v, j1),
                needed,
                o1,
                s1,
            ) && forall|j2: int, o3: int, s3: int|
                pe_searchable(v, dl, j2) && j2 < j1 && #[trigger] is_maximal_run_in(
                    data,
                    pe_window_lo(v, j2),
                    pe_window_hi(v, j2),
                    o3,
                    s3,
                ) && s3 >= needed ==> s3 < s1;
        let j2 = choose|j2: int|
            #[trigger] pe_searchable(v, dl, j2) && best_cave_in(
                data,
                pe_window_lo(v, j2),
                pe_window_hi(v, j2),
                needed,
                o2,
                s2,
            ) && forall|j3: int, o3: int, s3: int|
                pe_searchable(v, dl, j3) && j3 < j2 && #[trigger] is_maximal_run_in(
                    data,
                    pe_window_lo(v, j3),
                    pe_window_hi(v, j3),
                    o3,
                    s3,
                ) && s3 >= needed ==> s3 < s2;
        assert(is_maximal_run_in(data, pe_window_lo(v, j1), pe_window_hi(v, j1), o1, s1));
        assert(is_maximal_run_in(data, pe_window_lo(v, j2), pe_window_hi(v, j2), o2, s2));
        assert(s1 == s2);
        if j1 < j2 {
            assert(false);
        }
        if j2 < j1 {
            assert(false);
        }
        lemma_best_cave_in_unique(
            data,
            pe_window_lo(v, j1),
            pe_window_hi(v, j1),
            needed,
            o1,
            s1,
            o2,
            s2,
        );
    } else {
        assert(is_maximal_run(data, o1, s1));
        assert(is_maximal_run(data, o2, s2));
        crate::cave::lemma_best_cave_unique(data, needed, o1, s1, o2, s2);
    }
}

/// Search the candidate data sections for the largest cave, falling back
/// to the whole file, and write the string in place.
#[verifier::rlimit(100)]
#[verifier::spinoff_prover]
fn patch_pe_cave(data: &[u8], v: &PeView, string_bytes: &[u8], needed_size: usize) -> (r: Result<
    (Vec<u8>, PatchResult),
    PatchError,
>)
    requires
        needed_size == string_bytes@.len() + 1,
    ensures
        match r {
            Ok((out, res)) => {
                &&& exists|off: int|
                    {
                        &&& #[trigger] cave_patch_ok(data@, string_bytes@, out@, res, off)
                        &&& res.virtual_address == pe_va_from_offset(*v, off)
                    }
                &&& exists|off: int, sz: int|
                    {
                        &&& #[trigger] pe_cave_selected(data@, *v, needed_size as int, off, sz)
                        &&& cave_patch_ok(data@, string_bytes@, out@, res, off)
                    }
                &&& res.format == pe_format(*v)
                &&& has_substring(out@, string_bytes@)
                &&& placed_at(out@, string_bytes@, res)
                &&& spec_starts_with_chars(res.strategy_used@, "cave"@)
            },
            Err(e) => {
                &&& e matches PatchError::NoCaveFound { needed, found } && needed == needed_size
                    && largest_cave_report(data@, found as int)
                &&& !cave_available(data@, needed_size as int)
            },
        },
{
    let dn = data.len();
    let mut best: Option<CodeCave> = None;
    let mut best_name: Vec<u8> = Vec::new();
    let mut i: usize = 0;
    while i < v.sections.len()
        invariant
            needed_size == string_bytes@.len() + 1,
            dn == data@.len(),
            i <= v.sections@.len(),
            best matches Some(c) ==> {
                &&& c.file_offset + c.size <= data@.len()
                &&& c.size >= needed_size
                &&& all_zero(data@, c.file_offset as int, c.file_offset + c.size)
            },
            best matches Some(c) ==> exists|j: int|
                {
                    &&& #[trigger] pe_searchable(*v, data@.len() as int, j)
                    &&& j < i
                    &&& best_cave_in(
                        data@,
                        pe_window_lo(*v, j),
                        pe_window_hi(*v, j),
                        needed_size as int,
                        c.file_offset as int,
                        c.size as int,
                    )
                    &&& forall|j2: int, o2: int, s2: int|
                        pe_searchable(*v, data@.len() as int, j2) && j2 < j
                            && #[trigger] is_maximal_run_in(
                            data@,
                            pe_window_lo(*v, j2),
                            pe_window_hi(*v, j2),
                            o2,
                            s2,
                        ) && s2 >= needed_size ==> s2 < c.size
                },
            best matches Some(c) ==> forall|j2: int, o2: int, s2: int|
                pe_searchable(*v, data@.len() as int, j2) && j2 < i && #[trigger] is_maximal_run_in(
                    data@,
                    pe_window_lo(*v, j2),
                    pe_window_hi(*v, j2),
                    o2,
                    s2,
                ) && s2 >= needed_size ==> s2 <= c.size,
            best is None ==> forall|j2: int, o2: int, s2: int|
                pe_searchable(*v, data@.len() as int, j2) && j2 < i && #[trigger] is_maximal_run_in(
                    data@,
                    pe_window_lo(*v, j2),
                    pe_window_hi(*v, j2),
                    o2,
                    s2,
                ) ==> s2 < needed_size,
        decreases v.sections@.len() - i,
    {
        let s = &v.sections[i];
        if bytes_is_pe_candidate(&s.name) {
            proof {
                assert(pe_is_candidate(v.sections@[i as int]));
            }
            let start64 = s.pointer_to_raw_data as u64;
            let end64 = start64 + s.size_of_raw_data as u64;
            if end64 <= data.len() as u64 {
                let start = s.pointer_to_raw_data as usize;
                let send = end64 as usize;
                let mut caves = CaveFinder::find_caves_in_range(data, start, send, needed_size);
                proof {
                    assert(pe_searchable(*v, data@.len() as int, i as int));
                    assert(pe_window_lo(*v, i as int) == start as int);
                    assert(pe_window_hi(*v, i as int) == send as int);
                }
                if caves.len() > 0 {
                    let ghost all = caves@;
                    let c = caves.remove(0);
                    proof {
                        assert(best_cave_in(
                            data@,
                            start as int,
                            send as int,
                            needed_size as int,
                            c.file_offset as int,
                            c.size as int,
                        )) by {
                            assert forall|o2: int, s2: int|
                                #[trigger] is_maximal_run_in(
                                    data@,
                                    start as int,
                                    send as int,
                                    o2,
                                    s2,
                                ) && s2 >= needed_size implies s2 < c.size || (s2 == c.size && o2
                                >= c.file_offset) by {
                                let idx = choose|idx: int|
                                    0 <= idx < all.len() && crate::cave::cave_is(all[idx], o2, s2);
                                if idx > 0 {
                                    assert(all[0].size > all[idx].size || (all[0].size
                                        == all[idx].size && all[0].file_offset
                                        < all[idx].file_offset));
                                }
                            }
                        }
                    }
                    let replace = match &best {
                        None => true,
                        Some(b) => c.size > b.size,
                    };
                    if replace {
                        best = Some(c);
                        best_name = trim_trailing_zeros(&s.name);
                    }
                } else {
                    proof {
                        assert forall|o2: int, s2: int|
                            #[trigger] is_maximal_run_in(
                                data@,
                                start as int,
                                send as int,
                                o2,
                                s2,
                            ) implies s2 < needed_size by {
                            if s2 >= needed_size {
                                assert(false);
                            }
                        }
                    }
                }
            }
        }
        i = i + 1;
    }
    proof {
        if best is Some {
            let c = best->Some_0;
            assert(pe_cave_selected(
                data@,
                *v,
                needed_size as int,
                c.file_offset as int,
                c.size as int,
            ));
        }
    }
    if best.is_none() {
        best = CaveFinder::find_best_cave(data, needed_size);
        proof {
            if best is Some {
                let c = best->Some_0;
                assert(pe_cave_selected(
                    data@,
                    *v,
                    needed_size as int,
                    c.file_offset as int,
                    c.size as int,
                ));
            }
        }
    }
    match best {
        Some(cave) => {
            proof {
                assert(pe_cave_selected(
                    data@,
                    *v,
                    needed_size as int,
                    cave.file_offset as int,
                    cave.size as int,
                ));
            }
            proof {
                assert(cave.file_offset + string_bytes@.len() + 1 <= dn);
            }
            let mut patched: Vec<u8> = Vec::new();
            patched.extend_from_slice(data);
            proof {
                assert(patched@ =~= data@);
            }
            crate::util::write_bytes_at(&mut patched, cave.file_offset, string_bytes);
            patched[cave.file_offset + string_bytes.len()] = 0;
            let va = calculate_va_from_offset(v, cave.file_offset);
            let result = PatchResult {
                format: if v.is_64 {
                    BinaryFormat::PE64
                } else {
                    BinaryFormat::PE32
                },
                strategy_used: cave_label(&best_name),
                virtual_address: va,
                file_offset: Some(cave.file_offset as u64),
            };
            proof {
                let off = cave.file_offset as int;
                assert(patched@.subrange(off, off + string_bytes@.len()) =~= string_bytes@);
                assert(cave_patch_ok(data@, string_bytes@, patched@, result, off));
                assert(crate::util::has_sub_at(patched@, string_bytes@, off));
                assert(placed_at(patched@, string_bytes@, result));
                assert(pe_cave_selected(data@, *v, needed_size as int, off, cave.size as int)
                    && cave_patch_ok(data@, string_bytes@, patched@, result, off));
            }
            Ok((patched, result))
        },
        None => {
            let largest = CaveFinder::largest_cave_size(data);
            Err(PatchError::NoCaveFound { needed: needed_size, found: largest })
        },
    }
}

/// The file alignment, defaulted when the optional header is absent.
pub open spec fn pe_file_alignment(v: PeView) -> int {
    match v.optional {
        Some(o) => o.file_alignment as int,
        None => 0x200,
    }
}

/// The section alignment, defaulted when the optional header is absent.
pub open spec fn pe_section_alignment(v: PeView) -> int {
    match v.optional {
        Some(o) => o.section_alignment as int,
        None => 0x1000,
    }
}

/// The declared size of the header region, defaulted when the optional
/// header is absent.
pub open spec fn pe_headers_size(v: PeView) -> int {
    match v.optional {
        Some(o) => o.size_of_headers as int,
        None => 0x400,
    }
}

/// The image base, zero when the optional header is absent.
pub open spec fn pe_image_base(v: PeView) -> int {
    match v.optional {
        Some(o) => o.image_base as int,
        None => 0,
    }
}

/// File offset of the section header table: PE signature, COFF header,
/// then the optional header.
pub open spec fn pe_section_table_offset(v: PeView) -> int {
    v.pe_pointer + 24 + v.size_of_optional_header
}

/// The name of the fabricated section: `.rtstr` padded to eight bytes.
pub open spec fn rtstr_name() -> Seq<u8> {
    seq![46u8, 114u8, 116u8, 115u8, 116u8, 114u8, 0u8, 0u8]
}

/// The 40-byte on-disk section header record: name, virtual size (+8),
/// virtual address (+12), raw data size (+16), raw data pointer (+20),
/// twelve zero bytes of relocation and line-number fields, and the
/// characteristics initialized-data + readable (+36).
pub open spec fn pe_section_header_bytes(
    name: Seq<u8>,
    virtual_address: u32,
    virtual_size: u32,
    raw_data_ptr: u32,
    raw_data_size: u32,
) -> Seq<u8> {
    name + vstd::bytes::spec_u32_to_le_bytes(virtual_size) + vstd::bytes::spec_u32_to_le_bytes(
        virtual_address,
    ) + vstd::bytes::spec_u32_to_le_bytes(raw_data_size) + vstd::bytes::spec_u32_to_le_bytes(
        raw_data_ptr,
    ) + seq![0u8, 0u8, 0u8, 0u8, 0u8, 0u8, 0u8, 0u8, 0u8, 0u8, 0u8, 0u8]
        + vstd::bytes::spec_u32_to_le_bytes(0x40000040u32)
}

/// The structural conditions under which extending the last section
/// succeeds: the table is non-empty, the section's raw data reaches the
/// file's end, the grown raw size still fits its 32-bit header field, the
/// section's header record lies inside the image, and the virtual address
/// arithmetic does not overflow.
pub open spec fn pe_extend_feasible(v: PeView, data_len: int, n: int) -> bool {
    &&& v.sections.len() > 0
    &&& {
        let s = v.sections[v.sections.len() - 1];
        let raw_end = s.pointer_to_raw_data + s.size_of_raw_data;
        let pad = align_up_spec(n + 1, pe_file_alignment(v));
        let new_raw = s.size_of_raw_data + pad;
        let entry = pe_section_table_offset(v) + 40 * (v.sections.len() - 1);
        &&& n + 1 <= u32::MAX
        &&& raw_end >= data_len
        &&& new_raw <= u32::MAX
        &&& s.pointer_to_raw_data + new_raw <= usize::MAX
        &&& entry + 40 <= data_len
        &&& pe_image_base(v) + s.virtual_address + s.size_of_raw_data <= u64::MAX
    }
}

/// What a successful extend patch produces: the file grown to the aligned
/// new raw size, the string and terminator at the old raw-data end, the
/// section's raw-data-size (header offset +16) and virtual-size (+8)
/// fields updated, and every other original byte untouched.
pub open spec fn pe_extend_ok(
    data: Seq<u8>,
    v: PeView,
    bytes: Seq<u8>,
    out: Seq<u8>,
    res: PatchResult,
) -> bool {
    let s = v.sections[v.sections.len() - 1];
    let wo = s.pointer_to_raw_data + s.size_of_raw_data;
    let pad = align_up_spec(bytes.len() + 1 as int, pe_file_alignment(v));
    let new_raw = s.size_of_raw_data + pad;
    let target = s.pointer_to_raw_data + new_raw;
    let entry = pe_section_table_offset(v) + 40 * (v.sections.len() - 1);
    let new_virtual: int = if s.virtual_size >= new_raw {
        s.virtual_size as int
    } else {
        new_raw
    };
    &&& out.len() == target
    &&& out.len() >= data.len() + bytes.len() + 1
    &&& out.subrange(wo, wo + bytes.len()) == bytes
    &&& out[wo + bytes.len()] == 0
    &&& out.subrange(entry + 16, entry + 20) == vstd::bytes::spec_u32_to_le_bytes(new_raw as u32)
    &&& out.subrange(entry + 8, entry + 12) == vstd::bytes::spec_u32_to_le_bytes(
        new_virtual as u32,
    )
    &&& forall|k: int|
        0 <= k < data.len() && !(entry + 8 <= k < entry + 12) && !(entry + 16 <= k < entry + 20)
            ==> out[k] == data[k]
    &&& forall|k: int|
        data.len() <= k < out.len() && !(wo <= k < wo + bytes.len() + 1) ==> out[k] == 0
    &&& res.file_offset == Some(wo as u64)
    &&& res.virtual_address == Some(
        (pe_image_base(v) + s.virtual_address + s.size_of_raw_data) as u64,
    )
    &&& res.format == pe_format(v)
    &&& has_substring(out, bytes)
    &&& placed_at(out, bytes, res)
    &&& spec_starts_with_chars(res.strategy_used@, "extend"@)
}

/// Append the string after the last section's raw data, growing the file,
/// and update that section's size fields in its header record.
#[verifier::rlimit(100)]
#[verifier::spinoff_prover]
fn patch_pe_extend(data: &[u8], v: &PeView, string_bytes: &[u8]) -> (r: Result<
    (Vec<u8>, PatchResult),
    PatchError,
>)
    requires
        string_bytes@.len() + 1 <= usize::MAX,
    ensures
        match r {
            Ok((out, res)) => pe_extend_feasible(*v, data@.len() as int, string_bytes@.len() as int)
                && pe_extend_ok(data@, *v, string_bytes@, out@, res),
            Err(e) => e is PatchFailed && !pe_extend_feasible(
                *v,
                data@.len() as int,
                string_bytes@.len() as int,
            ),
        },
{
    let n = string_bytes.len();
    if v.sections.len() == 0 {
        return Err(PatchError::PatchFailed("no sections found in PE".to_owned()));
    }
    let last_idx = v.sections.len() - 1;
    let s = &v.sections[last_idx];
    let fa: u64 = match &v.optional {
        Some(o) => o.file_alignment as u64,
        None => 0x200,
    };
    if n as u64 + 1 > u32::MAX as u64 {
        return Err(PatchError::PatchFailed("string too long for a PE section".to_owned()));
    }
    let raw_end: u64 = s.pointer_to_raw_data as u64 + s.size_of_raw_data as u64;
    if raw_end < data.len() as u64 {
        return Err(
            PatchError::PatchFailed("last section's raw data ends inside the file".to_owned()),
        );
    }
    let pad: u64 = align_up(n as u64 + 1, fa);
    let new_raw: u64 = s.size_of_raw_data as u64 + pad;
    if new_raw > u32::MAX as u64 {
        return Err(PatchError::PatchFailed("grown section size exceeds its field".to_owned()));
    }
    let target: u64 = s.pointer_to_raw_data as u64 + new_raw;
    if target > usize::MAX as u64 {
        return Err(PatchError::PatchFailed("grown file size exceeds memory limits".to_owned()));
    }
    let entry128: u128 = v.pe_pointer as u128 + 24 + v.size_of_optional_header as u128 + 40
        * last_idx as u128;
    if entry128 + 40 > data.len() as u128 {
        return Err(
            PatchError::PatchFailed("section header table lies outside the image".to_owned()),
        );
    }
    let ib: u64 = match &v.optional {
        Some(o) => o.image_base,
        None => 0,
    };
    let va128: u128 = ib as u128 + s.virtual_address as u128 + s.size_of_raw_data as u128;
    if va128 > u64::MAX as u128 {
        return Err(PatchError::PatchFailed("virtual address overflow".to_owned()));
    }
    let entry = entry128 as usize;
    let wo = raw_end as usize;
    let mut patched: Vec<u8> = Vec::new();
    patched.extend_from_slice(data);
    proof {
        assert(patched@ =~= data@);
    }
    patched.resize(target as usize, 0u8);
    let ghost p1 = patched@;
    proof {
        assert(forall|k: int| 0 <= k < data@.len() ==> p1[k] == #[trigger] data@[k]) by {
            assert(forall|k: int|
                0 <= k < data@.len() ==> p1.subrange(0, data@.len() as int)[k] == #[trigger] p1[k]);
        }
    }
    crate::util::write_bytes_at(&mut patched, wo, string_bytes);
    let ghost p2 = patched@;
    crate::util::write_u32_le_at(&mut patched, entry + 16, new_raw as u32);
    let ghost p3 = patched@;
    let new_virtual: u32 = if s.virtual_size >= new_raw as u32 {
        s.virtual_size
    } else {
        new_raw as u32
    };
    crate::util::write_u32_le_at(&mut patched, entry + 8, new_virtual);
    let result = PatchResult {
        format: if v.is_64 {
            BinaryFormat::PE64
        } else {
            BinaryFormat::PE32
        },
        strategy_used: extend_label(&s.name),
        virtual_address: Some(va128 as u64),
        file_offset: Some(wo as u64),
    };
    proof {
        let n = string_bytes@.len() as int;
        assert(patched@.subrange(wo as int, wo + n) =~= p2.subrange(wo as int, wo + n));
        assert(p2.subrange(wo as int, wo + n) == string_bytes@);
        assert(patched@.subrange(entry + 16, entry + 20) =~= p3.subrange(entry + 16, entry + 20));
        assert(patched@[wo + n] == 0);
        assert(pe_extend_ok(data@, *v, string_bytes@, patched@, result)) by {
            assert(crate::util::has_sub_at(patched@, string_bytes@, wo as int));
            assert(placed_at(patched@, string_bytes@, result));
        }
    }
    Ok((patched, result))
}

/// The structural conditions under which fabricating a new `.rtstr`
/// section succeeds: the table is non-empty, the new section's file
/// offset lands past the current end, the new header record fits before
/// the declared end of the headers and inside the image, the section
/// count has room, and the address fields fit their widths.
pub open spec fn pe_section_feasible(v: PeView, data_len: int, n: int) -> bool {
    &&& v.sections.len() > 0
    &&& {
        let s = v.sections[v.sections.len() - 1];
        let fa = pe_file_alignment(v);
        let sa = pe_section_alignment(v);
        let new_off = align_up_spec(s.pointer_to_raw_data + s.size_of_raw_data, fa);
        let new_va = align_up_spec(s.virtual_address + s.virtual_size, sa);
        let new_size = align_up_spec(n + 1, fa);
        let entry = pe_section_table_offset(v) + 40 * v.number_of_sections;
        &&& n + 1 <= u32::MAX
        &&& new_off >= data_len
        &&& new_off <= u32::MAX
        &&& new_va <= u32::MAX
        &&& new_size <= u32::MAX
        &&& new_off + new_size <= usize::MAX
        &&& entry + 40 <= pe_headers_size(v)
        &&& entry + 40 <= data_len
        &&& v.number_of_sections < u16::MAX
        &&& v.pe_pointer + 8 <= data_len
        &&& (v.optional is Some ==> {
            &&& v.pe_pointer + 84 <= data_len
            &&& entry >= v.pe_pointer + 84
            &&& align_up_spec(new_va + new_size, sa) <= u32::MAX
            &&& pe_image_base(v) + new_va <= u64::MAX
        })
    }
}

/// What a successful section patch produces: the file grown to hold the
/// new section's aligned data with the string at its start, a `.rtstr`
/// header record appended to the section table, the section count
/// incremented, the image's total virtual size updated when an optional
/// header exists, and every other original byte untouched.
pub open spec fn pe_section_ok(
    data: Seq<u8>,
    v: PeView,
    bytes: Seq<u8>,
    out: Seq<u8>,
    res: PatchResult,
) -> bool {
    let s = v.sections[v.sections.len() - 1];
    let fa = pe_file_alignment(v);
    let sa = pe_section_alignment(v);
    let new_off = align_up_spec(s.pointer_to_raw_data + s.size_of_raw_data, fa);
    let new_va = align_up_spec(s.virtual_address + s.virtual_size, sa);
    let new_size = align_up_spec(bytes.len() + 1 as int, fa);
    let entry = pe_section_table_offset(v) + 40 * v.number_of_sections;
    let nso = v.pe_pointer + 6;
    let soi = v.pe_pointer + 80;
    &&& out.len() == new_off + new_size
    &&& out.len() >= data.len() + bytes.len() + 1
    &&& out.subrange(new_off, new_off + bytes.len()) == bytes
    &&& out[new_off + bytes.len()] == 0
    &&& out.subrange(entry, entry + 40) == pe_section_header_bytes(
        rtstr_name(),
        new_va as u32,
        (bytes.len() + 1) as u32,
        new_off as u32,
        new_size as u32,
    )
    &&& out.subrange(nso, nso + 2) == vstd::bytes::spec_u16_to_le_bytes(
        (v.number_of_sections + 1) as u16,
    )
    &&& (v.optional is Some ==> out.subrange(soi, soi + 4) == vstd::bytes::spec_u32_to_le_bytes(
        align_up_spec(new_va + new_size, sa) as u32,
    ))
    &&& forall|k: int|
        0 <= k < data.len() && !(entry <= k < entry + 40) && !(nso <= k < nso + 2) && !(
        v.optional is Some && soi <= k < soi + 4) ==> out[k] == data[k]
    &&& res.file_offset == Some(new_off as u64)
    &&& res.virtual_address == Some((pe_image_base(v) + new_va) as u64)
    &&& res.format == pe_format(v)
    &&& res.strategy_used@ == "section (.rtstr)"@
    &&& has_substring(out, bytes)
    &&& placed_at(out, bytes, res)
    &&& spec_starts_with_chars(res.strategy_used@, "section"@)
}

/// Fabricate a `.rtstr` section holding the string: grow the file past the
/// last section, append a header record, and update the section count and
/// total image size.
#[verifier::rlimit(100)]
#[verifier::spinoff_prover]
fn patch_pe_section(data: &[u8], v: &PeView, string_bytes: &[u8]) -> (r: Result<
    (Vec<u8>, PatchResult),
    PatchError,
>)
    requires
        string_bytes@.len() + 1 <= usize::MAX,
    ensures
        match r {
            Ok((out, res)) => pe_section_feasible(
                *v,
                data@.len() as int,
                string_bytes@.len() as int,
            ) && pe_section_ok(data@, *v, string_bytes@, out@, res),
            Err(e) => e is PatchFailed && !pe_section_feasible(
                *v,
                data@.len() as int,
                string_bytes@.len() as int,
            ),
        },
{
    let n = string_bytes.len();
    if v.sections.len() == 0 {
        return Err(PatchError::PatchFailed("no sections found in PE".to_owned()));
    }
    let s = &v.sections[v.sections.len() - 1];
    let fa: u64 = match &v.optional {
        Some(o) => o.file_alignment as u64,
        None => 0x200,
    };
    let sa: u64 = match &v.optional {
        Some(o) => o.section_alignment as u64,
        None => 0x1000,
    };
    let headers_size: u64 = match &v.optional {
        Some(o) => o.size_of_headers as u64,
        None => 0x400,
    };
    if n as u64 + 1 > u32::MAX as u64 {
        return Err(PatchError::PatchFailed("string too long for a PE section".to_owned()));
    }
    let new_off: u64 = align_up(s.pointer_to_raw_data as u64 + s.size_of_raw_data as u64, fa);
    let new_va: u64 = align_up(s.virtual_address as u64 + s.virtual_size as u64, sa);
    let new_size: u64 = align_up(n as u64 + 1, fa);
    if new_off < data.len() as u64 {
        return Err(
            PatchError::PatchFailed("sections do not reach the end of the file".to_owned()),
        );
    }
    if new_off > u32::MAX as u64 || new_va > u32::MAX as u64 || new_size > u32::MAX as u64 {
        return Err(PatchError::PatchFailed("new section does not fit its fields".to_owned()));
    }
    if new_off + new_size > usize::MAX as u64 {
        return Err(PatchError::PatchFailed("grown file size exceeds memory limits".to_owned()));
    }
    let entry128: u128 = v.pe_pointer as u128 + 24 + v.size_of_optional_header as u128 + 40
        * v.number_of_sections as u128;
    if entry128 + 40 > headers_size as u128 {
        return Err(PatchError::PatchFailed("no space for new section header".to_owned()));
    }
    if entry128 + 40 > data.len() as u128 {
        return Err(
            PatchError::PatchFailed("section header table lies outside the image".to_owned()),
        );
    }
    if v.number_of_sections == u16::MAX {
        return Err(PatchError::PatchFailed("section count exhausted".to_owned()));
    }
    if v.pe_pointer as u64 + 8 > data.len() as u64 {
        return Err(PatchError::PatchFailed("file header lies outside the image".to_owned()));
    }
    let mut soi_value: u32 = 0;
    let mut image_base: u64 = 0;
    if let Some(o) = &v.optional {
        if v.pe_pointer as u64 + 84 > data.len() as u64 {
            return Err(
                PatchError::PatchFailed("optional header lies outside the image".to_owned()),
            );
        }
        if entry128 < v.pe_pointer as u128 + 84 {
            return Err(
                PatchError::PatchFailed("section table overlaps the optional header".to_owned()),
            );
        }
        let soi64 = align_up(new_va + new_size, sa);
        if soi64 > u32::MAX as u64 {
            return Err(PatchError::PatchFailed("image size overflow".to_owned()));
        }
        soi_value = soi64 as u32;
        if o.image_base as u128 + new_va as u128 > u64::MAX as u128 {
            return Err(PatchError::PatchFailed("virtual address overflow".to_owned()));
        }
        image_base = o.image_base;
    }
    let entry = entry128 as usize;
    let new_off_usize = new_off as usize;
    let mut patched: Vec<u8> = Vec::new();
    patched.extend_from_slice(data);
    proof {
        assert(patched@ =~= data@);
    }
    patched.resize(new_off_usize + new_size as usize, 0u8);
    let ghost p1 = patched@;
    proof {
        assert(forall|k: int| 0 <= k < data@.len() ==> p1[k] == #[trigger] data@[k]) by {
            assert(forall|k: int|
                0 <= k < data@.len() ==> p1.subrange(0, data@.len() as int)[k] == #[trigger] p1[k]);
        }
    }
    crate::util::write_bytes_at(&mut patched, new_off_usize, string_bytes);
    let ghost p2 = patched@;
    let name = rtstr_name_vec();
    let header = create_section_header(
        &name,
        new_va as u32,
        n as u32 + 1,
        new_off as u32,
        new_size as u32,
    );
    crate::util::write_bytes_at(&mut patched, entry, header.as_slice());
    let ghost p3 = patched@;
    crate::util::write_u16_le_at(
        &mut patched,
        v.pe_pointer as usize + 6,
        v.number_of_sections + 1,
    );
    let ghost p4 = patched@;
    if v.optional.is_some() {
        crate::util::write_u32_le_at(&mut patched, v.pe_pointer as usize + 80, soi_value);
    }
    let result = PatchResult {
        format: if v.is_64 {
            BinaryFormat::PE64
        } else {
            BinaryFormat::PE32
        },
        strategy_used: "section (.rtstr)".to_owned(),
        virtual_address: Some(image_base + new_va),
        file_offset: Some(new_off),
    };
    proof {
        let n_ = string_bytes@.len() as int;
        let entry_ = entry as int;
        let nso = v.pe_pointer + 6;
        assert(patched@.subrange(new_off as int, new_off + n_) =~= p2.subrange(
            new_off as int,
            new_off + n_,
        ));
        assert(p2.subrange(new_off as int, new_off + n_) == string_bytes@);
        assert(patched@.subrange(entry_, entry_ + 40) =~= p3.subrange(entry_, entry_ + 40));
        assert(patched@.subrange(nso as int, nso + 2) =~= p4.subrange(nso as int, nso + 2));
        assert(patched@[new_off + n_] == 0);
        assert(pe_section_ok(data@, *v, string_bytes@, patched@, result)) by {
            assert(crate::util::has_sub_at(patched@, string_bytes@, new_off as int));
            assert(placed_at(patched@, string_bytes@, result));
            reveal_strlit("section (.rtstr)");
            reveal_strlit("section");
            assert(result.strategy_used@.subrange(0, 7) =~= "section"@);
        }
    }
    Ok((patched, result))
}

/// The eight name bytes of the fabricated section.
fn rtstr_name_vec() -> (r: Vec<u8>)
    ensures
        r@ == rtstr_name(),
{
    let mut r: Vec<u8> = Vec::new();
    r.push(46);
    r.push(114);
    r.push(116);
    r.push(115);
    r.push(116);
    r.push(114);
    r.push(0);
    r.push(0);
    proof {
        assert(r@ =~= rtstr_name());
    }
    r
}

/// Build the 40-byte on-disk section header record.
pub fn create_section_header(
    name: &Vec<u8>,
    virtual_address: u32,
    virtual_size: u32,
    raw_data_ptr: u32,
    raw_data_size: u32,
) -> (r: Vec<u8>)
    requires
        name@.len() == 8,
    ensures
        r@ == pe_section_header_bytes(
            name@,
            virtual_address,
            virtual_size,
            raw_data_ptr,
            raw_data_size,
        ),
        r@.len() == 40,
{
    proof {
        vstd::bytes::lemma_auto_spec_u32_to_from_le_bytes();
    }
    let mut r: Vec<u8> = Vec::new();
    r.extend_from_slice(name.as_slice());
    let mut f = vstd::bytes::u32_to_le_bytes(virtual_size);
    r.append(&mut f);
    let mut f = vstd::bytes::u32_to_le_bytes(virtual_address);
    r.append(&mut f);
    let mut f = vstd::bytes::u32_to_le_bytes(raw_data_size);
    r.append(&mut f);
    let mut f = vstd::bytes::u32_to_le_bytes(raw_data_ptr);
    r.append(&mut f);
    let mut k: usize = 0;
    while k < 12
        invariant
            r@.len() == 24 + k,
            k <= 12,
            r@ =~= name@ + vstd::bytes::spec_u32_to_le_bytes(virtual_size)
                + vstd::bytes::spec_u32_to_le_bytes(virtual_address)
                + vstd::bytes::spec_u32_to_le_bytes(raw_data_size)
                + vstd::bytes::spec_u32_to_le_bytes(raw_data_ptr) + Seq::new(
                k as nat,
                |i: int| 0u8,
            ),
        decreases 12 - k,
    {
        r.push(0);
        proof {
            assert(Seq::new((k + 1) as nat, |i: int| 0u8) =~= Seq::new(k as nat, |i: int| 0u8)
                + seq![0u8]);
        }
        k = k + 1;
    }
    let mut f = vstd::bytes::u32_to_le_bytes(0x40000040);
    r.append(&mut f);
    proof {
        assert(Seq::new(12nat, |i: int| 0u8) =~= seq![
            0u8, 0u8, 0u8, 0u8, 0u8, 0u8, 0u8, 0u8, 0u8, 0u8, 0u8, 0u8,
        ]);
        assert(r@ =~= pe_section_header_bytes(
            name@,
            virtual_address,
            virtual_size,
            raw_data_ptr,
            raw_data_size,
        ));
    }
    r
}

/// The human-readable `extend (<section>)` label.
fn extend_label(name: &Vec<u8>) -> (r: String)
    ensures
        spec_starts_with_chars(r@, "extend"@),
{
    let mut label = "extend (".to_owned();
    let trimmed = trim_trailing_zeros(name);
    label.append(crate::strutil::bytes_label(&trimmed).as_str());
    label.append(")");
    proof {
        reveal_strlit("extend (");
        reveal_strlit("extend");
        assert(label@.subrange(0, 6) =~= "extend"@);
    }
    label
}

/// Whether a raw section name begins with one of the candidate prefixes.
fn bytes_is_pe_candidate(name: &Vec<u8>) -> (r: bool)
    ensures
        r <==> pe_is_candidate(
            PeSectionView {
                name: *name,
                virtual_size: 0,
                virtual_address: 0,
                size_of_raw_data: 0,
                pointer_to_raw_data: 0,
            },
        ),
{
    crate::util::bytes_starts_with(name.as_slice(), ".rdata".as_bytes())
        || crate::util::bytes_starts_with(name.as_slice(), ".data".as_bytes())
        || crate::util::bytes_starts_with(name.as_slice(), ".rsrc".as_bytes())
        || crate::util::bytes_starts_with(name.as_slice(), ".text".as_bytes())
}

/// The section name with its trailing NUL padding removed.
fn trim_trailing_zeros(name: &Vec<u8>) -> (r: Vec<u8>)
    ensures
        r@.len() <= name@.len(),
        forall|k: int| 0 <= k < r@.len() ==> r@[k] == name@[k],
{
    let mut end: usize = name.len();
    while end > 0 && name[end - 1] == 0
        invariant
            end <= name@.len(),
        decreases end,
    {
        end = end - 1;
    }
    let mut r: Vec<u8> = Vec::new();
    let mut k: usize = 0;
    while k < end
        invariant
            end <= name@.len(),
            k <= end,
            r@.len() == k,
            forall|j: int| 0 <= j < k ==> r@[j] == name@[j],
        decreases end - k,
    {
        r.push(name[k]);
        k = k + 1;
    }
    r
}

/// The human-readable `cave (<section>)` label.
fn cave_label(name: &Vec<u8>) -> (r: String)
    ensures
        spec_starts_with_chars(r@, "cave"@),
{
    let mut label = "cave (".to_owned();
    label.append(crate::strutil::bytes_label(name).as_str());
    label.append(")");
    proof {
        reveal_strlit("cave (");
        reveal_strlit("cave");
        assert(label@.subrange(0, 4) =~= "cave"@);
    }
    label
}

} // verus!
