//! Mach-O patching: cave reuse, an append past the `__LINKEDIT` segment,
//! and extension of the `__DATA` (or last) segment.
//!
//! The algorithms work on `MachView`, a plain copy of the segments and
//! sections that the strategies read; parsing is delegated to `goblin`
//! behind one trusted wrapper.

use vstd::prelude::*;

use crate::cave::{
    all_zero, best_cave, best_cave_in, cave_available, cave_available_in, is_maximal_run_in,
    CaveFinder, CodeCave,
};
use crate::patcher::{
    cave_patch_ok, largest_cave_report, placed_at, BinaryFormat, PatchError, PatchResult,
    PatchStrategy,
};
use crate::util::{align_up, align_up_spec, has_substring, spec_starts_with_chars};
use vstd::string::StringSliceAdditionalSpecFns;

verus! {

/// One section of a segment, as the cave search reads it.
#[derive(Debug, Clone)]
pub struct MachSectionView {
    pub name: Vec<u8>,
    pub offset: u32,
    pub size: u64,
}

/// One load-command segment.
#[derive(Debug, Clone)]
pub struct MachSegmentView {
    pub name: Vec<u8>,
    pub vmaddr: u64,
    pub vmsize: u64,
    pub fileoff: u64,
    pub filesize: u64,
    pub sections: Vec<MachSectionView>,
}

/// A plain view of a parsed thin Mach-O binary: the segments and their
/// sections that the patch strategies read.
#[derive(Debug, Clone)]
pub struct MachView {
    pub is_64: bool,
    pub segments: Vec<MachSegmentView>,
}

/// What `goblin::mach::MachO::parse` reads out of a byte buffer: `None`
/// when parsing fails. The view depends on the bytes alone.
pub uninterp spec fn mach_view_of(data: Seq<u8>) -> Option<MachView>;

/// Relies on `goblin::mach::MachO::parse`: the load-command segments (with
/// their names and sections) of a thin Mach-O binary are read
/// deterministically from the bytes; malformed binaries are rejected.
#[verifier::external_body]
fn parse_mach_view(data: &[u8]) -> (r: Result<MachView, PatchError>)
    ensures
        match r {
            Ok(v) => mach_view_of(data@) == Some(v),
            Err(e) => mach_view_of(data@) is None && e is ParseError,
        },
{
    match goblin::mach::MachO::parse(data, 0) {
        Ok(m) => Ok(MachView {
            is_64: m.is_64,
            segments: m.segments.iter().map(|g| MachSegmentView {
                name: g.name().unwrap_or("").as_bytes().to_vec(),
                vmaddr: g.vmaddr, vmsize: g.vmsize, fileoff: g.fileoff, filesize: g.filesize,
                sections: g.sections().unwrap_or_default().iter().map(|t| MachSectionView { name: t.0.name().unwrap_or("").as_bytes().to_vec(), offset: t.0.offset, size: t.0.size }).collect(),
            }).collect(),
        }),
        Err(e) => Err(PatchError::ParseError(e.to_string())),
    }
}

/// The format tag of a parsed thin Mach-O binary.
pub open spec fn mach_format(v: MachView) -> BinaryFormat {
    if v.is_64 {
        BinaryFormat::MachO64
    } else {
        BinaryFormat::MachO32
    }
}

/// Names of the segments whose sections are searched for caves.
pub open spec fn mach_is_candidate(name: Seq<u8>) -> bool {
    ||| name == "__DATA".spec_bytes()
    ||| name == "__TEXT".spec_bytes()
    ||| name == "__LINKEDIT".spec_bytes()
}

/// The virtual address of the first segment whose file range contains
/// `off`: the segment base plus the offset within the segment. `None`
/// past the table's end or on overflow.
pub open spec fn mach_va_lookup(segments: Seq<MachSegmentView>, off: int) -> Option<u64>
    decreases segments.len(),
{
    if segments.len() == 0 {
        None
    } else {
        let s = segments[0];
        if s.fileoff <= off < s.fileoff + s.filesize {
            let va = s.vmaddr + (off - s.fileoff);
            if va <= u64::MAX {
                Some(va as u64)
            } else {
                None
            }
        } else {
            mach_va_lookup(segments.drop_first(), off)
        }
    }
}

/// The virtual address assigned to file offset `off`.
pub open spec fn mach_va_from_offset(v: MachView, off: int) -> Option<u64> {
    mach_va_lookup(v.segments@, off)
}

/// Resolve a file offset to a virtual address through the segments.
fn calculate_va_from_offset(v: &MachView, file_offset: usize) -> (r: Option<u64>)
    ensures
        r == mach_va_from_offset(*v, file_offset as int),
{
    let off = file_offset as u64;
    let mut i: usize = 0;
    proof {
        assert(v.segments@.skip(0) =~= v.segments@);
    }
    while i < v.segments.len()
        invariant
            i <= v.segments@.len(),
            off == file_offset as u64,
            mach_va_lookup(v.segments@.skip(i as int), file_offset as int) == mach_va_lookup(
                v.segments@,
                file_offset as int,
            ),
        decreases v.segments@.len() - i,
    {
        let s = &v.segments[i];
        proof {
            assert(v.segments@.skip(i as int)[0] == v.segments@[i as int]);
        }
        if s.fileoff <= off && (off as u128) < s.fileoff as u128 + s.filesize as u128 {
            let va = s.vmaddr as u128 + (off - s.fileoff) as u128;
            if va <= u64::MAX as u128 {
                return Some(va as u64);
            } else {
                return None;
            }
        }
        proof {
            assert(v.segments@.skip(i as int).drop_first() =~= v.segments@.skip(i as int + 1));
        }
        i = i + 1;
    }
    proof {
        assert(v.segments@.skip(i as int) =~= Seq::<MachSegmentView>::empty());
    }
    None
}

/// The index of the first segment with the given name, if any.
pub open spec fn mach_first_named(segments: Seq<MachSegmentView>, name: Seq<u8>) -> Option<int>
    decreases segments.len(),
{
    if segments.len() == 0 {
        None
    } else if segments[0].name@ == name {
        Some(0)
    } else {
        match mach_first_named(segments.drop_first(), name) {
            Some(i) => Some(i + 1),
            None => None,
        }
    }
}

/// Find the first segment with the given name.
fn find_first_named(v: &MachView, name: &str) -> (r: Option<usize>)
    ensures
        match r {
            Some(i) => mach_first_named(v.segments@, name.spec_bytes()) == Some(i as int) && i
                < v.segments@.len() && v.segments@[i as int].name@ == name.spec_bytes(),
            None => mach_first_named(v.segments@, name.spec_bytes()) is None,
        },
{
    let mut i: usize = 0;
    proof {
        assert(v.segments@.skip(0) =~= v.segments@);
    }
    while i < v.segments.len()
        invariant
            i <= v.segments@.len(),
            match mach_first_named(v.segments@.skip(i as int), name.spec_bytes()) {
                Some(k) => mach_first_named(v.segments@, name.spec_bytes()) == Some(k + i),
                None => mach_first_named(v.segments@, name.spec_bytes()) is None,
            },
        decreases v.segments@.len() - i,
    {
        proof {
            assert(v.segments@.skip(i as int)[0] == v.segments@[i as int]);
        }
        if crate::util::bytes_eq(v.segments[i].name.as_slice(), name.as_bytes()) {
            return Some(i);
        }
        proof {
            assert(v.segments@.skip(i as int).drop_first() =~= v.segments@.skip(i as int + 1));
        }
        i = i + 1;
    }
    proof {
        assert(v.segments@.skip(i as int) =~= Seq::<MachSegmentView>::empty());
    }
    None
}

/// The file-range start of section `j` of segment `i`.
pub open spec fn mach_window_lo(v: MachView, i: int, j: int) -> int {
    v.segments@[i].sections@[j].offset as int
}

/// The file-range end of section `j` of segment `i`.
pub open spec fn mach_window_hi(v: MachView, i: int, j: int) -> int {
    v.segments@[i].sections@[j].offset + v.segments@[i].sections@[j].size
}

/// Section `j` of segment `i` is searched for caves: the segment carries
/// a candidate name, the section has a non-zero offset and size, and its
/// file range lies inside the buffer.
pub open spec fn mach_searchable(v: MachView, data_len: int, i: int, j: int) -> bool {
    &&& 0 <= i < v.segments@.len()
    &&& mach_is_candidate(v.segments@[i].name@)
    &&& 0 <= j < v.segments@[i].sections@.len()
    &&& v.segments@[i].sections@[j].offset != 0
    &&& v.segments@[i].sections@[j].size != 0
    &&& mach_window_hi(v, i, j) <= data_len
}

/// Pair `(i1, j1)` is visited before `(i2, j2)` in the segment-then-
/// section scan order.
pub open spec fn mach_pair_before(i1: int, j1: int, i2: int, j2: int) -> bool {
    i1 < i2 || (i1 == i2 && j1 < j2)
}

/// Which cave the Mach-O cave strategy selects. Either the window-best
/// cave of the first searchable section that attains the largest cave
/// size any searchable section offers, or — when no searchable section
/// holds a cave of the needed size — the whole-buffer best cave.
pub open spec fn mach_cave_selected(
    data: Seq<u8>,
    v: MachView,
    needed: int,
    off: int,
    sz: int,
) -> bool {
    ||| exists|i: int, j: int|
        {
            &&& #[trigger] mach_searchable(v, data.len() as int, i, j)
            &&& best_cave_in(data, mach_window_lo(v, i, j), mach_window_hi(v, i, j), needed, off, sz)
            &&& forall|i2: int, j2: int|
                #[trigger] mach_searchable(v, data.len() as int, i2, j2) ==> !cave_available_in(
                    data,
                    mach_window_lo(v, i2, j2),
                    mach_window_hi(v, i2, j2),
                    sz + 1,
                )
            &&& forall|i2: int, j2: int|
                #[trigger] mach_searchable(v, data.len() as int, i2, j2) && mach_pair_before(
                    i2,
                    j2,
                    i,
                    j,
                ) ==> !cave_available_in(
                    data,
                    mach_window_lo(v, i2, j2),
                    mach_window_hi(v, i2, j2),
                    sz,
                )
        }
    ||| {
        &&& forall|i2: int, j2: int|
            #[trigger] mach_searchable(v, data.len() as int, i2, j2) ==> !cave_available_in(
                data,
                mach_window_lo(v, i2, j2),
                mach_window_hi(v, i2, j2),
                needed,
            )
        &&& best_cave(data, needed, off, sz)
    }
}

/// The cave strategy's choice is deterministic: the selection rule
/// admits exactly one offset and size for a given buffer and view.
pub proof fn lemma_mach_cave_selection_unique(
    data: Seq<u8>,
    v: MachView,
    needed: int,
    o1: int,
    s1: int,
    o2: int,
    s2: int,
)
    requires
        mach_cave_selected(data, v, needed, o1, s1),
        mach_cave_selected(data, v, needed, o2, s2),
    ensures
        o1 == o2 && s1 == s2,
{
    let dl = data.len() as int;
    if exists|i: int, j: int|
        #[trigger] mach_searchable(v, dl, i, j) && best_cave_in(
            data,
            mach_window_lo(v, i, j),
            mach_window_hi(v, i, j),
            needed,
            o1,
            s1,
        ) {
        let (i1, j1) = choose|i1: int, j1: int|
            #[trigger] mach_searchable(v, dl, i1, j1) && best_cave_in(
                data,
                mach_window_lo(v, i1, j1),
                mach_window_hi(v, i1, j1),
                needed,
                o1,
                s1,
            ) && forall|i2: int, j2: int|
                #[trigger] mach_searchable(v, dl, i2, j2) && mach_pair_before(i2, j2, i1, j1)
                    ==> !cave_available_in(
                    data,
                    mach_window_lo(v, i2, j2),
                    mach_window_hi(v, i2, j2),
                    s1,
                );
        let (i2, j2) = choose|i2: int, j2: int|
            #[trigger] mach_searchable(v, dl, i2, j2) && best_cave_in(
                data,
                mach_window_lo(v, i2, j2),
                mach_window_hi(v, i2, j2),
                needed,
                o2,
                s2,
            ) && forall|i3: int, j3: int|
                #[trigger] mach_searchable(v, dl, i3, j3) && mach_pair_before(i3, j3, i2, j2)
                    ==> !cave_available_in(
                    data,
                    mach_window_lo(v, i3, j3),
                    mach_window_hi(v, i3, j3),
                    s2,
                );
        assert(is_maximal_run_in(data, mach_window_lo(v, i1, j1), mach_window_hi(v, i1, j1), o1, s1));
        assert(is_maximal_run_in(data, mach_window_lo(v, i2, j2), mach_window_hi(v, i2, j2), o2, s2));
        assert(s1 <= s2) by {
            if s1 > s2 {
                assert(cave_available_in(
                    data,
                    mach_window_lo(v, i1, j1),
                    mach_window_hi(v, i1, j1),
                    s2 + 1,
                ));
            }
        }
        assert(s2 <= s1) by {
            if s2 > s1 {
                assert(cave_available_in(
                    data,
                    mach_window_lo(v, i2, j2),
                    mach_window_hi(v, i2, j2),
                    s1 + 1,
                ));
            }
        }
        if mach_pair_before(i1, j1, i2, j2) {
            assert(cave_available_in(data, mach_window_lo(v, i1, j1), mach_window_hi(v, i1, j1), s2));
            assert(false);
        }
        if mach_pair_before(i2, j2, i1, j1) {
            assert(cave_available_in(data, mach_window_lo(v, i2, j2), mach_window_hi(v, i2, j2), s1));
            assert(false);
        }
        crate::cave::lemma_best_cave_in_unique(
            data,
            mach_window_lo(v, i1, j1),
            mach_window_hi(v, i1, j1),
            needed,
            o1,
            s1,
            o2,
            s2,
        );
    } else {
        if exists|i: int, j: int|
            #[trigger] mach_searchable(v, dl, i, j) && best_cave_in(
                data,
                mach_window_lo(v, i, j),
                mach_window_hi(v, i, j),
                needed,
                o2,
                s2,
            ) {
            let (i2, j2) = choose|i2: int, j2: int|
                #[trigger] mach_searchable(v, dl, i2, j2) && best_cave_in(
                    data,
                    mach_window_lo(v, i2, j2),
                    mach_window_hi(v, i2, j2),
                    needed,
                    o2,
                    s2,
                );
            assert(is_maximal_run_in(
                data,
                mach_window_lo(v, i2, j2),
                mach_window_hi(v, i2, j2),
                o2,
                s2,
            ));
            assert(cave_available_in(
                data,
                mach_window_lo(v, i2, j2),
                mach_window_hi(v, i2, j2),
                needed,
            ));
            assert(false);
        }
        crate::cave::lemma_best_cave_unique(data, needed, o1, s1, o2, s2);
    }
}

/// A successful Mach-O cave patch: an in-place write at some cave offset,
/// with the virtual address resolved for that offset.
pub open spec fn mach_cave_patched(
    data: Seq<u8>,
    v: MachView,
    bytes: Seq<u8>,
    out: Seq<u8>,
    res: PatchResult,
) -> bool {
    &&& exists|off: int|
        {
            &&& #[trigger] cave_patch_ok(data, bytes, out, res, off)
            &&& res.virtual_address == mach_va_from_offset(v, off)
        }
    &&& res.format == mach_format(v)
    &&& has_substring(out, bytes)
    &&& placed_at(out, bytes, res)
    &&& spec_starts_with_chars(res.strategy_used@, "cave"@)
}

/// Patch a thin Mach-O binary with the requested strategy. The overlay
/// strategy is handled before format dispatch and never reaches a format
/// patcher.
pub fn patch_macho(data: &[u8], string: &str, strategy: PatchStrategy) -> (r: Result<
    (Vec<u8>, PatchResult),
    PatchError,
>)
    requires
        strategy != PatchStrategy::Overlay,
        string.spec_bytes().len() + 1 <= usize::MAX,
    ensures
        mach_view_of(data@) is None ==> r matches Err(PatchError::ParseError(_)),
        match r {
            Ok((out, res)) => {
                &&& mach_view_of(data@) matches Some(v) && {
                    &&& res.format == mach_format(v)
                    &&& strategy == PatchStrategy::Cave ==> mach_cave_patched(
                        data@,
                        v,
                        string.spec_bytes(),
                        out@,
                        res,
                    )
                    &&& strategy == PatchStrategy::Cave ==> exists|off: int, sz: int|
                        {
                            &&& #[trigger] mach_cave_selected(
                                data@,
                                v,
                                string.spec_bytes().len() + 1 as int,
                                off,
                                sz,
                            )
                            &&& cave_patch_ok(data@, string.spec_bytes(), out@, res, off)
                        }
                    &&& strategy == PatchStrategy::Section ==> mach_section_feasible(
                        v,
                        data@.len() as int,
                        string.spec_bytes().len() as int,
                    ) && mach_section_ok(data@, v, string.spec_bytes(), out@, res)
                    &&& strategy == PatchStrategy::Extend ==> mach_extend_feasible(
                        v,
                        data@.len() as int,
                        string.spec_bytes().len() as int,
                    ) && mach_extend_ok(data@, v, string.spec_bytes(), out@, res)
                }
                &&& has_substring(out@, string.spec_bytes())
                &&& placed_at(out@, string.spec_bytes(), res)
                &&& spec_starts_with_chars(
                    res.strategy_used@,
                    crate::patcher::strategy_prefix(strategy),
                )
            },
            Err(e) => {
                &&& (e is ParseError || e is NoCaveFound || e is PatchFailed)
                &&& e is ParseError ==> mach_view_of(data@) is None
                &&& strategy == PatchStrategy::Cave ==> !(e is PatchFailed)
                &&& (strategy == PatchStrategy::Section || strategy == PatchStrategy::Extend) ==> !(
                e is NoCaveFound)
                &&& e matches PatchError::NoCaveFound { needed, found } ==> {
                    &&& strategy == PatchStrategy::Cave
                    &&& needed == string.spec_bytes().len() + 1
                    &&& !cave_available(data@, needed as int)
                    &&& largest_cave_report(data@, found as int)
                }
                &&& (strategy == PatchStrategy::Cave && mach_view_of(data@) is Some
                    && cave_available(data@, string.spec_bytes().len() + 1 as int)) ==> false
                &&& (strategy == PatchStrategy::Section && (mach_view_of(data@) matches Some(v)
                    && mach_section_feasible(
                    v,
                    data@.len() as int,
                    string.spec_bytes().len() as int,
                ))) ==> false
                &&& (strategy == PatchStrategy::Extend && (mach_view_of(data@) matches Some(v)
                    && mach_extend_feasible(
                    v,
                    data@.len() as int,
                    string.spec_bytes().len() as int,
                ))) ==> false
            },
        },
{
    let string_bytes = string.as_bytes();
    let needed_size = string_bytes.len() + 1;
    let v = match parse_mach_view(data) {
        Ok(v) => v,
        Err(e) => {
            return Err(e);
        },
    };
    match strategy {
        PatchStrategy::Cave => patch_macho_cave(data, &v, string_bytes, needed_size),
        PatchStrategy::Section => patch_macho_section(data, &v, string_bytes),
        PatchStrategy::Extend => patch_macho_extend(data, &v, string_bytes),
        PatchStrategy::Overlay => vstd::pervasive::unreached(),
    }
}

/// Search the sections of the candidate segments for the largest cave,
/// falling back to the whole file, and write the string in place.
#[verifier::rlimit(100)]
#[verifier::spinoff_prover]
fn patch_macho_cave(data: &[u8], v: &MachView, string_bytes: &[u8], needed_size: usize) -> (r:
    Result<(Vec<u8>, PatchResult), PatchError>)
    requires
        needed_size == string_bytes@.len() + 1,
    ensures
        match r {
            Ok((out, res)) => {
                &&& mach_cave_patched(data@, *v, string_bytes@, out@, res)
                &&& exists|off: int, sz: int|
                    {
                        &&& #[trigger] mach_cave_selected(data@, *v, needed_size as int, off, sz)
                        &&& cave_patch_ok(data@, string_bytes@, out@, res, off)
                    }
            },
            Err(e) => {
                &&& e matches PatchError::NoCaveFound { needed, found } && needed == needed_size
                    && largest_cave_report(data@, found as int)
                &&& !cave_available(data@, needed_size as int)
            },
        },
{
    let dn = data.len();
    let mut best: Option<CodeCave> = None;
    let mut best_name: Vec<u8> = Vec::new();
    let mut i: usize = 0;
    while i < v.segments.len()
        invariant
            needed_size == string_bytes@.len() + 1,
            dn == data@.len(),
            i <= v.segments@.len(),
            best matches Some(c) ==> {
                &&& c.file_offset + c.size <= data@.len()
                &&& c.size >= needed_size
                &&& all_zero(data@, c.file_offset as int, c.file_offset + c.size)
            },
            best matches Some(c) ==> exists|ib: int, jb: int|
                {
                    &&& #[trigger] mach_searchable(*v, data@.len() as int, ib, jb)
                    &&& ib < i
                    &&& best_cave_in(
                        data@,
                        mach_window_lo(*v, ib, jb),
                        mach_window_hi(*v, ib, jb),
                        needed_size as int,
                        c.file_offset as int,
                        c.size as int,
                    )
                    &&& forall|i2: int, j2: int|
                        #[trigger] mach_searchable(*v, data@.len() as int, i2, j2)
                            && mach_pair_before(i2, j2, ib, jb) ==> !cave_available_in(
                            data@,
                            mach_window_lo(*v, i2, j2),
                            mach_window_hi(*v, i2, j2),
                            c.size as int,
                        )
                },
            best matches Some(c) ==> forall|i2: int, j2: int|
                #[trigger] mach_searchable(*v, data@.len() as int, i2, j2) && i2 < i
                    ==> !cave_available_in(
                    data@,
                    mach_window_lo(*v, i2, j2),
                    mach_window_hi(*v, i2, j2),
                    c.size + 1 as int,
                ),
            best is None ==> forall|i2: int, j2: int|
                #[trigger] mach_searchable(*v, data@.len() as int, i2, j2) && i2 < i
                    ==> !cave_available_in(
                    data@,
                    mach_window_lo(*v, i2, j2),
                    mach_window_hi(*v, i2, j2),
                    needed_size as int,
                ),
        decreases v.segments@.len() - i,
    {
        let seg = &v.segments[i];
        if is_mach_candidate_name(&seg.name) {
            let mut j: usize = 0;
            while j < seg.sections.len()
                invariant
                    needed_size == string_bytes@.len() + 1,
                    dn == data@.len(),
                    i < v.segments@.len(),
                    j <= seg.sections@.len(),
                    seg == &v.segments@[i as int],
                    mach_is_candidate(v.segments@[i as int].name@),
                    best matches Some(c) ==> {
                        &&& c.file_offset + c.size <= data@.len()
                        &&& c.size >= needed_size
                        &&& all_zero(data@, c.file_offset as int, c.file_offset + c.size)
                    },
                    best matches Some(c) ==> exists|ib: int, jb: int|
                        {
                            &&& #[trigger] mach_searchable(*v, data@.len() as int, ib, jb)
                            &&& mach_pair_before(ib, jb, i as int, j as int)
                            &&& best_cave_in(
                                data@,
                                mach_window_lo(*v, ib, jb),
                                mach_window_hi(*v, ib, jb),
                                needed_size as int,
                                c.file_offset as int,
                                c.size as int,
                            )
                            &&& forall|i2: int, j2: int|
                                #[trigger] mach_searchable(*v, data@.len() as int, i2, j2)
                                    && mach_pair_before(i2, j2, ib, jb) ==> !cave_available_in(
                                    data@,
                                    mach_window_lo(*v, i2, j2),
                                    mach_window_hi(*v, i2, j2),
                                    c.size as int,
                                )
                        },
                    best matches Some(c) ==> forall|i2: int, j2: int|
                        #[trigger] mach_searchable(*v, data@.len() as int, i2, j2)
                            && mach_pair_before(i2, j2, i as int, j as int) ==> !cave_available_in(
                            data@,
                            mach_window_lo(*v, i2, j2),
                            mach_window_hi(*v, i2, j2),
                            c.size + 1 as int,
                        ),
                    best is None ==> forall|i2: int, j2: int|
                        #[trigger] mach_searchable(*v, data@.len() as int, i2, j2)
                            && mach_pair_before(i2, j2, i as int, j as int) ==> !cave_available_in(
                            data@,
                            mach_window_lo(*v, i2, j2),
                            mach_window_hi(*v, i2, j2),
                            needed_size as int,
                        ),
                decreases seg.sections@.len() - j,
            {
                let sec = &seg.sections[j];
                if sec.offset != 0 && sec.size != 0 {
                    let end128 = sec.offset as u128 + sec.size as u128;
                    if end128 <= dn as u128 {
                        let start = sec.offset as usize;
                        let send = end128 as usize;
                        let mut caves = CaveFinder::find_caves_in_range(
                            data,
                            start,
                            send,
                            needed_size,
                        );
                        proof {
                            assert(mach_searchable(*v, data@.len() as int, i as int, j as int));
                            assert(mach_window_lo(*v, i as int, j as int) == start as int);
                            assert(mach_window_hi(*v, i as int, j as int) == send as int);
                        }
                        if caves.len() > 0 {
                            let ghost all = caves@;
                            let c = caves.remove(0);
                            proof {
                                assert(is_maximal_run_in(
                                    data@,
                                    start as int,
                                    send as int,
                                    c.file_offset as int,
                                    c.size as int,
                                ));
                                assert(best_cave_in(
                                    data@,
                                    start as int,
                                    send as int,
                                    needed_size as int,
                                    c.file_offset as int,
                                    c.size as int,
                                )) by {
                                    assert forall|o2: int, s2: int|
                                        #[trigger] is_maximal_run_in(
                                            data@,
                                            start as int,
                                            send as int,
                                            o2,
                                            s2,
                                        ) && s2 >= needed_size implies s2 < c.size || (s2 == c.size
                                        && o2 >= c.file_offset) by {
                                        let idx = choose|idx: int|
                                            0 <= idx < all.len() && crate::cave::cave_is(
                                                all[idx],
                                                o2,
                                                s2,
                                            );
                                        if idx > 0 {
                                            assert(all[0].size > all[idx].size || (all[0].size
                                                == all[idx].size && all[0].file_offset
                                                < all[idx].file_offset));
                                        }
                                    }
                                }
                                assert(!cave_available_in(
                                    data@,
                                    start as int,
                                    send as int,
                                    c.size + 1 as int,
                                )) by {
                                    if cave_available_in(
                                        data@,
                                        start as int,
                                        send as int,
                                        c.size + 1,
                                    ) {
                                        let (o2, s2) = choose|o2: int, s2: int|
                                            is_maximal_run_in(
                                                data@,
                                                start as int,
                                                send as int,
                                                o2,
                                                s2,
                                            ) && s2 >= c.size + 1;
                                        assert(false);
                                    }
                                }
                            }
                            let replace = match &best {
                                None => true,
                                Some(b) => c.size > b.size,
                            };
                            if replace {
                                best = Some(c);
                                best_name = copy_bytes(&sec.name);
                            }
                        } else {
                            proof {
                                assert(!cave_available_in(
                                    data@,
                                    start as int,
                                    send as int,
                                    needed_size as int,
                                )) by {
                                    if cave_available_in(
                                        data@,
                                        start as int,
                                        send as int,
                                        needed_size as int,
                                    ) {
                                        let (o2, s2) = choose|o2: int, s2: int|
                                            is_maximal_run_in(
                                                data@,
                                                start as int,
                                                send as int,
                                                o2,
                                                s2,
                                            ) && s2 >= needed_size;
                                        assert(false);
                                    }
                                }
                            }
                        }
                    }
                }
                j = j + 1;
            }
        }
        i = i + 1;
    }
    proof {
        if best is Some {
            let c = best->Some_0;
            assert(mach_cave_selected(
                data@,
                *v,
                needed_size as int,
                c.file_offset as int,
                c.size as int,
            ));
        }
    }
    if best.is_none() {
        best = CaveFinder::find_best_cave(data, needed_size);
        proof {
            if best is Some {
                let c = best->Some_0;
                assert(mach_cave_selected(
                    data@,
                    *v,
                    needed_size as int,
                    c.file_offset as int,
                    c.size as int,
                ));
            }
        }
    }
    match best {
        Some(cave) => {
            proof {
                assert(mach_cave_selected(
                    data@,
                    *v,
                    needed_size as int,
                    cave.file_offset as int,
                    cave.size as int,
                ));
            }
            proof {
                assert(cave.file_offset + string_bytes@.len() + 1 <= dn);
            }
            let mut patched: Vec<u8> = Vec::new();
            patched.extend_from_slice(data);
            proof {
                assert(patched@ =~= data@);
            }
            crate::util::write_bytes_at(&mut patched, cave.file_offset, string_bytes);
            patched[cave.file_offset + string_bytes.len()] = 0;
            let va = calculate_va_from_offset(v, cave.file_offset);
            let result = PatchResult {
                format: if v.is_64 {
                    BinaryFormat::MachO64
                } else {
                    BinaryFormat::MachO32
                },
                strategy_used: cave_label(&best_name),
                virtual_address: va,
                file_offset: Some(cave.file_offset as u64),
            };
            proof {
                let off = cave.file_offset as int;
                assert(patched@.subrange(off, off + string_bytes@.len()) =~= string_bytes@);
                assert(cave_patch_ok(data@, string_bytes@, patched@, result, off));
                assert(crate::util::has_sub_at(patched@, string_bytes@, off));
                assert(placed_at(patched@, string_bytes@, result));
                assert(mach_cave_patched(data@, *v, string_bytes@, patched@, result));
                assert(mach_cave_selected(data@, *v, needed_size as int, off, cave.size as int)
                    && cave_patch_ok(data@, string_bytes@, patched@, result, off));
            }
            Ok((patched, result))
        },
        None => {
            let largest = CaveFinder::largest_cave_size(data);
            Err(PatchError::NoCaveFound { needed: needed_size, found: largest })
        },
    }
}

/// Whether a segment name is one of the candidate names.
fn is_mach_candidate_name(name: &Vec<u8>) -> (r: bool)
    ensures
        r <==> mach_is_candidate(name@),
{
    crate::util::bytes_eq(name.as_slice(), "__DATA".as_bytes()) || crate::util::bytes_eq(
        name.as_slice(),
        "__TEXT".as_bytes(),
    ) || crate::util::bytes_eq(name.as_slice(), "__LINKEDIT".as_bytes())
}

/// An owned copy of a byte vector.
fn copy_bytes(v: &Vec<u8>) -> (r: Vec<u8>)
    ensures
        r@ == v@,
{
    let mut r: Vec<u8> = Vec::new();
    r.extend_from_slice(v.as_slice());
    proof {
        assert(r@ =~= v@);
    }
    r
}

/// The human-readable `cave (<section>)` label.
fn cave_label(name: &Vec<u8>) -> (r: String)
    ensures
        spec_starts_with_chars(r@, "cave"@),
{
    let mut label = "cave (".to_owned();
    label.append(crate::strutil::bytes_label(name).as_str());
    label.append(")");
    proof {
        reveal_strlit("cave (");
        reveal_strlit("cave");
        assert(label@.subrange(0, 4) =~= "cave"@);
    }
    label
}

/// The structural conditions under which appending past `__LINKEDIT`
/// succeeds: the segment exists, its file extent reaches the end of the
/// file, and the grown size fits in memory.
pub open spec fn mach_section_feasible(v: MachView, data_len: int, n: int) -> bool {
    &&& mach_first_named(v.segments@, "__LINKEDIT".spec_bytes()) matches Some(i) && {
        let s = v.segments@[i];
        let wo = s.fileoff + s.filesize;
        &&& n + 16 <= u64::MAX
        &&& wo >= data_len
        &&& wo + align_up_spec(n + 1, 16) <= usize::MAX
    }
}

/// What a successful `__LINKEDIT` append produces: the file grown by the
/// 16-byte-aligned size past the segment's declared extent, the string and
/// terminator at the extent, no structural field changed, and no virtual
/// address claimed. Dependent load commands and code-signature data are
/// deliberately not updated.
pub open spec fn mach_section_ok(
    data: Seq<u8>,
    v: MachView,
    bytes: Seq<u8>,
    out: Seq<u8>,
    res: PatchResult,
) -> bool {
    let i = mach_first_named(v.segments@, "__LINKEDIT".spec_bytes())->Some_0;
    let s = v.segments@[i];
    let wo = s.fileoff + s.filesize;
    &&& out.len() == wo + align_up_spec(bytes.len() + 1 as int, 16)
    &&& out.len() >= data.len() + bytes.len() + 1
    &&& out.subrange(wo, wo + bytes.len()) == bytes
    &&& out[wo + bytes.len()] == 0
    &&& forall|k: int| 0 <= k < data.len() ==> out[k] == data[k]
    &&& forall|k: int|
        data.len() <= k < out.len() && !(wo <= k < wo + bytes.len() + 1) ==> out[k] == 0
    &&& res.file_offset == Some(wo as u64)
    &&& res.virtual_address is None
    &&& res.format == mach_format(v)
    &&& res.strategy_used@ == "section (__LINKEDIT extension)"@
    &&& has_substring(out, bytes)
    &&& placed_at(out, bytes, res)
    &&& spec_starts_with_chars(res.strategy_used@, "section"@)
}

/// Append the string past the `__LINKEDIT` segment's declared extent,
/// updating no load command.
fn patch_macho_section(data: &[u8], v: &MachView, string_bytes: &[u8]) -> (r: Result<
    (Vec<u8>, PatchResult),
    PatchError,
>)
    requires
        string_bytes@.len() + 1 <= usize::MAX,
    ensures
        match r {
            Ok((out, res)) => mach_section_feasible(
                *v,
                data@.len() as int,
                string_bytes@.len() as int,
            ) && mach_section_ok(data@, *v, string_bytes@, out@, res),
            Err(e) => e is PatchFailed && !mach_section_feasible(
                *v,
                data@.len() as int,
                string_bytes@.len() as int,
            ),
        },
{
    let n = string_bytes.len();
    let idx = match find_first_named(v, "__LINKEDIT") {
        Some(i) => i,
        None => {
            return Err(PatchError::PatchFailed("no __LINKEDIT segment found".to_owned()));
        },
    };
    let s = &v.segments[idx];
    let wo128 = s.fileoff as u128 + s.filesize as u128;
    if wo128 < data.len() as u128 {
        return Err(PatchError::PatchFailed("__LINKEDIT ends inside the file".to_owned()));
    }
    if n as u128 + 16 > u64::MAX as u128 {
        return Err(PatchError::PatchFailed("string too large".to_owned()));
    }
    let pad: u64 = align_up(n as u64 + 1, 16);
    if wo128 + pad as u128 > usize::MAX as u128 {
        return Err(PatchError::PatchFailed("grown file size exceeds memory limits".to_owned()));
    }
    let wo = wo128 as usize;
    let mut patched: Vec<u8> = Vec::new();
    patched.extend_from_slice(data);
    proof {
        assert(patched@ =~= data@);
    }
    patched.resize(wo + pad as usize, 0u8);
    let ghost p1 = patched@;
    proof {
        assert(forall|k: int| 0 <= k < data@.len() ==> p1[k] == #[trigger] data@[k]) by {
            assert(forall|k: int|
                0 <= k < data@.len() ==> p1.subrange(0, data@.len() as int)[k] == #[trigger] p1[k]);
        }
    }
    crate::util::write_bytes_at(&mut patched, wo, string_bytes);
    let result = PatchResult {
        format: if v.is_64 {
            BinaryFormat::MachO64
        } else {
            BinaryFormat::MachO32
        },
        strategy_used: "section (__LINKEDIT extension)".to_owned(),
        virtual_address: None,
        file_offset: Some(wo as u64),
    };
    proof {
        let n_ = string_bytes@.len() as int;
        assert(patched@.subrange(wo as int, wo + n_) == string_bytes@);
        assert(patched@[wo + n_] == 0);
        assert(mach_section_ok(data@, *v, string_bytes@, patched@, result)) by {
            assert(crate::util::has_sub_at(patched@, string_bytes@, wo as int));
            assert(placed_at(patched@, string_bytes@, result));
            reveal_strlit("section (__LINKEDIT extension)");
            reveal_strlit("section");
            assert(result.strategy_used@.subrange(0, 7) =~= "section"@);
        }
    }
    Ok((patched, result))
}

/// The segment the extend strategy grows: `__DATA` when present, else the
/// last segment.
pub open spec fn mach_extend_target(v: MachView) -> Option<int> {
    match mach_first_named(v.segments@, "__DATA".spec_bytes()) {
        Some(i) => Some(i),
        None => if v.segments@.len() > 0 {
            Some(v.segments@.len() - 1)
        } else {
            None
        },
    }
}

/// The structural conditions under which extending the target segment
/// succeeds: a segment exists, its file extent reaches the end of the
/// file, the grown size fits in memory, and the virtual address
/// arithmetic does not overflow.
pub open spec fn mach_extend_feasible(v: MachView, data_len: int, n: int) -> bool {
    &&& mach_extend_target(v) matches Some(i) && {
        let s = v.segments@[i];
        let wo = s.fileoff + s.filesize;
        &&& wo >= data_len
        &&& wo + n + 1 <= usize::MAX
        &&& s.vmaddr + s.vmsize <= u64::MAX
    }
}

/// What a successful segment extend produces: the file grown by exactly
/// the string and terminator past the segment's file extent, no
/// structural field changed, and the address reported as the segment's
/// memory end.
pub open spec fn mach_extend_ok(
    data: Seq<u8>,
    v: MachView,
    bytes: Seq<u8>,
    out: Seq<u8>,
    res: PatchResult,
) -> bool {
    let i = mach_extend_target(v)->Some_0;
    let s = v.segments@[i];
    let wo = s.fileoff + s.filesize;
    &&& out.len() == wo + bytes.len() + 1
    &&& out.len() >= data.len() + bytes.len() + 1
    &&& out.subrange(wo, wo + bytes.len()) == bytes
    &&& out[wo + bytes.len()] == 0
    &&& forall|k: int| 0 <= k < data.len() ==> out[k] == data[k]
    &&& forall|k: int|
        data.len() <= k < out.len() && !(wo <= k < wo + bytes.len() + 1) ==> out[k] == 0
    &&& res.file_offset == Some(wo as u64)
    &&& res.virtual_address == Some((s.vmaddr + s.vmsize) as u64)
    &&& res.format == mach_format(v)
    &&& has_substring(out, bytes)
    &&& placed_at(out, bytes, res)
    &&& spec_starts_with_chars(res.strategy_used@, "extend"@)
}

/// Append the string after the `__DATA` (or last) segment's file extent,
/// reporting the segment's memory end as the address.
fn patch_macho_extend(data: &[u8], v: &MachView, string_bytes: &[u8]) -> (r: Result<
    (Vec<u8>, PatchResult),
    PatchError,
>)
    requires
        string_bytes@.len() + 1 <= usize::MAX,
    ensures
        match r {
            Ok((out, res)) => mach_extend_feasible(
                *v,
                data@.len() as int,
                string_bytes@.len() as int,
            ) && mach_extend_ok(data@, *v, string_bytes@, out@, res),
            Err(e) => e is PatchFailed && !mach_extend_feasible(
                *v,
                data@.len() as int,
                string_bytes@.len() as int,
            ),
        },
{
    let n = string_bytes.len();
    let idx = match find_first_named(v, "__DATA") {
        Some(i) => i,
        None => {
            if v.segments.len() == 0 {
                return Err(PatchError::PatchFailed("no segment found".to_owned()));
            }
            v.segments.len() - 1
        },
    };
    let s = &v.segments[idx];
    let wo128 = s.fileoff as u128 + s.filesize as u128;
    if wo128 < data.len() as u128 {
        return Err(PatchError::PatchFailed("segment ends inside the file".to_owned()));
    }
    if wo128 + n as u128 + 1 > usize::MAX as u128 {
        return Err(PatchError::PatchFailed("grown file size exceeds memory limits".to_owned()));
    }
    if s.vmaddr as u128 + s.vmsize as u128 > u64::MAX as u128 {
        return Err(PatchError::PatchFailed("virtual address overflow".to_owned()));
    }
    let wo = wo128 as usize;
    let mut patched: Vec<u8> = Vec::new();
    patched.extend_from_slice(data);
    proof {
        assert(patched@ =~= data@);
    }
    patched.resize(wo + n + 1, 0u8);
    let ghost p1 = patched@;
    proof {
        assert(forall|k: int| 0 <= k < data@.len() ==> p1[k] == #[trigger] data@[k]) by {
            assert(forall|k: int|
                0 <= k < data@.len() ==> p1.subrange(0, data@.len() as int)[k] == #[trigger] p1[k]);
        }
    }
    crate::util::write_bytes_at(&mut patched, wo, string_bytes);
    let result = PatchResult {
        format: if v.is_64 {
            BinaryFormat::MachO64
        } else {
            BinaryFormat::MachO32
        },
        strategy_used: extend_label(&s.name),
        virtual_address: Some(s.vmaddr + s.vmsize),
        file_offset: Some(wo as u64),
    };
    proof {
        let n_ = string_bytes@.len() as int;
        assert(patched@.subrange(wo as int, wo + n_) == string_bytes@);
        assert(patched@[wo + n_] == 0);
        assert(mach_extend_ok(data@, *v, string_bytes@, patched@, result)) by {
            assert(crate::util::has_sub_at(patched@, string_bytes@, wo as int));
            assert(placed_at(patched@, string_bytes@, result));
        }
    }
    Ok((patched, result))
}

/// The human-readable `extend (<segment>)` label.
fn extend_label(name: &Vec<u8>) -> (r: String)
    ensures
        spec_starts_with_chars(r@, "extend"@),
{
    let mut label = "extend (".to_owned();
    label.append(crate::strutil::bytes_label(name).as_str());
    label.append(")");
    proof {
        reveal_strlit("extend (");
        reveal_strlit("extend");
        assert(label@.subrange(0, 6) =~= "extend"@);
    }
    label
}

} // verus!
