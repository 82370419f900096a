//! Discovery of code caves: maximal runs of zero bytes inside a byte
//! buffer that are large enough to hold injected data.

use vstd::prelude::*;

verus! {

/// A contiguous run of zero bytes inside a binary, usable as spare space
/// for injected data without growing the file.
#[derive(Debug, Clone)]
pub struct CodeCave {
    pub file_offset: usize,
    pub size: usize,
    pub virtual_address: Option<u64>,
    pub section_name: Option<String>,
}

/// Every byte of `data` in the half-open range `[off, end)` is zero.
pub open spec fn all_zero(data: Seq<u8>, off: int, end: int) -> bool {
    forall|k: int| off <= k < end ==> data[k] == 0
}

/// `[off, off + sz)` is a maximal run of zero bytes in `data`: every byte
/// in the range is zero and the run is bounded on each side by a non-zero
/// byte or by the buffer's start or end.
pub open spec fn is_maximal_run(data: Seq<u8>, off: int, sz: int) -> bool {
    &&& 0 <= off
    &&& 1 <= sz
    &&& off + sz <= data.len()
    &&& all_zero(data, off, off + sz)
    &&& (off == 0 || data[off - 1] != 0)
    &&& (off + sz == data.len() || data[off + sz] != 0)
}

/// Like `is_maximal_run`, but maximal relative to the half-open window
/// `[lo, hi)`: the run may touch the window's edges even when zero bytes
/// continue beyond them.
pub open spec fn is_maximal_run_in(data: Seq<u8>, lo: int, hi: int, off: int, sz: int) -> bool {
    &&& 0 <= lo
    &&& lo <= off
    &&& 1 <= sz
    &&& off + sz <= hi
    &&& hi <= data.len()
    &&& all_zero(data, off, off + sz)
    &&& (off == lo || data[off - 1] != 0)
    &&& (off + sz == hi || data[off + sz] != 0)
}

/// Some maximal zero-run of at least `needed` bytes exists in `data`.
pub open spec fn cave_available(data: Seq<u8>, needed: int) -> bool {
    exists|off: int, sz: int| is_maximal_run(data, off, sz) && sz >= needed
}

/// Some window-maximal zero-run of at least `needed` bytes exists in
/// `data` restricted to `[lo, hi)`.
pub open spec fn cave_available_in(data: Seq<u8>, lo: int, hi: int, needed: int) -> bool {
    exists|off: int, sz: int| is_maximal_run_in(data, lo, hi, off, sz) && sz >= needed
}

/// The cave records the run `[off, off + sz)`.
pub open spec fn cave_is(c: CodeCave, off: int, sz: int) -> bool {
    c.file_offset == off && c.size == sz
}

/// `caves` lists exactly the maximal zero-runs of `data` with size at
/// least `min_size`, each with no virtual address or section name resolved.
pub open spec fn reports_runs(data: Seq<u8>, min_size: int, caves: Seq<CodeCave>) -> bool {
    &&& forall|i: int| 0 <= i < caves.len() ==> {
        &&& is_maximal_run(data, (#[trigger] caves[i]).file_offset as int, caves[i].size as int)
        &&& caves[i].size >= min_size
        &&& caves[i].virtual_address is None
        &&& caves[i].section_name is None
    }
    &&& forall|off: int, sz: int|
        #[trigger] is_maximal_run(data, off, sz) && sz >= min_size ==> exists|i: int|
            0 <= i < caves.len() && cave_is(#[trigger] caves[i], off, sz)
}

/// Like `reports_runs`, over runs maximal relative to the window `[lo, hi)`.
pub open spec fn reports_runs_in(
    data: Seq<u8>,
    lo: int,
    hi: int,
    min_size: int,
    caves: Seq<CodeCave>,
) -> bool {
    &&& forall|i: int| 0 <= i < caves.len() ==> {
        &&& is_maximal_run_in(data, lo, hi, (#[trigger] caves[i]).file_offset as int, caves[i].size as int)
        &&& caves[i].size >= min_size
        &&& caves[i].virtual_address is None
        &&& caves[i].section_name is None
    }
    &&& forall|off: int, sz: int|
        #[trigger] is_maximal_run_in(data, lo, hi, off, sz) && sz >= min_size ==> exists|i: int|
            0 <= i < caves.len() && cave_is(#[trigger] caves[i], off, sz)
}

/// Sorted by size descending; caves of equal size keep ascending offsets,
/// the order in which a left-to-right scan encounters them.
pub open spec fn sorted_by_size_desc(caves: Seq<CodeCave>) -> bool {
    forall|i: int, j: int|
        0 <= i < j < caves.len() ==> (#[trigger] caves[i]).size > (#[trigger] caves[j]).size || (
        caves[i].size == caves[j].size && caves[i].file_offset < caves[j].file_offset)
}

/// Any run of zero bytes extends to a maximal run at least as large.
pub proof fn lemma_zero_run_extends(data: Seq<u8>, off: int, sz: int)
    requires
        0 <= off,
        1 <= sz,
        off + sz <= data.len(),
        all_zero(data, off, off + sz),
    ensures
        cave_available(data, sz),
    decreases off + (data.len() - (off + sz)),
{
    if off > 0 && data[off - 1] == 0 {
        lemma_zero_run_extends(data, off - 1, sz + 1);
        let (o2, s2) = choose|o2: int, s2: int| is_maximal_run(data, o2, s2) && s2 >= sz + 1;
        assert(is_maximal_run(data, o2, s2) && s2 >= sz);
    } else if off + sz < data.len() && data[off + sz] == 0 {
        lemma_zero_run_extends(data, off, sz + 1);
        let (o2, s2) = choose|o2: int, s2: int| is_maximal_run(data, o2, s2) && s2 >= sz + 1;
        assert(is_maximal_run(data, o2, s2) && s2 >= sz);
    } else {
        assert(is_maximal_run(data, off, sz));
    }
}

/// A maximal run of the sub-buffer `data[lo..hi]` is exactly a
/// window-maximal run of `data` relative to `[lo, hi)`, shifted by `lo`.
pub proof fn lemma_window_run(data: Seq<u8>, lo: int, hi: int, off: int, sz: int)
    requires
        0 <= lo <= hi <= data.len(),
    ensures
        is_maximal_run(data.subrange(lo, hi), off, sz) <==> is_maximal_run_in(
            data,
            lo,
            hi,
            off + lo,
            sz,
        ),
{
    let sub = data.subrange(lo, hi);
    if is_maximal_run(sub, off, sz) {
        assert forall|k: int| off + lo <= k < off + lo + sz implies data[k] == 0 by {
            assert(sub[k - lo] == 0);
        }
        assert(is_maximal_run_in(data, lo, hi, off + lo, sz));
    }
    if is_maximal_run_in(data, lo, hi, off + lo, sz) {
        assert forall|k: int| off <= k < off + sz implies sub[k] == 0 by {
            assert(data[k + lo] == 0);
        }
        assert(is_maximal_run(sub, off, sz));
    }
}

/// For a run strictly inside the window `[lo, hi)`, maximality relative to
/// the window and maximality in the whole buffer coincide.
pub proof fn lemma_interior_run_agrees(data: Seq<u8>, lo: int, hi: int, off: int, sz: int)
    requires
        0 <= lo,
        hi <= data.len(),
        lo < off,
        off + sz < hi,
        1 <= sz,
    ensures
        is_maximal_run(data, off, sz) <==> is_maximal_run_in(data, lo, hi, off, sz),
{
}

/// `[off, off + sz)` is the best cave of the whole buffer for `needed`
/// bytes: a maximal run of at least that size, at least as large as every
/// other such run, and earliest among runs of equal size.
pub open spec fn best_cave(data: Seq<u8>, needed: int, off: int, sz: int) -> bool {
    &&& is_maximal_run(data, off, sz)
    &&& sz >= needed
    &&& forall|o2: int, s2: int|
        #[trigger] is_maximal_run(data, o2, s2) && s2 >= needed ==> s2 < sz || (s2 == sz && o2
            >= off)
}

/// `[off, off + sz)` is the best cave of the window `[lo, hi)` for
/// `needed` bytes: a window-maximal run of at least that size, at least as
/// large as every other such run in the window, and earliest among runs of
/// equal size.
pub open spec fn best_cave_in(
    data: Seq<u8>,
    lo: int,
    hi: int,
    needed: int,
    off: int,
    sz: int,
) -> bool {
    &&& is_maximal_run_in(data, lo, hi, off, sz)
    &&& sz >= needed
    &&& forall|o2: int, s2: int|
        #[trigger] is_maximal_run_in(data, lo, hi, o2, s2) && s2 >= needed ==> s2 < sz || (s2 == sz
            && o2 >= off)
}

/// The whole-buffer best cave is unique.
pub proof fn lemma_best_cave_unique(
    data: Seq<u8>,
    needed: int,
    o1: int,
    s1: int,
    o2: int,
    s2: int,
)
    requires
        best_cave(data, needed, o1, s1),
        best_cave(data, needed, o2, s2),
    ensures
        o1 == o2 && s1 == s2,
{
}

/// The window-best cave is unique.
pub proof fn lemma_best_cave_in_unique(
    data: Seq<u8>,
    lo: int,
    hi: int,
    needed: int,
    o1: int,
    s1: int,
    o2: int,
    s2: int,
)
    requires
        best_cave_in(data, lo, hi, needed, o1, s1),
        best_cave_in(data, lo, hi, needed, o2, s2),
    ensures
        o1 == o2 && s1 == s2,
{
}

/// `c` occurs somewhere in `s`.
spec fn appears(s: Seq<CodeCave>, c: CodeCave) -> bool {
    exists|m: int| 0 <= m < s.len() && s[m] == c
}

/// `c` occurs in `s` at an index `n` or later.
spec fn appears_from(s: Seq<CodeCave>, n: int, c: CodeCave) -> bool {
    exists|k: int| n <= k < s.len() && s[k] == c
}

pub struct CaveFinder;

impl CaveFinder {
    /// Find every maximal run of zero bytes of at least `min_size` bytes,
    /// sorted by size descending (equal sizes in scan order).
    pub fn find_caves(data: &[u8], min_size: usize) -> (caves: Vec<CodeCave>)
        ensures
            reports_runs(data@, min_size as int, caves@),
            sorted_by_size_desc(caves@),
    {
        let mut raw: Vec<CodeCave> = Vec::new();
        let mut in_run: bool = false;
        let mut run_start: usize = 0;
        let mut i: usize = 0;
        while i < data.len()
            invariant
                i <= data@.len(),
                in_run ==> run_start < i && all_zero(data@, run_start as int, i as int) && (
                run_start == 0 || data@[run_start as int - 1] != 0),
                !in_run ==> (i == 0 || data@[i as int - 1] != 0),
                forall|k: int| 0 <= k < raw@.len() ==> {
                    &&& is_maximal_run(
                        data@,
                        (#[trigger] raw@[k]).file_offset as int,
                        raw@[k].size as int,
                    )
                    &&& raw@[k].size >= min_size
                    &&& raw@[k].file_offset + raw@[k].size < i
                    &&& raw@[k].virtual_address is None
                    &&& raw@[k].section_name is None
                },
                forall|off: int, sz: int|
                    #[trigger] is_maximal_run(data@, off, sz) && sz >= min_size && off + sz < i
                        ==> exists|k: int| 0 <= k < raw@.len() && cave_is(#[trigger] raw@[k], off, sz),
                in_run ==> forall|k: int|
                    0 <= k < raw@.len() ==> (#[trigger] raw@[k]).file_offset + raw@[k].size
                        <= run_start,
                forall|k1: int, k2: int|
                    0 <= k1 < k2 < raw@.len() ==> (#[trigger] raw@[k1]).file_offset < (
                    #[trigger] raw@[k2]).file_offset,
            decreases data@.len() - i,
        {
            if data[i] == 0 {
                if !in_run {
                    run_start = i;
                    in_run = true;
                }
                proof {
                    // no maximal run can end at `i`: its bounding byte would be zero
                    assert forall|off: int, sz: int|
                        #[trigger] is_maximal_run(data@, off, sz) && sz >= min_size && off + sz < i
                            + 1 implies exists|k: int|
                        0 <= k < raw@.len() && cave_is(#[trigger] raw@[k], off, sz) by {
                        assert(off + sz != i);
                    }
                }
            } else {
                proof {
                    // the only maximal run ending at `i` is the current one
                    if in_run {
                        assert forall|off: int, sz: int|
                            #[trigger] is_maximal_run(data@, off, sz) && off + sz == i implies off
                            == run_start && sz == i - run_start by {
                            if off < run_start {
                                assert(data@[run_start as int - 1] == 0);
                            }
                            if off > run_start {
                                assert(data@[off - 1] == 0);
                            }
                        }
                    }
                }
                if in_run && i - run_start >= min_size {
                    let ghost old_raw = raw@;
                    raw.push(
                        CodeCave {
                            file_offset: run_start,
                            size: i - run_start,
                            virtual_address: None,
                            section_name: None,
                        },
                    );
                    proof {
                        assert forall|off: int, sz: int|
                            #[trigger] is_maximal_run(data@, off, sz) && sz >= min_size && off + sz
                                < i + 1 implies exists|k: int|
                            0 <= k < raw@.len() && cave_is(#[trigger] raw@[k], off, sz) by {
                            if off + sz == i {
                                assert(cave_is(raw@[raw@.len() - 1], off, sz));
                            } else {
                                let k = choose|k: int|
                                    0 <= k < old_raw.len() && cave_is(old_raw[k], off, sz);
                                assert(raw@[k] == old_raw[k]);
                                assert(cave_is(raw@[k], off, sz));
                            }
                        }
                    }
                } else {
                    proof {
                        assert forall|off: int, sz: int|
                            #[trigger] is_maximal_run(data@, off, sz) && sz >= min_size && off + sz
                                == i implies false by {
                            if !in_run {
                                if i > 0 {
                                    assert(data@[i as int - 1] == 0);
                                }
                            }
                        }
                    }
                }
                in_run = false;
            }
            i = i + 1;
        }
        proof {
            if in_run {
                assert forall|off: int, sz: int|
                    #[trigger] is_maximal_run(data@, off, sz) && off + sz == data@.len() implies off
                    == run_start && sz == data@.len() - run_start by {
                    if off < run_start {
                        assert(data@[run_start as int - 1] == 0);
                    }
                    if off > run_start {
                        assert(data@[off - 1] == 0);
                    }
                }
            } else {
                assert forall|off: int, sz: int|
                    #[trigger] is_maximal_run(data@, off, sz) implies off + sz < data@.len() by {
                    if off + sz == data@.len() {
                        assert(data@[data@.len() - 1] == 0);
                    }
                }
            }
        }
        if in_run && data.len() - run_start >= min_size {
            let ghost old_raw = raw@;
            raw.push(
                CodeCave {
                    file_offset: run_start,
                    size: data.len() - run_start,
                    virtual_address: None,
                    section_name: None,
                },
            );
            proof {
                assert forall|off: int, sz: int|
                    #[trigger] is_maximal_run(data@, off, sz) && sz >= min_size implies exists|
                    k: int,
                |
                    0 <= k < raw@.len() && cave_is(#[trigger] raw@[k], off, sz) by {
                    if off + sz == data@.len() {
                        assert(cave_is(raw@[raw@.len() - 1], off, sz));
                    } else {
                        let k = choose|k: int|
                            0 <= k < old_raw.len() && cave_is(old_raw[k], off, sz);
                        assert(raw@[k] == old_raw[k]);
                        assert(cave_is(raw@[k], off, sz));
                    }
                }
            }
        }
        assert(reports_runs(data@, min_size as int, raw@));
        let ghost raw0 = raw@;
        let caves = Self::sort_by_size(raw);
        assert forall|i: int| 0 <= i < caves@.len() implies {
            &&& is_maximal_run(
                data@,
                (#[trigger] caves@[i]).file_offset as int,
                caves@[i].size as int,
            )
            &&& caves@[i].size >= min_size
            &&& caves@[i].virtual_address is None
            &&& caves@[i].section_name is None
        } by {
            assert(appears(raw0, caves@[i]));
            let k = choose|k: int| 0 <= k < raw0.len() && raw0[k] == caves@[i];
            assert(is_maximal_run(data@, raw0[k].file_offset as int, raw0[k].size as int));
        }
        assert forall|off: int, sz: int|
            #[trigger] is_maximal_run(data@, off, sz) && sz >= min_size implies exists|i: int|
            0 <= i < caves@.len() && cave_is(#[trigger] caves@[i], off, sz) by {
            let k = choose|k: int| 0 <= k < raw0.len() && cave_is(raw0[k], off, sz);
            assert(appears(caves@, raw0[k]));
            let m = choose|m: int| 0 <= m < caves@.len() && caves@[m] == raw0[k];
            assert(cave_is(caves@[m], off, sz));
        }
        caves
    }

    /// Find caves inside the half-open window `[start, end)` of `data`;
    /// reported offsets are relative to the whole buffer. An empty or
    /// out-of-bounds window yields no caves.
    pub fn find_caves_in_range(data: &[u8], start: usize, end: usize, min_size: usize) -> (caves:
        Vec<CodeCave>)
        ensures
            (start >= data@.len() || end > data@.len() || start >= end) ==> caves@.len() == 0,
            !(start >= data@.len() || end > data@.len() || start >= end) ==> {
                &&& reports_runs_in(data@, start as int, end as int, min_size as int, caves@)
                &&& sorted_by_size_desc(caves@)
            },
    {
        if start >= data.len() || end > data.len() || start >= end {
            return Vec::new();
        }
        let slice = vstd::slice::slice_subrange(data, start, end);
        let local = Self::find_caves(slice, min_size);
        let mut caves: Vec<CodeCave> = Vec::new();
        let mut idx: usize = 0;
        while idx < local.len()
            invariant
                idx <= local@.len(),
                caves@.len() == idx,
                slice@ == data@.subrange(start as int, end as int),
                start < end <= data@.len(),
                reports_runs(slice@, min_size as int, local@),
                forall|m: int|
                    0 <= m < idx ==> {
                        &&& (#[trigger] caves@[m]).file_offset == local@[m].file_offset + start
                        &&& caves@[m].size == local@[m].size
                        &&& caves@[m].virtual_address is None
                        &&& caves@[m].section_name is None
                    },
            decreases local@.len() - idx,
        {
            assert(is_maximal_run(
                slice@,
                local@[idx as int].file_offset as int,
                local@[idx as int].size as int,
            ));
            let c = CodeCave {
                file_offset: local[idx].file_offset + start,
                size: local[idx].size,
                virtual_address: None,
                section_name: None,
            };
            caves.push(c);
            idx = idx + 1;
        }
        proof {
            assert forall|i: int| 0 <= i < caves@.len() implies {
                &&& is_maximal_run_in(
                    data@,
                    start as int,
                    end as int,
                    (#[trigger] caves@[i]).file_offset as int,
                    caves@[i].size as int,
                )
                &&& caves@[i].size >= min_size
                &&& caves@[i].virtual_address is None
                &&& caves@[i].section_name is None
            } by {
                assert(is_maximal_run(
                    slice@,
                    local@[i].file_offset as int,
                    local@[i].size as int,
                ));
                lemma_window_run(
                    data@,
                    start as int,
                    end as int,
                    local@[i].file_offset as int,
                    local@[i].size as int,
                );
            }
            assert forall|off: int, sz: int|
                #[trigger] is_maximal_run_in(data@, start as int, end as int, off, sz) && sz
                    >= min_size implies exists|i: int|
                0 <= i < caves@.len() && cave_is(#[trigger] caves@[i], off, sz) by {
                lemma_window_run(data@, start as int, end as int, off - start, sz);
                assert(is_maximal_run(slice@, off - start, sz));
                let k = choose|k: int| 0 <= k < local@.len() && cave_is(local@[k], off - start, sz);
                assert(cave_is(caves@[k], off, sz));
            }
            assert forall|i: int, j: int| 0 <= i < j < caves@.len() implies (
            #[trigger] caves@[i]).size > (#[trigger] caves@[j]).size || (caves@[i].size
                == caves@[j].size && caves@[i].file_offset < caves@[j].file_offset) by {
                assert(local@[i].size > local@[j].size || (local@[i].size == local@[j].size
                    && local@[i].file_offset < local@[j].file_offset));
            }
        }
        caves
    }

    /// The best cave that can hold `needed_size` bytes: the largest cave of
    /// at least that size, ties resolved to the lowest offset.
    pub fn find_best_cave(data: &[u8], needed_size: usize) -> (r: Option<CodeCave>)
        ensures
            match r {
                Some(c) => {
                    &&& best_cave(data@, needed_size as int, c.file_offset as int, c.size as int)
                    &&& c.virtual_address is None
                    &&& c.section_name is None
                },
                None => !cave_available(data@, needed_size as int),
            },
    {
        let mut caves = Self::find_caves(data, needed_size);
        if caves.len() == 0 {
            proof {
                assert forall|off: int, sz: int|
                    !(#[trigger] is_maximal_run(data@, off, sz) && sz >= needed_size) by {
                    if is_maximal_run(data@, off, sz) && sz >= needed_size {
                        let i = choose|i: int| 0 <= i < caves@.len() && cave_is(caves@[i], off, sz);
                        assert(false);
                    }
                }
            }
            None
        } else {
            let ghost all = caves@;
            let c = caves.remove(0);
            proof {
                assert(c == all[0]);
                assert forall|off: int, sz: int|
                    #[trigger] is_maximal_run(data@, off, sz) && sz >= needed_size implies sz
                    < c.size || (sz == c.size && off >= c.file_offset) by {
                    let i = choose|i: int| 0 <= i < all.len() && cave_is(all[i], off, sz);
                    if i > 0 {
                        assert(all[0].size > all[i].size || (all[0].size == all[i].size
                            && all[0].file_offset < all[i].file_offset));
                    }
                }
            }
            Some(c)
        }
    }

    /// The size of the largest cave in `data`, or `0` when `data` holds no
    /// zero byte at all.
    pub fn largest_cave_size(data: &[u8]) -> (r: usize)
        ensures
            forall|off: int, sz: int| #[trigger] is_maximal_run(data@, off, sz) ==> sz <= r,
            r != 0 ==> exists|off: int| is_maximal_run(data@, off, r as int),
            r == 0 ==> forall|k: int| 0 <= k < data@.len() ==> data@[k] != 0,
    {
        let caves = Self::find_caves(data, 1);
        if caves.len() == 0 {
            proof {
                assert forall|off: int, sz: int| #[trigger] is_maximal_run(data@, off, sz) implies sz
                    <= 0 by {
                    let i = choose|i: int| 0 <= i < caves@.len() && cave_is(caves@[i], off, sz);
                    assert(false);
                }
                assert forall|k: int| 0 <= k < data@.len() implies data@[k] != 0 by {
                    if data@[k] == 0 {
                        lemma_zero_run_extends(data@, k, 1);
                        let (o2, s2) = choose|o2: int, s2: int|
                            is_maximal_run(data@, o2, s2) && s2 >= 1;
                        assert(s2 <= 0);
                    }
                }
            }
            0
        } else {
            let r = caves[0].size;
            proof {
                assert(is_maximal_run(data@, caves@[0].file_offset as int, r as int));
                assert forall|off: int, sz: int| #[trigger] is_maximal_run(data@, off, sz) implies sz
                    <= r by {
                    let i = choose|i: int| 0 <= i < caves@.len() && cave_is(caves@[i], off, sz);
                    if i > 0 {
                        assert(caves@[0].size > caves@[i].size || (caves@[0].size == caves@[i].size
                            && caves@[0].file_offset < caves@[i].file_offset));
                    }
                }
            }
            r
        }
    }

    /// Stable insertion sort by size descending. The input's offsets are
    /// strictly increasing, so equal sizes end up in ascending offset order.
    #[verifier::rlimit(60)]
    fn sort_by_size(raw: Vec<CodeCave>) -> (out: Vec<CodeCave>)
        requires
            forall|k1: int, k2: int|
                0 <= k1 < k2 < raw@.len() ==> (#[trigger] raw@[k1]).file_offset < (
                #[trigger] raw@[k2]).file_offset,
        ensures
            sorted_by_size_desc(out@),
            forall|k: int| 0 <= k < raw@.len() ==> appears(out@, #[trigger] raw@[k]),
            forall|m: int| 0 <= m < out@.len() ==> appears(raw@, #[trigger] out@[m]),
    {
        let ghost orig = raw@;
        let mut rest = raw;
        let mut out: Vec<CodeCave> = Vec::new();
        proof {
            assert(rest@ =~= orig.subrange(0, rest@.len() as int));
        }
        while rest.len() > 0
            invariant
                rest@ == orig.subrange(0, rest@.len() as int),
                rest@.len() <= orig.len(),
                forall|k1: int, k2: int|
                    0 <= k1 < k2 < orig.len() ==> (#[trigger] orig[k1]).file_offset < (
                    #[trigger] orig[k2]).file_offset,
                sorted_by_size_desc(out@),
                forall|k: int| rest@.len() <= k < orig.len() ==> appears(out@, #[trigger] orig[k]),
                forall|m: int|
                    0 <= m < out@.len() ==> appears_from(
                        orig,
                        rest@.len() as int,
                        #[trigger] out@[m],
                    ),
            decreases rest@.len(),
        {
            let ghost n0 = rest@.len() as int;
            let c = rest.pop().unwrap();
            assert(c == orig[n0 - 1]);
            let mut p: usize = 0;
            while p < out.len() && out[p].size > c.size
                invariant
                    p <= out@.len(),
                    forall|q: int| 0 <= q < p ==> (#[trigger] out@[q]).size > c.size,
                decreases out@.len() - p,
            {
                p = p + 1;
            }
            let ghost old_out = out@;
            out.insert(p, c);
            assert forall|m: int| 0 <= m < out@.len() implies appears_from(
                orig,
                n0 - 1,
                #[trigger] out@[m],
            ) by {
                if m < p {
                    assert(out@[m] == old_out[m]);
                    assert(appears_from(orig, n0, old_out[m]));
                } else if m == p {
                    assert(out@[m] == orig[n0 - 1]);
                } else {
                    assert(out@[m] == old_out[m - 1]);
                    assert(appears_from(orig, n0, old_out[m - 1]));
                }
            }
            assert forall|k: int| n0 - 1 <= k < orig.len() implies appears(
                out@,
                #[trigger] orig[k],
            ) by {
                if k == n0 - 1 {
                    assert(out@[p as int] == orig[k]);
                } else {
                    let m0 = choose|m0: int| 0 <= m0 < old_out.len() && old_out[m0] == orig[k];
                    if m0 < p {
                        assert(out@[m0] == orig[k]);
                    } else {
                        assert(out@[m0 + 1] == orig[k]);
                    }
                }
            }
            assert forall|m1: int, m2: int| 0 <= m1 < m2 < out@.len() implies (
            #[trigger] out@[m1]).size > (#[trigger] out@[m2]).size || (out@[m1].size
                == out@[m2].size && out@[m1].file_offset < out@[m2].file_offset) by {
                if m1 < p && m2 == p {
                    assert(out@[m1] == old_out[m1]);
                    assert(old_out[m1].size > c.size);
                } else if m1 == p && m2 > p {
                    assert(out@[m2] == old_out[m2 - 1]);
                    assert(old_out[m2 - 1].size <= c.size);
                    if old_out[m2 - 1].size == c.size {
                        let k2 = choose|k2: int|
                            n0 <= k2 < orig.len() && orig[k2] == old_out[m2 - 1];
                        assert(orig[n0 - 1].file_offset < orig[k2].file_offset);
                    }
                } else if m1 < p && m2 > p {
                    assert(out@[m1] == old_out[m1]);
                    assert(out@[m2] == old_out[m2 - 1]);
                } else if m2 < p {
                    assert(out@[m1] == old_out[m1]);
                    assert(out@[m2] == old_out[m2]);
                } else if m1 > p {
                    assert(out@[m1] == old_out[m1 - 1]);
                    assert(out@[m2] == old_out[m2 - 1]);
                }
            }
            assert(rest@ =~= orig.subrange(0, n0 - 1));
        }
        out
    }
}

} // verus!
