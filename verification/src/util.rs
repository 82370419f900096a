//! Byte-buffer helpers shared by the format patchers: substring search,
//! in-place writes, little-endian field writes, and alignment.

use vstd::prelude::*;

verus! {

/// `needle` occurs in `hay` starting at index `i`.
pub open spec fn has_sub_at(hay: Seq<u8>, needle: Seq<u8>, i: int) -> bool {
    &&& 0 <= i
    &&& i + needle.len() <= hay.len()
    &&& hay.subrange(i, i + needle.len()) == needle
}

/// `needle` occurs somewhere in `hay` as a contiguous byte sequence.
pub open spec fn has_substring(hay: Seq<u8>, needle: Seq<u8>) -> bool {
    exists|i: int| has_sub_at(hay, needle, i)
}

/// `v` rounded up to the next multiple of `a`; `a == 0` leaves `v` as is.
pub open spec fn align_up_spec(v: int, a: int) -> int {
    if a == 0 {
        v
    } else if v % a == 0 {
        v
    } else {
        v + (a - v % a)
    }
}

/// `s` begins with `p`.
pub open spec fn spec_starts_with(s: Seq<u8>, p: Seq<u8>) -> bool {
    p.len() <= s.len() && s.subrange(0, p.len() as int) == p
}

/// `s` begins with `p`, over characters.
pub open spec fn spec_starts_with_chars(s: Seq<char>, p: Seq<char>) -> bool {
    p.len() <= s.len() && s.subrange(0, p.len() as int) == p
}

/// Byte-for-byte equality of two slices.
pub fn bytes_eq(a: &[u8], b: &[u8]) -> (r: bool)
    ensures
        r <==> a@ == b@,
{
    if a.len() != b.len() {
        return false;
    }
    let mut j: usize = 0;
    while j < a.len()
        invariant
            j <= a@.len(),
            a@.len() == b@.len(),
            forall|k: int| 0 <= k < j ==> a@[k] == b@[k],
        decreases a@.len() - j,
    {
        if a[j] != b[j] {
            return false;
        }
        j = j + 1;
    }
    proof {
        assert(a@ =~= b@);
    }
    true
}

/// Whether `a` begins with `prefix`.
pub fn bytes_starts_with(a: &[u8], prefix: &[u8]) -> (r: bool)
    ensures
        r <==> (prefix@.len() <= a@.len() && a@.subrange(0, prefix@.len() as int) == prefix@),
{
    if prefix.len() > a.len() {
        return false;
    }
    let mut j: usize = 0;
    while j < prefix.len()
        invariant
            j <= prefix@.len(),
            prefix@.len() <= a@.len(),
            forall|k: int| 0 <= k < j ==> a@[k] == prefix@[k],
        decreases prefix@.len() - j,
    {
        if a[j] != prefix[j] {
            proof {
                if a@.subrange(0, prefix@.len() as int) == prefix@ {
                    assert(a@.subrange(0, prefix@.len() as int)[j as int] == prefix@[j as int]);
                }
            }
            return false;
        }
        j = j + 1;
    }
    proof {
        assert(a@.subrange(0, prefix@.len() as int) =~= prefix@);
    }
    true
}

/// Whether `needle` occurs in `hay` at index `at`.
fn matches_at(hay: &[u8], needle: &[u8], at: usize) -> (r: bool)
    requires
        at + needle@.len() <= hay@.len(),
    ensures
        r <==> has_sub_at(hay@, needle@, at as int),
{
    let hn = hay.len();
    let mut j: usize = 0;
    while j < needle.len()
        invariant
            j <= needle@.len(),
            at + needle@.len() <= hay@.len(),
            hay@.len() == hn,
            forall|k: int| 0 <= k < j ==> hay@[at + k] == needle@[k],
        decreases needle@.len() - j,
    {
        if hay[at + j] != needle[j] {
            proof {
                if has_sub_at(hay@, needle@, at as int) {
                    assert(hay@.subrange(at as int, at + needle@.len())[j as int] == needle@[j as int]);
                }
            }
            return false;
        }
        j = j + 1;
    }
    proof {
        assert(hay@.subrange(at as int, at + needle@.len()) =~= needle@);
    }
    true
}

/// Whether `needle` occurs anywhere in `hay`; the empty needle occurs in
/// every buffer.
pub fn contains_bytes(hay: &[u8], needle: &[u8]) -> (r: bool)
    ensures
        r <==> has_substring(hay@, needle@),
{
    if needle.len() > hay.len() {
        proof {
            if has_substring(hay@, needle@) {
                let i = choose|i: int| has_sub_at(hay@, needle@, i);
                assert(false);
            }
        }
        return false;
    }
    if needle.len() == 0 {
        proof {
            assert(hay@.subrange(0, 0) =~= needle@);
            assert(has_sub_at(hay@, needle@, 0));
        }
        return true;
    }
    let hn = hay.len();
    let mut i: usize = 0;
    loop
        invariant
            i <= hay@.len() - needle@.len() + 1,
            1 <= needle@.len() <= hay@.len(),
            hay@.len() == hn,
            forall|k: int| 0 <= k < i ==> !has_sub_at(hay@, needle@, k),
        decreases hay@.len() - needle@.len() + 1 - i,
    {
        if i > hay.len() - needle.len() {
            proof {
                if has_substring(hay@, needle@) {
                    let k = choose|k: int| has_sub_at(hay@, needle@, k);
                    assert(!has_sub_at(hay@, needle@, k));
                }
            }
            return false;
        }
        if matches_at(hay, needle, i) {
            return true;
        }
        i = i + 1;
    }
}

/// Overwrite `buf[off .. off + src.len()]` with `src`, leaving every other
/// byte unchanged.
pub fn write_bytes_at(buf: &mut Vec<u8>, off: usize, src: &[u8])
    requires
        off + src@.len() <= old(buf)@.len(),
    ensures
        final(buf)@.len() == old(buf)@.len(),
        final(buf)@.subrange(off as int, off + src@.len()) == src@,
        forall|k: int|
            0 <= k < final(buf)@.len() && !(off <= k < off + src@.len()) ==> final(buf)@[k] == old(buf)@[k],
{
    let bn = buf.len();
    let mut j: usize = 0;
    while j < src.len()
        invariant
            j <= src@.len(),
            off + src@.len() <= buf@.len(),
            buf@.len() == bn,
            buf@.len() == old(buf)@.len(),
            forall|k: int| 0 <= k < j ==> buf@[off + k] == src@[k],
            forall|k: int|
                0 <= k < buf@.len() && !(off <= k < off + src@.len()) ==> buf@[k] == old(buf)@[k],
        decreases src@.len() - j,
    {
        buf[off + j] = src[j];
        j = j + 1;
    }
    proof {
        assert(buf@.subrange(off as int, off + src@.len()) =~= src@);
    }
}

/// Write `v` at `buf[off .. off + 4]` in little-endian byte order.
pub fn write_u32_le_at(buf: &mut Vec<u8>, off: usize, v: u32)
    requires
        off + 4 <= old(buf)@.len(),
    ensures
        final(buf)@.len() == old(buf)@.len(),
        final(buf)@.subrange(off as int, off + 4) == vstd::bytes::spec_u32_to_le_bytes(v),
        forall|k: int| 0 <= k < final(buf)@.len() && !(off <= k < off + 4) ==> final(buf)@[k] == old(buf)@[k],
{
    let bytes = vstd::bytes::u32_to_le_bytes(v);
    proof {
        vstd::bytes::lemma_auto_spec_u32_to_from_le_bytes();
    }
    write_bytes_at(buf, off, bytes.as_slice());
}

/// Write `v` at `buf[off .. off + 8]` in little-endian byte order.
pub fn write_u64_le_at(buf: &mut Vec<u8>, off: usize, v: u64)
    requires
        off + 8 <= old(buf)@.len(),
    ensures
        final(buf)@.len() == old(buf)@.len(),
        final(buf)@.subrange(off as int, off + 8) == vstd::bytes::spec_u64_to_le_bytes(v),
        forall|k: int| 0 <= k < final(buf)@.len() && !(off <= k < off + 8) ==> final(buf)@[k] == old(buf)@[k],
{
    let bytes = vstd::bytes::u64_to_le_bytes(v);
    proof {
        vstd::bytes::lemma_auto_spec_u64_to_from_le_bytes();
    }
    write_bytes_at(buf, off, bytes.as_slice());
}

/// Write `v` at `buf[off .. off + 2]` in little-endian byte order.
pub fn write_u16_le_at(buf: &mut Vec<u8>, off: usize, v: u16)
    requires
        off + 2 <= old(buf)@.len(),
    ensures
        final(buf)@.len() == old(buf)@.len(),
        final(buf)@.subrange(off as int, off + 2) == vstd::bytes::spec_u16_to_le_bytes(v),
        forall|k: int| 0 <= k < final(buf)@.len() && !(off <= k < off + 2) ==> final(buf)@[k] == old(buf)@[k],
{
    let bytes = vstd::bytes::u16_to_le_bytes(v);
    proof {
        vstd::bytes::lemma_auto_spec_u16_to_from_le_bytes();
    }
    write_bytes_at(buf, off, bytes.as_slice());
}

/// Round `value` up to the next multiple of `alignment`; an alignment of
/// zero leaves the value unchanged.
pub fn align_up(value: u64, alignment: u64) -> (r: u64)
    requires
        value + alignment <= u64::MAX + 1,
    ensures
        r == align_up_spec(value as int, alignment as int),
        alignment > 0 ==> r % alignment == 0 && value <= r < value + alignment,
        alignment == 0 ==> r == value,
{
    if alignment == 0 {
        return value;
    }
    let rem = value % alignment;
    if rem == 0 {
        proof {
            vstd::arithmetic::div_mod::lemma_fundamental_div_mod(value as int, alignment as int);
        }
        value
    } else {
        let r = value + (alignment - rem);
        proof {
            vstd::arithmetic::div_mod::lemma_fundamental_div_mod(value as int, alignment as int);
            assert(r == alignment * ((value as int / alignment as int) + 1)) by {
                assert(value == alignment * (value as int / alignment as int) + rem);
                assert(alignment * ((value as int / alignment as int) + 1) == alignment * (value
                    as int / alignment as int) + alignment) by (nonlinear_arith);
            }
            vstd::arithmetic::div_mod::lemma_mod_multiples_basic(
                (value as int / alignment as int) + 1,
                alignment as int,
            );
            assert(((value as int / alignment as int) + 1) * alignment as int == alignment as int
                * ((value as int / alignment as int) + 1)) by (nonlinear_arith);
        }
        r
    }
}

} // verus!
