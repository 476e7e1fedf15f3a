//! The UEFI memory map as the firmware writes it: descriptors of at least 40 bytes, one
//! every `descriptor_size` bytes, each with its physical start at offset 8 and its page
//! count at offset 24, little-endian.

use vstd::prelude::*;

verus! {

/// Bytes of the descriptor layout that this runtime reads (`EFI_MEMORY_DESCRIPTOR`).
pub const DESCRIPTOR_LAYOUT_SIZE: usize = 40;

/// Offset of `PhysicalStart` within a descriptor.
pub const PHYSICAL_START_OFFSET: usize = 8;

/// Offset of `NumberOfPages` within a descriptor.
pub const NUMBER_OF_PAGES_OFFSET: usize = 24;

/// Bytes in a UEFI page.
pub const EFI_PAGE_SIZE: u64 = 4096;

/// The little-endian 64-bit value of `s[o..o + 8]`.
pub open spec fn le_u64(s: Seq<u8>, o: int) -> int {
    s[o] + 256 * (s[o + 1] + 256 * (s[o + 2] + 256 * (s[o + 3] + 256 * (s[o + 4] + 256 * (s[o
        + 5] + 256 * (s[o + 6] + 256 * s[o + 7]))))))
}

/// The stride by which descriptors are counted: `descriptor_size`, but never less than
/// the layout's 40 bytes.
pub open spec fn counting_stride(descriptor_size: int) -> int {
    if descriptor_size > 40 {
        descriptor_size
    } else {
        40
    }
}

/// Descriptors in a map of `map_size` bytes.
pub open spec fn spec_descriptor_count(map_size: int, descriptor_size: int) -> int {
    map_size / counting_stride(descriptor_size)
}

/// Physical start of the descriptor at byte offset `off`.
pub open spec fn physical_start(buf: Seq<u8>, off: int) -> int {
    le_u64(buf, off + 8)
}

/// Page count of the descriptor at byte offset `off`.
pub open spec fn number_of_pages(buf: Seq<u8>, off: int) -> int {
    le_u64(buf, off + 24)
}

/// First address past the region that the descriptor at byte offset `off` describes.
pub open spec fn descriptor_end(buf: Seq<u8>, off: int) -> int {
    physical_start(buf, off) + number_of_pages(buf, off) * 4096
}

/// Largest end among the first `n` descriptors, or 0 when `n` is 0.
pub open spec fn highest_end(buf: Seq<u8>, descriptor_size: int, n: nat) -> int
    decreases n,
{
    if n == 0 {
        0
    } else {
        let prev = highest_end(buf, descriptor_size, (n - 1) as nat);
        let end = descriptor_end(buf, (n - 1) * descriptor_size);
        if end > prev {
            end
        } else {
            prev
        }
    }
}

/// Every descriptor's end fits in 64 bits.
pub open spec fn ends_fit(buf: Seq<u8>, map_size: int, descriptor_size: int) -> bool {
    forall|i: int|
        0 <= i < spec_descriptor_count(map_size, descriptor_size) ==> #[trigger] descriptor_end(
            buf,
            i * descriptor_size,
        ) <= u64::MAX
}

/// Descriptor `i` of a map of `map_size` bytes lies within its first `map_size` bytes.
proof fn lemma_descriptor_in_map(map_size: int, descriptor_size: int, i: int)
    requires
        map_size >= 0,
        descriptor_size >= 0,
        0 <= i < spec_descriptor_count(map_size, descriptor_size),
    ensures
        0 <= i * descriptor_size,
        i * descriptor_size + 40 <= map_size,
{
    let m = counting_stride(descriptor_size);
    let c = map_size / m;
    assert(c * m <= map_size) by (nonlinear_arith)
        requires
            m > 0,
            c == map_size / m,
            map_size >= 0,
    ;
    assert(i * descriptor_size + 40 <= (i + 1) * m) by (nonlinear_arith)
        requires
            0 <= i,
            0 <= descriptor_size <= m,
            40 <= m,
    ;
    assert((i + 1) * m <= c * m) by (nonlinear_arith)
        requires
            i + 1 <= c,
            m > 0,
    ;
    assert(0 <= i * descriptor_size) by (nonlinear_arith)
        requires
            0 <= i,
            0 <= descriptor_size,
    ;
}

/// Reads the little-endian 64-bit value at `buf[off..off + 8]`.
fn read_u64_le(buf: &[u8], off: usize) -> (value: u64)
    requires
        off + 8 <= buf@.len(),
    ensures
        value == le_u64(buf@, off as int),
{
    let len = buf.len();
    assert(off + 8 <= len);
    let mut v: u64 = buf[off + 7] as u64;
    v = v * 256 + buf[off + 6] as u64;
    v = v * 256 + buf[off + 5] as u64;
    v = v * 256 + buf[off + 4] as u64;
    v = v * 256 + buf[off + 3] as u64;
    v = v * 256 + buf[off + 2] as u64;
    v = v * 256 + buf[off + 1] as u64;
    v = v * 256 + buf[off] as u64;
    v
}

/// Number of descriptors in a map of `map_size` bytes whose entries are
/// `descriptor_size` bytes apart (the stride never counted below 40 bytes).
pub fn descriptor_count(map_size: usize, descriptor_size: usize) -> (count: usize)
    ensures
        count == spec_descriptor_count(map_size as int, descriptor_size as int),
{
    let stride: usize = if descriptor_size > DESCRIPTOR_LAYOUT_SIZE {
        descriptor_size
    } else {
        DESCRIPTOR_LAYOUT_SIZE
    };
    map_size / stride
}

/// Whether every descriptor's end (`physical_start + number_of_pages * 4096`) fits in
/// 64 bits, which `highest_mapped_address` needs.
pub fn memory_map_ends_fit(buf: &[u8], map_size: usize, descriptor_size: usize) -> (fits: bool)
    requires
        map_size <= buf@.len(),
    ensures
        fits == ends_fit(buf@, map_size as int, descriptor_size as int),
{
    let count = descriptor_count(map_size, descriptor_size);
    let mut i: usize = 0;
    while i < count
        invariant
            i <= count,
            count == spec_descriptor_count(map_size as int, descriptor_size as int),
            map_size <= buf@.len(),
            forall|j: int| 0 <= j < i ==> #[trigger] descriptor_end(buf@, j * descriptor_size)
                <= u64::MAX,
        decreases count - i,
    {
        proof {
            lemma_descriptor_in_map(map_size as int, descriptor_size as int, i as int);
        }
        let off: usize = i * descriptor_size;
        let start = read_u64_le(buf, off + PHYSICAL_START_OFFSET);
        let pages = read_u64_le(buf, off + NUMBER_OF_PAGES_OFFSET);
        let fits_here = match pages.checked_mul(EFI_PAGE_SIZE) {
            Some(bytes) => start.checked_add(bytes).is_some(),
            None => false,
        };
        if !fits_here {
            assert(!(descriptor_end(buf@, i * descriptor_size) <= u64::MAX));
            return false;
        }
        i = i + 1;
    }
    true
}

/// The highest end address (`physical_start + number_of_pages * 4096`) among the
/// descriptors of the map's first `map_size` bytes, or 0 for an empty map.
pub fn highest_mapped_address(buf: &[u8], map_size: usize, descriptor_size: usize) -> (highest: u64)
    requires
        map_size <= buf@.len(),
        ends_fit(buf@, map_size as int, descriptor_size as int),
    ensures
        highest == highest_end(
            buf@,
            descriptor_size as int,
            spec_descriptor_count(map_size as int, descriptor_size as int) as nat,
        ),
{
    let mut highest: u64 = 0;
    let count = descriptor_count(map_size, descriptor_size);
    let mut i: usize = 0;
    while i < count
        invariant
            i <= count,
            count == spec_descriptor_count(map_size as int, descriptor_size as int),
            map_size <= buf@.len(),
            ends_fit(buf@, map_size as int, descriptor_size as int),
            highest == highest_end(buf@, descriptor_size as int, i as nat),
        decreases count - i,
    {
        proof {
            lemma_descriptor_in_map(map_size as int, descriptor_size as int, i as int);
        }
        let off: usize = i * descriptor_size;
        let start = read_u64_le(buf, off + PHYSICAL_START_OFFSET);
        let pages = read_u64_le(buf, off + NUMBER_OF_PAGES_OFFSET);
        assert(descriptor_end(buf@, i * descriptor_size) <= u64::MAX);
        assert(pages * 4096 <= u64::MAX);
        let end: u64 = start + pages * EFI_PAGE_SIZE;
        if end > highest {
            highest = end;
        }
        i = i + 1;
    }
    highest
}

/// No descriptor ends above `highest_end`, and unless the map is empty, one ends at it.
pub proof fn lemma_highest_end_is_maximum(buf: Seq<u8>, descriptor_size: int, n: nat)
    ensures
        forall|i: int|
            0 <= i < n ==> #[trigger] descriptor_end(buf, i * descriptor_size) <= highest_end(
                buf,
                descriptor_size,
                n,
            ),
        n > 0 ==> exists|i: int|
            0 <= i < n && highest_end(buf, descriptor_size, n) == #[trigger] descriptor_end(
                buf,
                i * descriptor_size,
            ),
        n == 0 ==> highest_end(buf, descriptor_size, n) == 0,
    decreases n,
{
    if n > 0 {
        lemma_highest_end_is_maximum(buf, descriptor_size, (n - 1) as nat);
        let prev = highest_end(buf, descriptor_size, (n - 1) as nat);
        let last = descriptor_end(buf, (n - 1) * descriptor_size);
        if last <= prev && n > 1 {
            let w = choose|i: int|
                0 <= i < n - 1 && prev == #[trigger] descriptor_end(buf, i * descriptor_size);
            assert(highest_end(buf, descriptor_size, n) == descriptor_end(
                buf,
                w * descriptor_size,
            ));
        } else {
            assert(highest_end(buf, descriptor_size, n) == descriptor_end(
                buf,
                (n - 1) * descriptor_size,
            ));
        }
    }
}

/// `le_u64` is the little-endian value of the eight bytes at `o`: byte `o + k` weighs
/// `256^k`, and no other byte counts.
pub proof fn lemma_le_u64_value(s: Seq<u8>, o: int)
    ensures
        le_u64(s, o) == s[o] + s[o + 1] * 0x100 + s[o + 2] * 0x1_0000 + s[o + 3] * 0x100_0000
            + s[o + 4] * 0x1_0000_0000 + s[o + 5] * 0x100_0000_0000 + s[o + 6]
            * 0x1_0000_0000_0000 + s[o + 7] * 0x100_0000_0000_0000,
        0 <= le_u64(s, o) <= u64::MAX,
{
}

/// Descriptors are counted by whole strides of `max(descriptor_size, 40)` bytes: the
/// count's strides fit in the map, one more would not.
pub proof fn lemma_descriptor_count_strides(map_size: int, descriptor_size: int)
    requires
        map_size >= 0,
    ensures
        ({
            let stride = if descriptor_size > 40 {
                descriptor_size
            } else {
                40
            };
            let count = spec_descriptor_count(map_size, descriptor_size);
            &&& 0 <= count
            &&& count * stride <= map_size < (count + 1) * stride
        }),
{
    let stride = counting_stride(descriptor_size);
    let count = map_size / stride;
    assert(0 <= count && count * stride <= map_size < (count + 1) * stride) by (nonlinear_arith)
        requires
            stride >= 40,
            map_size >= 0,
            count == map_size / stride,
    ;
}

/// The highest end is read from each descriptor's `PhysicalStart` (bytes 8..16) and
/// `NumberOfPages` (bytes 24..32) alone, whatever its type: no descriptor among the
/// first `n` ends above it, one ends exactly at it when `n > 0`, and it is 0 for none.
pub proof fn lemma_highest_end_reads_every_descriptor(buf: Seq<u8>, descriptor_size: int, n: nat)
    ensures
        forall|i: int|
            0 <= i < n ==> #[trigger] le_u64(buf, i * descriptor_size + 8) + le_u64(
                buf,
                i * descriptor_size + 24,
            ) * 4096 <= highest_end(buf, descriptor_size, n),
        n > 0 ==> exists|i: int|
            0 <= i < n && highest_end(buf, descriptor_size, n) == le_u64(
                buf,
                #[trigger] (i * descriptor_size) + 8,
            ) + le_u64(buf, i * descriptor_size + 24) * 4096,
        n == 0 ==> highest_end(buf, descriptor_size, n) == 0,
{
    lemma_highest_end_is_maximum(buf, descriptor_size, n);
    assert forall|i: int|
        0 <= i < n implies #[trigger] le_u64(buf, i * descriptor_size + 8) + le_u64(
        buf,
        i * descriptor_size + 24,
    ) * 4096 <= highest_end(buf, descriptor_size, n) by {
        assert(descriptor_end(buf, i * descriptor_size) <= highest_end(buf, descriptor_size, n));
    }
    if n > 0 {
        let w = choose|i: int|
            0 <= i < n && highest_end(buf, descriptor_size, n) == #[trigger] descriptor_end(
                buf,
                i * descriptor_size,
            );
        assert(highest_end(buf, descriptor_size, n) == le_u64(buf, (w * descriptor_size) + 8)
            + le_u64(buf, w * descriptor_size + 24) * 4096);
    }
}

/// The overflow check asks exactly that every counted descriptor's
/// `PhysicalStart + NumberOfPages * 4096` fits in 64 bits, whatever its type.
pub proof fn lemma_ends_fit_reads_every_descriptor(buf: Seq<u8>, map_size: int, descriptor_size: int)
    ensures
        ends_fit(buf, map_size, descriptor_size) <==> forall|i: int|
            0 <= i < spec_descriptor_count(map_size, descriptor_size) ==> le_u64(
                buf,
                #[trigger] (i * descriptor_size) + 8,
            ) + le_u64(buf, i * descriptor_size + 24) * 4096 <= u64::MAX,
{
    if ends_fit(buf, map_size, descriptor_size) {
        assert forall|i: int|
            0 <= i < spec_descriptor_count(map_size, descriptor_size) implies le_u64(
            buf,
            #[trigger] (i * descriptor_size) + 8,
        ) + le_u64(buf, i * descriptor_size + 24) * 4096 <= u64::MAX by {
            assert(descriptor_end(buf, i * descriptor_size) <= u64::MAX);
        }
    }
    if forall|i: int|
        0 <= i < spec_descriptor_count(map_size, descriptor_size) ==> le_u64(
            buf,
            #[trigger] (i * descriptor_size) + 8,
        ) + le_u64(buf, i * descriptor_size + 24) * 4096 <= u64::MAX {
        assert forall|i: int|
            0 <= i < spec_descriptor_count(map_size, descriptor_size) implies #[trigger] descriptor_end(
            buf,
            i * descriptor_size,
        ) <= u64::MAX by {
            assert(le_u64(buf, (i * descriptor_size) + 8) + le_u64(buf, i * descriptor_size + 24)
                * 4096 <= u64::MAX);
        }
    }
}

} // verus!
