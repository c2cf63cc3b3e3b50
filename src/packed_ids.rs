//! Point ids packed as little-endian numbers of a fixed byte width.
use vstd::prelude::*;

use crate::deletion::PointOffsetType;

verus! {

/// `256` to the power `k`.
pub open spec fn byte_scale(k: nat) -> int
    decreases k,
{
    if k == 0 {
        1
    } else {
        256 * byte_scale((k - 1) as nat)
    }
}

/// The number held little-endian in the `n` bytes of `b` from `start` on.
pub open spec fn le_value(b: Seq<u8>, start: int, n: nat) -> int
    decreases n,
{
    if n == 0 {
        0
    } else {
        le_value(b, start, (n - 1) as nat) + byte_scale((n - 1) as nat) * b[start + n - 1]
    }
}

/// The `k`-th id of `bytes` read at `width` bytes per id.
pub open spec fn id_at(bytes: Seq<u8>, width: nat, k: int) -> PointOffsetType {
    le_value(bytes, k * width, width) as PointOffsetType
}

/// The ids that `bytes` holds at `width` bytes per id.
pub open spec fn unpacked(bytes: Seq<u8>, width: nat) -> Seq<PointOffsetType> {
    Seq::new(bytes.len() / width, |k: int| id_at(bytes, width, k))
}

proof fn lemma_byte_scale_values()
    ensures
        byte_scale(0) == 1,
        byte_scale(1) == 256,
        byte_scale(2) == 65536,
        byte_scale(3) == 16777216,
        byte_scale(4) == 4294967296,
{
    reveal_with_fuel(byte_scale, 5);
}

proof fn lemma_byte_scale_positive(k: nat)
    ensures
        byte_scale(k) > 0,
    decreases k,
{
    if k > 0 {
        lemma_byte_scale_positive((k - 1) as nat);
    }
}

proof fn lemma_le_value_bounds(b: Seq<u8>, start: int, n: nat)
    ensures
        0 <= le_value(b, start, n) < byte_scale(n),
    decreases n,
{
    if n > 0 {
        let m = (n - 1) as nat;
        lemma_le_value_bounds(b, start, m);
        lemma_byte_scale_positive(m);
        let s = byte_scale(m);
        let lo = le_value(b, start, m);
        let d = b[start + n - 1] as int;
        assert(0 <= lo + s * d < 256 * s) by (nonlinear_arith)
            requires
                0 <= lo < s,
                0 <= d < 256,
        ;
    }
}

/// `le_value` reads only its own bytes.
proof fn lemma_le_value_frame(b1: Seq<u8>, b2: Seq<u8>, start: int, n: nat)
    requires
        0 <= start,
        start + n <= b1.len(),
        start + n <= b2.len(),
        forall|i: int| start <= i < start + n ==> b1[i] == b2[i],
    ensures
        le_value(b1, start, n) == le_value(b2, start, n),
    decreases n,
{
    if n > 0 {
        lemma_le_value_frame(b1, b2, start, (n - 1) as nat);
    }
}

/// Appends `x` to `bytes` as a little-endian number of `width` bytes.
fn push_id(bytes: &mut Vec<u8>, x: PointOffsetType, width: usize)
    requires
        1 <= width <= 4,
        x < byte_scale(width as nat),
    ensures
        final(bytes)@.len() == old(bytes)@.len() + width,
        final(bytes)@.subrange(0, old(bytes)@.len() as int) == old(bytes)@,
        le_value(final(bytes)@, old(bytes)@.len() as int, width as nat) == x,
{
    let ghost start = old(bytes)@.len() as int;
    let mut v: u32 = x;
    let mut k: usize = 0;
    while k < width
        invariant
            k <= width <= 4,
            start == old(bytes)@.len(),
            bytes@.len() == start + k,
            bytes@.subrange(0, start) == old(bytes)@,
            x == le_value(bytes@, start, k as nat) + byte_scale(k as nat) * v,
        decreases width - k,
    {
        let ghost before = bytes@;
        bytes.push((v % 256) as u8);
        proof {
            lemma_le_value_frame(before, bytes@, start, k as nat);
            let s = byte_scale(k as nat);
            let vv = v as int;
            assert(s * vv == s * (vv % 256) + (256 * s) * (vv / 256)) by (nonlinear_arith);
            assert(bytes@.subrange(0, start) =~= before.subrange(0, start));
        }
        v = v / 256;
        k = k + 1;
    }
    proof {
        lemma_le_value_bounds(bytes@, start, width as nat);
        let s = byte_scale(width as nat);
        let lo = le_value(bytes@, start, width as nat);
        let vv = v as int;
        assert(x == lo) by (nonlinear_arith)
            requires
                x == lo + s * vv,
                0 <= lo,
                x < s,
                vv >= 0,
        ;
    }
}

/// Reads the little-endian number of `width` bytes at `start`.
fn read_id(bytes: &Vec<u8>, start: usize, width: usize) -> (r: PointOffsetType)
    requires
        1 <= width <= 4,
        start + width <= bytes@.len(),
    ensures
        r == le_value(bytes@, start as int, width as nat),
{
    proof {
        lemma_byte_scale_values();
    }
    let len = bytes.len();
    let mut acc: u64 = 0;
    let mut scale: u64 = 1;
    let mut k: usize = 0;
    while k < width
        invariant
            k <= width <= 4,
            start + width <= bytes@.len(),
            len == bytes@.len(),
            scale == byte_scale(k as nat),
            acc == le_value(bytes@, start as int, k as nat),
            byte_scale(0) == 1,
            byte_scale(1) == 256,
            byte_scale(2) == 65536,
            byte_scale(3) == 16777216,
            byte_scale(4) == 4294967296,
        decreases width - k,
    {
        proof {
            lemma_le_value_bounds(bytes@, start as int, k as nat);
        }
        assert(start + k < len);
        let d = bytes[start + k] as u64;
        assert(acc + scale * d < 256 * scale) by (nonlinear_arith)
            requires
                acc < scale,
                d < 256,
        ;
        assert(scale <= 16777216);
        acc = acc + scale * d;
        scale = scale * 256;
        k = k + 1;
    }
    proof {
        lemma_le_value_bounds(bytes@, start as int, width as nat);
    }
    acc as PointOffsetType
}

/// The fewest bytes, one to four, that hold every id of `ids`.
pub fn width_for(ids: &Vec<PointOffsetType>) -> (r: usize)
    ensures
        1 <= r <= 4,
        forall|k: int| 0 <= k < ids@.len() ==> ids@[k] < byte_scale(r as nat),
        r > 1 ==> exists|k: int| 0 <= k < ids@.len() && ids@[k] >= byte_scale((r - 1) as nat),
{
    proof {
        lemma_byte_scale_values();
    }
    let mut max_id: u32 = 0;
    let mut i: usize = 0;
    while i < ids.len()
        invariant
            i <= ids@.len(),
            forall|k: int| 0 <= k < i ==> ids@[k] <= max_id,
            max_id > 0 ==> exists|k: int| 0 <= k < i && ids@[k] == max_id,
        decreases ids@.len() - i,
    {
        if ids[i] > max_id {
            max_id = ids[i];
        }
        i = i + 1;
    }
    if max_id < 256 {
        1
    } else if max_id < 65536 {
        2
    } else if max_id < 16777216 {
        3
    } else {
        4
    }
}

/// Packs `ids` at `width` bytes per id.
pub fn pack(ids: &Vec<PointOffsetType>, width: usize) -> (r: Vec<u8>)
    requires
        1 <= width <= 4,
        forall|k: int| 0 <= k < ids@.len() ==> ids@[k] < byte_scale(width as nat),
    ensures
        unpacked(r@, width as nat) == ids@,
        r@.len() == ids@.len() * width,
{
    let mut bytes: Vec<u8> = Vec::new();
    let mut i: usize = 0;
    while i < ids.len()
        invariant
            1 <= width <= 4,
            i <= ids@.len(),
            forall|k: int| 0 <= k < ids@.len() ==> ids@[k] < byte_scale(width as nat),
            bytes@.len() == i * width,
            forall|k: int| 0 <= k < i ==> #[trigger] id_at(bytes@, width as nat, k) == ids@[k],
        decreases ids@.len() - i,
    {
        let ghost before = bytes@;
        proof {
            assert(i * width + width == (i + 1) * width) by (nonlinear_arith);
        }
        push_id(&mut bytes, ids[i], width);
        proof {
            assert(before.len() == i * width);
            assert(id_at(bytes@, width as nat, i as int) == ids@[i as int]);
            assert forall|k: int| 0 <= k < i + 1 implies #[trigger] id_at(bytes@, width as nat, k) == ids@[k] by {
                if k < i {
                    assert(id_at(before, width as nat, k) == ids@[k]);
                    assert(k * width + width <= i * width) by (nonlinear_arith)
                        requires
                            k + 1 <= i,
                            width >= 1,
                    ;
                    assert(0 <= k * width) by (nonlinear_arith)
                        requires
                            0 <= k,
                            width >= 1,
                    ;
                    assert forall|j: int| k * width <= j < k * width + width implies before[j] == bytes@[j] by {
                        assert(bytes@.subrange(0, before.len() as int)[j] == bytes@[j]);
                    }
                    lemma_le_value_frame(before, bytes@, k * width, width as nat);
                }
            }
        }
        i = i + 1;
    }
    proof {
        assert(((i * width) as nat) / (width as nat) == i) by (nonlinear_arith)
            requires
                width >= 1,
        ;
        assert(unpacked(bytes@, width as nat) =~= ids@);
    }
    bytes
}

/// The `k`-th id of `bytes` at `width` bytes per id.
pub fn unpack_at(bytes: &Vec<u8>, width: usize, k: usize) -> (r: PointOffsetType)
    requires
        1 <= width <= 4,
        k < bytes@.len() / (width as nat),
    ensures
        r == unpacked(bytes@, width as nat)[k as int],
{
    let len = bytes.len();
    proof {
        assert(k * width + width <= len) by (nonlinear_arith)
            requires
                len == bytes@.len(),
                k < bytes@.len() / (width as nat),
                width >= 1,
        ;
        lemma_le_value_bounds(bytes@, (k * width) as int, width as nat);
        lemma_byte_scale_values();
        assert(byte_scale(width as nat) <= 4294967296);
    }
    read_id(bytes, k * width, width)
}

} // verus!
