//! The camera: which part of the world the painted viewport shows.

use vstd::prelude::*;

verus! {

/// Half of `size`, rounded towards zero.
pub open spec fn half(size: int) -> int {
    if size >= 0 { size / 2 } else { -((-size) / 2) }
}

/// The viewport offset along one axis before following: `pos` less half the
/// viewport when the camera is asked to centre on `pos`, else the current `offset`.
pub open spec fn follow_base(offset: int, pos: int, size: int, center_next: bool) -> int {
    if center_next { pos - half(size) } else { offset }
}

/// The buffers fit the viewport: the near one is no larger than the far one,
/// and both together fit in its size.
pub open spec fn buffers_fit(size: int, buffer_min: int, buffer_max: int) -> bool {
    0 <= buffer_min <= buffer_max && buffer_min + buffer_max <= size
}

/// The viewport offset along one axis after following: from the base, a miner
/// less than `buffer_min` cells past the near edge pulls that edge to
/// `buffer_max` cells before it; then a miner less than `buffer_min` cells
/// before the far edge pulls that edge to `buffer_max` cells past it.
pub open spec fn follow_target(offset: int, pos: int, size: int, buffer_min: int, buffer_max: int,
    center_next: bool, auto_follow: bool) -> int {
    let base = follow_base(offset, pos, size, center_next);
    if !auto_follow {
        base
    } else {
        let near = if pos < base + buffer_min { pos - buffer_max } else { base };
        if pos > near + size - buffer_min { pos - (size - buffer_max) } else { near }
    }
}

/// The viewport offset along one axis of a viewport `size` cells wide, for a
/// miner at `pos`. The camera first centres on the miner when asked to; when
/// following, a miner closer than `buffer_min` cells to an edge moves the
/// viewport so that it is `buffer_max` cells from that edge. The offset is
/// computed without overflow in 64 bits; whether it fits an `i32` is the
/// caller's to check.
pub fn follow_offset(offset: i32, pos: i32, size: i32, buffer_min: i32, buffer_max: i32, center_next: bool, auto_follow: bool) -> (r: i64)
    ensures
        r == follow_target(offset as int, pos as int, size as int, buffer_min as int, buffer_max as int, center_next, auto_follow),
        buffers_fit(size as int, buffer_min as int, buffer_max as int) ==> ({
            let base = follow_base(offset as int, pos as int, size as int, center_next);
            &&& auto_follow && pos < base + buffer_min ==> r == pos - buffer_max
            &&& auto_follow && pos > base + size - buffer_min ==> r == pos - (size - buffer_max)
            &&& !(auto_follow && (pos < base + buffer_min || pos > base + size - buffer_min)) ==> r == base
            &&& auto_follow ==> buffer_min <= pos - r <= size - buffer_min
        }),
{
    let pos = pos as i64;
    let size = size as i64;
    let buffer_min = buffer_min as i64;
    let buffer_max = buffer_max as i64;
    let mut o: i64 = if center_next { pos - size / 2 } else { offset as i64 };
    if auto_follow {
        if pos < o + buffer_min {
            o = pos - buffer_max;
        }
        if pos > o + size - buffer_min {
            o = pos - (size - buffer_max);
        }
    }
    o
}

} // verus!
