//! Helpers for drawing the board: the index list of quads, and squares as bit masks.

use vstd::prelude::*;

verus! {

/// A rectangle drawn as two triangles.
pub struct Quad;

/// The corner of a quad that stands at place `j` of its six indices: the
/// triangles are the corners 0, 1, 2 and 0, 2, 3.
pub open spec fn corner(j: int) -> int {
    if j == 0 || j == 3 {
        0
    } else if j == 1 {
        1
    } else if j == 2 || j == 4 {
        2
    } else {
        3
    }
}

/// The number of quads that `vertices` vertices make, four to a quad,
/// where a rest of one to three vertices counts as a quad too.
pub open spec fn quad_count(vertices: int) -> int {
    (vertices + 3) / 4
}

/// The bit of a mask at a place from 0 to 31 is set.
pub open spec fn bit_set(mask: u32, place: int) -> bool {
    (mask >> (place as u32)) & 1 == 1
}

/// Setting one bit of a mask sets that bit and changes no other.
proof fn lemma_set_bit(mask: u32, bit: u32, place: u32)
    by (bit_vector)
    requires
        bit < 32,
        place < 32,
    ensures
        ((mask | (1u32 << bit)) >> place) & 1 == 1 <==> ((mask >> place) & 1 == 1 || place == bit),
{
}

/// No bit of the empty mask is set.
proof fn lemma_no_bit(place: u32)
    by (bit_vector)
    requires
        place < 32,
    ensures
        (0u32 >> place) & 1 != 1,
{
}

/// The squares of a list as two masks of 32 bits: the first holds the
/// squares 0 to 31, the second the squares 32 to 63, each at the bit of
/// its number within the half. A number from 64 on sets no bit.
pub fn pack_squares(moves: &[u8]) -> (r: (u32, u32))
    ensures
        forall|sq: int|
            0 <= sq < 32 ==> (#[trigger] bit_set(r.0, sq) <==> moves@.contains(sq as u8)),
        forall|sq: int|
            32 <= sq < 64 ==> (#[trigger] bit_set(r.1, sq - 32) <==> moves@.contains(sq as u8)),
{
    let mut low: u32 = 0;
    let mut high: u32 = 0;
    let mut i: usize = 0;
    proof {
        assert forall|place: int| 0 <= place < 32 implies !#[trigger] bit_set(0u32, place) by {
            lemma_no_bit(place as u32);
        }
    }
    while i < moves.len()
        invariant
            i <= moves@.len(),
            forall|sq: int|
                0 <= sq < 32 ==> (#[trigger] bit_set(low, sq) <==> moves@.take(i as int).contains(
                    sq as u8,
                )),
            forall|sq: int|
                0 <= sq < 32 ==> (#[trigger] bit_set(high, sq) <==> moves@.take(
                    i as int,
                ).contains((sq + 32) as u8)),
        decreases moves@.len() - i,
    {
        let mv: u8 = moves[i];
        let ghost seen = moves@.take(i as int);
        let ghost more = moves@.take(i + 1);
        let ghost low0 = low;
        let ghost high0 = high;
        assert(more =~= seen.push(mv));
        assert forall|x: u8| more.contains(x) <==> (seen.contains(x) || x == mv) by {
            if seen.contains(x) {
                let j = choose|j: int| 0 <= j < seen.len() && seen[j] == x;
                assert(more[j] == x);
            }
            if x == mv {
                assert(more[i as int] == x);
            }
        }
        if mv < 32 {
            low = low | (1u32 << (mv as u32));
            assert forall|sq: int| 0 <= sq < 32 implies (#[trigger] bit_set(low, sq)
                <==> more.contains(sq as u8)) by {
                lemma_set_bit(low0, mv as u32, sq as u32);
                assert(bit_set(low0, sq) <==> seen.contains(sq as u8));
            }
        } else if mv < 64 {
            high = high | (1u32 << ((mv - 32) as u32));
            assert forall|sq: int| 0 <= sq < 32 implies (#[trigger] bit_set(high, sq)
                <==> more.contains((sq + 32) as u8)) by {
                lemma_set_bit(high0, (mv - 32) as u32, sq as u32);
                assert(bit_set(high0, sq) <==> seen.contains((sq + 32) as u8));
            }
        }
        i = i + 1;
    }
    assert(moves@.take(moves@.len() as int) =~= moves@);
    assert forall|sq: int| 32 <= sq < 64 implies (#[trigger] bit_set(high, sq - 32)
        <==> moves@.contains(sq as u8)) by {
        assert(bit_set(high, sq - 32) <==> moves@.contains(((sq - 32) + 32) as u8));
    }
    (low, high)
}

impl Quad {
    /// The index list that draws `vertices` vertices as quads: six indices
    /// for each four vertices, two triangles over the corners 0, 1, 2 and
    /// 0, 2, 3 of the quad.
    pub fn generate_indices(vertices: usize) -> (r: Vec<u32>)
        requires
            vertices + 3 <= u32::MAX,
        ensures
            r@.len() == 6 * quad_count(vertices as int),
            forall|k: int|
                0 <= k < r@.len() ==> #[trigger] r@[k] == 4 * (k / 6) + corner(k % 6),
    {
        let mut out: Vec<u32> = Vec::new();
        let mut i: usize = 0;
        while i < vertices
            invariant
                vertices + 3 <= u32::MAX,
                i % 4 == 0,
                i <= vertices + 3,
                out@.len() == 6 * (i / 4),
                forall|k: int|
                    0 <= k < out@.len() ==> #[trigger] out@[k] == 4 * (k / 6) + corner(k % 6),
            decreases vertices + 3 - i,
        {
            let idx: u32 = i as u32;
            out.push(idx);
            out.push(idx + 1);
            out.push(idx + 2);
            out.push(idx);
            out.push(idx + 2);
            out.push(idx + 3);
            i = i + 4;
        }
        out
    }
}

} // verus!
