//! Bit-packing codec for the grid byte buffer.
//!
//! The alternative to the run-length codec: eight cells, each 0 or 1,
//! are packed into one byte, the cell at the lower index in the lower
//! bit. Unpacking spreads every byte back into eight 0-or-1 cells.

use vstd::prelude::*;
use crate::game::boolean_grid;

verus! {

/// One bit of a byte, as a 0-or-1 byte.
pub open spec fn bit_of(b: u8, i: u8) -> u8
    recommends
        i < 8,
{
    (b >> i) & 1
}

/// The byte packing the eight cells starting at `base`, lowest index in
/// the lowest bit.
pub open spec fn byte_from_cells(g: Seq<u8>, base: int) -> u8
    recommends
        0 <= base,
        base + 8 <= g.len(),
        boolean_grid(g),
{
    g[base] | (g[base + 1] << 1) | (g[base + 2] << 2) | (g[base + 3] << 3) | (g[base + 4] << 4)
        | (g[base + 5] << 5) | (g[base + 6] << 6) | (g[base + 7] << 7)
}

/// The packed form of a grid whose length is a multiple of eight.
pub open spec fn pack_cells(g: Seq<u8>) -> Seq<u8>
    recommends
        g.len() % 8 == 0,
        boolean_grid(g),
{
    Seq::new(g.len() / 8, |k: int| byte_from_cells(g, 8 * k))
}

/// The unpacked form of a packed buffer: eight 0-or-1 cells per byte.
pub open spec fn unpack_cells(c: Seq<u8>) -> Seq<u8> {
    Seq::new(c.len() * 8, |j: int| bit_of(c[j / 8], (j % 8) as u8))
}

/// Packs a grid of 0-or-1 cells into one byte per eight cells. The grid's
/// length must be a multiple of eight; nothing is padded.
pub fn compress_grid(grid: &[u8]) -> (out: Vec<u8>)
    requires
        grid@.len() % 8 == 0,
        boolean_grid(grid@),
    ensures
        out@ == pack_cells(grid@),
{
    let mut out: Vec<u8> = Vec::new();
    let mut k: usize = 0;
    let glen = grid.len();
    let bytes = glen / 8;
    while k < bytes
        invariant
            0 <= k <= bytes,
            glen == grid@.len(),
            bytes == grid@.len() / 8,
            grid@.len() % 8 == 0,
            boolean_grid(grid@),
            out@.len() == k,
            forall|m: int| 0 <= m < k ==> #[trigger] out@[m] == byte_from_cells(grid@, 8 * m),
        decreases bytes - k,
    {
        proof {
            assert(8 * k + 8 <= glen) by (nonlinear_arith)
                requires
                    k < bytes,
                    glen == grid@.len(),
                    bytes == grid@.len() / 8,
                    grid@.len() % 8 == 0,
            ;
        }
        let base = 8 * k;
        let b: u8 = grid[base] | (grid[base + 1] << 1u8) | (grid[base + 2] << 2u8) | (grid[base
            + 3] << 3u8) | (grid[base + 4] << 4u8) | (grid[base + 5] << 5u8) | (grid[base + 6]
            << 6u8) | (grid[base + 7] << 7u8);
        out.push(b);
        k += 1;
    }
    proof {
        assert(out@ =~= pack_cells(grid@));
    }
    out
}

/// Unpacks a packed buffer into eight 0-or-1 cells per byte, lowest bit
/// first.
pub fn uncompress_grid_binary(cgrid: &[u8]) -> (out: Vec<u8>)
    requires
        cgrid@.len() * 8 <= usize::MAX,
    ensures
        out@ == unpack_cells(cgrid@),
        boolean_grid(out@),
{
    let mut out: Vec<u8> = Vec::new();
    let mut k: usize = 0;
    while k < cgrid.len()
        invariant
            0 <= k <= cgrid@.len(),
            cgrid@.len() * 8 <= usize::MAX,
            out@.len() == 8 * k,
            forall|j: int|
                0 <= j < 8 * k ==> #[trigger] out@[j] == bit_of(cgrid@[j / 8], (j % 8) as u8),
            boolean_grid(out@),
        decreases cgrid@.len() - k,
    {
        proof {
            assert(8 * k + 8 <= 8 * cgrid@.len()) by (nonlinear_arith)
                requires
                    k < cgrid@.len(),
            ;
        }
        let byte = cgrid[k];
        out.push(byte & 1);
        out.push((byte >> 1u8) & 1);
        out.push((byte >> 2u8) & 1);
        out.push((byte >> 3u8) & 1);
        out.push((byte >> 4u8) & 1);
        out.push((byte >> 5u8) & 1);
        out.push((byte >> 6u8) & 1);
        out.push((byte >> 7u8) & 1);
        proof {
            assert(byte & 1 == byte >> 0u8 & 1) by (bit_vector);
            assert forall|b: u8, i: u8| i < 8 implies (b >> i) & 1 == 0 || (b >> i) & 1 == 1 by {
                assert((b >> i) & 1 == 0 || (b >> i) & 1 == 1) by (bit_vector);
            }
            assert forall|j: int| 8 * k <= j < 8 * k + 8 implies #[trigger] out@[j] == bit_of(
                cgrid@[j / 8],
                (j % 8) as u8,
            ) by {
                vstd::arithmetic::div_mod::lemma_fundamental_div_mod_converse(
                    j,
                    8,
                    k as int,
                    j - 8 * k,
                );
                assert(out@[j] == out@[8 * k + (j - 8 * k)]);
            }
        }
        k += 1;
    }
    proof {
        assert(out@ =~= unpack_cells(cgrid@));
    }
    out
}

/// Round trip: unpacking a packed grid of 0-or-1 cells gives the grid
/// back, for every grid whose length is a multiple of eight.
pub proof fn lemma_pack_round_trip(g: Seq<u8>)
    requires
        g.len() % 8 == 0,
        boolean_grid(g),
    ensures
        unpack_cells(pack_cells(g)) == g,
{
    let packed = pack_cells(g);
    assert(packed.len() * 8 == g.len()) by (nonlinear_arith)
        requires
            packed.len() == g.len() / 8,
            g.len() % 8 == 0,
    ;
    assert forall|j: int| 0 <= j < g.len() implies unpack_cells(packed)[j] == g[j] by {
        let k = j / 8;
        let i = j % 8;
        vstd::arithmetic::div_mod::lemma_fundamental_div_mod(j, 8);
        assert(0 <= k < packed.len()) by (nonlinear_arith)
            requires
                0 <= j < g.len(),
                k == j / 8,
                i == j % 8,
                0 <= i < 8,
                j == 8 * k + i,
                packed.len() * 8 == g.len(),
        ;
        let base = 8 * k;
        let b0 = g[base];
        let b1 = g[base + 1];
        let b2 = g[base + 2];
        let b3 = g[base + 3];
        let b4 = g[base + 4];
        let b5 = g[base + 5];
        let b6 = g[base + 6];
        let b7 = g[base + 7];
        let packed_byte = packed[k];
        assert(packed_byte == b0 | (b1 << 1) | (b2 << 2) | (b3 << 3) | (b4 << 4) | (b5 << 5) | (b6
            << 6) | (b7 << 7));
        let iu = i as u8;
        assert((b0 | (b1 << 1) | (b2 << 2) | (b3 << 3) | (b4 << 4) | (b5 << 5) | (b6 << 6) | (b7
            << 7)) >> iu & 1 == (if iu == 0 {
            b0
        } else if iu == 1 {
            b1
        } else if iu == 2 {
            b2
        } else if iu == 3 {
            b3
        } else if iu == 4 {
            b4
        } else if iu == 5 {
            b5
        } else if iu == 6 {
            b6
        } else {
            b7
        })) by (bit_vector)
            requires
                iu < 8,
                b0 < 2,
                b1 < 2,
                b2 < 2,
                b3 < 2,
                b4 < 2,
                b5 < 2,
                b6 < 2,
                b7 < 2,
        ;
        assert(g[base + i] == g[j]);
    }
    assert(unpack_cells(packed) =~= g);
}

} // verus!
