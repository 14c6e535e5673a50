//! The BC1 codec: each 4x4 block of pixels becomes an 8-byte record holding
//! two RGB565 endpoint colors and sixteen 2-bit palette indices. Blocks are
//! independent, so they are encoded in parallel and written at fixed offsets.

use vstd::prelude::*;
use vstd::math::{min, max};
use vstd::arithmetic::div_mod::{
    lemma_fundamental_div_mod_converse_div,
    lemma_fundamental_div_mod_converse_mod,
};
use crate::image_data::clamped_byte;
use rayon::iter::IntoParallelIterator;
use rayon::iter::ParallelIterator;

verus! {

/// Number of 4x4 blocks across a dimension `d`: `ceil(d / 4)`.
pub open spec fn blocks(d: int) -> int {
    (d + 3) / 4
}

/// Channel `c` of texel `k` (row-major, `0..16`) of block `(bx, by)`. Texels
/// past the image edge repeat the edge pixel, so non-multiple-of-4 dimensions
/// are padded by replication.
pub open spec fn block_ch(data: Seq<u8>, w: int, h: int, bx: int, by: int, k: int, c: int) -> int {
    clamped_byte(data, w, h, bx * 4 + k % 4, by * 4 + k / 4, c) as int
}

/// Minimum of channel `c` over the first `n` texels of the block.
pub open spec fn ch_min(data: Seq<u8>, w: int, h: int, bx: int, by: int, n: int, c: int) -> int
    decreases n when 1 <= n
{
    if n <= 1 {
        block_ch(data, w, h, bx, by, 0, c)
    } else {
        min(ch_min(data, w, h, bx, by, n - 1, c), block_ch(data, w, h, bx, by, n - 1, c))
    }
}

/// Maximum of channel `c` over the first `n` texels of the block.
pub open spec fn ch_max(data: Seq<u8>, w: int, h: int, bx: int, by: int, n: int, c: int) -> int
    decreases n when 1 <= n
{
    if n <= 1 {
        block_ch(data, w, h, bx, by, 0, c)
    } else {
        max(ch_max(data, w, h, bx, by, n - 1, c), block_ch(data, w, h, bx, by, n - 1, c))
    }
}

/// Brightness of texel `k`: the sum of its red, green and blue channels.
pub open spec fn block_lum(data: Seq<u8>, w: int, h: int, bx: int, by: int, k: int) -> int {
    block_ch(data, w, h, bx, by, k, 0) + block_ch(data, w, h, bx, by, k, 1) + block_ch(
        data, w, h, bx, by, k, 2,
    )
}

/// Minimum brightness over the first `n` texels of the block.
pub open spec fn lum_min(data: Seq<u8>, w: int, h: int, bx: int, by: int, n: int) -> int
    decreases n when 1 <= n
{
    if n <= 1 {
        block_lum(data, w, h, bx, by, 0)
    } else {
        min(lum_min(data, w, h, bx, by, n - 1), block_lum(data, w, h, bx, by, n - 1))
    }
}

/// Maximum brightness over the first `n` texels of the block.
pub open spec fn lum_max(data: Seq<u8>, w: int, h: int, bx: int, by: int, n: int) -> int
    decreases n when 1 <= n
{
    if n <= 1 {
        block_lum(data, w, h, bx, by, 0)
    } else {
        max(lum_max(data, w, h, bx, by, n - 1), block_lum(data, w, h, bx, by, n - 1))
    }
}

/// An 8-bit RGB triple packed into an RGB565 word.
pub open spec fn pack565(r: int, g: int, b: int) -> int {
    (r / 8) * 2048 + (g / 4) * 32 + b / 8
}

/// First endpoint of the block: its componentwise channel maxima, packed.
pub open spec fn block_c0(data: Seq<u8>, w: int, h: int, bx: int, by: int) -> int {
    pack565(
        ch_max(data, w, h, bx, by, 16, 0),
        ch_max(data, w, h, bx, by, 16, 1),
        ch_max(data, w, h, bx, by, 16, 2),
    )
}

/// Second endpoint of the block: its componentwise channel minima, packed.
pub open spec fn block_c1(data: Seq<u8>, w: int, h: int, bx: int, by: int) -> int {
    pack565(
        ch_min(data, w, h, bx, by, 16, 0),
        ch_min(data, w, h, bx, by, 16, 1),
        ch_min(data, w, h, bx, by, 16, 2),
    )
}

/// `v` quantized to `steps + 1` levels over `[lo, hi]`, rounding to nearest.
pub open spec fn quantize(v: int, lo: int, hi: int, steps: int) -> int {
    if hi <= lo {
        0
    } else {
        ((v - lo) * steps + (hi - lo) / 2) / (hi - lo)
    }
}

/// The BC1 index selected by a brightness quantized to four levels: `0` names
/// the first endpoint, `1` the second, `2` and `3` the interpolated thirds.
pub open spec fn index_of_level(t: int) -> int {
    if t == 0 {
        1
    } else if t == 1 {
        3
    } else if t == 2 {
        2
    } else {
        0
    }
}

/// The 2-bit palette index of texel `k` of the block.
pub open spec fn block_index(data: Seq<u8>, w: int, h: int, bx: int, by: int, k: int) -> int {
    if block_c0(data, w, h, bx, by) == block_c1(data, w, h, bx, by) {
        0
    } else {
        index_of_level(
            quantize(
                block_lum(data, w, h, bx, by, k),
                lum_min(data, w, h, bx, by, 16),
                lum_max(data, w, h, bx, by, 16),
                3,
            ),
        )
    }
}

/// Index byte `r` of the block: the indices of texels `4r .. 4r+4`, two bits
/// each, lowest texel in the lowest bits.
pub open spec fn index_byte(data: Seq<u8>, w: int, h: int, bx: int, by: int, r: int) -> int {
    block_index(data, w, h, bx, by, 4 * r) + 4 * block_index(data, w, h, bx, by, 4 * r + 1) + 16
        * block_index(data, w, h, bx, by, 4 * r + 2) + 64 * block_index(
        data, w, h, bx, by, 4 * r + 3,
    )
}

/// The 8-byte record of block `(bx, by)`: both endpoints little-endian, then
/// the four index bytes.
pub open spec fn block_bytes(data: Seq<u8>, w: int, h: int, bx: int, by: int) -> Seq<u8> {
    let c0 = block_c0(data, w, h, bx, by);
    let c1 = block_c1(data, w, h, bx, by);
    seq![
        (c0 % 256) as u8,
        ((c0 / 256) % 256) as u8,
        (c1 % 256) as u8,
        ((c1 / 256) % 256) as u8,
        index_byte(data, w, h, bx, by, 0) as u8,
        index_byte(data, w, h, bx, by, 1) as u8,
        index_byte(data, w, h, bx, by, 2) as u8,
        index_byte(data, w, h, bx, by, 3) as u8,
    ]
}

/// Byte `j` of the whole BC1 payload: the blocks' records concatenated in
/// row-major block order.
pub open spec fn payload_byte(data: Seq<u8>, w: int, h: int, j: int) -> u8 {
    let bw = blocks(w);
    let b = j / 8;
    block_bytes(data, w, h, b % bw, b / bw)[j % 8]
}

/// The whole BC1 payload of a `w x h` image: `blocks(w) * blocks(h)` records
/// of 8 bytes.
pub open spec fn payload(data: Seq<u8>, w: int, h: int) -> Seq<u8> {
    Seq::new((blocks(w) * blocks(h) * 8) as nat, |j: int| payload_byte(data, w, h, j))
}

/// Every texel's brightness lies between the block's brightness extrema.
proof fn lemma_lum_bounds(data: Seq<u8>, w: int, h: int, bx: int, by: int, n: int, k: int)
    requires
        0 <= k < n,
        1 <= n <= 16,
    ensures
        lum_min(data, w, h, bx, by, n) <= block_lum(data, w, h, bx, by, k),
        block_lum(data, w, h, bx, by, k) <= lum_max(data, w, h, bx, by, n),
    decreases n,
{
    if k < n - 1 {
        lemma_lum_bounds(data, w, h, bx, by, n - 1, k);
    }
}

/// Channel `c` of the texel `(x, y)` of the block grid, read with edge
/// clamping.
fn texel(data: &Vec<u8>, w: usize, h: usize, x: usize, y: usize, c: usize) -> (r: u8)
    requires
        1 <= w,
        1 <= h,
        data@.len() == w * h * 4,
        c < 4,
    ensures
        r == clamped_byte(data@, w as int, h as int, x as int, y as int, c as int),
{
    let xx = if x < w { x } else { w - 1 };
    let yy = if y < h { y } else { h - 1 };
    let n = data.len();
    assert(0 <= yy * w && yy * w + xx < w * h && w * h <= w * h * 4 && (yy * w + xx) * 4 + c < w
        * h * 4) by (nonlinear_arith)
        requires
            xx < w,
            yy < h,
            c < 4,
            0 <= xx,
            0 <= yy;
    data[(yy * w + xx) * 4 + c]
}

/// Encode block `b` (row-major over a grid `bw` blocks wide) into its 8-byte
/// BC1 record.
#[verifier::rlimit(60)]
pub fn encode_block(data: &Vec<u8>, w: usize, h: usize, bw: usize, b: usize) -> (r: Vec<u8>)
    requires
        1 <= w,
        1 <= h,
        data@.len() == w * h * 4,
        bw == blocks(w as int),
        b < bw * blocks(h as int),
    ensures
        r@ == block_bytes(data@, w as int, h as int, (b % bw) as int, (b / bw) as int),
{
    assert(1 <= bw) by (nonlinear_arith)
        requires
            bw == (w + 3) / 4,
            1 <= w;
    let bx = b % bw;
    let by = b / bw;
    let ghost gd = data@;
    let ghost gw = w as int;
    let ghost gh = h as int;
    let ghost gbx = bx as int;
    let ghost gby = by as int;
    let n = data.len();
    assert(by * 4 + 3 < h + 4 && bx * 4 + 3 < w + 4) by (nonlinear_arith)
        requires
            bx < bw,
            bw == (w + 3) / 4,
            by == b / bw,
            b < bw * ((h + 3) / 4),
            1 <= bw,
            1 <= w,
            1 <= h;
    assert(4 * w <= n && 4 * h <= n) by (nonlinear_arith)
        requires
            n == w * h * 4,
            1 <= w,
            1 <= h;

    // Pass 1: channel extrema and per-texel brightness.
    let mut minr = texel(data, w, h, bx * 4, by * 4, 0);
    let mut ming = texel(data, w, h, bx * 4, by * 4, 1);
    let mut minb = texel(data, w, h, bx * 4, by * 4, 2);
    let mut maxr = minr;
    let mut maxg = ming;
    let mut maxb = minb;
    let mut lmin: u16 = minr as u16 + ming as u16 + minb as u16;
    let mut lmax: u16 = lmin;
    let mut lums: Vec<u16> = Vec::new();
    lums.push(lmin);
    let mut k: usize = 1;
    while k < 16
        invariant
            1 <= w,
            1 <= h,
            gd == data@,
            gw == w as int,
            gh == h as int,
            gbx == bx as int,
            gby == by as int,
            data@.len() == w * h * 4,
            n == data@.len(),
            bx * 4 + 3 < w + 4,
            by * 4 + 3 < h + 4,
            4 * w <= n,
            4 * h <= n,
            1 <= k <= 16,
            minr as int == ch_min(gd, gw, gh, gbx, gby, k as int, 0),
            ming as int == ch_min(gd, gw, gh, gbx, gby, k as int, 1),
            minb as int == ch_min(gd, gw, gh, gbx, gby, k as int, 2),
            maxr as int == ch_max(gd, gw, gh, gbx, gby, k as int, 0),
            maxg as int == ch_max(gd, gw, gh, gbx, gby, k as int, 1),
            maxb as int == ch_max(gd, gw, gh, gbx, gby, k as int, 2),
            lmin as int == lum_min(gd, gw, gh, gbx, gby, k as int),
            lmax as int == lum_max(gd, gw, gh, gbx, gby, k as int),
            lmin <= lmax,
            lmax <= 765,
            lums@.len() == k,
            forall|t: int| 0 <= t < k ==> lums@[t] as int == block_lum(gd, gw, gh, gbx, gby, t),
        decreases 16 - k,
    {
        let r = texel(data, w, h, bx * 4 + k % 4, by * 4 + k / 4, 0);
        let g = texel(data, w, h, bx * 4 + k % 4, by * 4 + k / 4, 1);
        let bl = texel(data, w, h, bx * 4 + k % 4, by * 4 + k / 4, 2);
        let lum = r as u16 + g as u16 + bl as u16;
        if r < minr { minr = r; }
        if g < ming { ming = g; }
        if bl < minb { minb = bl; }
        if r > maxr { maxr = r; }
        if g > maxg { maxg = g; }
        if bl > maxb { maxb = bl; }
        if lum < lmin { lmin = lum; }
        if lum > lmax { lmax = lum; }
        lums.push(lum);
        k = k + 1;
    }

    let c0: u32 = (maxr / 8) as u32 * 2048 + (maxg / 4) as u32 * 32 + (maxb / 8) as u32;
    let c1: u32 = (minr / 8) as u32 * 2048 + (ming / 4) as u32 * 32 + (minb / 8) as u32;
    assert(c0 == block_c0(gd, gw, gh, gbx, gby));
    assert(c1 == block_c1(gd, gw, gh, gbx, gby));

    // Pass 2: one 2-bit index per texel, from its quantized brightness.
    let range: u16 = lmax - lmin;
    let mut idx: Vec<u8> = Vec::new();
    let mut k2: usize = 0;
    while k2 < 16
        invariant
            lmin as int == lum_min(gd, gw, gh, gbx, gby, 16),
            lmax as int == lum_max(gd, gw, gh, gbx, gby, 16),
            lmin <= lmax,
            lmax <= 765,
            range == lmax - lmin,
            c0 == block_c0(gd, gw, gh, gbx, gby),
            c1 == block_c1(gd, gw, gh, gbx, gby),
            lums@.len() == 16,
            forall|t: int| 0 <= t < 16 ==> lums@[t] as int == block_lum(gd, gw, gh, gbx, gby, t),
            k2 <= 16,
            idx@.len() == k2,
            forall|t: int| 0 <= t < k2 ==> idx@[t] as int == block_index(gd, gw, gh, gbx, gby, t),
        decreases 16 - k2,
    {
        proof {
            lemma_lum_bounds(gd, gw, gh, gbx, gby, 16, k2 as int);
        }
        let lum = lums[k2];
        let t_level: u16 = if range == 0 {
            0
        } else {
            let d = lum - lmin;
            assert(d * 3 + range / 2 < 4 * range && d * 3 + range / 2 < 4000) by (nonlinear_arith)
                requires
                    1 <= range,
                    range <= 765,
                    d <= range;
            (d * 3 + range / 2) / range
        };
        assert(t_level as int == quantize(
            lums@[k2 as int] as int,
            lum_min(gd, gw, gh, gbx, gby, 16),
            lum_max(gd, gw, gh, gbx, gby, 16),
            3,
        ));
        let i: u8 = if c0 == c1 {
            0
        } else if t_level == 0 {
            1
        } else if t_level == 1 {
            3
        } else if t_level == 2 {
            2
        } else {
            0
        };
        idx.push(i);
        assert(idx@[k2 as int] as int == block_index(gd, gw, gh, gbx, gby, k2 as int));
        k2 = k2 + 1;
    }

    assert(forall|t: int| 0 <= t < 16 ==> 0 <= idx@[t] && idx@[t] <= 3);
    let mut out: Vec<u8> = Vec::new();
    out.push((c0 % 256) as u8);
    out.push(((c0 / 256) % 256) as u8);
    out.push((c1 % 256) as u8);
    out.push(((c1 / 256) % 256) as u8);
    out.push(idx[0] + 4 * idx[1] + 16 * idx[2] + 64 * idx[3]);
    out.push(idx[4] + 4 * idx[5] + 16 * idx[6] + 64 * idx[7]);
    out.push(idx[8] + 4 * idx[9] + 16 * idx[10] + 64 * idx[11]);
    out.push(idx[12] + 4 * idx[13] + 16 * idx[14] + 64 * idx[15]);
    assert(out@ =~= block_bytes(gd, gw, gh, gbx, gby));
    out
}

/// Relies on rayon (`into_par_iter` on a range, `map`, `collect` into a
/// `Vec`): collecting an indexed parallel map keeps index order, so element
/// `b` of the result is what the closure returned for `b`. The closure only
/// calls the verified `encode_block`, whose contract gives each element.
#[verifier::external_body]
fn par_encode_blocks(data: &Vec<u8>, w: usize, h: usize, bw: usize, nb: usize) -> (r: Vec<
    Vec<u8>,
>)
    requires
        1 <= w,
        1 <= h,
        data@.len() == w * h * 4,
        bw == blocks(w as int),
        nb == blocks(w as int) * blocks(h as int),
    ensures
        r@.len() == nb,
        forall|b: int|
            0 <= b < nb ==> #[trigger] r@[b]@ == block_bytes(
                data@, w as int, h as int, b % (bw as int), b / (bw as int),
            ),
{
    (0..nb).into_par_iter().map(|b| encode_block(data, w, h, bw, b)).collect()
}

/// Encode a whole level: every 4x4 block's record, in row-major block order.
#[verifier::rlimit(80)]
pub fn encode(data: &Vec<u8>, w: usize, h: usize) -> (r: Vec<u8>)
    requires
        1 <= w,
        1 <= h,
        data@.len() == w * h * 4,
        8 * (w as int) * (h as int) <= usize::MAX,
    ensures
        r@ == payload(data@, w as int, h as int),
        r@.len() == blocks(w as int) * blocks(h as int) * 8,
{
    let n = data.len();
    assert(4 * w <= n && 4 * h <= n) by (nonlinear_arith)
        requires
            n == w * h * 4,
            1 <= w,
            1 <= h;
    let bw = (w + 3) / 4;
    let bh = (h + 3) / 4;
    assert(1 <= bw <= w && 1 <= bh <= h) by (nonlinear_arith)
        requires
            bw == (w + 3) / 4,
            bh == (h + 3) / 4,
            1 <= w,
            1 <= h;
    assert(bw * bh <= bw * bh * 8 && bw * bh * 8 <= 8 * w * h) by (nonlinear_arith)
        requires
            1 <= bw <= w,
            1 <= bh <= h;
    let nb = bw * bh;
    let total = nb * 8;
    let blocks_v = par_encode_blocks(data, w, h, bw, nb);
    let mut out: Vec<u8> = Vec::new();
    let mut b: usize = 0;
    while b < nb
        invariant
            nb == blocks(w as int) * blocks(h as int),
            bw == blocks(w as int),
            total == nb * 8,
            blocks_v@.len() == nb,
            forall|bb: int|
                0 <= bb < nb ==> #[trigger] blocks_v@[bb]@ == block_bytes(
                    data@, w as int, h as int, bb % (bw as int), bb / (bw as int),
                ),
            b <= nb,
            out@.len() == b * 8,
            forall|j: int| 0 <= j < b * 8 ==> out@[j] == payload_byte(data@, w as int, h as int, j),
        decreases nb - b,
    {
        assert((b + 1) * 8 <= total) by (nonlinear_arith)
            requires
                b < nb,
                total == nb * 8;
        let mut o: usize = 0;
        while o < 8
            invariant
                nb == blocks(w as int) * blocks(h as int),
                bw == blocks(w as int),
                total == nb * 8,
                b < nb,
                (b + 1) * 8 <= total,
                blocks_v@.len() == nb,
                forall|bb: int|
                    0 <= bb < nb ==> #[trigger] blocks_v@[bb]@ == block_bytes(
                        data@, w as int, h as int, bb % (bw as int), bb / (bw as int),
                    ),
                o <= 8,
                out@.len() == b * 8 + o,
                forall|j: int|
                    0 <= j < b * 8 + o ==> out@[j] == payload_byte(data@, w as int, h as int, j),
            decreases 8 - o,
        {
            let ghost j = b * 8 + o;
            out.push(blocks_v[b][o]);
            proof {
                lemma_fundamental_div_mod_converse_div(j as int, 8, b as int, o as int);
                lemma_fundamental_div_mod_converse_mod(j as int, 8, b as int, o as int);
                assert(out@[j as int] == payload_byte(data@, w as int, h as int, j as int));
            }
            o = o + 1;
        }
        b = b + 1;
    }
    assert(out@ =~= payload(data@, w as int, h as int));
    out
}

} // verus!
