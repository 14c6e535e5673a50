//! The BC5 codec: each 4x4 block becomes a 16-byte record, two independent
//! 8-byte single-channel halves (red, then green). Each half holds two 8-bit
//! endpoints and sixteen 3-bit interpolation indices. Blocks are independent,
//! so they are encoded in parallel and written at fixed offsets.

use vstd::prelude::*;
use vstd::arithmetic::div_mod::{
    lemma_fundamental_div_mod_converse_div,
    lemma_fundamental_div_mod_converse_mod,
};
use crate::bc1::{blocks, block_ch, ch_min, ch_max, quantize};
use crate::image_data::clamped_byte;
use rayon::iter::IntoParallelIterator;
use rayon::iter::ParallelIterator;

verus! {

/// The BC5 index selected by a channel value quantized to eight levels: `0`
/// names the first endpoint, `1` the second, `2..=7` the interpolated
/// sevenths from the first endpoint down to the second.
pub open spec fn index_of_level(t: int) -> int {
    if t == 7 {
        0
    } else if t == 0 {
        1
    } else {
        8 - t
    }
}

/// The 3-bit index of texel `k` in the half of the block that encodes
/// channel `c`.
pub open spec fn chan_index(data: Seq<u8>, w: int, h: int, bx: int, by: int, k: int, c: int) -> int {
    let lo = ch_min(data, w, h, bx, by, 16, c);
    let hi = ch_max(data, w, h, bx, by, 16, c);
    if hi == lo {
        0
    } else {
        index_of_level(quantize(block_ch(data, w, h, bx, by, k, c), lo, hi, 7))
    }
}

/// The 8-byte half of the block's record for channel `c`: the two endpoints,
/// then the sixteen 3-bit indices packed least-significant-bit first.
pub open spec fn chan_bytes(data: Seq<u8>, w: int, h: int, bx: int, by: int, c: int) -> Seq<u8> {
    let e0 = ch_max(data, w, h, bx, by, 16, c);
    let e1 = ch_min(data, w, h, bx, by, 16, c);
    let i0 = chan_index(data, w, h, bx, by, 0, c);
    let i1 = chan_index(data, w, h, bx, by, 1, c);
    let i2 = chan_index(data, w, h, bx, by, 2, c);
    let i3 = chan_index(data, w, h, bx, by, 3, c);
    let i4 = chan_index(data, w, h, bx, by, 4, c);
    let i5 = chan_index(data, w, h, bx, by, 5, c);
    let i6 = chan_index(data, w, h, bx, by, 6, c);
    let i7 = chan_index(data, w, h, bx, by, 7, c);
    let i8 = chan_index(data, w, h, bx, by, 8, c);
    let i9 = chan_index(data, w, h, bx, by, 9, c);
    let i10 = chan_index(data, w, h, bx, by, 10, c);
    let i11 = chan_index(data, w, h, bx, by, 11, c);
    let i12 = chan_index(data, w, h, bx, by, 12, c);
    let i13 = chan_index(data, w, h, bx, by, 13, c);
    let i14 = chan_index(data, w, h, bx, by, 14, c);
    let i15 = chan_index(data, w, h, bx, by, 15, c);
    seq![
        e0 as u8,
        e1 as u8,
        (i0 + 8 * i1 + 64 * (i2 % 4)) as u8,
        (i2 / 4 + 2 * i3 + 16 * i4 + 128 * (i5 % 2)) as u8,
        (i5 / 2 + 4 * i6 + 32 * i7) as u8,
        (i8 + 8 * i9 + 64 * (i10 % 4)) as u8,
        (i10 / 4 + 2 * i11 + 16 * i12 + 128 * (i13 % 2)) as u8,
        (i13 / 2 + 4 * i14 + 32 * i15) as u8,
    ]
}

/// The 16-byte record of block `(bx, by)`: the red half, then the green half.
pub open spec fn block_bytes(data: Seq<u8>, w: int, h: int, bx: int, by: int) -> Seq<u8> {
    chan_bytes(data, w, h, bx, by, 0) + chan_bytes(data, w, h, bx, by, 1)
}

/// Byte `j` of the whole BC5 payload: the blocks' records concatenated in
/// row-major block order.
pub open spec fn payload_byte(data: Seq<u8>, w: int, h: int, j: int) -> u8 {
    let bw = blocks(w);
    let b = j / 16;
    block_bytes(data, w, h, b % bw, b / bw)[j % 16]
}

/// The whole BC5 payload of a `w x h` image: `blocks(w) * blocks(h)` records
/// of 16 bytes.
pub open spec fn payload(data: Seq<u8>, w: int, h: int) -> Seq<u8> {
    Seq::new((blocks(w) * blocks(h) * 16) as nat, |j: int| payload_byte(data, w, h, j))
}

/// Every texel's channel value lies between the block's channel extrema.
proof fn lemma_ch_bounds(data: Seq<u8>, w: int, h: int, bx: int, by: int, n: int, k: int, c: int)
    requires
        0 <= k < n,
        1 <= n <= 16,
    ensures
        ch_min(data, w, h, bx, by, n, c) <= block_ch(data, w, h, bx, by, k, c),
        block_ch(data, w, h, bx, by, k, c) <= ch_max(data, w, h, bx, by, n, c),
    decreases n,
{
    if k < n - 1 {
        lemma_ch_bounds(data, w, h, bx, by, n - 1, k, c);
    }
}

/// Channel `c` of the texel `(x, y)`, read with edge clamping.
fn texel(data: &Vec<u8>, w: usize, h: usize, x: usize, y: usize, c: usize) -> (r: u8)
    requires
        1 <= w,
        1 <= h,
        data@.len() == w * h * 4,
        c < 4,
    ensures
        r == clamped_byte(data@, w as int, h as int, x as int, y as int, c as int),
{
    let xx = if x < w { x } else { w - 1 };
    let yy = if y < h { y } else { h - 1 };
    let n = data.len();
    assert(0 <= yy * w && yy * w + xx < w * h && w * h <= w * h * 4 && (yy * w + xx) * 4 + c < w
        * h * 4) by (nonlinear_arith)
        requires
            xx < w,
            yy < h,
            c < 4,
            0 <= xx,
            0 <= yy;
    data[(yy * w + xx) * 4 + c]
}

/// Encode one channel of block `(bx, by)` into its 8-byte half-record.
#[verifier::rlimit(60)]
fn encode_channel(data: &Vec<u8>, w: usize, h: usize, bx: usize, by: usize, c: usize) -> (r: Vec<
    u8,
>)
    requires
        1 <= w,
        1 <= h,
        data@.len() == w * h * 4,
        bx * 4 + 3 < w + 4,
        by * 4 + 3 < h + 4,
        c < 4,
    ensures
        r@ == chan_bytes(data@, w as int, h as int, bx as int, by as int, c as int),
{
    let n = data.len();
    assert(4 * w <= n && 4 * h <= n) by (nonlinear_arith)
        requires
            n == w * h * 4,
            1 <= w,
            1 <= h;
    let ghost gd = data@;
    let ghost gw = w as int;
    let ghost gh = h as int;
    let ghost gbx = bx as int;
    let ghost gby = by as int;
    let ghost gc = c as int;

    // Pass 1: channel extrema and the sixteen channel values.
    let mut mn = texel(data, w, h, bx * 4, by * 4, c);
    let mut mx = mn;
    let mut vals: Vec<u8> = Vec::new();
    vals.push(mn);
    let mut k: usize = 1;
    while k < 16
        invariant
            1 <= w,
            1 <= h,
            gd == data@,
            gw == w as int,
            gh == h as int,
            gbx == bx as int,
            gby == by as int,
            gc == c as int,
            data@.len() == w * h * 4,
            n == data@.len(),
            bx * 4 + 3 < w + 4,
            by * 4 + 3 < h + 4,
            4 * w <= n,
            4 * h <= n,
            c < 4,
            1 <= k <= 16,
            mn as int == ch_min(gd, gw, gh, gbx, gby, k as int, gc),
            mx as int == ch_max(gd, gw, gh, gbx, gby, k as int, gc),
            mn <= mx,
            vals@.len() == k,
            forall|t: int| 0 <= t < k ==> vals@[t] as int == block_ch(gd, gw, gh, gbx, gby, t, gc),
        decreases 16 - k,
    {
        let v = texel(data, w, h, bx * 4 + k % 4, by * 4 + k / 4, c);
        if v < mn { mn = v; }
        if v > mx { mx = v; }
        vals.push(v);
        k = k + 1;
    }

    // Pass 2: one 3-bit index per texel, from its quantized channel value.
    let range: u16 = mx as u16 - mn as u16;
    let mut idx: Vec<u8> = Vec::new();
    let mut k2: usize = 0;
    while k2 < 16
        invariant
            mn as int == ch_min(gd, gw, gh, gbx, gby, 16, gc),
            mx as int == ch_max(gd, gw, gh, gbx, gby, 16, gc),
            mn <= mx,
            range == mx - mn,
            vals@.len() == 16,
            forall|t: int| 0 <= t < 16 ==> vals@[t] as int == block_ch(gd, gw, gh, gbx, gby, t, gc),
            k2 <= 16,
            idx@.len() == k2,
            forall|t: int|
                0 <= t < k2 ==> idx@[t] as int == chan_index(gd, gw, gh, gbx, gby, t, gc),
            forall|t: int| 0 <= t < k2 ==> idx@[t] <= 7,
        decreases 16 - k2,
    {
        proof {
            lemma_ch_bounds(gd, gw, gh, gbx, gby, 16, k2 as int, gc);
        }
        let v = vals[k2];
        let t_level: u16 = if range == 0 {
            0
        } else {
            let d = v as u16 - mn as u16;
            assert(d * 7 + range / 2 < 8 * range && d * 7 + range / 2 < 2200) by (nonlinear_arith)
                requires
                    1 <= range,
                    range <= 255,
                    d <= range;
            let t = (d * 7 + range / 2) / range;
            assert(t < 8) by (nonlinear_arith)
                requires
                    1 <= range,
                    d * 7 + range / 2 < 8 * range,
                    t as int == (d as int * 7 + range as int / 2) / (range as int);
            t
        };
        assert(t_level as int == quantize(
            vals@[k2 as int] as int,
            ch_min(gd, gw, gh, gbx, gby, 16, gc),
            ch_max(gd, gw, gh, gbx, gby, 16, gc),
            7,
        ));
        let i: u8 = if mx == mn {
            0
        } else if t_level == 7 {
            0
        } else if t_level == 0 {
            1
        } else {
            (8 - t_level) as u8
        };
        idx.push(i);
        assert(idx@[k2 as int] as int == chan_index(gd, gw, gh, gbx, gby, k2 as int, gc));
        k2 = k2 + 1;
    }

    let mut out: Vec<u8> = Vec::new();
    out.push(mx);
    out.push(mn);
    out.push(idx[0] + 8 * idx[1] + 64 * (idx[2] % 4));
    out.push(idx[2] / 4 + 2 * idx[3] + 16 * idx[4] + 128 * (idx[5] % 2));
    out.push(idx[5] / 2 + 4 * idx[6] + 32 * idx[7]);
    out.push(idx[8] + 8 * idx[9] + 64 * (idx[10] % 4));
    out.push(idx[10] / 4 + 2 * idx[11] + 16 * idx[12] + 128 * (idx[13] % 2));
    out.push(idx[13] / 2 + 4 * idx[14] + 32 * idx[15]);
    assert(out@ =~= chan_bytes(gd, gw, gh, gbx, gby, gc));
    out
}

/// Encode block `b` (row-major over a grid `bw` blocks wide) into its
/// 16-byte BC5 record.
pub fn encode_block(data: &Vec<u8>, w: usize, h: usize, bw: usize, b: usize) -> (r: Vec<u8>)
    requires
        1 <= w,
        1 <= h,
        data@.len() == w * h * 4,
        bw == blocks(w as int),
        b < bw * blocks(h as int),
    ensures
        r@ == block_bytes(data@, w as int, h as int, (b % bw) as int, (b / bw) as int),
{
    assert(1 <= bw) by (nonlinear_arith)
        requires
            bw == (w + 3) / 4,
            1 <= w;
    let bx = b % bw;
    let by = b / bw;
    assert(by * 4 + 3 < h + 4 && bx * 4 + 3 < w + 4) by (nonlinear_arith)
        requires
            bx < bw,
            bw == (w + 3) / 4,
            by == b / bw,
            b < bw * ((h + 3) / 4),
            1 <= bw,
            1 <= w,
            1 <= h;
    let mut out = encode_channel(data, w, h, bx, by, 0);
    let mut green = encode_channel(data, w, h, bx, by, 1);
    out.append(&mut green);
    assert(out@ =~= block_bytes(data@, w as int, h as int, bx as int, by as int));
    out
}

/// Relies on rayon (`into_par_iter` on a range, `map`, `collect` into a
/// `Vec`): collecting an indexed parallel map keeps index order, so element
/// `b` of the result is what the closure returned for `b`. The closure only
/// calls the verified `encode_block`, whose contract gives each element.
#[verifier::external_body]
fn par_encode_blocks(data: &Vec<u8>, w: usize, h: usize, bw: usize, nb: usize) -> (r: Vec<
    Vec<u8>,
>)
    requires
        1 <= w,
        1 <= h,
        data@.len() == w * h * 4,
        bw == blocks(w as int),
        nb == blocks(w as int) * blocks(h as int),
    ensures
        r@.len() == nb,
        forall|b: int|
            0 <= b < nb ==> #[trigger] r@[b]@ == block_bytes(
                data@, w as int, h as int, b % (bw as int), b / (bw as int),
            ),
{
    (0..nb).into_par_iter().map(|b| encode_block(data, w, h, bw, b)).collect()
}

/// Encode a whole level: every 4x4 block's record, in row-major block order.
#[verifier::rlimit(80)]
pub fn encode(data: &Vec<u8>, w: usize, h: usize) -> (r: Vec<u8>)
    requires
        1 <= w,
        1 <= h,
        data@.len() == w * h * 4,
        16 * (w as int) * (h as int) <= usize::MAX,
    ensures
        r@ == payload(data@, w as int, h as int),
        r@.len() == blocks(w as int) * blocks(h as int) * 16,
{
    let n = data.len();
    assert(4 * w <= n && 4 * h <= n) by (nonlinear_arith)
        requires
            n == w * h * 4,
            1 <= w,
            1 <= h;
    let bw = (w + 3) / 4;
    let bh = (h + 3) / 4;
    assert(1 <= bw <= w && 1 <= bh <= h) by (nonlinear_arith)
        requires
            bw == (w + 3) / 4,
            bh == (h + 3) / 4,
            1 <= w,
            1 <= h;
    assert(bw * bh <= bw * bh * 16 && bw * bh * 16 <= 16 * w * h) by (nonlinear_arith)
        requires
            1 <= bw <= w,
            1 <= bh <= h;
    let nb = bw * bh;
    let total = nb * 16;
    let blocks_v = par_encode_blocks(data, w, h, bw, nb);
    let mut out: Vec<u8> = Vec::new();
    let mut b: usize = 0;
    while b < nb
        invariant
            nb == blocks(w as int) * blocks(h as int),
            bw == blocks(w as int),
            total == nb * 16,
            blocks_v@.len() == nb,
            forall|bb: int|
                0 <= bb < nb ==> #[trigger] blocks_v@[bb]@ == block_bytes(
                    data@, w as int, h as int, bb % (bw as int), bb / (bw as int),
                ),
            b <= nb,
            out@.len() == b * 16,
            forall|j: int|
                0 <= j < b * 16 ==> out@[j] == payload_byte(data@, w as int, h as int, j),
        decreases nb - b,
    {
        assert((b + 1) * 16 <= total) by (nonlinear_arith)
            requires
                b < nb,
                total == nb * 16;
        let mut o: usize = 0;
        while o < 16
            invariant
                nb == blocks(w as int) * blocks(h as int),
                bw == blocks(w as int),
                total == nb * 16,
                b < nb,
                (b + 1) * 16 <= total,
                blocks_v@.len() == nb,
                forall|bb: int|
                    0 <= bb < nb ==> #[trigger] blocks_v@[bb]@ == block_bytes(
                        data@, w as int, h as int, bb % (bw as int), bb / (bw as int),
                    ),
                o <= 16,
                out@.len() == b * 16 + o,
                forall|j: int|
                    0 <= j < b * 16 + o ==> out@[j] == payload_byte(data@, w as int, h as int, j),
            decreases 16 - o,
        {
            let ghost j = b * 16 + o;
            out.push(blocks_v[b][o]);
            proof {
                lemma_fundamental_div_mod_converse_div(j as int, 16, b as int, o as int);
                lemma_fundamental_div_mod_converse_mod(j as int, 16, b as int, o as int);
                assert(out@[j as int] == payload_byte(data@, w as int, h as int, j as int));
            }
            o = o + 1;
        }
        b = b + 1;
    }
    assert(out@ =~= payload(data@, w as int, h as int));
    out
}

} // verus!
