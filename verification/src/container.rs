//! The container writer and the top-level encode loop. The writer streams a
//! fixed header whose mip-count word starts as a placeholder, appends one
//! payload per level, and finally seeks back to patch the count in. The bytes
//! it accumulates are exactly the bytes of the finished file.

use vstd::prelude::*;
use vstd::arithmetic::div_mod::{
    lemma_fundamental_div_mod,
    lemma_div_denominator,
    lemma_div_pos_is_pos,
    lemma_multiply_divide_lt,
};
use crate::image_data::{ImageData, mip_data};
use crate::image_format::{ImageFormat, EncodeError};
use crate::mipmaping::{half_dim, chain_len, lemma_chain_len_bound, lemma_chain_len_step};

verus! {

/// Byte length of the fixed header.
pub const HEADER_LEN: usize = 28;

/// Byte offset of the mip-count word inside the header.
pub const MIP_COUNT_OFFSET: usize = 20;

/// Reserved image-type tag, constant for this container revision.
pub const IMAGE_TYPE: u32 = 2;

/// Format revision written into every container.
pub const VERSION: u32 = 1;

/// A 32-bit word as its four little-endian bytes.
pub open spec fn le32(v: int) -> Seq<u8> {
    seq![
        (v % 256) as u8,
        ((v / 256) % 256) as u8,
        ((v / 65536) % 256) as u8,
        ((v / 16777216) % 256) as u8,
    ]
}

/// A sequence of 32-bit words as their concatenated little-endian bytes.
pub open spec fn words_bytes(ws: Seq<u32>) -> Seq<u8>
    decreases ws.len(),
{
    if ws.len() == 0 {
        Seq::empty()
    } else {
        words_bytes(ws.drop_last()) + le32(ws.last() as int)
    }
}

/// The 28-byte header: the magic token `yave`, then the image type, format
/// revision, base dimensions, mip-count word and format identifier, each a
/// little-endian 32-bit word.
pub open spec fn spec_header(w: int, h: int, fmt: int, mips: int) -> Seq<u8> {
    seq![121u8, 97u8, 118u8, 101u8] + le32(IMAGE_TYPE as int) + le32(VERSION as int) + le32(w)
        + le32(h) + le32(mips) + le32(fmt)
}

/// The 32-bit word stored little-endian at byte offset `off`.
pub open spec fn read_u32_le(s: Seq<u8>, off: int) -> int {
    s[off] + 256 * (s[off + 1] as int) + 65536 * (s[off + 2] as int) + 16777216 * (
    s[off + 3] as int)
}

/// Reading the four little-endian bytes of a word gives the word back.
proof fn lemma_le32_value(v: int)
    requires
        0 <= v <= u32::MAX,
    ensures
        (v % 256) + 256 * ((v / 256) % 256) + 65536 * ((v / 65536) % 256) + 16777216 * ((v
            / 16777216) % 256) == v,
{
    lemma_fundamental_div_mod(v, 256);
    lemma_fundamental_div_mod(v / 256, 256);
    lemma_fundamental_div_mod(v / 65536, 256);
    lemma_div_denominator(v, 256, 256);
    lemma_div_denominator(v, 65536, 256);
    if v > 0 {
        lemma_div_pos_is_pos(v, 16777216);
    }
    lemma_multiply_divide_lt(v, 16777216, 256);
    assert((v % 256) + 256 * ((v / 256) % 256) + 65536 * ((v / 65536) % 256) + 16777216 * ((v
        / 16777216) % 256) == v) by (nonlinear_arith)
        requires
            v == 256 * (v / 256) + v % 256,
            v / 256 == 256 * ((v / 256) / 256) + (v / 256) % 256,
            (v / 256) / 256 == v / 65536,
            v / 65536 == 256 * ((v / 65536) / 256) + (v / 65536) % 256,
            (v / 65536) / 256 == v / 16777216,
            0 <= v / 16777216 < 256;
}

/// Header round trip: whatever payload bytes follow it, the header reads back
/// the dimensions, the patched mip count and the format identifier that were
/// written into it.
pub proof fn lemma_header_round_trip(w: int, h: int, fmt: int, mips: int, p: Seq<u8>)
    requires
        0 <= w <= u32::MAX,
        0 <= h <= u32::MAX,
        0 <= fmt <= u32::MAX,
        0 <= mips <= u32::MAX,
    ensures
        read_u32_le(spec_header(w, h, fmt, mips) + p, 12) == w,
        read_u32_le(spec_header(w, h, fmt, mips) + p, 16) == h,
        read_u32_le(spec_header(w, h, fmt, mips) + p, 20) == mips,
        read_u32_le(spec_header(w, h, fmt, mips) + p, 24) == fmt,
{
    let s = spec_header(w, h, fmt, mips) + p;
    assert(s[12] == le32(w)[0] && s[13] == le32(w)[1] && s[14] == le32(w)[2] && s[15] == le32(
        w,
    )[3]);
    assert(s[16] == le32(h)[0] && s[17] == le32(h)[1] && s[18] == le32(h)[2] && s[19] == le32(
        h,
    )[3]);
    assert(s[20] == le32(mips)[0] && s[21] == le32(mips)[1] && s[22] == le32(mips)[2] && s[23]
        == le32(mips)[3]);
    assert(s[24] == le32(fmt)[0] && s[25] == le32(fmt)[1] && s[26] == le32(fmt)[2] && s[27]
        == le32(fmt)[3]);
    lemma_le32_value(w);
    lemma_le32_value(h);
    lemma_le32_value(mips);
    lemma_le32_value(fmt);
}

/// The header with the count patched in is the header with the placeholder,
/// its four count bytes replaced.
proof fn lemma_header_patch(w: int, h: int, fmt: int, m: int)
    ensures
        spec_header(w, h, fmt, m) == spec_header(w, h, fmt, 0).take(20) + le32(m) + spec_header(
            w, h, fmt, 0,
        ).skip(24),
{
    assert(spec_header(w, h, fmt, m) =~= spec_header(w, h, fmt, 0).take(20) + le32(m)
        + spec_header(w, h, fmt, 0).skip(24));
}

/// Append a sequence of 32-bit words to `out`, each as its four little-endian
/// bytes.
pub fn write_bin(out: &mut Vec<u8>, v: &Vec<u32>)
    ensures
        final(out)@ == old(out)@ + words_bytes(v@),
{
    let mut i: usize = 0;
    while i < v.len()
        invariant
            i <= v@.len(),
            out@ == old(out)@ + words_bytes(v@.take(i as int)),
        decreases v@.len() - i,
    {
        let x = v[i];
        out.push((x % 256) as u8);
        out.push(((x / 256) % 256) as u8);
        out.push(((x / 65536) % 256) as u8);
        out.push(((x / 16777216) % 256) as u8);
        proof {
            assert(v@.take(i + 1).drop_last() =~= v@.take(i as int));
            assert(v@.take(i + 1).last() == v@[i as int]);
            assert(out@ =~= old(out)@ + words_bytes(v@.take(i + 1)));
        }
        i = i + 1;
    }
    proof {
        assert(v@.take(v@.len() as int) =~= v@);
    }
}

/// The writer's progress through one file.
#[derive(Clone, Copy, PartialEq, Eq, Structural, Debug)]
pub enum WriterState {
    /// The header is out, its mip-count word a placeholder zero.
    HeaderWritten,
    /// At least one level payload has been appended.
    LevelsInFlight,
    /// The mip-count word has been rewritten with the final count. Only now
    /// is the container valid.
    Patched,
}

/// Accumulates the container bytes: header first, then one opaque payload per
/// level, and finally the backward patch of the mip-count word.
pub struct ContainerWriter {
    pub bytes: Vec<u8>,
    pub mips: u32,
    pub width: u32,
    pub height: u32,
    pub format_id: u32,
    pub state: WriterState,
}

impl ContainerWriter {
    /// The value the header's mip-count word currently holds.
    pub open spec fn header_mips(&self) -> int {
        if self.state is Patched {
            self.mips as int
        } else {
            0
        }
    }

    /// The writer's bytes always start with the header of its dimensions and
    /// format; the count word holds zero until the patch.
    pub open spec fn wf(&self) -> bool {
        &&& self.bytes@.len() >= HEADER_LEN
        &&& self.bytes@.take(HEADER_LEN as int) == spec_header(
            self.width as int,
            self.height as int,
            self.format_id as int,
            self.header_mips(),
        )
    }

    /// The level payloads appended so far, concatenated.
    pub open spec fn payloads(&self) -> Seq<u8> {
        self.bytes@.skip(HEADER_LEN as int)
    }

    /// Write the header: magic token, image type, revision, dimensions, a
    /// zero placeholder for the mip count, and the format identifier.
    pub fn new(width: u32, height: u32, format_id: u32) -> (r: ContainerWriter)
        ensures
            r.wf(),
            r.state is HeaderWritten,
            r.width == width,
            r.height == height,
            r.format_id == format_id,
            r.mips == 0,
            r.bytes@ == spec_header(width as int, height as int, format_id as int, 0),
    {
        let mut bytes: Vec<u8> = Vec::new();
        // The magic token, the ASCII bytes of `yave`.
        bytes.push(121);
        bytes.push(97);
        bytes.push(118);
        bytes.push(101);
        let words: Vec<u32> = vec![IMAGE_TYPE, VERSION, width, height, 0, format_id];
        write_bin(&mut bytes, &words);
        proof {
            reveal_with_fuel(words_bytes, 8);
            let ws = words@;
            assert(ws.drop_last() =~= seq![IMAGE_TYPE, VERSION, width, height, 0u32]);
            assert(ws.drop_last().drop_last() =~= seq![IMAGE_TYPE, VERSION, width, height]);
            assert(ws.drop_last().drop_last().drop_last() =~= seq![IMAGE_TYPE, VERSION, width]);
            assert(ws.drop_last().drop_last().drop_last().drop_last() =~= seq![
                IMAGE_TYPE,
                VERSION,
            ]);
            assert(ws.drop_last().drop_last().drop_last().drop_last().drop_last() =~= seq![
                IMAGE_TYPE,
            ]);
            assert(seq![IMAGE_TYPE].drop_last() =~= Seq::<u32>::empty());
            assert(bytes@ =~= spec_header(width as int, height as int, format_id as int, 0));
        }
        let r = ContainerWriter {
            bytes,
            mips: 0,
            width,
            height,
            format_id,
            state: WriterState::HeaderWritten,
        };
        proof {
            assert(r.bytes@.take(28) =~= r.bytes@);
        }
        r
    }

    /// Append one level's encoded payload and count it.
    pub fn append_level(&mut self, payload: Vec<u8>)
        requires
            old(self).wf(),
            !(old(self).state is Patched),
            old(self).mips < u32::MAX,
        ensures
            final(self).wf(),
            final(self).state is LevelsInFlight,
            final(self).mips == old(self).mips + 1,
            final(self).width == old(self).width,
            final(self).height == old(self).height,
            final(self).format_id == old(self).format_id,
            final(self).bytes@ == old(self).bytes@ + payload@,
            final(self).payloads() == old(self).payloads() + payload@,
    {
        let mut p = payload;
        self.bytes.append(&mut p);
        self.mips = self.mips + 1;
        self.state = WriterState::LevelsInFlight;
        proof {
            assert(self.bytes@.take(28) =~= old(self).bytes@.take(28));
            assert(self.payloads() =~= old(self).payloads() + payload@);
        }
    }

    /// Seek back to the mip-count word and overwrite the placeholder with the
    /// final count. Only the four bytes at the fixed offset change.
    pub fn patch_mip_count(&mut self)
        requires
            old(self).wf(),
            !(old(self).state is Patched),
        ensures
            final(self).wf(),
            final(self).state is Patched,
            final(self).mips == old(self).mips,
            final(self).width == old(self).width,
            final(self).height == old(self).height,
            final(self).format_id == old(self).format_id,
            final(self).bytes@ == old(self).bytes@.take(20) + le32(old(self).mips as int) + old(
                self,
            ).bytes@.skip(24),
            final(self).payloads() == old(self).payloads(),
    {
        let m = self.mips;
        self.bytes[MIP_COUNT_OFFSET] = (m % 256) as u8;
        self.bytes[MIP_COUNT_OFFSET + 1] = ((m / 256) % 256) as u8;
        self.bytes[MIP_COUNT_OFFSET + 2] = ((m / 65536) % 256) as u8;
        self.bytes[MIP_COUNT_OFFSET + 3] = ((m / 16777216) % 256) as u8;
        self.state = WriterState::Patched;
        proof {
            let ob = old(self).bytes@;
            let hd0 = spec_header(
                self.width as int, self.height as int, self.format_id as int, 0,
            );
            lemma_header_patch(
                self.width as int, self.height as int, self.format_id as int, m as int,
            );
            assert(self.bytes@ =~= ob.take(20) + le32(m as int) + ob.skip(24));
            assert(ob.take(28) == hd0);
            assert(self.bytes@.take(28) =~= hd0.take(20) + le32(m as int) + hd0.skip(24));
            assert(self.payloads() =~= old(self).payloads());
        }
    }

    /// Hand the finished container out. Until the count is patched the bytes
    /// are not a valid container, so this closes a patched writer only.
    pub fn into_bytes(self) -> (r: Vec<u8>)
        requires
            self.state is Patched,
        ensures
            r == self.bytes,
    {
        self.bytes
    }
}

/// The concatenated payloads of the full mip chain of a `w x h` image: the
/// level itself, then, below the base case, the chain of its halved successor.
pub open spec fn chain_payloads(f: ImageFormat, data: Seq<u8>, w: int, h: int) -> Seq<u8>
    decreases w + h when 1 <= w && 1 <= h
{
    if w <= 1 && h <= 1 {
        f.spec_encode(data, w, h)
    } else {
        f.spec_encode(data, w, h) + chain_payloads(f, mip_data(data, w, h), half_dim(w), half_dim(h))
    }
}

/// The payloads of the levels strictly below the `w x h` one.
pub open spec fn rest_payloads(f: ImageFormat, data: Seq<u8>, w: int, h: int) -> Seq<u8> {
    if w <= 1 && h <= 1 {
        Seq::empty()
    } else {
        chain_payloads(f, mip_data(data, w, h), half_dim(w), half_dim(h))
    }
}

/// The bytes of the finished container of a well-formed `w x h` image: the
/// header carrying the full chain's count, then every level's payload.
pub open spec fn spec_container(f: ImageFormat, data: Seq<u8>, w: int, h: int) -> Seq<u8> {
    spec_header(w, h, f.spec_id() as int, chain_len(w, h)) + chain_payloads(f, data, w, h)
}

/// Encode a whole image: header, the base level, every successive mip level
/// down to `1 x 1`, then the count patch. A base-level encode failure is
/// fatal and surfaces as the codec's error; an encode failure on a later
/// level would stop the loop early and keep the levels already written.
pub fn write_image(image: ImageData, format: ImageFormat, quality: u8) -> (r: Result<
    ContainerWriter,
    EncodeError,
>)
    requires
        image.width <= u32::MAX,
        image.height <= u32::MAX,
        16 * (image.width as int) * (image.height as int) <= usize::MAX,
    ensures
        r is Ok <==> image.wf(),
        image.width == 0 || image.height == 0 ==> r == Result::<
            ContainerWriter,
            EncodeError,
        >::Err(EncodeError::EmptyImage),
        image.width >= 1 && image.height >= 1 && !image.wf() ==> r == Result::<
            ContainerWriter,
            EncodeError,
        >::Err(EncodeError::LayoutMismatch),
        image.wf() ==> {
            let wtr = r->Ok_0;
            &&& wtr.wf()
            &&& wtr.state is Patched
            &&& wtr.width == image.width
            &&& wtr.height == image.height
            &&& wtr.format_id == format.spec_id()
            &&& wtr.mips as int == chain_len(image.width as int, image.height as int)
            &&& wtr.bytes@ == spec_container(
                format, image.data@, image.width as int, image.height as int,
            )
        },
{
    let ghost w0 = image.width as int;
    let ghost h0 = image.height as int;
    let ghost data0 = image.data@;
    let payload0 = match format.encode(&image, quality) {
        Ok(p) => p,
        Err(e) => {
            return Err(e);
        },
    };
    proof {
        lemma_chain_len_bound(w0, h0);
    }
    let mut writer = ContainerWriter::new(image.width as u32, image.height as u32, format.id());
    writer.append_level(payload0);
    let mut cur = image;
    proof {
        if !(cur.width == 1 && cur.height == 1) {
            assert(rest_payloads(format, cur.data@, w0, h0) == chain_payloads(
                format,
                mip_data(cur.data@, w0, h0),
                half_dim(w0),
                half_dim(h0),
            ));
        }
        assert(writer.payloads() =~= format.spec_encode(data0, w0, h0));
    }
    loop
        invariant
            cur.wf(),
            cur.width <= u32::MAX,
            cur.height <= u32::MAX,
            16 * (cur.width as int) * (cur.height as int) <= usize::MAX,
            writer.wf(),
            writer.state is LevelsInFlight,
            writer.width == w0,
            writer.height == h0,
            writer.format_id == format.spec_id(),
            1 <= chain_len(cur.width as int, cur.height as int),
            chain_len(w0, h0) <= 33,
            writer.mips as int == chain_len(w0, h0) - chain_len(
                cur.width as int,
                cur.height as int,
            ) + 1,
            writer.payloads() + rest_payloads(
                format, cur.data@, cur.width as int, cur.height as int,
            ) == chain_payloads(format, data0, w0, h0),
        ensures
            writer.wf(),
            writer.state is LevelsInFlight,
            writer.width == w0,
            writer.height == h0,
            writer.format_id == format.spec_id(),
            writer.mips as int == chain_len(w0, h0),
            writer.payloads() == chain_payloads(format, data0, w0, h0),
        decreases cur.width + cur.height,
    {
        let ghost cw = cur.width as int;
        let ghost ch = cur.height as int;
        match cur.mipmap() {
            None => {
                proof {
                    assert(rest_payloads(format, cur.data@, cw, ch) =~= Seq::<u8>::empty());
                    assert(writer.payloads() + Seq::<u8>::empty() =~= writer.payloads());
                }
                break;
            },
            Some(next) => {
                proof {
                    lemma_chain_len_step(cw, ch);
                    lemma_chain_len_bound(next.width as int, next.height as int);
                    assert(16 * (next.width as int) * (next.height as int) <= 16 * cw * ch)
                        by (nonlinear_arith)
                        requires
                            1 <= next.width as int <= cw,
                            1 <= next.height as int <= ch;
                    assert((next.width as int) <= cw && (next.height as int) <= ch && (next.width
                        as int) + (next.height as int) < cw + ch) by (nonlinear_arith)
                        requires
                            1 <= cw,
                            1 <= ch,
                            !(cw == 1 && ch == 1),
                            next.width as int == half_dim(cw),
                            next.height as int == half_dim(ch);
                }
                let enc = match format.encode(&next, quality) {
                    Ok(e) => e,
                    Err(_) => {
                        proof {
                            assert(false);
                        }
                        break;
                    },
                };
                writer.append_level(enc);
                proof {
                    let nw = next.width as int;
                    let nh = next.height as int;
                    assert(rest_payloads(format, cur.data@, cw, ch) == chain_payloads(
                        format, next.data@, nw, nh,
                    ));
                    assert(chain_payloads(format, next.data@, nw, nh) =~= format.spec_encode(
                        next.data@, nw, nh,
                    ) + rest_payloads(format, next.data@, nw, nh));
                    assert(writer.payloads() + rest_payloads(format, next.data@, nw, nh)
                        =~= chain_payloads(format, data0, w0, h0));
                }
                cur = next;
            },
        }
    }
    writer.patch_mip_count();
    proof {
        let hd0 = spec_header(w0, h0, format.spec_id() as int, 0);
        let hdm = spec_header(w0, h0, format.spec_id() as int, writer.mips as int);
        assert(writer.bytes@ =~= hdm + chain_payloads(format, data0, w0, h0));
        assert(writer.bytes@ == spec_container(format, data0, w0, h0));
    }
    Ok(writer)
}

} // verus!
