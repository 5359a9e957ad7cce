//! Fixed-point compositing of a glyph coverage mask against a text color and a
//! flat background color.
//!
//! Every channel of every pixel, the alpha channel included, is blended by the
//! same integer formula, with the channel's own coverage byte as the weight:
//!
//! `out = ((a * m) + (b * ((0xff00 - textalpha * m) >> 8))) >> 8`
//!
//! narrowed to a byte. The `>> 8` stands where a division by 255 would give the
//! exact blend; the small downward bias that this leaves is part of the result.
use vstd::prelude::*;

verus! {

/// Number of bytes in one pixel.
pub const CHANNELS: usize = 4;

/// Number of bytes the wide kernel composites per step (four pixels).
pub const BLOCK: usize = 16;

/// The compositing formula on one channel: text channel `a`, the text
/// color's alpha `textalpha`, coverage `m` and background channel `b`.
pub open spec fn composite_channel(a: u8, textalpha: u8, m: u8, b: u8) -> u8 {
    let inverse = (0xff00 - textalpha * m) / 256;
    (((a * m + b * inverse) / 256) % 256) as u8
}

/// The composited byte at position `i` of a mask: channel `i % 4` of a pixel.
pub open spec fn composite_at(mask: Seq<u8>, i: int, text: [u8; 4], dest: [u8; 4]) -> u8 {
    composite_channel(text@[i % 4], text@[3], mask[i], dest@[i % 4])
}

/// A whole mask composited byte by byte.
pub open spec fn composited(mask: Seq<u8>, text: [u8; 4], dest: [u8; 4]) -> Seq<u8> {
    Seq::new(mask.len(), |i: int| composite_at(mask, i, text, dest))
}

/// One 16-bit lane of the wide kernel: products, difference and sum are
/// taken modulo 2^16, as packed 16-bit vector arithmetic takes them.
pub open spec fn lane_channel(a: u8, textalpha: u8, m: u8, b: u8) -> u8 {
    let left = (a as u16).wrapping_mul(m as u16);
    let cover = (textalpha as u16).wrapping_mul(m as u16);
    let inverse = 0xff00u16.wrapping_sub(cover) >> 8u16;
    let sum = inverse.wrapping_mul(b as u16).wrapping_add(left);
    (sum >> 8u16) as u8
}

/// A product of two bytes.
proof fn lemma_byte_product(x: u8, y: u8)
    ensures
        x * y <= 0xfe01,
        0 <= x * y,
{
    assert(x * y <= 0xfe01) by (nonlinear_arith)
        requires
            x < 256,
            y < 256,
    ;
    assert(0 <= x * y) by (nonlinear_arith)
        requires
            0 <= x,
            0 <= y,
    ;
}

/// The wide kernel's 16-bit lane arithmetic gives the byte of the scalar
/// formula for every text channel, text alpha, coverage and background.
pub proof fn lemma_lane_matches_scalar(a: u8, textalpha: u8, m: u8, b: u8)
    ensures
        lane_channel(a, textalpha, m, b) == composite_channel(a, textalpha, m, b),
{
    let left = (a as u16).wrapping_mul(m as u16);
    let cover = (textalpha as u16).wrapping_mul(m as u16);
    let inverse = 0xff00u16.wrapping_sub(cover) >> 8u16;
    let right = inverse.wrapping_mul(b as u16);
    let sum = right.wrapping_add(left);
    lemma_byte_product(a, m);
    lemma_byte_product(textalpha, m);
    assert(left == a * m);
    assert(cover == textalpha * m);
    assert(inverse == (0xff00 - cover) / 256 && inverse < 256) by (bit_vector)
        requires
            inverse == ((0xff00u16 - cover) as u16) >> 8u16,
            cover <= 0xfe01u16,
    ;
    lemma_byte_product(inverse as u8, b);
    assert(right == b * inverse);
    let exact: u32 = (right + left) as u32;
    assert(sum == (if exact > 0xffff { exact - 0x10000 } else { exact as int }));
    assert((sum >> 8u16) as u8 == ((exact / 256) % 256) as u8) by (bit_vector)
        requires
            sum == (if exact > 0xffffu32 { (exact - 0x10000u32) as u32 } else { exact }) as u16,
            exact <= 0x1fc02u32,
    ;
}

/// Boundary values of the formula. Zero coverage gives the background
/// channel and full coverage at full text alpha gives the text channel, each
/// lowered by one step of truncation unless it is zero.
pub proof fn lemma_boundary_values(a: u8, textalpha: u8, b: u8)
    ensures
        composite_channel(a, textalpha, 0, b) == if b == 0 { 0 } else { b - 1 },
        composite_channel(a, 255, 255, b) == if a == 0 { 0 } else { a - 1 },
        b == 0 ==> composite_channel(a, textalpha, 0, b) == b,
        a == 0 ==> composite_channel(a, 255, 255, b) == a,
{
    let bb = b as u32;
    let aa = a as u32;
    assert(((bb * 255) / 256) % 256 == if bb == 0 { 0 } else { bb - 1 }) by (bit_vector)
        requires
            bb < 256,
    ;
    assert(((aa * 255) / 256) % 256 == if aa == 0 { 0 } else { aa - 1 }) by (bit_vector)
        requires
            aa < 256,
    ;
    assert(composite_channel(a, 255, 255, b) == ((a * 255 + b * 0) / 256) % 256);
}

/// The formula on one channel, computed exactly in 32 bits and narrowed.
pub fn composite_color(textcolor: u8, textalpha: u8, maskcolor: u8, destcolor: u8) -> (r: u8)
    ensures
        r == composite_channel(textcolor, textalpha, maskcolor, destcolor),
{
    proof {
        lemma_byte_product(textalpha, maskcolor);
        lemma_byte_product(textcolor, maskcolor);
    }
    let cover: u32 = textalpha as u32 * maskcolor as u32;
    let inverse: u32 = (0xff00 - cover) >> 8;
    assert(inverse == (0xff00 - cover) / 256 && inverse < 256) by (bit_vector)
        requires inverse == ((0xff00u32 - cover) as u32) >> 8u32, cover <= 0xfe01u32;
    proof {
        lemma_byte_product(destcolor, inverse as u8);
    }
    let left: u32 = textcolor as u32 * maskcolor as u32;
    let right: u32 = destcolor as u32 * inverse;
    let sum: u32 = left + right;
    let r = #[verifier::truncate] ((sum >> 8) as u8);
    assert(r == ((sum / 256) % 256) as u8) by (bit_vector)
        requires
            r == (sum >> 8u32) as u8,
    ;
    r
}

/// One channel through the wide kernel's 16-bit lane arithmetic.
fn lane_color(textcolor: u8, textalpha: u8, maskcolor: u8, destcolor: u8) -> (r: u8)
    ensures
        r == lane_channel(textcolor, textalpha, maskcolor, destcolor),
{
    let left: u16 = (textcolor as u16).wrapping_mul(maskcolor as u16);
    let cover: u16 = (textalpha as u16).wrapping_mul(maskcolor as u16);
    let inverse: u16 = 0xff00u16.wrapping_sub(cover) >> 8;
    let right: u16 = inverse.wrapping_mul(destcolor as u16);
    let sum: u16 = right.wrapping_add(left);
    #[verifier::truncate] ((sum >> 8) as u8)
}

/// Composites `data` in place one byte at a time with the scalar formula.
pub fn composite_scalar(data: &mut Vec<u8>, textcolor: [u8; 4], destcolor: [u8; 4])
    ensures
        final(data)@ == composited(old(data)@, textcolor, destcolor),
{
    let ghost mask = data@;
    let len = data.len();
    let mut i: usize = 0;
    while i < len
        invariant
            len == mask.len(),
            data@.len() == len,
            i <= len,
            forall|j: int| 0 <= j < i ==> data@[j] == composite_at(mask, j, textcolor, destcolor),
            forall|j: int| i <= j < len ==> data@[j] == mask[j],
        decreases len - i,
    {
        let c = i % CHANNELS;
        let out = composite_color(textcolor[c], textcolor[3], data[i], destcolor[c]);
        data.set(i, out);
        i = i + 1;
    }
    assert(data@ =~= composited(mask, textcolor, destcolor));
}

/// Composites `data` in place: whole blocks of four pixels through the 16-bit
/// lane kernel, then the bytes after the last whole block through the scalar
/// formula. No byte outside `data` is read or written.
pub fn composite_wide(data: &mut Vec<u8>, textcolor: [u8; 4], destcolor: [u8; 4])
    ensures
        final(data)@ == composited(old(data)@, textcolor, destcolor),
{
    let ghost mask = data@;
    let len = data.len();
    let blocks_end = len - len % BLOCK;
    let mut i: usize = 0;
    while i < blocks_end
        invariant
            len == mask.len(),
            data@.len() == len,
            blocks_end <= len,
            blocks_end % 16 == 0,
            i % 16 == 0,
            i <= blocks_end,
            forall|j: int| 0 <= j < i ==> data@[j] == composite_at(mask, j, textcolor, destcolor),
            forall|j: int| i <= j < len ==> data@[j] == mask[j],
        decreases blocks_end - i,
    {
        let mut k: usize = 0;
        while k < BLOCK
            invariant
                len == mask.len(),
                data@.len() == len,
                i + 16 <= blocks_end <= len,
                i % 16 == 0,
                k <= 16,
                forall|j: int| 0 <= j < i + k ==> data@[j] == composite_at(mask, j, textcolor, destcolor),
                forall|j: int| i + k <= j < len ==> data@[j] == mask[j],
            decreases 16 - k,
        {
            let at = i + k;
            let c = at % CHANNELS;
            let out = lane_color(textcolor[c], textcolor[3], data[at], destcolor[c]);
            proof {
                lemma_lane_matches_scalar(textcolor[c as int], textcolor[3], mask[at as int], destcolor[c as int]);
            }
            data.set(at, out);
            k = k + 1;
        }
        i = i + BLOCK;
    }
    while i < len
        invariant
            len == mask.len(),
            data@.len() == len,
            i <= len,
            forall|j: int| 0 <= j < i ==> data@[j] == composite_at(mask, j, textcolor, destcolor),
            forall|j: int| i <= j < len ==> data@[j] == mask[j],
        decreases len - i,
    {
        let c = i % CHANNELS;
        let out = composite_color(textcolor[c], textcolor[3], data[i], destcolor[c]);
        data.set(i, out);
        i = i + 1;
    }
    assert(data@ =~= composited(mask, textcolor, destcolor));
}

} // verus!
