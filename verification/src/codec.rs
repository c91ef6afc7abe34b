//! The bit codec: bytes to pixels and back.
//!
//! A byte becomes eight pixels in raster order, most significant bit first.
//! A white pixel (255) stands for bit 1, a black one (0) for bit 0. On the
//! way back any pixel brighter than 127 counts as 1.

use vstd::prelude::*;

verus! {

/// Pixel value of a set bit.
pub const WHITE: u8 = 255;

/// Pixel value of a clear bit.
pub const BLACK: u8 = 0;

/// Bit `i` of `byte`, counted from the most significant bit.
pub open spec fn bit_at(byte: u8, i: int) -> bool {
    (byte >> ((7 - i) as u8)) & 1u8 == 1u8
}

/// The pixel that stores `bit`.
pub open spec fn pixel_for(bit: bool) -> u8 {
    if bit {
        WHITE
    } else {
        BLACK
    }
}

/// Whether pixel `p` of `pixels` exists and reads as bit 1.
pub open spec fn lit(pixels: Seq<u8>, p: int) -> bool {
    0 <= p < pixels.len() && pixels[p] > 127
}

/// The byte whose bits, most significant first, are `b0` to `b7`.
pub open spec fn pack8(
    b0: bool,
    b1: bool,
    b2: bool,
    b3: bool,
    b4: bool,
    b5: bool,
    b6: bool,
    b7: bool,
) -> u8 {
    (if b0 { 0x80u8 } else { 0u8 }) | (if b1 { 0x40u8 } else { 0u8 }) | (if b2 { 0x20u8 } else { 0u8 })
        | (if b3 { 0x10u8 } else { 0u8 }) | (if b4 { 0x08u8 } else { 0u8 }) | (if b5 { 0x04u8 } else {
        0u8
    }) | (if b6 { 0x02u8 } else { 0u8 }) | (if b7 { 0x01u8 } else { 0u8 })
}

/// The raster of `count` pixels that stores `data`: eight pixels for each
/// byte, then white pixels to the end.
pub open spec fn encode_pixels(data: Seq<u8>, count: nat) -> Seq<u8> {
    Seq::new(
        count,
        |p: int|
            if p < 8 * data.len() {
                pixel_for(bit_at(data[p / 8], p % 8))
            } else {
                WHITE
            },
    )
}

/// Byte `k` read from `pixels`: pixels `8k` to `8k + 7`, missing ones
/// counting as 0.
pub open spec fn decode_byte(pixels: Seq<u8>, k: int) -> u8 {
    pack8(
        lit(pixels, 8 * k),
        lit(pixels, 8 * k + 1),
        lit(pixels, 8 * k + 2),
        lit(pixels, 8 * k + 3),
        lit(pixels, 8 * k + 4),
        lit(pixels, 8 * k + 5),
        lit(pixels, 8 * k + 6),
        lit(pixels, 8 * k + 7),
    )
}

/// The bytes read from a raster: one for every run of eight pixels, the
/// last run possibly short.
pub open spec fn decode_pixels(pixels: Seq<u8>) -> Seq<u8> {
    Seq::new(((pixels.len() + 7) / 8) as nat, |k: int| decode_byte(pixels, k))
}

/// Packing the eight bits of a byte gives the byte back.
pub proof fn lemma_pack_bits(x: u8)
    ensures
        pack8(
            bit_at(x, 0),
            bit_at(x, 1),
            bit_at(x, 2),
            bit_at(x, 3),
            bit_at(x, 4),
            bit_at(x, 5),
            bit_at(x, 6),
            bit_at(x, 7),
        ) == x,
{
    assert(((if (x >> 7u8) & 1u8 == 1u8 { 0x80u8 } else { 0u8 }) | (if (x >> 6u8) & 1u8 == 1u8 {
        0x40u8
    } else {
        0u8
    }) | (if (x >> 5u8) & 1u8 == 1u8 { 0x20u8 } else { 0u8 }) | (if (x >> 4u8) & 1u8 == 1u8 {
        0x10u8
    } else {
        0u8
    }) | (if (x >> 3u8) & 1u8 == 1u8 { 0x08u8 } else { 0u8 }) | (if (x >> 2u8) & 1u8 == 1u8 {
        0x04u8
    } else {
        0u8
    }) | (if (x >> 1u8) & 1u8 == 1u8 { 0x02u8 } else { 0u8 }) | (if (x >> 0u8) & 1u8 == 1u8 {
        0x01u8
    } else {
        0u8
    })) == x) by (bit_vector);
}

/// Eight white pixels read as `0xFF`.
pub proof fn lemma_pack_ones()
    ensures
        pack8(true, true, true, true, true, true, true, true) == 0xFFu8,
{
    assert((0x80u8 | 0x40u8 | 0x20u8 | 0x10u8 | 0x08u8 | 0x04u8 | 0x02u8 | 0x01u8) == 0xFFu8)
        by (bit_vector);
}

/// What pixel `p` of an encoded raster reads as.
proof fn lemma_encoded_pixel(data: Seq<u8>, count: nat, p: int)
    requires
        0 <= p < count,
    ensures
        lit(encode_pixels(data, count), p) == if p < 8 * data.len() {
            bit_at(data[p / 8], p % 8)
        } else {
            true
        },
{
}

/// Reading back what was stored gives the stored bytes, followed by `0xFF`
/// for every full run of padding pixels.
pub proof fn lemma_decode_encode(data: Seq<u8>, count: nat, k: int)
    requires
        8 * data.len() <= count,
        0 <= k,
        8 * k + 8 <= count,
    ensures
        decode_pixels(encode_pixels(data, count)).len() == (count + 7) / 8,
        decode_pixels(encode_pixels(data, count))[k] == if k < data.len() {
            data[k]
        } else {
            0xFFu8
        },
{
    assert(k < (count + 7) / 8);
    lemma_encoded_pixel(data, count, 8 * k);
    lemma_encoded_pixel(data, count, 8 * k + 1);
    lemma_encoded_pixel(data, count, 8 * k + 2);
    lemma_encoded_pixel(data, count, 8 * k + 3);
    lemma_encoded_pixel(data, count, 8 * k + 4);
    lemma_encoded_pixel(data, count, 8 * k + 5);
    lemma_encoded_pixel(data, count, 8 * k + 6);
    lemma_encoded_pixel(data, count, 8 * k + 7);
    if k < data.len() {
        lemma_pack_bits(data[k]);
    } else {
        lemma_pack_ones();
    }
}

/// Round trip, prefix: the first `|data|` bytes read back are `data`.
pub proof fn lemma_round_trip_prefix(data: Seq<u8>, count: nat)
    requires
        8 * data.len() <= count,
    ensures
        decode_pixels(encode_pixels(data, count)).len() >= data.len(),
        decode_pixels(encode_pixels(data, count)).subrange(0, data.len() as int) == data,
{
    let back = decode_pixels(encode_pixels(data, count));
    assert forall|k: int| 0 <= k < data.len() implies back[k] == data[k] by {
        lemma_decode_encode(data, count, k);
    }
    assert(back.subrange(0, data.len() as int) =~= data);
}

/// Round trip, padding: where the raster is a whole number of bytes, every
/// byte read back past the stored data is `0xFF`.
pub proof fn lemma_round_trip_padding(data: Seq<u8>, count: nat)
    requires
        8 * data.len() <= count,
        count % 8 == 0,
    ensures
        decode_pixels(encode_pixels(data, count)).len() == count / 8,
        forall|k: int|
            data.len() <= k < count / 8 ==> #[trigger] decode_pixels(encode_pixels(data, count))[k]
                == 0xFFu8,
{
    let back = decode_pixels(encode_pixels(data, count));
    assert forall|k: int| data.len() <= k < count / 8 implies #[trigger] back[k] == 0xFFu8 by {
        lemma_decode_encode(data, count, k);
    }
}

/// Encodes `data` into a raster of `count` pixels.
pub fn encode(data: &[u8], count: usize) -> (pixels: Vec<u8>)
    requires
        8 * data@.len() <= count,
    ensures
        pixels@ == encode_pixels(data@, count as nat),
{
    let mut pixels: Vec<u8> = Vec::with_capacity(count);
    let mut k: usize = 0;
    while k < data.len()
        invariant
            k <= data@.len(),
            8 * data@.len() <= count,
            pixels@ == encode_pixels(data@, count as nat).subrange(0, 8 * k as int),
        decreases data@.len() - k,
    {
        let byte: u8 = data[k];
        let mut i: u8 = 0;
        while i < 8
            invariant
                i <= 8,
                k < data@.len(),
                byte == data@[k as int],
                8 * data@.len() <= count,
                pixels@ == encode_pixels(data@, count as nat).subrange(0, 8 * k + i),
            decreases 8 - i,
        {
            let bit: u8 = (byte >> (7 - i)) & 1;
            pixels.push(if bit == 1 { WHITE } else { BLACK });
            proof {
                let p = 8 * k + i;
                assert(p / 8 == k as int && p % 8 == i as int);
                assert(pixels@ =~= encode_pixels(data@, count as nat).subrange(0, p + 1));
            }
            i += 1;
        }
        k += 1;
    }
    while pixels.len() < count
        invariant
            8 * data@.len() <= pixels@.len() <= count,
            pixels@ == encode_pixels(data@, count as nat).subrange(0, pixels@.len() as int),
        decreases count - pixels@.len(),
    {
        pixels.push(WHITE);
        assert(pixels@ =~= encode_pixels(data@, count as nat).subrange(0, pixels@.len() as int));
    }
    assert(pixels@ =~= encode_pixels(data@, count as nat));
    pixels
}

/// Whether pixel `p` exists in `pixels` and reads as bit 1.
fn pixel_lit(pixels: &[u8], p: usize) -> (r: bool)
    ensures
        r == lit(pixels@, p as int),
{
    p < pixels.len() && pixels[p] > 127
}

/// Decodes a raster into bytes.
pub fn decode(pixels: &[u8]) -> (data: Vec<u8>)
    ensures
        data@ == decode_pixels(pixels@),
{
    let n: usize = pixels.len();
    let count: usize = n / 8 + (if n % 8 == 0 { 0 } else { 1 });
    let mut data: Vec<u8> = Vec::with_capacity(count);
    let mut k: usize = 0;
    while k < count
        invariant
            k <= count,
            n == pixels@.len(),
            count == (n + 7) / 8,
            data@ == decode_pixels(pixels@).subrange(0, k as int),
        decreases count - k,
    {
        let base: usize = 8 * k;
        let b0 = pixel_lit(pixels, base);
        let b1 = pixel_lit(pixels, base + 1);
        let b2 = pixel_lit(pixels, base + 2);
        let b3 = pixel_lit(pixels, base + 3);
        let b4 = pixel_lit(pixels, base + 4);
        let b5 = pixel_lit(pixels, base + 5);
        let b6 = pixel_lit(pixels, base + 6);
        let b7 = pixel_lit(pixels, base + 7);
        let byte: u8 = (if b0 { 0x80u8 } else { 0u8 }) | (if b1 { 0x40u8 } else { 0u8 }) | (if b2 {
            0x20u8
        } else {
            0u8
        }) | (if b3 { 0x10u8 } else { 0u8 }) | (if b4 { 0x08u8 } else { 0u8 }) | (if b5 {
            0x04u8
        } else {
            0u8
        }) | (if b6 { 0x02u8 } else { 0u8 }) | (if b7 { 0x01u8 } else { 0u8 });
        data.push(byte);
        proof {
            assert(byte == decode_byte(pixels@, k as int));
            assert(data@ =~= decode_pixels(pixels@).subrange(0, k + 1));
        }
        k += 1;
    }
    assert(data@ =~= decode_pixels(pixels@));
    data
}

} // verus!
