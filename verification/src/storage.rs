//! Block storage: every block is a grayscale image of fixed dimensions.
//!
//! This module turns byte buffers into block images and back, guards the
//! block range, and writes and checks the fingerprint in block 0. Reading
//! and writing the image files is left to the caller.

use crate::codec::{decode, decode_pixels, encode, encode_pixels, WHITE};
use image::ImageBuffer;
use image::Luma;
use vstd::prelude::*;

pub use crate::bitmap::Bitmap;

verus! {

/// Largest accepted block width and height, in pixels.
pub const MAX_BLOCK_SIDE: u32 = 1000;

/// The image of one block: 8-bit grayscale pixels in raster order. The
/// field holds an `image::GrayImage`; contracts speak of it through
/// [`image_raster`] and [`image_dimensions`].
#[verifier::external_body]
pub struct BlockImage {
    pub image: ImageBuffer<Luma<u8>, Vec<u8>>,
}

/// The pixel values of a block image, row by row: what
/// `ImageBuffer::as_raw` hands out.
pub uninterp spec fn image_raster(img: BlockImage) -> Seq<u8>;

/// Width and height of a block image: what `ImageBuffer::dimensions`
/// hands out.
pub uninterp spec fn image_dimensions(img: BlockImage) -> (u32, u32);

/// Calls `ImageBuffer::from_pixel` with a one-channel pixel: the image has
/// the given dimensions and every pixel holds `value`. The outside function
/// panics where the pixel count does not fit a vector, so that is excluded.
#[verifier::external_body]
fn image_from_pixel(width: u32, height: u32, value: u8) -> (r: BlockImage)
    requires
        width * height <= isize::MAX,
    ensures
        image_raster(r) == Seq::new((width * height) as nat, |i: int| value),
        image_dimensions(r) == (width, height),
{
    BlockImage { image: ImageBuffer::from_pixel(width, height, Luma([value])) }
}

/// Calls `ImageBuffer::from_vec` with one-channel pixels: the buffer is
/// accepted exactly when it holds at least `width * height` values, and the
/// image then keeps the buffer as it is.
#[verifier::external_body]
fn image_from_vec(width: u32, height: u32, pixels: Vec<u8>) -> (r: Option<BlockImage>)
    ensures
        r is Some <==> width * height <= pixels@.len(),
        r matches Some(img) ==> image_raster(img) == pixels@ && image_dimensions(img) == (
            width,
            height,
        ),
{
    match ImageBuffer::from_vec(width, height, pixels) {
        Some(image) => Some(BlockImage { image }),
        None => None,
    }
}

/// Calls `ImageBuffer::as_raw`: the pixel buffer of the image.
#[verifier::external_body]
fn image_as_raw(img: &BlockImage) -> (r: &Vec<u8>)
    ensures
        r@ == image_raster(*img),
{
    img.image.as_raw()
}

/// The character of decimal digit `d`.
pub open spec fn digit_char(d: int) -> char {
    seq!['0', '1', '2', '3', '4', '5', '6', '7', '8', '9'][d]
}

/// Ten to the power `k`, for `k` up to nine.
pub open spec fn pow10(k: int) -> int {
    if k <= 0 {
        1
    } else if k == 1 {
        10
    } else if k == 2 {
        100
    } else if k == 3 {
        1_000
    } else if k == 4 {
        10_000
    } else if k == 5 {
        100_000
    } else if k == 6 {
        1_000_000
    } else if k == 7 {
        10_000_000
    } else if k == 8 {
        100_000_000
    } else {
        1_000_000_000
    }
}

/// A block number in decimal, with leading zeros up to eight digits.
pub open spec fn block_number_text(block_num: u32) -> Seq<char> {
    let all = Seq::new(10, |i: int| digit_char((block_num as int / pow10(9 - i)) % 10));
    let skip = if block_num >= 1_000_000_000 {
        0int
    } else if block_num >= 100_000_000 {
        1int
    } else {
        2int
    };
    all.subrange(skip, 10)
}

/// The file name of a block's image: `block_`, the block number in at
/// least eight digits, `.png`.
pub open spec fn block_file_name_text(block_num: u32) -> Seq<char> {
    "block_"@ + block_number_text(block_num) + ".png"@
}

/// The text of one decimal digit.
fn digit_text(d: u32) -> (r: &'static str)
    requires
        d < 10,
    ensures
        r@ == seq![digit_char(d as int)],
{
    proof {
        reveal_strlit("0");
        reveal_strlit("1");
        reveal_strlit("2");
        reveal_strlit("3");
        reveal_strlit("4");
        reveal_strlit("5");
        reveal_strlit("6");
        reveal_strlit("7");
        reveal_strlit("8");
        reveal_strlit("9");
    }
    let r = if d == 0 {
        "0"
    } else if d == 1 {
        "1"
    } else if d == 2 {
        "2"
    } else if d == 3 {
        "3"
    } else if d == 4 {
        "4"
    } else if d == 5 {
        "5"
    } else if d == 6 {
        "6"
    } else if d == 7 {
        "7"
    } else if d == 8 {
        "8"
    } else {
        "9"
    };
    assert(r@ =~= seq![digit_char(d as int)]);
    r
}

/// The file name of the image of block `block_num`.
pub fn block_file_name(block_num: u32) -> (name: String)
    ensures
        name@ == block_file_name_text(block_num),
{
    let mut name: String = "block_".to_owned();
    let skip: usize = if block_num >= 1_000_000_000 {
        0
    } else if block_num >= 100_000_000 {
        1
    } else {
        2
    };
    let ghost all = Seq::new(10, |i: int| digit_char((block_num as int / pow10(9 - i)) % 10));
    let mut divisor: u32 = if skip == 0 {
        1_000_000_000
    } else if skip == 1 {
        100_000_000
    } else {
        10_000_000
    };
    let mut i: usize = skip;
    while i < 10
        invariant
            skip <= i <= 10,
            i < 10 ==> divisor == pow10(9 - i),
            all == Seq::new(10, |i: int| digit_char((block_num as int / pow10(9 - i)) % 10)),
            name@ == "block_"@ + all.subrange(skip as int, i as int),
        decreases 10 - i,
    {
        let d: u32 = (block_num / divisor) % 10;
        let ghost before = name@;
        name.append(digit_text(d));
        proof {
            assert(all[i as int] == digit_char(d as int));
            assert(before + seq![digit_char(d as int)] =~= "block_"@ + all.subrange(
                skip as int,
                i + 1,
            ));
        }
        divisor = divisor / 10;
        i += 1;
    }
    name.append(".png");
    name
}

/// Why a block operation was refused.
#[derive(Debug, Clone, Copy, PartialEq, Eq, Structural)]
pub enum StorageError {
    /// The block number is not below the number of blocks.
    BlockOutOfRange,
    /// The data is longer than a block.
    DataTooLarge,
}

/// The content of block 0 for fingerprint bytes `tag`: the tag, cut to the
/// block's capacity, then zeros.
pub open spec fn superblock_bytes(tag: Seq<u8>, capacity: nat) -> Seq<u8> {
    Seq::new(
        capacity,
        |i: int|
            if i < tag.len() {
                tag[i]
            } else {
                0u8
            },
    )
}

/// What reading a block gives: zeros where no image is stored, else the
/// decoded pixels of the stored image.
pub open spec fn block_content(stored: Option<BlockImage>, capacity: nat) -> Seq<u8> {
    match stored {
        None => Seq::new(capacity, |i: int| 0u8),
        Some(img) => decode_pixels(image_raster(img)),
    }
}

/// Block storage using black and white images.
/// Each pixel stores one bit of information (black = 0, white = 1).
pub struct BlockStorage {
    block_width: u32,
    block_height: u32,
    bytes_per_block: usize,
    total_blocks: u32,
    fingerprint: String,
}

impl BlockStorage {
    #[verifier::type_invariant]
    spec fn inv(self) -> bool {
        &&& self.block_width <= MAX_BLOCK_SIDE
        &&& self.block_height <= MAX_BLOCK_SIDE
        &&& self.bytes_per_block == (self.block_width * self.block_height) / 8
    }

    /// Block width in pixels.
    pub closed spec fn width(&self) -> u32 {
        self.block_width
    }

    /// Block height in pixels.
    pub closed spec fn height(&self) -> u32 {
        self.block_height
    }

    /// Number of blocks.
    pub closed spec fn total(&self) -> u32 {
        self.total_blocks
    }

    /// The fingerprint string.
    pub closed spec fn tag(&self) -> Seq<char> {
        self.fingerprint@
    }

    /// Pixels in a block.
    pub open spec fn pixel_count(&self) -> nat {
        (self.width() * self.height()) as nat
    }

    /// Bytes in a block: one bit per pixel.
    pub open spec fn capacity(&self) -> nat {
        self.pixel_count() / 8
    }

    /// The fingerprint as UTF-8 bytes.
    pub open spec fn tag_bytes(&self) -> Seq<u8> {
        vstd::utf8::encode_utf8(self.tag())
    }

    /// Storage for `total_blocks` blocks of `block_width` by `block_height`
    /// pixels. Each side is at most 1000 pixels.
    pub fn new(block_width: u32, block_height: u32, total_blocks: u32, fingerprint: String) -> (r:
        Self)
        requires
            block_width <= MAX_BLOCK_SIDE,
            block_height <= MAX_BLOCK_SIDE,
        ensures
            r.width() == block_width,
            r.height() == block_height,
            r.total() == total_blocks,
            r.tag() == fingerprint@,
    {
        assert(block_width * block_height <= 1000 * 1000) by (nonlinear_arith)
            requires
                block_width <= 1000,
                block_height <= 1000,
        ;
        let bytes_per_block: usize = ((block_width * block_height) / 8) as usize;
        Self { block_width, block_height, bytes_per_block, total_blocks, fingerprint }
    }

    /// Get bytes per block
    pub fn bytes_per_block(&self) -> (r: usize)
        ensures
            r == self.capacity(),
            r <= 125_000,
    {
        proof {
            use_type_invariant(self);
            self.lemma_pixel_bound();
        }
        self.bytes_per_block
    }

    /// Number of blocks.
    pub fn total_blocks(&self) -> (r: u32)
        ensures
            r == self.total(),
    {
        self.total_blocks
    }

    proof fn lemma_pixel_bound(self)
        requires
            self.inv(),
        ensures
            self.pixel_count() == self.block_width * self.block_height,
            self.pixel_count() <= 1_000_000,
            self.capacity() == self.bytes_per_block,
    {
        assert(self.block_width * self.block_height <= 1000 * 1000) by (nonlinear_arith)
            requires
                self.block_width <= 1000,
                self.block_height <= 1000,
        ;
    }

    /// The image of a freshly initialised block: all pixels white, so that
    /// it reads as all-ones bytes. Fails exactly when `block_num` is out of
    /// range.
    pub fn init_block(&self, block_num: u32) -> (r: Result<BlockImage, StorageError>)
        ensures
            block_num >= self.total() ==> r == Err::<BlockImage, StorageError>(
                StorageError::BlockOutOfRange,
            ),
            block_num < self.total() ==> (r matches Ok(img) && image_raster(img) == Seq::new(
                self.pixel_count(),
                |i: int| WHITE,
            ) && image_dimensions(img) == (self.width(), self.height())),
    {
        proof {
            use_type_invariant(self);
            self.lemma_pixel_bound();
        }
        if block_num >= self.total_blocks {
            return Err(StorageError::BlockOutOfRange);
        }
        Ok(image_from_pixel(self.block_width, self.block_height, WHITE))
    }

    /// The bytes of block `block_num`, given the image stored for it
    /// (`None` where there is none). A missing image reads as zeros, a
    /// stored one is decoded pixel by pixel. Fails exactly when `block_num`
    /// is out of range.
    pub fn read_block(&self, block_num: u32, stored: Option<&BlockImage>) -> (r: Result<
        Vec<u8>,
        StorageError,
    >)
        ensures
            block_num >= self.total() ==> r == Err::<Vec<u8>, StorageError>(
                StorageError::BlockOutOfRange,
            ),
            block_num < self.total() ==> (r matches Ok(data) && data@ == block_content(
                match stored {
                    Some(img) => Some(*img),
                    None => None,
                },
                self.capacity(),
            )),
    {
        proof {
            use_type_invariant(self);
            self.lemma_pixel_bound();
        }
        if block_num >= self.total_blocks {
            return Err(StorageError::BlockOutOfRange);
        }
        match stored {
            None => {
                let data: Vec<u8> = vec![0u8; self.bytes_per_block];
                assert(data@ =~= Seq::new(self.capacity(), |i: int| 0u8));
                Ok(data)
            },
            Some(img) => {
                let raw = image_as_raw(img);
                Ok(decode(raw.as_slice()))
            },
        }
    }

    /// The image that stores `data` in block `block_num`: eight pixels for
    /// each byte, white to the end. Fails when `block_num` is out of range,
    /// and else when `data` is longer than a block.
    pub fn write_block(&self, block_num: u32, data: &[u8]) -> (r: Result<BlockImage, StorageError>)
        ensures
            block_num >= self.total() ==> r == Err::<BlockImage, StorageError>(
                StorageError::BlockOutOfRange,
            ),
            block_num < self.total() && data@.len() > self.capacity() ==> r == Err::<
                BlockImage,
                StorageError,
            >(StorageError::DataTooLarge),
            block_num < self.total() && data@.len() <= self.capacity() ==> (r matches Ok(img)
                && image_raster(img) == encode_pixels(data@, self.pixel_count())
                && image_dimensions(img) == (self.width(), self.height())),
    {
        proof {
            use_type_invariant(self);
            self.lemma_pixel_bound();
        }
        if block_num >= self.total_blocks {
            return Err(StorageError::BlockOutOfRange);
        }
        if data.len() > self.bytes_per_block {
            return Err(StorageError::DataTooLarge);
        }
        let count: usize = (self.block_width * self.block_height) as usize;
        let pixels = encode(data, count);
        match image_from_vec(self.block_width, self.block_height, pixels) {
            Some(img) => Ok(img),
            None => {
                // The raster has one value for each pixel, so it is never refused.
                assert(false);
                Err(StorageError::DataTooLarge)
            },
        }
    }

    /// The image of block 0 with the fingerprint at its start and zeros
    /// after it. Fails exactly when there is no block 0.
    pub fn write_fingerprint(&self) -> (r: Result<BlockImage, StorageError>)
        ensures
            self.total() == 0 ==> r == Err::<BlockImage, StorageError>(
                StorageError::BlockOutOfRange,
            ),
            self.total() > 0 ==> (r matches Ok(img) && image_raster(img) == encode_pixels(
                superblock_bytes(self.tag_bytes(), self.capacity()),
                self.pixel_count(),
            ) && image_dimensions(img) == (self.width(), self.height())),
    {
        proof {
            use_type_invariant(self);
            self.lemma_pixel_bound();
        }
        let tag = self.fingerprint.as_str().as_bytes();
        let mut data: Vec<u8> = Vec::with_capacity(self.bytes_per_block);
        let mut i: usize = 0;
        while i < self.bytes_per_block
            invariant
                i <= self.bytes_per_block,
                self.capacity() == self.bytes_per_block,
                tag@ == self.tag_bytes(),
                data@ == superblock_bytes(self.tag_bytes(), self.capacity()).subrange(0, i as int),
            decreases self.bytes_per_block - i,
        {
            let b: u8 = if i < tag.len() { tag[i] } else { 0u8 };
            data.push(b);
            i += 1;
            assert(data@ =~= superblock_bytes(self.tag_bytes(), self.capacity()).subrange(
                0,
                i as int,
            ));
        }
        assert(data@ =~= superblock_bytes(self.tag_bytes(), self.capacity()));
        self.write_block(0, data.as_slice())
    }

    /// Whether block 0, given the image stored for it, starts with the
    /// fingerprint. Fails exactly when there is no block 0.
    pub fn verify_fingerprint(&self, stored: Option<&BlockImage>) -> (r: Result<bool, StorageError>)
        ensures
            self.total() == 0 ==> r == Err::<bool, StorageError>(StorageError::BlockOutOfRange),
            self.total() > 0 ==> r == Ok::<bool, StorageError>(
                self.tag_bytes().is_prefix_of(
                    block_content(
                        match stored {
                            Some(img) => Some(*img),
                            None => None,
                        },
                        self.capacity(),
                    ),
                ),
            ),
    {
        let data = match self.read_block(0, stored) {
            Ok(data) => data,
            Err(e) => {
                return Err(e);
            },
        };
        let tag = self.fingerprint.as_str().as_bytes();
        if tag.len() > data.len() {
            return Ok(false);
        }
        let mut i: usize = 0;
        while i < tag.len()
            invariant
                i <= tag@.len() <= data@.len(),
                self.total() > 0,
                tag@ == self.tag_bytes(),
                data@ == block_content(
                    match stored {
                        Some(img) => Some(*img),
                        None => None,
                    },
                    self.capacity(),
                ),
                data@.subrange(0, i as int) == tag@.subrange(0, i as int),
            decreases tag@.len() - i,
        {
            if data[i] != tag[i] {
                assert(data@.subrange(0, tag@.len() as int)[i as int] != tag@[i as int]);
                return Ok(false);
            }
            i += 1;
            assert(data@.subrange(0, i as int) =~= tag@.subrange(0, i as int));
        }
        assert(tag@.subrange(0, i as int) =~= tag@);
        Ok(true)
    }
}

/// Codec round trip for a block: the image that `write_block` makes for
/// `data` reads back as a block that starts with `data`; where the pixels
/// of a block are a whole number of bytes, the block read back has the
/// block's length and every byte after `data` is `0xFF`.
pub proof fn lemma_block_round_trip(storage: BlockStorage, data: Seq<u8>, img: BlockImage)
    requires
        data.len() <= storage.capacity(),
        image_raster(img) == encode_pixels(data, storage.pixel_count()),
    ensures
        block_content(Some(img), storage.capacity()).len() >= data.len(),
        block_content(Some(img), storage.capacity()).subrange(0, data.len() as int) == data,
        storage.pixel_count() % 8 == 0 ==> {
            &&& block_content(Some(img), storage.capacity()).len() == storage.capacity()
            &&& forall|k: int|
                data.len() <= k < storage.capacity() ==> #[trigger] block_content(
                    Some(img),
                    storage.capacity(),
                )[k] == 0xFFu8
        },
{
    crate::codec::lemma_round_trip_prefix(data, storage.pixel_count());
    if storage.pixel_count() % 8 == 0 {
        crate::codec::lemma_round_trip_padding(data, storage.pixel_count());
    }
}

/// Fingerprint check after fingerprint write: where block 0 exists and the
/// fingerprint fits the block, the image that `write_fingerprint` makes
/// reads back as a block that starts with the fingerprint's bytes.
pub proof fn lemma_fingerprint_round_trip(storage: BlockStorage, img: BlockImage)
    requires
        storage.tag_bytes().len() <= storage.capacity(),
        image_raster(img) == encode_pixels(
            superblock_bytes(storage.tag_bytes(), storage.capacity()),
            storage.pixel_count(),
        ),
    ensures
        storage.tag_bytes().is_prefix_of(block_content(Some(img), storage.capacity())),
{
    let tag = storage.tag_bytes();
    let block = superblock_bytes(tag, storage.capacity());
    crate::codec::lemma_round_trip_prefix(block, storage.pixel_count());
    let back = decode_pixels(image_raster(img));
    assert(back.subrange(0, block.len() as int) == block);
    assert forall|i: int| 0 <= i < tag.len() implies back[i] == tag[i] by {
        assert(back.subrange(0, block.len() as int)[i] == block[i]);
    }
    assert(back.subrange(0, tag.len() as int) =~= tag);
}

} // verus!
