//! Turning a frame's compressed bytes into RGBA pixels and PNG files.
use vstd::prelude::*;
use crate::error::{error_text, StrmError};
use crate::text::{append_decimal, decimal};
use lz4_flex::block::DecompressError;
use image::ImageEncoder;

verus! {

#[verifier::external_type_specification]
#[verifier::external_body]
pub struct ExImageError(image::ImageError);

/// Why an LZ4 block could not be decompressed, as `lz4_flex` reports it.
pub enum Lz4Failure {
    /// The output buffer is too small: `.0` bytes were needed, `.1` were available.
    OutputTooSmall(usize, usize),
    LiteralOutOfBounds,
    ExpectedAnotherByte,
    OffsetZero,
    OffsetOutOfBounds,
    /// A failure that this version of `lz4_flex` does not have, by its own description.
    Other(String),
}

/// The description `lz4_flex` gives of each failure (its `Display` implementation).
pub open spec fn lz4_failure_text(f: Lz4Failure) -> Seq<char> {
    match f {
        Lz4Failure::OutputTooSmall(expected, actual) =>
            "provided output is too small for the decompressed data, actual "@ + decimal(
            actual as nat,
        ) + ", expected "@ + decimal(expected as nat),
        Lz4Failure::LiteralOutOfBounds => "literal is out of bounds of the input"@,
        Lz4Failure::ExpectedAnotherByte => "expected another byte, found none"@,
        Lz4Failure::OffsetZero => "0 is not a valid match offset"@,
        Lz4Failure::OffsetOutOfBounds =>
            "the offset to copy is not contained in the decompressed buffer"@,
        Lz4Failure::Other(text) => text@,
    }
}

/// Renders the description of an LZ4 failure.
pub fn describe_lz4_failure(f: &Lz4Failure) -> (s: String)
    ensures
        s@ == lz4_failure_text(*f),
{
    match f {
        Lz4Failure::OutputTooSmall(expected, actual) => {
            let mut s = String::from_str(
                "provided output is too small for the decompressed data, actual ",
            );
            append_decimal(&mut s, *actual as u64);
            s.append(", expected ");
            append_decimal(&mut s, *expected as u64);
            s
        },
        Lz4Failure::LiteralOutOfBounds => String::from_str("literal is out of bounds of the input"),
        Lz4Failure::ExpectedAnotherByte => String::from_str("expected another byte, found none"),
        Lz4Failure::OffsetZero => String::from_str("0 is not a valid match offset"),
        Lz4Failure::OffsetOutOfBounds => String::from_str(
            "the offset to copy is not contained in the decompressed buffer",
        ),
        Lz4Failure::Other(text) => text.clone(),
    }
}

/// What `lz4_flex::block::decompress_into` leaves: the number of bytes written or why it
/// failed, and the output buffer afterwards, from the input and the buffer before.
pub uninterp spec fn lz4_block_decompression(input: Seq<u8>, output: Seq<u8>) -> (Result<usize, Lz4Failure>, Seq<u8>);

/// How many `0xFF` bytes come right before index `i` of `input`.
pub open spec fn ff_run_before(input: Seq<u8>, i: int) -> nat
    decreases i,
{
    if i <= 0 || i > input.len() {
        0
    } else if input[i - 1] == 0xFF {
        1 + ff_run_before(input, i - 1)
    } else {
        0
    }
}

/// The longest run of `0xFF` bytes that an LZ4 input may hold here: `lz4_flex` adds up a
/// run of length bytes in a `u32` without overflow checks, and a run this long (plus the
/// byte that ends it) still sums to less than `u32::MAX`.
pub open spec fn lz4_max_ff_run() -> nat {
    16_843_008
}

/// Whether no run of `0xFF` bytes in `input` is longer than `lz4_max_ff_run()`.
pub open spec fn lz4_runs_bounded(input: Seq<u8>) -> bool {
    forall|i: int| 0 <= i <= input.len() ==> #[trigger] ff_run_before(input, i) <= lz4_max_ff_run()
}

/// Checks that no run of `0xFF` bytes in `input` is too long for the LZ4 decoder.
pub fn lz4_input_fits(input: &[u8]) -> (b: bool)
    ensures
        b == lz4_runs_bounded(input@),
{
    let mut run: usize = 0;
    let mut i: usize = 0;
    while i < input.len()
        invariant
            i <= input@.len(),
            run == ff_run_before(input@, i as int),
            forall|j: int| 0 <= j <= i ==> #[trigger] ff_run_before(input@, j) <= lz4_max_ff_run(),
        decreases input@.len() - i,
    {
        if input[i] == 0xFF {
            if run >= 16_843_008 {
                assert(ff_run_before(input@, i + 1) > lz4_max_ff_run());
                return false;
            }
            run = run + 1;
        } else {
            run = 0;
        }
        i = i + 1;
    }
    true
}

/// Calls `lz4_flex::block::decompress_into` and tells its failures apart. The source
/// writes only into the given buffer, never past its end, and on success returns how
/// many bytes it wrote. It panics (under overflow checks) when a run of length bytes
/// sums past `u32::MAX` or when a length added to the output position passes
/// `usize::MAX`, which the bounds exclude.
#[verifier::external_body]
fn lz4_decompress_into(input: &[u8], output: &mut Vec<u8>) -> (r: Result<usize, Lz4Failure>)
    requires
        lz4_runs_bounded(input@),
        old(output)@.len() + 0x1_0000_0011 <= usize::MAX,
    ensures
        final(output)@.len() == old(output)@.len(),
        (r, final(output)@) == lz4_block_decompression(input@, old(output)@),
        r matches Ok(n) ==> n <= old(output)@.len(),
{
    match lz4_flex::block::decompress_into(input, output.as_mut_slice()) {
        Ok(n) => Ok(n),
        Err(DecompressError::OutputTooSmall { expected, actual }) => Err(Lz4Failure::OutputTooSmall(expected, actual)),
        Err(DecompressError::LiteralOutOfBounds) => Err(Lz4Failure::LiteralOutOfBounds),
        Err(DecompressError::ExpectedAnotherByte) => Err(Lz4Failure::ExpectedAnotherByte),
        Err(DecompressError::OffsetZero) => Err(Lz4Failure::OffsetZero),
        Err(DecompressError::OffsetOutOfBounds) => Err(Lz4Failure::OffsetOutOfBounds),
        Err(other) => Err(Lz4Failure::Other(other.to_string())),
    }
}

/// The pixels that `texture2ddecoder::decode_bc3` writes into a buffer of at least
/// `width * height` pixels, from the data, the size and the buffer before.
pub uninterp spec fn bc3_pixels(data: Seq<u8>, width: usize, height: usize, image: Seq<u32>) -> Seq<u32>;

/// The pixels that `texture2ddecoder::decode_bc7` writes into a buffer of at least
/// `width * height` pixels, from the data, the size and the buffer before.
pub uninterp spec fn bc7_pixels(data: Seq<u8>, width: usize, height: usize, image: Seq<u32>) -> Seq<u32>;

/// The PNG file that `image`'s `PngEncoder` writes for RGBA8 pixels (`None` when it fails).
pub uninterp spec fn png_rgba8_encoding(rgba: Seq<u8>, width: u32, height: u32) -> Option<Seq<u8>>;

/// The text of an image encoding failure, from its `Display` implementation.
#[verifier::external_body]
fn image_error_text(error: &image::ImageError) -> String {
    error.to_string()
}

/// The number of 4x4 blocks of a `width` x `height` texture times 16 bytes per block.
pub open spec fn block_bytes(width: int, height: int) -> int {
    ((width + 3) / 4) * ((height + 3) / 4) * 16
}

/// The decoded size of a frame is 16 bytes for each 4x4 tile: for tile counts `bx` and
/// `by` that cover the width and height with less than one tile to spare, it is
/// `bx * by * 16`.
pub proof fn lemma_block_bytes_tiles(width: int, height: int, bx: int, by: int)
    requires
        0 <= width <= 4 * bx < width + 4,
        0 <= height <= 4 * by < height + 4,
    ensures
        block_bytes(width, height) == bx * by * 16,
{
    vstd::arithmetic::div_mod::lemma_fundamental_div_mod_converse(width + 3, 4, bx, width + 3 - 4 * bx);
    vstd::arithmetic::div_mod::lemma_fundamental_div_mod_converse(height + 3, 4, by, height + 3 - 4 * by);
}

/// Calls `texture2ddecoder::decode_bc3`. The source refuses data shorter than one
/// 16-byte block per 4x4 tile and a buffer shorter than `width * height`, each with its
/// message and without touching the buffer; otherwise it fills the buffer and succeeds.
/// It computes both sizes without overflow checks, hence the bounds it is called within.
#[verifier::external_body]
fn bc3_decode_into(data: &[u8], width: usize, height: usize, image: &mut Vec<u32>) -> (r: Result<(), String>)
    requires
        block_bytes(width as int, height as int) <= usize::MAX,
        width * height <= usize::MAX,
    ensures
        final(image)@.len() == old(image)@.len(),
        match r {
            Ok(_) => data@.len() >= block_bytes(width as int, height as int) && old(image)@.len()
                >= width * height && final(image)@ == bc3_pixels(data@, width, height, old(image)@),
            Err(m) => final(image)@ == old(image)@ && if data@.len() < block_bytes(
                width as int,
                height as int,
            ) {
                m@ == "Not enough data to decode image!"@
            } else {
                old(image)@.len() < width * height && m@ == "Image buffer is too small!"@
            },
        },
{
    texture2ddecoder::decode_bc3(data, width, height, image.as_mut_slice()).map_err(|m| m.to_string())
}

/// Calls `texture2ddecoder::decode_bc7`, which behaves as `decode_bc3` does but for BC7
/// blocks (see `bc3_decode_into`).
#[verifier::external_body]
fn bc7_decode_into(data: &[u8], width: usize, height: usize, image: &mut Vec<u32>) -> (r: Result<(), String>)
    requires
        block_bytes(width as int, height as int) <= usize::MAX,
        width * height <= usize::MAX,
    ensures
        final(image)@.len() == old(image)@.len(),
        match r {
            Ok(_) => data@.len() >= block_bytes(width as int, height as int) && old(image)@.len()
                >= width * height && final(image)@ == bc7_pixels(data@, width, height, old(image)@),
            Err(m) => final(image)@ == old(image)@ && if data@.len() < block_bytes(
                width as int,
                height as int,
            ) {
                m@ == "Not enough data to decode image!"@
            } else {
                old(image)@.len() < width * height && m@ == "Image buffer is too small!"@
            },
        },
{
    texture2ddecoder::decode_bc7(data, width, height, image.as_mut_slice()).map_err(|m| m.to_string())
}

/// Encodes RGBA8 pixels as PNG with `image::codecs::png::PngEncoder::write_image`, which
/// panics unless the buffer holds exactly `width * height * 4` bytes.
#[verifier::external_body]
fn encode_png_rgba8(rgba: &[u8], width: u32, height: u32) -> (r: Result<Vec<u8>, image::ImageError>)
    requires
        rgba@.len() == width * height * 4,
    ensures
        match r {
            Ok(png) => png_rgba8_encoding(rgba@, width, height) == Some(png@),
            Err(_) => png_rgba8_encoding(rgba@, width, height) is None,
        },
{
    let mut png = Vec::new();
    image::codecs::png::PngEncoder::new(std::io::Cursor::new(&mut png))
        .write_image(rgba, width, height, image::ExtendedColorType::Rgba8)
        .map(|_| png)
}

/// Channel `c` (red, green, blue, alpha in that order) of a pixel stored as the
/// little-endian bytes blue, green, red, alpha.
pub open spec fn rgba_channel(p: u32, c: int) -> u8 {
    if c == 0 {
        ((p >> 16u32) & 0xffu32) as u8
    } else if c == 1 {
        ((p >> 8u32) & 0xffu32) as u8
    } else if c == 2 {
        (p & 0xffu32) as u8
    } else {
        (p >> 24u32) as u8
    }
}

/// Byte `j` of the RGBA image whose rows are those of `bgra` from the bottom up.
pub open spec fn flipped_byte(bgra: Seq<u32>, width: int, height: int, j: int) -> u8 {
    let q = j / 4;
    rgba_channel(bgra[(height - 1 - q / width) * width + q % width], j % 4)
}

/// The RGBA8 image of a `width` x `height` BGRA image, its rows in reverse order.
pub open spec fn flipped_rgba(bgra: Seq<u32>, width: int, height: int) -> Seq<u8> {
    Seq::new((width * height * 4) as nat, |j: int| flipped_byte(bgra, width, height, j))
}

proof fn lemma_pixel_position(row: int, col: int, width: int, k: int)
    requires
        0 <= row,
        0 <= col < width,
        0 <= k < 4,
    ensures
        ((row * width + col) * 4 + k) / 4 == row * width + col,
        ((row * width + col) * 4 + k) % 4 == k,
        (row * width + col) / width == row,
        (row * width + col) % width == col,
{
    vstd::arithmetic::div_mod::lemma_fundamental_div_mod_converse(
        (row * width + col) * 4 + k,
        4,
        row * width + col,
        k,
    );
    vstd::arithmetic::div_mod::lemma_fundamental_div_mod_converse(
        row * width + col,
        width,
        row,
        col,
    );
}

proof fn lemma_pixel_in_image(row: int, col: int, width: int, height: int)
    requires
        0 <= row < height,
        0 <= col < width,
    ensures
        0 <= row * width + col < width * height,
        (row * width + col) * 4 + 4 <= width * height * 4,
{
    assert(row * width + col < width * height) by (nonlinear_arith)
        requires
            0 <= row < height,
            0 <= col < width,
    ;
    assert(0 <= row * width) by (nonlinear_arith)
        requires
            0 <= row,
            0 <= col < width,
    ;
}

/// Reverses the row order of a BGRA image and reorders each pixel's channels to RGBA.
pub fn flip_to_rgba(bgra: &Vec<u32>, width: usize, height: usize) -> (rgba: Vec<u8>)
    requires
        bgra@.len() == width * height,
        width * height * 4 <= usize::MAX,
    ensures
        rgba@ == flipped_rgba(bgra@, width as int, height as int),
{
    let mut rgba: Vec<u8> = Vec::with_capacity(bgra.len() * 4);
    let mut done: usize = 0;
    while done < height
        invariant
            done <= height,
            bgra@.len() == width * height,
            width * height * 4 <= usize::MAX,
            rgba@.len() == done * width * 4,
            forall|j: int|
                0 <= j < rgba@.len() ==> #[trigger] rgba@[j] == flipped_byte(
                    bgra@,
                    width as int,
                    height as int,
                    j,
                ),
        decreases height - done,
    {
        let row = height - 1 - done;
        let mut col: usize = 0;
        while col < width
            invariant
                done < height,
                row == height - 1 - done,
                col <= width,
                bgra@.len() == width * height,
                width * height * 4 <= usize::MAX,
                rgba@.len() == (done * width + col) * 4,
                forall|j: int|
                    0 <= j < rgba@.len() ==> #[trigger] rgba@[j] == flipped_byte(
                        bgra@,
                        width as int,
                        height as int,
                        j,
                    ),
            decreases width - col,
        {
            proof {
                lemma_pixel_in_image(row as int, col as int, width as int, height as int);
                lemma_pixel_in_image(done as int, col as int, width as int, height as int);
                lemma_pixel_position(done as int, col as int, width as int, 0);
                lemma_pixel_position(done as int, col as int, width as int, 1);
                lemma_pixel_position(done as int, col as int, width as int, 2);
                lemma_pixel_position(done as int, col as int, width as int, 3);
            }
            let pixel = bgra[row * width + col];
            rgba.push(((pixel >> 16) & 0xff) as u8);
            rgba.push(((pixel >> 8) & 0xff) as u8);
            rgba.push((pixel & 0xff) as u8);
            rgba.push((pixel >> 24) as u8);
            col = col + 1;
        }
        proof {
            assert((done * width + width) * 4 == (done + 1) * width * 4) by (nonlinear_arith);
        }
        done = done + 1;
    }
    proof {
        assert(done * width * 4 == width * height * 4) by (nonlinear_arith)
            requires
                done == height,
        ;
        assert(rgba@ =~= flipped_rgba(bgra@, width as int, height as int));
    }
    rgba
}

/// Pixel (`row`, `col`) of a flipped image holds, as red, green, blue and alpha, the
/// channels of pixel (`height - 1 - row`, `col`) of the decoded texture.
pub proof fn lemma_flipped_pixel(bgra: Seq<u32>, width: int, height: int, row: int, col: int, c: int)
    requires
        0 <= row < height,
        0 <= col < width,
        0 <= c < 4,
    ensures
        (row * width + col) * 4 + c < width * height * 4,
        flipped_rgba(bgra, width, height)[(row * width + col) * 4 + c] == rgba_channel(
            bgra[(height - 1 - row) * width + col],
            c,
        ),
{
    lemma_pixel_position(row, col, width, c);
    lemma_pixel_in_image(row, col, width, height);
}

/// Pixel (`row`, `col`) of a decoded frame is texel (`height - 1 - row`, `col`) of the
/// decoded texture, whose little-endian bytes are blue, green, red and alpha: its four
/// bytes are the texel's bits 16 to 23, 8 to 15, 0 to 7 and 24 to 31, in that order.
pub proof fn lemma_decoded_pixel_bytes(bgra: Seq<u32>, width: int, height: int, row: int, col: int)
    requires
        0 <= row < height,
        0 <= col < width,
    ensures
        ({
            let texel = bgra[(height - 1 - row) * width + col];
            let at = (row * width + col) * 4;
            let out = flipped_rgba(bgra, width, height);
            &&& at + 3 < out.len()
            &&& out[at] == ((texel >> 16u32) & 0xffu32) as u8
            &&& out[at + 1] == ((texel >> 8u32) & 0xffu32) as u8
            &&& out[at + 2] == (texel & 0xffu32) as u8
            &&& out[at + 3] == (texel >> 24u32) as u8
        }),
{
    lemma_flipped_pixel(bgra, width, height, row, col, 0);
    lemma_flipped_pixel(bgra, width, height, row, col, 1);
    lemma_flipped_pixel(bgra, width, height, row, col, 2);
    lemma_flipped_pixel(bgra, width, height, row, col, 3);
}

/// Decoded pixels always hold four bytes per pixel.
pub proof fn lemma_flipped_len(width: u32, height: u32, rgba: Seq<u8>)
    requires
        exists|compressed: Seq<u8>, gpu: u32|
            spec_decode_frame(compressed, width, height, gpu) == FrameDecoding::Pixels(rgba),
    ensures
        rgba.len() == width * height * 4,
{
    assert(width * height * 4 >= 0) by (nonlinear_arith);
}

/// Whether the sizes computed while decoding a `width` x `height` frame fit in `usize`.
pub open spec fn frame_sizes_fit(width: u32, height: u32) -> bool {
    &&& block_bytes(width as int, height as int) + 0x1_0000_0011 <= usize::MAX
    &&& width * height * 4 <= usize::MAX
}

/// What decoding a frame's compressed bytes comes to.
pub enum FrameDecoding {
    Pixels(Seq<u8>),
    Lz4Failed(Lz4Failure),
    WrongSize(usize),
    UnsupportedGpu,
}

/// Decoding a frame: its bytes are one LZ4 block that must fill exactly one 16-byte block
/// per 4x4 tile; format 2 is BC3 and formats 3 to 5 are BC7; the decoded image is turned
/// upside down into RGBA8.
pub open spec fn spec_decode_frame(compressed: Seq<u8>, width: u32, height: u32, gpu_compression: u32) -> FrameDecoding {
    let size = block_bytes(width as int, height as int);
    let (written, block_data) = lz4_block_decompression(
        compressed,
        Seq::new(size as nat, |_i: int| 0u8),
    );
    let blank = Seq::new((width * height) as nat, |_i: int| 0u32);
    match written {
        Err(f) => FrameDecoding::Lz4Failed(f),
        Ok(n) => if n != size {
            FrameDecoding::WrongSize(n)
        } else if gpu_compression == 2 {
            FrameDecoding::Pixels(
                flipped_rgba(
                    bc3_pixels(block_data, width as usize, height as usize, blank),
                    width as int,
                    height as int,
                ),
            )
        } else if 3 <= gpu_compression <= 5 {
            FrameDecoding::Pixels(
                flipped_rgba(
                    bc7_pixels(block_data, width as usize, height as usize, blank),
                    width as int,
                    height as int,
                ),
            )
        } else {
            FrameDecoding::UnsupportedGpu
        },
    }
}

/// The message of a failed LZ4 decode of frame `index`.
pub open spec fn lz4_failure_message(index: usize, f: Lz4Failure) -> Seq<char> {
    "Frame "@ + decimal(index as nat) + " LZ4 decode failed: "@ + lz4_failure_text(f)
}

/// Whether `m` is the message of a failed decode of frame `index`.
pub open spec fn frame_failure_message(
    m: Seq<char>,
    outcome: FrameDecoding,
    width: u32,
    height: u32,
    gpu_compression: u32,
    index: usize,
) -> bool {
    match outcome {
        FrameDecoding::Pixels(_) => false,
        FrameDecoding::Lz4Failed(f) => m == lz4_failure_message(index, f),
        FrameDecoding::WrongSize(n) => m == error_text(
            StrmError::WrongDecodedSize(
                index,
                n,
                block_bytes(width as int, height as int) as usize,
            ),
        ),
        FrameDecoding::UnsupportedGpu => m == error_text(
            StrmError::UnsupportedGpuCompression(index, gpu_compression),
        ),
    }
}

/// The result of `decode_frame_bytes` for frame `index`, against `spec_decode_frame`.
pub open spec fn frame_decoded_as(
    r: Result<Vec<u8>, String>,
    compressed: Seq<u8>,
    width: u32,
    height: u32,
    gpu_compression: u32,
    index: usize,
) -> bool {
    let outcome = spec_decode_frame(compressed, width, height, gpu_compression);
    match r {
        Ok(rgba) => outcome == FrameDecoding::Pixels(rgba@),
        Err(m) => frame_failure_message(m@, outcome, width, height, gpu_compression, index),
    }
}

/// The start of the message of a failed PNG encoding of frame `index`; the image
/// library's own description follows it.
pub open spec fn png_failure_prefix(index: usize) -> Seq<char> {
    "Could not encode frame "@ + decimal(index as nat) + " as PNG: "@
}

/// Encodes the RGBA8 pixels of frame `index` as a PNG file.
pub fn encode_frame_png(rgba: &[u8], width: u32, height: u32, index: usize) -> (r: Result<Vec<u8>, String>)
    requires
        rgba@.len() == width * height * 4,
    ensures
        match r {
            Ok(png) => png_rgba8_encoding(rgba@, width, height) == Some(png@),
            Err(m) => png_rgba8_encoding(rgba@, width, height) is None && png_failure_prefix(
                index,
            ).is_prefix_of(m@),
        },
{
    match encode_png_rgba8(rgba, width, height) {
        Ok(png) => Ok(png),
        Err(error) => {
            let text = image_error_text(&error);
            let message = StrmError::PngEncodeFailed(index, text).message();
            assert(png_failure_prefix(index).is_prefix_of(message@)) by {
                assert(message@.subrange(0, png_failure_prefix(index).len() as int)
                    =~= png_failure_prefix(index));
            }
            Err(message)
        },
    }
}

/// Whether decoding frames of this size stays within `usize`.
pub fn sizes_fit(width: u32, height: u32) -> (b: bool)
    ensures
        b == frame_sizes_fit(width, height),
{
    let blocks_x: u128 = (width as u128 + 3) / 4;
    let blocks_y: u128 = (height as u128 + 3) / 4;
    proof {
        assert(blocks_x * blocks_y * 16 <= 0x1_0000_0000 * 0x1_0000_0000 * 16) by (nonlinear_arith)
            requires
                blocks_x <= 0x1_0000_0000,
                blocks_y <= 0x1_0000_0000,
        ;
        assert(width * height * 4 <= 0x1_0000_0000 * 0x1_0000_0000 * 4) by (nonlinear_arith)
            requires
                width <= 0x1_0000_0000,
                height <= 0x1_0000_0000,
        ;
    }
    blocks_x * blocks_y * 16 + 0x1_0000_0011 <= usize::MAX as u128 && (width as u128) * (height as u128) * 4
        <= usize::MAX as u128
}

/// Decodes the compressed bytes of frame `index` into RGBA8 pixels, top row first.
pub fn decode_frame_bytes(
    compressed: &[u8],
    width: u32,
    height: u32,
    gpu_compression: u32,
    index: usize,
) -> (r: Result<Vec<u8>, String>)
    requires
        frame_sizes_fit(width, height),
        lz4_runs_bounded(compressed@),
    ensures
        frame_decoded_as(r, compressed@, width, height, gpu_compression, index),
{
    let w = width as usize;
    let h = height as usize;
    let blocks_x = ((width as u64 + 3) / 4) as usize;
    let blocks_y = ((height as u64 + 3) / 4) as usize;
    proof {
        assert(blocks_x * blocks_y >= 0) by (nonlinear_arith);
        assert(w * h >= 0) by (nonlinear_arith);
    }
    let block_size = blocks_x * blocks_y * 16;
    let mut block_data: Vec<u8> = vec![0u8; block_size];
    assert(block_data@ =~= Seq::new(block_size as nat, |_i: int| 0u8));
    let written = match lz4_decompress_into(compressed, &mut block_data) {
        Ok(n) => n,
        Err(failure) => {
            let text = describe_lz4_failure(&failure);
            return Err(StrmError::Lz4DecodeFailed(index, text).message());
        },
    };
    if written != block_size {
        return Err(StrmError::WrongDecodedSize(index, written, block_size).message());
    }
    let mut bgra: Vec<u32> = vec![0u32; w * h];
    assert(bgra@ =~= Seq::new((width * height) as nat, |_i: int| 0u32));
    let decoded = if gpu_compression == 2 {
        bc3_decode_into(block_data.as_slice(), w, h, &mut bgra)
    } else if 3 <= gpu_compression && gpu_compression <= 5 {
        bc7_decode_into(block_data.as_slice(), w, h, &mut bgra)
    } else {
        return Err(StrmError::UnsupportedGpuCompression(index, gpu_compression).message());
    };
    match decoded {
        Ok(()) => Ok(flip_to_rgba(&bgra, w, h)),
        Err(text) => Err(StrmError::TextureDecodeFailed(index, text).message()),
    }
}

} // verus!
