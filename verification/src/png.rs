//! A minimal PNG writer for 8-bit RGBA images: signature, `IHDR`, one zlib
//! `IDAT` holding unfiltered scanlines, and `IEND`, each chunk closed by its
//! CRC-32. Also the Adler-32 checksum.
use std::io::Write;
use vstd::prelude::*;

verus! {

/// The eight bytes every PNG file begins with.
pub const PNG_SIGNATURE: [u8; 8] = [137, 80, 78, 71, 13, 10, 26, 10];

/// The initial value and final XOR mask of the PNG CRC-32.
pub const CRC32_INIT: u32 = 0xFFFF_FFFF;

/// The reflected CRC-32 polynomial used by PNG.
pub const CRC32_POLYNOMIAL: u32 = 0xEDB8_8320;

/// The modulus of the Adler-32 sums.
pub const ADLER32_MOD: u32 = 65521;

// ---------------------------------------------------------------------------
// CRC-32
// ---------------------------------------------------------------------------

/// One bit step of the reflected CRC-32 register.
pub open spec fn crc_bit(c: u32) -> u32 {
    if c & 1 != 0 {
        (c >> 1) ^ CRC32_POLYNOMIAL
    } else {
        c >> 1
    }
}

/// `n` bit steps of the CRC-32 register.
pub open spec fn crc_bits(c: u32, n: nat) -> u32
    decreases n,
{
    if n == 0 {
        c
    } else {
        crc_bits(crc_bit(c), (n - 1) as nat)
    }
}

/// The CRC-32 register after feeding `data` into register value `crc`.
pub open spec fn crc_update(crc: u32, data: Seq<u8>) -> u32
    decreases data.len(),
{
    if data.len() == 0 {
        crc
    } else {
        crc_bits(crc_update(crc, data.drop_last()) ^ (data.last() as u32), 8)
    }
}

/// The CRC-32 of `data` as PNG chunks carry it.
pub open spec fn crc32_spec(data: Seq<u8>) -> u32 {
    crc_update(CRC32_INIT, data) ^ CRC32_INIT
}

/// The CRC-32 used by PNG chunks (reflected polynomial `0xEDB88320`).
pub fn png_crc32(data: &[u8]) -> (r: u32)
    ensures
        r == crc32_spec(data@),
{
    let mut crc: u32 = CRC32_INIT;
    let mut i: usize = 0;
    while i < data.len()
        invariant
            i <= data.len(),
            crc == crc_update(CRC32_INIT, data@.take(i as int)),
        decreases data.len() - i,
    {
        let byte = data[i];
        proof {
            assert(data@.take(i + 1).drop_last() =~= data@.take(i as int));
        }
        crc = crc ^ (byte as u32);
        let ghost start = crc;
        let mut k: u32 = 0;
        while k < 8
            invariant
                k <= 8,
                crc_bits(start, 8) == crc_bits(crc, (8 - k) as nat),
            decreases 8 - k,
        {
            if crc & 1 != 0 {
                crc = (crc >> 1) ^ CRC32_POLYNOMIAL;
            } else {
                crc = crc >> 1;
            }
            k = k + 1;
        }
        i = i + 1;
    }
    assert(data@.take(data.len() as int) =~= data@);
    crc ^ CRC32_INIT
}

// ---------------------------------------------------------------------------
// Adler-32
// ---------------------------------------------------------------------------

/// The Adler-32 sums `(a, b)` after `data`.
pub open spec fn adler_sums(data: Seq<u8>) -> (u32, u32)
    decreases data.len(),
{
    if data.len() == 0 {
        (1, 0)
    } else {
        let (a, b) = adler_sums(data.drop_last());
        let a2 = ((a as int + data.last() as int) % ADLER32_MOD as int) as u32;
        let b2 = ((b as int + a2 as int) % ADLER32_MOD as int) as u32;
        (a2, b2)
    }
}

/// The Adler-32 checksum of `data`: `b * 65536 + a`.
pub open spec fn adler32_spec(data: Seq<u8>) -> u32 {
    let (a, b) = adler_sums(data);
    (b as int * 65536 + a as int) as u32
}

proof fn lemma_adler_bounds(data: Seq<u8>)
    ensures
        adler_sums(data).0 < ADLER32_MOD,
        adler_sums(data).1 < ADLER32_MOD,
    decreases data.len(),
{
    if data.len() > 0 {
        lemma_adler_bounds(data.drop_last());
    }
}

/// The Adler-32 checksum (as used by zlib streams).
pub fn adler32(data: &[u8]) -> (r: u32)
    ensures
        r == adler32_spec(data@),
{
    let mut a: u32 = 1;
    let mut b: u32 = 0;
    let mut i: usize = 0;
    while i < data.len()
        invariant
            i <= data.len(),
            (a, b) == adler_sums(data@.take(i as int)),
            a < ADLER32_MOD,
            b < ADLER32_MOD,
        decreases data.len() - i,
    {
        proof {
            assert(data@.take(i + 1).drop_last() =~= data@.take(i as int));
        }
        a = (a + data[i] as u32) % ADLER32_MOD;
        b = (b + a) % ADLER32_MOD;
        i = i + 1;
    }
    assert(data@.take(data.len() as int) =~= data@);
    assert((b << 16) | a == b * 65536 + a) by (bit_vector)
        requires
            a < 65521,
            b < 65521,
    ;
    (b << 16) | a
}

/// The Adler-32 low sum is one plus the byte sum, reduced modulo 65521.
pub proof fn adler_low_sum_is_byte_sum(data: Seq<u8>)
    ensures
        adler_sums(data).0 == (1 + byte_sum(data)) % (ADLER32_MOD as int),
    decreases data.len(),
{
    if data.len() > 0 {
        adler_low_sum_is_byte_sum(data.drop_last());
        let s = byte_sum(data.drop_last());
        vstd::arithmetic::div_mod::lemma_add_mod_noop(1 + s, data.last() as int, ADLER32_MOD as int);
        vstd::arithmetic::div_mod::lemma_mod_twice(data.last() as int, ADLER32_MOD as int);
        vstd::arithmetic::div_mod::lemma_small_mod(data.last() as nat, ADLER32_MOD as nat);
    }
}

/// The sum of the bytes of `data`.
pub open spec fn byte_sum(data: Seq<u8>) -> int
    decreases data.len(),
{
    if data.len() == 0 {
        0
    } else {
        byte_sum(data.drop_last()) + data.last() as int
    }
}

// ---------------------------------------------------------------------------
// Chunks and the file
// ---------------------------------------------------------------------------

/// The big-endian bytes of `x`.
pub open spec fn be32(x: u32) -> Seq<u8> {
    seq![(x >> 24) as u8, ((x >> 16) & 0xFF) as u8, ((x >> 8) & 0xFF) as u8, (x & 0xFF) as u8]
}

/// A PNG chunk: length, type, data, CRC-32 of type and data.
pub open spec fn chunk_bytes(kind: Seq<u8>, data: Seq<u8>) -> Seq<u8> {
    be32(data.len() as u32) + kind + data + be32(crc32_spec(kind + data))
}

/// The `IHDR` payload of an 8-bit RGBA, non-interlaced image.
pub open spec fn ihdr_payload(width: u32, height: u32) -> Seq<u8> {
    be32(width) + be32(height) + seq![8u8, 6u8, 0u8, 0u8, 0u8]
}

/// The scanlines of the first `rows` rows of `rgba`, each `row_len` bytes and
/// prefixed by filter type 0.
pub open spec fn scanlines(rgba: Seq<u8>, row_len: int, rows: nat) -> Seq<u8>
    decreases rows,
{
    if rows == 0 {
        seq![]
    } else {
        scanlines(rgba, row_len, (rows - 1) as nat) + seq![0u8] + rgba.subrange(
            (rows - 1) * row_len,
            rows * row_len,
        )
    }
}

/// The raw image data: every whole `4 * width`-byte row of `rgba` (a trailing
/// partial row is dropped).
pub open spec fn raw_image_data(width: u32, rgba: Seq<u8>) -> Seq<u8> {
    scanlines(rgba, 4 * width, (rgba.len() as int / (4 * width as int)) as nat)
}

/// The bytes `encode_png` writes, given the zlib stream of the image data.
pub open spec fn png_file(width: u32, height: u32, compressed: Seq<u8>) -> Seq<u8> {
    PNG_SIGNATURE@ + chunk_bytes(seq![73u8, 72u8, 68u8, 82u8], ihdr_payload(width, height))
        + chunk_bytes(seq![73u8, 68u8, 65u8, 84u8], compressed) + chunk_bytes(
        seq![73u8, 69u8, 78u8, 68u8],
        seq![],
    )
}

/// The zlib stream (fast compression level) that `flate2` produces for `data`.
pub uninterp spec fn zlib_fast(data: Seq<u8>) -> Seq<u8>;

/// Compresses `data` into a zlib stream with `flate2`'s `ZlibEncoder` at
/// `Compression::fast()`. The contract claims that the call succeeds (the
/// encoder writes into a growable `Vec`, and the deflate backend fails only on
/// bad parameters or an output buffer that cannot take bytes) and that the
/// result is the zlib stream that encoder produces for these bytes.
#[verifier::external_body]
fn deflate_compress(data: &[u8]) -> (r: Result<Vec<u8>, String>)
    ensures
        r is Ok,
        r matches Ok(v) ==> v@ == zlib_fast(data@),
{
    let mut encoder = flate2::write::ZlibEncoder::new(Vec::new(), flate2::Compression::fast());
    encoder.write_all(data).map_err(|e| format!("zlib write failed: {e}"))?;
    encoder.finish().map_err(|e| format!("zlib finish failed: {e}"))
}

/// Why encoding a PNG can fail.
#[derive(Debug, Clone, PartialEq, Eq)]
pub enum PngEncodeError {
    /// A chunk's data is longer than a PNG chunk length can express.
    ChunkTooLarge(usize),
    /// The zlib compressor reported an error.
    Compression(String),
}

fn push_be32(out: &mut Vec<u8>, x: u32)
    ensures
        final(out)@ == old(out)@ + be32(x),
{
    out.push((x >> 24) as u8);
    out.push(((x >> 16) & 0xFF) as u8);
    out.push(((x >> 8) & 0xFF) as u8);
    out.push((x & 0xFF) as u8);
}

fn extend(out: &mut Vec<u8>, data: &[u8])
    ensures
        final(out)@ == old(out)@ + data@,
{
    let mut i: usize = 0;
    let ghost start = out@;
    while i < data.len()
        invariant
            i <= data.len(),
            out@ == start + data@.take(i as int),
        decreases data.len() - i,
    {
        out.push(data[i]);
        i = i + 1;
        assert(out@ =~= start + data@.take(i as int));
    }
    assert(data@.take(data.len() as int) =~= data@);
}

/// Appends one PNG chunk (length, type, data, CRC-32 of type and data).
fn write_png_chunk(out: &mut Vec<u8>, chunk_type: &[u8; 4], data: &[u8]) -> (r: Result<
    (),
    PngEncodeError,
>)
    ensures
        match r {
            Ok(()) => data@.len() <= u32::MAX && final(out)@ == old(out)@ + chunk_bytes(
                chunk_type@,
                data@,
            ),
            Err(e) => data@.len() > u32::MAX && e == PngEncodeError::ChunkTooLarge(
                data@.len() as usize,
            ) && final(out)@ == old(out)@,
        },
{
    if data.len() > 0xFFFF_FFFF {
        return Err(PngEncodeError::ChunkTooLarge(data.len()));
    }
    let len = data.len() as u32;
    push_be32(out, len);
    let kind = chunk_type.as_slice();
    extend(out, kind);
    extend(out, data);
    let mut crc_data: Vec<u8> = Vec::new();
    extend(&mut crc_data, kind);
    extend(&mut crc_data, data);
    let crc = png_crc32(crc_data.as_slice());
    push_be32(out, crc);
    Ok(())
}

/// The unfiltered scanlines of `rgba`: every whole `row_len`-byte row,
/// prefixed by filter type 0.
pub fn raw_scanlines(rgba: &[u8], row_len: usize) -> (raw: Vec<u8>)
    requires
        row_len > 0,
    ensures
        raw@ == scanlines(rgba@, row_len as int, (rgba@.len() as int / row_len as int) as nat),
{
    let total = rgba.len();
    let rows = total / row_len;
    let mut raw: Vec<u8> = Vec::new();
    let mut k: usize = 0;
    let mut pos: usize = 0;
    while k < rows
        invariant
            row_len > 0,
            total == rgba@.len(),
            rows == rgba@.len() as int / row_len as int,
            k <= rows,
            pos == k * row_len,
            pos <= rgba@.len(),
            raw@ == scanlines(rgba@, row_len as int, k as nat),
        decreases rows - k,
    {
        assert((k + 1) * row_len <= rows * row_len) by (nonlinear_arith)
            requires
                k < rows,
                row_len > 0,
        ;
        assert(rows * row_len <= rgba@.len()) by (nonlinear_arith)
            requires
                rows == rgba@.len() as int / row_len as int,
                row_len > 0,
        ;
        assert((k + 1) * row_len == k * row_len + row_len) by (nonlinear_arith);
        raw.push(0);
        let mut j: usize = 0;
        let ghost before = raw@;
        while j < row_len
            invariant
                j <= row_len,
                total == rgba@.len(),
                pos + row_len <= rgba@.len(),
                raw@ == before + rgba@.subrange(pos as int, pos + j),
            decreases row_len - j,
        {
            raw.push(rgba[pos + j]);
            j = j + 1;
            assert(raw@ =~= before + rgba@.subrange(pos as int, pos + j));
        }
        pos = pos + row_len;
        k = k + 1;
        assert(raw@ =~= scanlines(rgba@, row_len as int, k as nat));
    }
    raw
}

/// Assembles a PNG file for a `width` x `height` 8-bit RGBA image whose
/// compressed image data is `compressed`: signature, `IHDR`, one `IDAT`
/// holding `compressed`, and `IEND`.
pub fn assemble_png(width: u32, height: u32, compressed: &[u8]) -> (r: Result<Vec<u8>, PngEncodeError>)
    ensures
        match r {
            Ok(bytes) => compressed@.len() <= u32::MAX && bytes@ == png_file(width, height, compressed@),
            Err(e) => compressed@.len() > u32::MAX && e == PngEncodeError::ChunkTooLarge(compressed.len()),
        },
{
    let mut out: Vec<u8> = Vec::new();
    extend(&mut out, PNG_SIGNATURE.as_slice());
    let mut ihdr: Vec<u8> = Vec::new();
    push_be32(&mut ihdr, width);
    push_be32(&mut ihdr, height);
    ihdr.push(8);
    ihdr.push(6);
    ihdr.push(0);
    ihdr.push(0);
    ihdr.push(0);
    assert(ihdr@ =~= ihdr_payload(width, height));
    let r1 = write_png_chunk(&mut out, &[73u8, 72u8, 68u8, 82u8], ihdr.as_slice());
    assert(r1 is Ok);
    match write_png_chunk(&mut out, &[73u8, 68u8, 65u8, 84u8], compressed) {
        Ok(()) => {},
        Err(e) => {
            return Err(e);
        },
    }
    let r3 = write_png_chunk(&mut out, &[73u8, 69u8, 78u8, 68u8], &[]);
    assert(r3 is Ok);
    proof {
        assert(seq![73u8, 72u8, 68u8, 82u8] =~= [73u8, 72u8, 68u8, 82u8]@);
    }
    assert(out@ =~= png_file(width, height, compressed@));
    Ok(out)
}

/// Encodes an 8-bit RGBA image as a PNG: signature, `IHDR`, one zlib `IDAT`
/// holding the unfiltered scanlines of every whole row of `rgba`, and `IEND`.
pub fn encode_png(width: u32, height: u32, rgba: &[u8]) -> (r: Result<Vec<u8>, PngEncodeError>)
    requires
        width > 0,
        width * 4 <= usize::MAX,
    ensures
        match r {
            Ok(bytes) => zlib_fast(raw_image_data(width, rgba@)).len() <= u32::MAX && bytes@
                == png_file(width, height, zlib_fast(raw_image_data(width, rgba@))),
            Err(e) => zlib_fast(raw_image_data(width, rgba@)).len() > u32::MAX
                && e == PngEncodeError::ChunkTooLarge(
                zlib_fast(raw_image_data(width, rgba@)).len() as usize,
            ),
        },
{
    let row_len = (width as usize) * 4;
    let raw = raw_scanlines(rgba, row_len);
    assert(raw@ == raw_image_data(width, rgba@));
    let compressed = match deflate_compress(raw.as_slice()) {
        Ok(c) => c,
        Err(e) => return Err(PngEncodeError::Compression(e)),
    };
    assemble_png(width, height, compressed.as_slice())
}

} // verus!
