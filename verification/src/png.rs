//! A tiny grayscale PNG encoder.
//!
//! Just enough to write our 160x144 framebuffer to a real PNG for screenshots
//! and golden-image tests, with no external dependencies. It uses stored (not
//! compressed) deflate blocks, so files are larger than a full encoder would
//! produce, but the output is a valid PNG any viewer opens. Chunk CRCs reuse
//! the CRC32 from the rom module.
use crate::rom::{be_bytes, crc32, crc32_of};
use vstd::prelude::*;

verus! {

/// The eight bytes every PNG file starts with.
pub open spec fn png_signature() -> Seq<u8> {
    seq![137u8, 80, 78, 71, 13, 10, 26, 10]
}

/// A PNG chunk: the data length, the chunk type, the data, and the CRC32 of
/// type and data. The length is written as a 32-bit number.
pub open spec fn chunk(kind: Seq<u8>, data: Seq<u8>) -> Seq<u8> {
    be_bytes(data.len() as u32) + kind + data + be_bytes(crc32_of(kind + data))
}

/// Adler-32's two running sums after `data`, starting from `(1, 0)`.
pub open spec fn adler_sums(data: Seq<u8>) -> (u32, u32)
    decreases data.len(),
{
    if data.len() == 0 {
        (1, 0)
    } else {
        let (a, b) = adler_sums(data.drop_last());
        let a2 = ((a + data.last()) % 65521) as u32;
        (a2, ((b + a2) % 65521) as u32)
    }
}

/// The Adler-32 checksum of `data`.
pub open spec fn adler32_of(data: Seq<u8>) -> u32 {
    (adler_sums(data).1 << 16u32) | adler_sums(data).0
}

/// A 16-bit number, least significant byte first.
pub open spec fn le16(v: u16) -> Seq<u8> {
    seq![(v & 0xff) as u8, (v >> 8u16) as u8]
}

/// One stored deflate block: the final flag, the length and its complement,
/// then the bytes.
pub open spec fn stored_block(data: Seq<u8>, last: bool) -> Seq<u8> {
    seq![if last { 1u8 } else { 0u8 }] + le16(data.len() as u16) + le16(!(data.len() as u16)) + data
}

/// `data` as stored deflate blocks of at most 65535 bytes, the last one
/// marked final. Empty data is one empty final block.
pub open spec fn stored_blocks(data: Seq<u8>) -> Seq<u8>
    decreases data.len(),
{
    if data.len() <= 0xFFFF {
        stored_block(data, true)
    } else {
        stored_block(data.take(0xFFFF), false) + stored_blocks(data.skip(0xFFFF))
    }
}

/// A zlib stream that stores `data` uncompressed.
pub open spec fn zlib_stored(data: Seq<u8>) -> Seq<u8> {
    seq![0x78u8, 0x01] + stored_blocks(data) + be_bytes(adler32_of(data))
}

/// The first `rows` scanlines of an image `width` wide: each a zero filter
/// byte and then the row's pixels.
pub open spec fn scanlines(gray: Seq<u8>, width: int, rows: int) -> Seq<u8>
    decreases rows,
{
    if rows <= 0 {
        seq![]
    } else {
        scanlines(gray, width, rows - 1) + seq![0u8] + gray.subrange((rows - 1) * width, rows * width)
    }
}

/// The PNG file of a grayscale image: signature, header, image data, end.
pub open spec fn png_of(width: u32, height: u32, gray: Seq<u8>) -> Seq<u8> {
    png_signature()
        + chunk(seq![73u8, 72, 68, 82], be_bytes(width) + be_bytes(height) + seq![8u8, 0, 0, 0, 0])
        + chunk(seq![73u8, 68, 65, 84], zlib_stored(scanlines(gray, width as int, height as int)))
        + chunk(seq![73u8, 69, 78, 68], seq![])
}

/// Append `src` to `out`.
fn append_bytes(out: &mut Vec<u8>, src: &[u8])
    ensures
        final(out)@ == old(out)@ + src@,
{
    let mut i: usize = 0;
    while i < src.len()
        invariant
            i <= src@.len(),
            out@ == old(out)@ + src@.take(i as int),
        decreases src@.len() - i,
    {
        out.push(src[i]);
        i = i + 1;
        assert(out@ =~= old(out)@ + src@.take(i as int));
    }
    assert(src@.take(i as int) =~= src@);
}

/// Append a 32-bit number, most significant byte first.
fn append_be32(out: &mut Vec<u8>, v: u32)
    ensures
        final(out)@ == old(out)@ + be_bytes(v),
{
    out.push(((v >> 24) & 0xff) as u8);
    out.push(((v >> 16) & 0xff) as u8);
    out.push(((v >> 8) & 0xff) as u8);
    out.push((v & 0xff) as u8);
    assert(out@ =~= old(out)@ + be_bytes(v));
}

/// Append one chunk.
fn write_chunk(out: &mut Vec<u8>, kind: &[u8; 4], data: &[u8])
    ensures
        final(out)@ == old(out)@ + chunk(kind@, data@),
{
    append_be32(out, data.len() as u32);
    append_bytes(out, kind);
    append_bytes(out, data);
    let mut crc_input: Vec<u8> = Vec::new();
    append_bytes(&mut crc_input, kind);
    append_bytes(&mut crc_input, data);
    append_be32(out, crc32(crc_input.as_slice()));
    assert(out@ =~= old(out)@ + chunk(kind@, data@));
}

/// The Adler-32 checksum.
pub fn adler32(data: &[u8]) -> (r: u32)
    ensures
        r == adler32_of(data@),
{
    let mut a: u32 = 1;
    let mut b: u32 = 0;
    let mut i: usize = 0;
    while i < data.len()
        invariant
            i <= data@.len(),
            (a, b) == adler_sums(data@.take(i as int)),
            a < 65521,
            b < 65521,
        decreases data@.len() - i,
    {
        proof {
            assert(data@.take(i + 1).drop_last() =~= data@.take(i as int));
            if i > 0 {
                assert(adler_sums(data@.take(i as int)).0 < 65521);
            }
        }
        a = (a + data[i] as u32) % 65521;
        b = (b + a) % 65521;
        i = i + 1;
    }
    proof {
        assert(data@.take(i as int) =~= data@);
    }
    (b << 16) | a
}

/// Wrap data in a zlib stream using stored deflate blocks.
#[verifier::rlimit(40)]
fn zlib_store(data: &[u8]) -> (r: Vec<u8>)
    ensures
        r@ == zlib_stored(data@),
{
    let mut out: Vec<u8> = Vec::new();
    out.push(0x78);
    out.push(0x01);
    let ghost head = out@;
    let n = data.len();
    let mut start: usize = 0;
    assert(data@.skip(0) =~= data@);
    loop
        invariant_except_break
            out@ + stored_blocks(data@.skip(start as int)) == head + stored_blocks(data@),
        invariant
            start <= n,
            n == data@.len(),
            start < n || start == 0,
            head == seq![0x78u8, 0x01],
        ensures
            out@ == head + stored_blocks(data@),
        decreases n - start,
    {
        let rest = n - start;
        let len: usize = if rest <= 0xFFFF { rest } else { 0xFFFF };
        let last = rest <= 0xFFFF;
        let ghost tail = data@.skip(start as int);
        let ghost before = out@;
        out.push(if last { 1 } else { 0 });
        let l16 = len as u16;
        out.push((l16 & 0xff) as u8);
        out.push((l16 >> 8) as u8);
        let nl = !l16;
        out.push((nl & 0xff) as u8);
        out.push((nl >> 8) as u8);
        let mut k: usize = 0;
        while k < len
            invariant
                k <= len,
                start + len <= n,
                n == data@.len(),
                out@ == before + seq![if last { 1u8 } else { 0u8 }] + le16(l16) + le16(nl) + data@.subrange(start as int, start + k),
            decreases len - k,
        {
            out.push(data[start + k]);
            k = k + 1;
            assert(out@ =~= before + seq![if last { 1u8 } else { 0u8 }] + le16(l16) + le16(nl) + data@.subrange(start as int, start + k));
        }
        proof {
            if last {
                assert(data@.subrange(start as int, start + len) =~= tail);
                assert(out@ =~= before + stored_block(tail, true));
                assert(stored_blocks(tail) == stored_block(tail, true));
            } else {
                assert(data@.subrange(start as int, start + len) =~= tail.take(0xFFFF));
                assert(tail.skip(0xFFFF) =~= data@.skip(start + len));
                assert(out@ =~= before + stored_block(tail.take(0xFFFF), false));
            }
        }
        if last {
            proof {
                assert(out@ == head + stored_blocks(data@));
            }
            break;
        }
        start = start + len;
        proof {
            assert(out@ + stored_blocks(data@.skip(start as int)) =~= head + stored_blocks(data@));
        }
    }
    append_be32(&mut out, adler32(data));
    assert(out@ =~= zlib_stored(data@));
    out
}

/// Encode 8-bit grayscale pixels (row major, `width * height` bytes) as PNG.
pub fn encode_gray(width: u32, height: u32, gray: &[u8]) -> (r: Vec<u8>)
    requires
        gray@.len() == width * height,
        height * (width + 1) <= u32::MAX,
    ensures
        r@ == png_of(width, height, gray@),
{
    let mut out: Vec<u8> = Vec::new();
    let sig: [u8; 8] = [137, 80, 78, 71, 13, 10, 26, 10];
    append_bytes(&mut out, &sig);
    assert(sig@ =~= png_signature());
    let mut ihdr: Vec<u8> = Vec::new();
    append_be32(&mut ihdr, width);
    append_be32(&mut ihdr, height);
    let tail: [u8; 5] = [8, 0, 0, 0, 0];
    append_bytes(&mut ihdr, &tail);
    write_chunk(&mut out, &[73, 72, 68, 82], ihdr.as_slice());
    // Raw image: each row is a filter byte (0 = none) then the row's pixels.
    let mut raw: Vec<u8> = Vec::new();
    let mut row: u32 = 0;
    while row < height
        invariant
            row <= height,
            gray@.len() == width * height,
            height * (width + 1) <= u32::MAX,
            raw@ == scanlines(gray@, width as int, row as int),
        decreases height - row,
    {
        assert(row * width + width <= width * height) by (nonlinear_arith)
            requires row < height;
        assert(width * height <= height * (width + 1)) by (nonlinear_arith);
        let glen = gray.len();
        raw.push(0);
        let start = (row * width) as usize;
        let ghost before = raw@;
        let mut k: usize = 0;
        while k < width as usize
            invariant
                k <= width,
                glen == gray@.len(),
                start == row * width,
                start + width <= gray@.len(),
                raw@ == before + gray@.subrange(start as int, start + k),
            decreases width - k,
        {
            raw.push(gray[start + k]);
            k = k + 1;
            assert(raw@ =~= before + gray@.subrange(start as int, start + k));
        }
        assert((row + 1) * width == row * width + width) by (nonlinear_arith);
        row = row + 1;
        assert(raw@ =~= scanlines(gray@, width as int, row as int));
    }
    write_chunk(&mut out, &[73, 68, 65, 84], zlib_store(raw.as_slice()).as_slice());
    let empty: [u8; 0] = [];
    write_chunk(&mut out, &[73, 69, 78, 68], &empty);
    proof {
        assert(empty@ =~= Seq::<u8>::empty());
        assert(out@ =~= png_of(width, height, gray@));
    }
    out
}

/// The bytes held by the stored deflate blocks that start at byte `i` of `z`:
/// each block's bytes, by the length its header gives, up to and including
/// the block marked final. A block that runs past the end holds nothing.
pub open spec fn unstored(z: Seq<u8>, i: int) -> Seq<u8>
    decreases z.len() - i,
{
    if i < 0 || i + 5 > z.len() {
        seq![]
    } else {
        let len = z[i + 1] + z[i + 2] * 256;
        if i + 5 + len > z.len() {
            seq![]
        } else if z[i] % 2 == 1 {
            z.subrange(i + 5, i + 5 + len)
        } else {
            z.subrange(i + 5, i + 5 + len) + unstored(z, i + 5 + len)
        }
    }
}

proof fn lemma_le16_value(v: u16)
    ensures
        le16(v)[0] + le16(v)[1] * 256 == v,
{
    assert(((v & 0xff) as u8) as u16 + ((v >> 8u16) as u8) as u16 * 256 == v) by (bit_vector);
}

proof fn lemma_unstored_shift(p: Seq<u8>, r: Seq<u8>, j: int)
    requires
        0 <= j,
    ensures
        unstored(p + r, p.len() + j) == unstored(r, j),
    decreases r.len() - j,
{
    let z = p + r;
    let i = p.len() + j;
    if !(i + 5 > z.len()) {
        assert(z[i] == r[j] && z[i + 1] == r[j + 1] && z[i + 2] == r[j + 2]);
        let len = r[j + 1] + r[j + 2] * 256;
        if !(i + 5 + len > z.len()) {
            assert(z.subrange(i + 5, i + 5 + len) =~= r.subrange(j + 5, j + 5 + len));
            if r[j] % 2 != 1 {
                lemma_unstored_shift(p, r, j + 5 + len);
            }
        }
    }
}

proof fn lemma_blocks_then(data: Seq<u8>, t: Seq<u8>)
    ensures
        unstored(stored_blocks(data) + t, 0) == data,
    decreases data.len(),
{
    if data.len() <= 0xFFFF {
        let z = stored_blocks(data) + t;
        lemma_le16_value(data.len() as u16);
        assert(z[0] == 1);
        assert(z[1] == le16(data.len() as u16)[0] && z[2] == le16(data.len() as u16)[1]);
        assert(z.subrange(5, 5 + data.len() as int) =~= data);
    } else {
        let head = stored_block(data.take(0xFFFF), false);
        let rest = stored_blocks(data.skip(0xFFFF)) + t;
        let z = head + rest;
        assert(stored_blocks(data) + t =~= z);
        lemma_le16_value(0xFFFFu16);
        assert(z[1] == head[1] && z[2] == head[2] && z[0] == 0);
        assert(z.subrange(5, 5 + 0xFFFFint) =~= data.take(0xFFFF));
        lemma_blocks_then(data.skip(0xFFFF), t);
        lemma_unstored_shift(head, rest, 0);
        assert(head.len() == 5 + 0xFFFF);
        assert(data.take(0xFFFF) + data.skip(0xFFFF) =~= data);
    }
}

/// Stored deflate blocks read back as the bytes they store: the blocks of
/// `stored_blocks(data)`, read from the start, hold `data`.
pub proof fn law_stored_blocks_read_back(data: Seq<u8>)
    ensures
        unstored(stored_blocks(data), 0) == data,
{
    lemma_blocks_then(data, seq![]);
    assert(stored_blocks(data) + seq![] =~= stored_blocks(data));
}

/// The image data of a PNG reads back: after the two-byte zlib header, the
/// stored blocks of `zlib_stored(data)` hold `data`.
pub proof fn law_image_data_reads_back(data: Seq<u8>)
    ensures
        unstored(zlib_stored(data), 2) == data,
{
    let head = seq![0x78u8, 0x01];
    let rest = stored_blocks(data) + be_bytes(adler32_of(data));
    assert(zlib_stored(data) =~= head + rest);
    lemma_unstored_shift(head, rest, 0);
    lemma_blocks_then(data, be_bytes(adler32_of(data)));
}

} // verus!
