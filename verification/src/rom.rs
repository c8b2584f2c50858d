//! ROM integrity check.
//!
//! Before any tool reads the ROM we confirm it is Super Mario Land (World)
//! v1.0 by hash. The three algorithms (CRC32, MD5, SHA-1) are implemented here
//! from scratch so this one security-sensitive check has no external
//! dependencies.
use vstd::prelude::*;
use vstd::string::StrSliceExecFns;
use vstd::string::StringExecFns;

verus! {

/// `std::io::Error`, declared so that a failed read can be carried in
/// [`VerifyError::Io`]; nothing about its contents is stated or read.
#[verifier::external_type_specification]
#[verifier::external_body]
pub struct ExIoError(std::io::Error);

/// Expected hashes for Super Mario Land (World) v1.0.
pub const EXPECTED_SHA1: &'static str = "418203621b887caa090215d97e3f509b79affd3e";
pub const EXPECTED_MD5: &'static str = "b259feb41811c7e4e1dc200167985c84";
pub const EXPECTED_CRC32: u32 = 0x2c27_ec70;

// ---------------------------------------------------------------- CRC32

/// One bit of the reflected CRC-32 shift register (polynomial 0xEDB88320).
pub open spec fn crc_bit(c: u32) -> u32 {
    if c & 1 == 1 { (c >> 1u32) ^ 0xEDB8_8320 } else { c >> 1u32 }
}

/// `n` bits of the shift register.
pub open spec fn crc_bits(c: u32, n: nat) -> u32
    decreases n,
{
    if n == 0 { c } else { crc_bit(crc_bits(c, (n - 1) as nat)) }
}

/// The register after the bytes `data`, starting from `c`.
pub open spec fn crc_run(c: u32, data: Seq<u8>) -> u32
    decreases data.len(),
{
    if data.len() == 0 { c } else { crc_bits(crc_run(c, data.drop_last()) ^ (data.last() as u32), 8) }
}

/// CRC32 (IEEE 802.3): the register starts all ones and ends inverted.
pub open spec fn crc32_of(data: Seq<u8>) -> u32 {
    !crc_run(0xFFFF_FFFF, data)
}

/// CRC32 (IEEE 802.3, reflected, polynomial 0xEDB88320).
pub fn crc32(data: &[u8]) -> (r: u32)
    ensures
        r == crc32_of(data@),
{
    let mut crc: u32 = 0xFFFF_FFFF;
    let mut i: usize = 0;
    while i < data.len()
        invariant
            i <= data@.len(),
            crc == crc_run(0xFFFF_FFFF, data@.take(i as int)),
        decreases data@.len() - i,
    {
        let ghost start = crc ^ (data@[i as int] as u32);
        crc = crc ^ (data[i] as u32);
        let mut k: u32 = 0;
        while k < 8
            invariant
                k <= 8,
                crc == crc_bits(start, k as nat),
            decreases 8 - k,
        {
            if crc & 1 == 1 {
                crc = (crc >> 1) ^ 0xEDB8_8320;
            } else {
                crc = crc >> 1;
            }
            k = k + 1;
        }
        proof {
            assert(data@.take(i + 1).drop_last() =~= data@.take(i as int));
        }
        i = i + 1;
    }
    proof {
        assert(data@.take(i as int) =~= data@);
    }
    !crc
}

// ---------------------------------------------------------------- shared

/// `x` rotated left by `s` bits, `0 < s < 32`.
pub open spec fn rotl(x: u32, s: u32) -> u32 {
    (x << s) | (x >> ((32 - s) as u32))
}

fn rotate_left(x: u32, s: u32) -> (r: u32)
    requires
        0 < s < 32,
    ensures
        r == rotl(x, s),
{
    (x << s) | (x >> (32 - s))
}

/// The little-endian word at byte `at`.
pub open spec fn le32(s: Seq<u8>, at: int) -> u32 {
    (s[at] as u32) | ((s[at + 1] as u32) << 8u32) | ((s[at + 2] as u32) << 16u32) | ((s[at + 3] as u32) << 24u32)
}

/// The big-endian word at byte `at`.
pub open spec fn be32(s: Seq<u8>, at: int) -> u32 {
    ((s[at] as u32) << 24u32) | ((s[at + 1] as u32) << 16u32) | ((s[at + 2] as u32) << 8u32) | (s[at + 3] as u32)
}

/// The bytes of a word, least significant first.
pub open spec fn le_bytes(x: u32) -> Seq<u8> {
    seq![(x & 0xff) as u8, ((x >> 8u32) & 0xff) as u8, ((x >> 16u32) & 0xff) as u8, ((x >> 24u32) & 0xff) as u8]
}

/// The bytes of a word, most significant first.
pub open spec fn be_bytes(x: u32) -> Seq<u8> {
    seq![((x >> 24u32) & 0xff) as u8, ((x >> 16u32) & 0xff) as u8, ((x >> 8u32) & 0xff) as u8, (x & 0xff) as u8]
}

fn read_le32(s: &Vec<u8>, at: usize) -> (r: u32)
    requires
        at + 4 <= s@.len(),
    ensures
        r == le32(s@, at as int),
{
    let _n = s.len();
    (s[at] as u32) | ((s[at + 1] as u32) << 8) | ((s[at + 2] as u32) << 16) | ((s[at + 3] as u32) << 24)
}

fn read_be32(s: &Vec<u8>, at: usize) -> (r: u32)
    requires
        at + 4 <= s@.len(),
    ensures
        r == be32(s@, at as int),
{
    let _n = s.len();
    ((s[at] as u32) << 24) | ((s[at + 1] as u32) << 16) | ((s[at + 2] as u32) << 8) | (s[at + 3] as u32)
}

/// The number of zero bytes that pad a message of `n` bytes, after its
/// `0x80` marker, to 56 bytes past a multiple of 64.
pub open spec fn pad_zeros(n: nat) -> nat {
    ((119 - (n % 64)) % 64) as nat
}

/// The 64-bit bit length `bits` as bytes, least or most significant first.
pub open spec fn length_bytes(bits: u64, little: bool) -> Seq<u8> {
    Seq::new(8, |i: int| if little { ((bits >> ((8 * i) as u64)) & 0xff) as u8 } else { ((bits >> ((56 - 8 * i) as u64)) & 0xff) as u8 })
}

/// A message padded for MD5 (`little`) or SHA-1: the data, a `0x80` byte,
/// zeros up to 56 past a multiple of 64, and the bit length, which wraps at
/// 2^64.
pub open spec fn padded(data: Seq<u8>, little: bool) -> Seq<u8> {
    data + seq![0x80u8] + Seq::new(pad_zeros(data.len()), |i: int| 0u8) + length_bytes(((data.len() * 8) % 0x1_0000_0000_0000_0000) as u64, little)
}

/// Pad a message for MD5 or SHA-1.
fn pad_message(data: &[u8], little: bool) -> (r: Vec<u8>)
    ensures
        r@ == padded(data@, little),
        r@.len() % 64 == 0,
{
    let mut msg: Vec<u8> = Vec::new();
    let mut i: usize = 0;
    while i < data.len()
        invariant
            i <= data@.len(),
            msg@ == data@.take(i as int),
        decreases data@.len() - i,
    {
        msg.push(data[i]);
        i = i + 1;
        assert(msg@ =~= data@.take(i as int));
    }
    assert(data@.take(i as int) =~= data@);
    msg.push(0x80);
    let ghost marked = msg@;
    let mut z: usize = 0;
    while msg.len() % 64 != 56
        invariant
            marked == data@ + seq![0x80u8],
            msg@ == marked + Seq::new(z as nat, |j: int| 0u8),
            z <= 63,
            z as nat <= pad_zeros(data@.len()),
            (data@.len() + 1 + z) % 64 == 56 ==> z == pad_zeros(data@.len()),
            msg@.len() == data@.len() + 1 + z,
        decreases 63 - z,
    {
        msg.push(0);
        z = z + 1;
        assert(msg@ =~= marked + Seq::new(z as nat, |j: int| 0u8));
    }
    assert(z == pad_zeros(data@.len()));
    let bits = (data.len() as u64).wrapping_mul(8);
    let ghost before = msg@;
    let mut k: usize = 0;
    while k < 8
        invariant
            k <= 8,
            msg@ == before + length_bytes(bits, little).take(k as int),
        decreases 8 - k,
    {
        let byte = if little { ((bits >> ((8 * k) as u64)) & 0xff) as u8 } else { ((bits >> ((56 - 8 * k) as u64)) & 0xff) as u8 };
        msg.push(byte);
        k = k + 1;
        assert(msg@ =~= before + length_bytes(bits, little).take(k as int));
    }
    proof {
        assert(length_bytes(bits, little).take(8) =~= length_bytes(bits, little));
        assert(bits == ((data@.len() * 8) % 0x1_0000_0000_0000_0000) as u64);
        assert(msg@ =~= padded(data@, little));
    }
    msg
}

// ---------------------------------------------------------------- MD5

/// The per-step shift amounts of MD5 (RFC 1321).
pub open spec fn md5_shifts() -> Seq<u32> {
    seq![
        7u32, 12, 17, 22, 7, 12, 17, 22, 7, 12, 17, 22, 7, 12, 17, 22, 5, 9, 14, 20, 5, 9, 14, 20, 5,
        9, 14, 20, 5, 9, 14, 20, 4, 11, 16, 23, 4, 11, 16, 23, 4, 11, 16, 23, 4, 11, 16, 23, 6, 10,
        15, 21, 6, 10, 15, 21, 6, 10, 15, 21, 6, 10, 15, 21,
    ]
}

/// The per-step constants of MD5 (RFC 1321).
pub open spec fn md5_constants() -> Seq<u32> {
    seq![
        0xd76aa478u32, 0xe8c7b756, 0x242070db, 0xc1bdceee, 0xf57c0faf, 0x4787c62a, 0xa8304613,
        0xfd469501, 0x698098d8, 0x8b44f7af, 0xffff5bb1, 0x895cd7be, 0x6b901122, 0xfd987193,
        0xa679438e, 0x49b40821, 0xf61e2562, 0xc040b340, 0x265e5a51, 0xe9b6c7aa, 0xd62f105d,
        0x02441453, 0xd8a1e681, 0xe7d3fbc8, 0x21e1cde6, 0xc33707d6, 0xf4d50d87, 0x455a14ed,
        0xa9e3e905, 0xfcefa3f8, 0x676f02d9, 0x8d2a4c8a, 0xfffa3942, 0x8771f681, 0x6d9d6122,
        0xfde5380c, 0xa4beea44, 0x4bdecfa9, 0xf6bb4b60, 0xbebfbc70, 0x289b7ec6, 0xeaa127fa,
        0xd4ef3085, 0x04881d05, 0xd9d4d039, 0xe6db99e5, 0x1fa27cf8, 0xc4ac5665, 0xf4292244,
        0x432aff97, 0xab9423a7, 0xfc93a039, 0x655b59c3, 0x8f0ccc92, 0xffeff47d, 0x85845dd1,
        0x6fa87e4f, 0xfe2ce6e0, 0xa3014314, 0x4e0811a1, 0xf7537e82, 0xbd3af235, 0x2ad7d2bb,
        0xeb86d391,
    ]
}

fn md5_shift(i: usize) -> (r: u32)
    requires
        i < 64,
    ensures
        r == md5_shifts()[i as int],
        0 < r < 32,
{
    let t: [u32; 64] = [
        7, 12, 17, 22, 7, 12, 17, 22, 7, 12, 17, 22, 7, 12, 17, 22, 5, 9, 14, 20, 5, 9, 14, 20, 5,
        9, 14, 20, 5, 9, 14, 20, 4, 11, 16, 23, 4, 11, 16, 23, 4, 11, 16, 23, 4, 11, 16, 23, 6, 10,
        15, 21, 6, 10, 15, 21, 6, 10, 15, 21, 6, 10, 15, 21,
    ];
    assert(t@ =~= md5_shifts());
    t[i]
}

fn md5_constant(i: usize) -> (r: u32)
    requires
        i < 64,
    ensures
        r == md5_constants()[i as int],
{
    let t: [u32; 64] = [
        0xd76aa478, 0xe8c7b756, 0x242070db, 0xc1bdceee, 0xf57c0faf, 0x4787c62a, 0xa8304613,
        0xfd469501, 0x698098d8, 0x8b44f7af, 0xffff5bb1, 0x895cd7be, 0x6b901122, 0xfd987193,
        0xa679438e, 0x49b40821, 0xf61e2562, 0xc040b340, 0x265e5a51, 0xe9b6c7aa, 0xd62f105d,
        0x02441453, 0xd8a1e681, 0xe7d3fbc8, 0x21e1cde6, 0xc33707d6, 0xf4d50d87, 0x455a14ed,
        0xa9e3e905, 0xfcefa3f8, 0x676f02d9, 0x8d2a4c8a, 0xfffa3942, 0x8771f681, 0x6d9d6122,
        0xfde5380c, 0xa4beea44, 0x4bdecfa9, 0xf6bb4b60, 0xbebfbc70, 0x289b7ec6, 0xeaa127fa,
        0xd4ef3085, 0x04881d05, 0xd9d4d039, 0xe6db99e5, 0x1fa27cf8, 0xc4ac5665, 0xf4292244,
        0x432aff97, 0xab9423a7, 0xfc93a039, 0x655b59c3, 0x8f0ccc92, 0xffeff47d, 0x85845dd1,
        0x6fa87e4f, 0xfe2ce6e0, 0xa3014314, 0x4e0811a1, 0xf7537e82, 0xbd3af235, 0x2ad7d2bb,
        0xeb86d391,
    ];
    assert(t@ =~= md5_constants());
    t[i]
}

/// The four MD5 chaining words.
pub type Quad = (u32, u32, u32, u32);

/// The MD5 round function of step `i`.
pub open spec fn md5_mix(i: int, b: u32, c: u32, d: u32) -> u32 {
    if i < 16 {
        (b & c) | (!b & d)
    } else if i < 32 {
        (d & b) | (!d & c)
    } else if i < 48 {
        b ^ c ^ d
    } else {
        c ^ (b | !d)
    }
}

/// The message word MD5 step `i` reads.
pub open spec fn md5_word(i: int) -> int {
    if i < 16 {
        i
    } else if i < 32 {
        (5 * i + 1) % 16
    } else if i < 48 {
        (3 * i + 5) % 16
    } else {
        (7 * i) % 16
    }
}

/// MD5 step `i` on the block of `msg` at byte `at`.
pub open spec fn md5_step(q: Quad, i: int, msg: Seq<u8>, at: int) -> Quad {
    let f = md5_mix(i, q.1, q.2, q.3).wrapping_add(q.0).wrapping_add(md5_constants()[i]).wrapping_add(
        le32(msg, at + 4 * md5_word(i)),
    );
    (q.3, q.1.wrapping_add(rotl(f, md5_shifts()[i])), q.1, q.2)
}

/// The first `n` steps.
pub open spec fn md5_steps(q: Quad, n: nat, msg: Seq<u8>, at: int) -> Quad
    decreases n,
{
    if n == 0 { q } else { md5_step(md5_steps(q, (n - 1) as nat, msg, at), n - 1, msg, at) }
}

/// The chaining words after the block at byte `at`.
pub open spec fn md5_block(h: Quad, msg: Seq<u8>, at: int) -> Quad {
    let r = md5_steps(h, 64, msg, at);
    (h.0.wrapping_add(r.0), h.1.wrapping_add(r.1), h.2.wrapping_add(r.2), h.3.wrapping_add(r.3))
}

/// The chaining words after the first `n` blocks.
pub open spec fn md5_blocks(msg: Seq<u8>, n: nat) -> Quad
    decreases n,
{
    if n == 0 {
        (0x6745_2301u32, 0xefcd_ab89u32, 0x98ba_dcfeu32, 0x1032_5476u32)
    } else {
        md5_block(md5_blocks(msg, (n - 1) as nat), msg, 64 * (n - 1))
    }
}

/// The MD5 digest of `data` (RFC 1321).
pub open spec fn md5_of(data: Seq<u8>) -> Seq<u8> {
    let msg = padded(data, true);
    let h = md5_blocks(msg, msg.len() / 64);
    le_bytes(h.0) + le_bytes(h.1) + le_bytes(h.2) + le_bytes(h.3)
}

/// One MD5 step.
fn md5_one(q: Quad, i: usize, msg: &Vec<u8>, at: usize) -> (r: Quad)
    requires
        i < 64,
        at + 64 <= msg@.len(),
    ensures
        r == md5_step(q, i as int, msg@, at as int),
{
    let (a, b, c, d) = q;
    let (f, g) = if i < 16 {
        ((b & c) | (!b & d), i)
    } else if i < 32 {
        ((d & b) | (!d & c), (5 * i + 1) % 16)
    } else if i < 48 {
        (b ^ c ^ d, (3 * i + 5) % 16)
    } else {
        (c ^ (b | !d), (7 * i) % 16)
    };
    let _n = msg.len();
    assert(g < 16 && g as int == md5_word(i as int));
    let f = f.wrapping_add(a).wrapping_add(md5_constant(i)).wrapping_add(read_le32(msg, at + 4 * g));
    (d, b.wrapping_add(rotate_left(f, md5_shift(i))), b, c)
}

/// MD5 (RFC 1321).
#[verifier::rlimit(40)]
pub fn md5(data: &[u8]) -> (r: [u8; 16])
    ensures
        r@ == md5_of(data@),
{
    let msg = pad_message(data, true);
    let total = msg.len();
    let blocks = total / 64;
    let mut h: Quad = (0x6745_2301u32, 0xefcd_ab89u32, 0x98ba_dcfeu32, 0x1032_5476u32);
    let mut n: usize = 0;
    while n < blocks
        invariant
            n <= blocks,
            total == msg@.len(),
            blocks == msg@.len() / 64,
            msg@.len() % 64 == 0,
            h == md5_blocks(msg@, n as nat),
        decreases blocks - n,
    {
        assert(64 * n + 64 <= msg@.len()) by (nonlinear_arith)
            requires n < blocks, blocks == msg@.len() / 64, msg@.len() % 64 == 0;
        let at = 64 * n;
        let mut q = h;
        let mut i: usize = 0;
        while i < 64
            invariant
                i <= 64,
                at + 64 <= msg@.len(),
                q == md5_steps(h, i as nat, msg@, at as int),
            decreases 64 - i,
        {
            q = md5_one(q, i, &msg, at);
            i = i + 1;
        }
        h = (h.0.wrapping_add(q.0), h.1.wrapping_add(q.1), h.2.wrapping_add(q.2), h.3.wrapping_add(q.3));
        n = n + 1;
    }
    let mut out = [0u8; 16];
    let words = [h.0, h.1, h.2, h.3];
    let mut j: usize = 0;
    while j < 4
        invariant
            j <= 4,
            words@ == seq![h.0, h.1, h.2, h.3],
            forall|k: int| 0 <= k < 4 * j ==> out@[k] == le_bytes(words@[k / 4])[k % 4],
        decreases 4 - j,
    {
        let w = words[j];
        out[4 * j] = (w & 0xff) as u8;
        out[4 * j + 1] = ((w >> 8) & 0xff) as u8;
        out[4 * j + 2] = ((w >> 16) & 0xff) as u8;
        out[4 * j + 3] = ((w >> 24) & 0xff) as u8;
        j = j + 1;
    }
    proof {
        let expect = le_bytes(h.0) + le_bytes(h.1) + le_bytes(h.2) + le_bytes(h.3);
        assert forall|k: int| 0 <= k < 16 implies out@[k] == expect[k] by {
            assert(out@[k] == le_bytes(words@[k / 4])[k % 4]);
        }
        assert(out@ =~= expect);
    }
    out
}

// ---------------------------------------------------------------- SHA-1

/// The five SHA-1 chaining words.
pub type Quint = (u32, u32, u32, u32, u32);

/// Word `i` of the SHA-1 message schedule for the block at byte `at`.
pub open spec fn sha1_schedule(msg: Seq<u8>, at: int, i: nat) -> u32
    decreases i,
{
    if i < 16 {
        be32(msg, at + 4 * i)
    } else {
        rotl(
            sha1_schedule(msg, at, (i - 3) as nat) ^ sha1_schedule(msg, at, (i - 8) as nat) ^ sha1_schedule(msg, at, (i - 14) as nat)
                ^ sha1_schedule(msg, at, (i - 16) as nat),
            1,
        )
    }
}

/// The SHA-1 round function and constant of step `i`.
pub open spec fn sha1_mix(i: int, b: u32, c: u32, d: u32) -> (u32, u32) {
    if i < 20 {
        ((b & c) | (!b & d), 0x5A82_7999u32)
    } else if i < 40 {
        (b ^ c ^ d, 0x6ED9_EBA1u32)
    } else if i < 60 {
        ((b & c) | (b & d) | (c & d), 0x8F1B_BCDCu32)
    } else {
        (b ^ c ^ d, 0xCA62_C1D6u32)
    }
}

/// SHA-1 step `i` on the block at byte `at`.
pub open spec fn sha1_step(q: Quint, i: int, msg: Seq<u8>, at: int) -> Quint {
    let (f, k) = sha1_mix(i, q.1, q.2, q.3);
    let temp = rotl(q.0, 5).wrapping_add(f).wrapping_add(q.4).wrapping_add(k).wrapping_add(sha1_schedule(msg, at, i as nat));
    (temp, q.0, rotl(q.1, 30), q.2, q.3)
}

/// The first `n` steps.
pub open spec fn sha1_steps(q: Quint, n: nat, msg: Seq<u8>, at: int) -> Quint
    decreases n,
{
    if n == 0 { q } else { sha1_step(sha1_steps(q, (n - 1) as nat, msg, at), n - 1, msg, at) }
}

/// The chaining words after the block at byte `at`.
pub open spec fn sha1_block(h: Quint, msg: Seq<u8>, at: int) -> Quint {
    let r = sha1_steps(h, 80, msg, at);
    (h.0.wrapping_add(r.0), h.1.wrapping_add(r.1), h.2.wrapping_add(r.2), h.3.wrapping_add(r.3), h.4.wrapping_add(r.4))
}

/// The chaining words after the first `n` blocks.
pub open spec fn sha1_blocks(msg: Seq<u8>, n: nat) -> Quint
    decreases n,
{
    if n == 0 {
        (0x6745_2301u32, 0xEFCD_AB89u32, 0x98BA_DCFEu32, 0x1032_5476u32, 0xC3D2_E1F0u32)
    } else {
        sha1_block(sha1_blocks(msg, (n - 1) as nat), msg, 64 * (n - 1))
    }
}

/// The SHA-1 digest of `data` (RFC 3174).
pub open spec fn sha1_of(data: Seq<u8>) -> Seq<u8> {
    let msg = padded(data, false);
    let h = sha1_blocks(msg, msg.len() / 64);
    be_bytes(h.0) + be_bytes(h.1) + be_bytes(h.2) + be_bytes(h.3) + be_bytes(h.4)
}

/// The message schedule of the block at byte `at`.
fn sha1_words(msg: &Vec<u8>, at: usize) -> (w: [u32; 80])
    requires
        at + 64 <= msg@.len(),
    ensures
        forall|i: int| 0 <= i < 80 ==> #[trigger] w@[i] == sha1_schedule(msg@, at as int, i as nat),
{
    let total = msg.len();
    let mut w = [0u32; 80];
    let mut i: usize = 0;
    while i < 16
        invariant
            i <= 16,
            total == msg@.len(),
            at + 64 <= msg@.len(),
            forall|j: int| 0 <= j < i ==> #[trigger] w@[j] == sha1_schedule(msg@, at as int, j as nat),
        decreases 16 - i,
    {
        w[i] = read_be32(msg, at + 4 * i);
        i = i + 1;
    }
    while i < 80
        invariant
            16 <= i <= 80,
            forall|j: int| 0 <= j < i ==> #[trigger] w@[j] == sha1_schedule(msg@, at as int, j as nat),
        decreases 80 - i,
    {
        let x = w[i - 3] ^ w[i - 8] ^ w[i - 14] ^ w[i - 16];
        w[i] = rotate_left(x, 1);
        proof {
            assert(w@[i - 3] == sha1_schedule(msg@, at as int, (i - 3) as nat));
            assert(w@[i - 8] == sha1_schedule(msg@, at as int, (i - 8) as nat));
            assert(w@[i - 14] == sha1_schedule(msg@, at as int, (i - 14) as nat));
            assert(w@[i - 16] == sha1_schedule(msg@, at as int, (i - 16) as nat));
        }
        i = i + 1;
    }
    w
}

/// One SHA-1 step.
fn sha1_one(q: Quint, i: usize, word: u32) -> (r: Quint)
    requires
        i < 80,
    ensures
        forall|msg: Seq<u8>, at: int| word == sha1_schedule(msg, at, i as nat) ==> r == #[trigger] sha1_step(q, i as int, msg, at),
{
    let (a, b, c, d, e) = q;
    let (f, k) = if i < 20 {
        ((b & c) | (!b & d), 0x5A82_7999u32)
    } else if i < 40 {
        (b ^ c ^ d, 0x6ED9_EBA1u32)
    } else if i < 60 {
        ((b & c) | (b & d) | (c & d), 0x8F1B_BCDCu32)
    } else {
        (b ^ c ^ d, 0xCA62_C1D6u32)
    };
    let temp = rotate_left(a, 5).wrapping_add(f).wrapping_add(e).wrapping_add(k).wrapping_add(word);
    (temp, a, rotate_left(b, 30), c, d)
}

/// SHA-1 (RFC 3174).
#[verifier::rlimit(40)]
pub fn sha1(data: &[u8]) -> (r: [u8; 20])
    ensures
        r@ == sha1_of(data@),
{
    let msg = pad_message(data, false);
    let total = msg.len();
    let blocks = total / 64;
    let mut h: Quint = (0x6745_2301u32, 0xEFCD_AB89u32, 0x98BA_DCFEu32, 0x1032_5476u32, 0xC3D2_E1F0u32);
    let mut n: usize = 0;
    while n < blocks
        invariant
            n <= blocks,
            total == msg@.len(),
            blocks == msg@.len() / 64,
            msg@.len() % 64 == 0,
            h == sha1_blocks(msg@, n as nat),
        decreases blocks - n,
    {
        assert(64 * n + 64 <= msg@.len()) by (nonlinear_arith)
            requires n < blocks, blocks == msg@.len() / 64, msg@.len() % 64 == 0;
        let at = 64 * n;
        let w = sha1_words(&msg, at);
        let mut q = h;
        let mut i: usize = 0;
        while i < 80
            invariant
                i <= 80,
                forall|j: int| 0 <= j < 80 ==> #[trigger] w@[j] == sha1_schedule(msg@, at as int, j as nat),
                q == sha1_steps(h, i as nat, msg@, at as int),
            decreases 80 - i,
        {
            assert(w@[i as int] == sha1_schedule(msg@, at as int, i as nat));
            q = sha1_one(q, i, w[i]);
            assert(q == sha1_step(sha1_steps(h, i as nat, msg@, at as int), i as int, msg@, at as int));
            i = i + 1;
        }
        h = (h.0.wrapping_add(q.0), h.1.wrapping_add(q.1), h.2.wrapping_add(q.2), h.3.wrapping_add(q.3), h.4.wrapping_add(q.4));
        n = n + 1;
    }
    let mut out = [0u8; 20];
    let words = [h.0, h.1, h.2, h.3, h.4];
    let mut j: usize = 0;
    while j < 5
        invariant
            j <= 5,
            words@ == seq![h.0, h.1, h.2, h.3, h.4],
            forall|k: int| 0 <= k < 4 * j ==> out@[k] == be_bytes(words@[k / 4])[k % 4],
        decreases 5 - j,
    {
        let w = words[j];
        out[4 * j] = ((w >> 24) & 0xff) as u8;
        out[4 * j + 1] = ((w >> 16) & 0xff) as u8;
        out[4 * j + 2] = ((w >> 8) & 0xff) as u8;
        out[4 * j + 3] = (w & 0xff) as u8;
        j = j + 1;
    }
    proof {
        let expect = be_bytes(h.0) + be_bytes(h.1) + be_bytes(h.2) + be_bytes(h.3) + be_bytes(h.4);
        assert forall|k: int| 0 <= k < 20 implies out@[k] == expect[k] by {
            assert(out@[k] == be_bytes(words@[k / 4])[k % 4]);
        }
        assert(out@ =~= expect);
    }
    out
}

// ---------------------------------------------------------------- reporting

/// The lowercase hexadecimal digit for `d < 16`.
pub open spec fn hex_digit(d: nat) -> char {
    if d < 10 { ((48 + d) as u32) as char } else { ((87 + d) as u32) as char }
}

/// Bytes as lowercase hexadecimal, two digits each, in order.
pub open spec fn hex_of(bytes: Seq<u8>) -> Seq<char>
    decreases bytes.len(),
{
    if bytes.len() == 0 {
        seq![]
    } else {
        hex_of(bytes.drop_last()) + seq![hex_digit((bytes.last() / 16) as nat), hex_digit((bytes.last() % 16) as nat)]
    }
}

fn hex_str(d: u8) -> (r: &'static str)
    requires
        d < 16,
    ensures
        r@ == seq![hex_digit(d as nat)],
{
    proof {
        reveal_strlit("0");
        reveal_strlit("1");
        reveal_strlit("2");
        reveal_strlit("3");
        reveal_strlit("4");
        reveal_strlit("5");
        reveal_strlit("6");
        reveal_strlit("7");
        reveal_strlit("8");
        reveal_strlit("9");
        reveal_strlit("a");
        reveal_strlit("b");
        reveal_strlit("c");
        reveal_strlit("d");
        reveal_strlit("e");
        reveal_strlit("f");
    }
    if d == 0 { "0" }
    else if d == 1 { "1" }
    else if d == 2 { "2" }
    else if d == 3 { "3" }
    else if d == 4 { "4" }
    else if d == 5 { "5" }
    else if d == 6 { "6" }
    else if d == 7 { "7" }
    else if d == 8 { "8" }
    else if d == 9 { "9" }
    else if d == 10 { "a" }
    else if d == 11 { "b" }
    else if d == 12 { "c" }
    else if d == 13 { "d" }
    else if d == 14 { "e" }
    else { "f" }
}

/// Bytes as lowercase hexadecimal.
pub fn to_hex(bytes: &[u8]) -> (r: String)
    ensures
        r@ == hex_of(bytes@),
{
    let mut s = String::new();
    let mut i: usize = 0;
    while i < bytes.len()
        invariant
            i <= bytes@.len(),
            s@ == hex_of(bytes@.take(i as int)),
        decreases bytes@.len() - i,
    {
        let b = bytes[i];
        s.append(hex_str(b / 16));
        s.append(hex_str(b % 16));
        proof {
            assert(bytes@.take(i + 1).drop_last() =~= bytes@.take(i as int));
            assert(s@ =~= hex_of(bytes@.take(i + 1)));
        }
        i = i + 1;
    }
    proof {
        assert(bytes@.take(i as int) =~= bytes@);
    }
    s
}

/// Whether two texts are the same.
fn same_text(a: &str, b: &str) -> (r: bool)
    ensures
        r == (a@ == b@),
{
    let n = a.unicode_len();
    if n != b.unicode_len() {
        return false;
    }
    let mut i: usize = 0;
    while i < n
        invariant
            i <= n,
            n == a@.len(),
            n == b@.len(),
            forall|j: int| 0 <= j < i ==> a@[j] == b@[j],
        decreases n - i,
    {
        if a.get_char(i) != b.get_char(i) {
            return false;
        }
        i = i + 1;
    }
    assert(a@ =~= b@);
    true
}

/// The three hashes of a byte buffer.
#[derive(Debug, Clone, PartialEq, Eq)]
pub struct RomHashes {
    pub sha1: String,
    pub md5: String,
    pub crc32: u32,
}

impl RomHashes {
    /// Hash `data` three ways.
    pub fn of(data: &[u8]) -> (r: Self)
        ensures
            r.sha1@ == hex_of(sha1_of(data@)),
            r.md5@ == hex_of(md5_of(data@)),
            r.crc32 == crc32_of(data@),
    {
        let s = sha1(data);
        let m = md5(data);
        RomHashes { sha1: to_hex(&s), md5: to_hex(&m), crc32: crc32(data) }
    }

    /// These are the hashes of Super Mario Land (World) v1.0.
    pub open spec fn expected(&self) -> bool {
        &&& self.sha1@ == EXPECTED_SHA1@
        &&& self.md5@ == EXPECTED_MD5@
        &&& self.crc32 == EXPECTED_CRC32
    }

    /// True only if all three match the expected v1.0 values.
    pub fn is_expected(&self) -> (r: bool)
        ensures
            r == self.expected(),
    {
        same_text(self.sha1.as_str(), EXPECTED_SHA1) && same_text(self.md5.as_str(), EXPECTED_MD5) && self.crc32
            == EXPECTED_CRC32
    }

    /// The hashes as three labelled lines.
    pub fn describe(&self) -> (r: String)
        ensures
            r@ == "SHA-1 "@ + self.sha1@ + "\nMD5   "@ + self.md5@ + "\nCRC32 "@ + hex_of(be_bytes(self.crc32)),
    {
        let c = self.crc32;
        let bytes = [((c >> 24) & 0xff) as u8, ((c >> 16) & 0xff) as u8, ((c >> 8) & 0xff) as u8, (c & 0xff) as u8];
        assert(bytes@ =~= be_bytes(c));
        let mut s = String::from_str("SHA-1 ");
        s.append(self.sha1.as_str());
        s.append("\nMD5   ");
        s.append(self.md5.as_str());
        s.append("\nCRC32 ");
        s.append(to_hex(&bytes).as_str());
        s
    }
}

/// Why verification failed.
#[derive(Debug)]
pub enum VerifyError {
    Io(std::io::Error),
    Mismatch(RomHashes),
}

/// Hash the contents of a ROM and confirm it is the expected one. On any
/// mismatch this returns an error so callers refuse to proceed.
pub fn verify_data(data: &[u8]) -> (r: Result<RomHashes, VerifyError>)
    ensures
        match r {
            Ok(h) => h.expected() && h.sha1@ == hex_of(sha1_of(data@)) && h.md5@ == hex_of(md5_of(data@))
                && h.crc32 == crc32_of(data@),
            Err(VerifyError::Mismatch(h)) => !h.expected() && h.sha1@ == hex_of(sha1_of(data@)) && h.md5@ == hex_of(
                md5_of(data@),
            ) && h.crc32 == crc32_of(data@),
            Err(VerifyError::Io(_)) => false,
        },
{
    let hashes = RomHashes::of(data);
    if hashes.is_expected() {
        Ok(hashes)
    } else {
        Err(VerifyError::Mismatch(hashes))
    }
}

} // verus!
