//! The gzip container of rotated log files: the compressed DEFLATE data,
//! the CRC-32 checksum and the gzip header and trailer.

use vstd::prelude::*;
use crate::deflate::{bytes_bits, deflate, inflate_fixed};

verus! {

/// One step of the reflected CRC-32 register (polynomial `0xEDB88320`).
pub open spec fn crc_step(c: u32) -> u32 {
    if c & 1 != 0 {
        0xedb88320u32 ^ (c >> 1u32)
    } else {
        c >> 1u32
    }
}

/// Eight steps of the register: the effect of one byte.
pub open spec fn crc_step8(c: u32) -> u32 {
    crc_step(crc_step(crc_step(crc_step(crc_step(crc_step(crc_step(crc_step(c))))))))
}

/// `k` steps of the register.
pub open spec fn crc_steps(c: u32, k: nat) -> u32
    decreases k,
{
    if k == 0 {
        c
    } else {
        crc_step(crc_steps(c, (k - 1) as nat))
    }
}

/// The CRC-32 register after the bytes of `data`, starting from all ones.
pub open spec fn crc_register(data: Seq<u8>) -> u32
    decreases data.len(),
{
    if data.len() == 0 {
        0xffffffffu32
    } else {
        crc_step8(crc_register(data.drop_last()) ^ (data.last() as u32))
    }
}

/// The CRC-32 checksum (ISO-HDLC, as gzip uses it) of `data`.
pub open spec fn crc32_of(data: Seq<u8>) -> u32 {
    crc_register(data) ^ 0xffffffffu32
}

/// One register step is linear: it distributes over exclusive or.
proof fn lemma_step_linear(a: u32, b: u32)
    ensures
        crc_step(a ^ b) == crc_step(a) ^ crc_step(b),
{
    assert(crc_step(a ^ b) == crc_step(a) ^ crc_step(b)) by (bit_vector);
}

/// Any number of register steps distributes over exclusive or.
proof fn lemma_steps_linear(a: u32, b: u32, k: nat)
    ensures
        crc_steps(a ^ b, k) == crc_steps(a, k) ^ crc_steps(b, k),
    decreases k,
{
    if k > 0 {
        lemma_steps_linear(a, b, (k - 1) as nat);
        lemma_step_linear(crc_steps(a, (k - 1) as nat), crc_steps(b, (k - 1) as nat));
    }
}

/// A register whose low bits are clear only shifts.
proof fn lemma_steps_shift(y: u32, k: u32)
    requires
        k <= 8,
        y & 0xffu32 == 0,
    ensures
        crc_steps(y, k as nat) == y >> k,
    decreases k,
{
    if k > 0 {
        lemma_steps_shift(y, (k - 1) as u32);
        let z = y >> ((k - 1) as u32);
        assert(z & 1u32 == 0 && z >> 1u32 == y >> k) by (bit_vector)
            requires
                y & 0xffu32 == 0,
                1 <= k <= 8,
                z == y >> ((k - 1) as u32),
        ;
    } else {
        assert(y >> 0u32 == y) by (bit_vector);
    }
}

/// Eight register steps split into the low byte and the rest.
proof fn lemma_step8_split(x: u32)
    ensures
        crc_step8(x) == crc_step8(x & 0xffu32) ^ (x >> 8u32),
{
    let lo = x & 0xffu32;
    let hi = x & 0xffffff00u32;
    assert(x == lo ^ hi && hi & 0xffu32 == 0 && hi >> 8u32 == x >> 8u32) by (bit_vector)
        requires
            lo == x & 0xffu32,
            hi == x & 0xffffff00u32,
    ;
    lemma_steps_linear(lo, hi, 8);
    lemma_steps_shift(hi, 8);
    reveal_with_fuel(crc_steps, 9);
}

/// A low byte stays below 256.
proof fn lemma_low_byte(x: u32)
    ensures
        x & 0xffu32 < 256,
{
    assert(x & 0xffu32 < 256) by (bit_vector);
}

fn crc_step_exec(c: u32) -> (r: u32)
    ensures
        r == crc_step(c),
{
    if c & 1 != 0 {
        0xedb88320u32 ^ (c >> 1u32)
    } else {
        c >> 1u32
    }
}

/// The table of the register's effect on each byte value.
fn crc32_table() -> (t: Vec<u32>)
    ensures
        t@.len() == 256,
        forall|i: int| 0 <= i < 256 ==> #[trigger] t@[i] == crc_step8(i as u32),
{
    let mut table: Vec<u32> = Vec::new();
    let mut i: u32 = 0;
    while i < 256
        invariant
            i <= 256,
            table@.len() == i,
            forall|j: int| 0 <= j < i ==> #[trigger] table@[j] == crc_step8(j as u32),
        decreases 256 - i,
    {
        let mut crc = i;
        let mut k: u32 = 0;
        while k < 8
            invariant
                k <= 8,
                crc == crc_steps(i, k as nat),
            decreases 8 - k,
        {
            crc = crc_step_exec(crc);
            k = k + 1;
        }
        proof {
            reveal_with_fuel(crc_steps, 9);
        }
        table.push(crc);
        i = i + 1;
    }
    table
}

/// The CRC-32 checksum of `data`.
pub fn crc32(data: &[u8]) -> (r: u32)
    ensures
        r == crc32_of(data@),
{
    let table = crc32_table();
    let mut crc: u32 = 0xffffffff;
    let mut i: usize = 0;
    while i < data.len()
        invariant
            i <= data@.len(),
            table@.len() == 256,
            forall|j: int| 0 <= j < 256 ==> #[trigger] table@[j] == crc_step8(j as u32),
            crc == crc_register(data@.take(i as int)),
        decreases data@.len() - i,
    {
        let byte = data[i];
        let x = crc ^ (byte as u32);
        proof {
            lemma_step8_split(x);
            lemma_low_byte(x);
            assert(data@.take(i + 1).drop_last() =~= data@.take(i as int));
        }
        let idx = (x & 0xff) as usize;
        crc = table[idx] ^ (crc >> 8u32);
        proof {
            let c = crc_register(data@.take(i as int));
            let b = byte as u32;
            assert((c ^ b) >> 8u32 == c >> 8u32) by (bit_vector)
                requires
                    b < 256,
            ;
        }
        i = i + 1;
    }
    assert(data@.take(data@.len() as int) =~= data@);
    crc ^ 0xffffffff
}

/// The four little-endian bytes of `x`.
pub open spec fn le32(x: u32) -> Seq<u8> {
    seq![
        (x % 256) as u8,
        ((x / 256) % 256) as u8,
        ((x / 65536) % 256) as u8,
        (x / 16777216) as u8,
    ]
}

/// The ten-byte gzip header: magic, DEFLATE, no flags, no time, OS unknown.
pub open spec fn gzip_header() -> Seq<u8> {
    seq![0x1fu8, 0x8bu8, 0x08u8, 0u8, 0u8, 0u8, 0u8, 0u8, 0u8, 0xffu8]
}

/// `v` is a gzip member holding `data`: the header, DEFLATE data that
/// reads back as `data`, its CRC-32 and its length modulo 2^32.
pub open spec fn is_gzip_member(v: Seq<u8>, data: Seq<u8>) -> bool {
    &&& v.len() >= 18
    &&& v.take(10) == gzip_header()
    &&& inflate_fixed(bytes_bits(v.subrange(10, v.len() - 8))) == Some(data)
    &&& v.skip(v.len() - 8) == le32(crc32_of(data)) + le32((data.len() % 0x1_0000_0000) as u32)
}

fn push_le32(out: &mut Vec<u8>, x: u32)
    ensures
        final(out)@ == old(out)@ + le32(x),
{
    out.push((x % 256) as u8);
    out.push(((x / 256) % 256) as u8);
    out.push(((x / 65536) % 256) as u8);
    out.push((x / 16777216) as u8);
    assert(out@ =~= old(out)@ + le32(x));
}

/// The gzip file contents for `data`; `None` for empty data, which is left
/// uncompressed.
pub fn gzip_encode(data: &[u8]) -> (r: Option<Vec<u8>>)
    ensures
        data@.len() == 0 ==> r is None,
        data@.len() > 0 ==> (r matches Some(v) && is_gzip_member(v@, data@)),
{
    if data.len() == 0 {
        return None;
    }
    let mut out: Vec<u8> = Vec::new();
    out.push(0x1f);
    out.push(0x8b);
    out.push(0x08);
    out.push(0x00);
    out.push(0x00);
    out.push(0x00);
    out.push(0x00);
    out.push(0x00);
    out.push(0x00);
    out.push(0xff);
    assert(out@ =~= gzip_header());
    let body = deflate(data);
    let mut k: usize = 0;
    while k < body.len()
        invariant
            k <= body@.len(),
            out@ == gzip_header() + body@.take(k as int),
        decreases body@.len() - k,
    {
        out.push(body[k]);
        assert(body@.take(k + 1) =~= body@.take(k as int).push(body@[k as int]));
        assert(out@ =~= gzip_header() + body@.take(k + 1));
        k = k + 1;
    }
    assert(body@.take(body@.len() as int) =~= body@);
    let crc = crc32(data);
    push_le32(&mut out, crc);
    let len = data.len();
    let size: u32 = ((len as u64) % 0x1_0000_0000u64) as u32;
    push_le32(&mut out, size);
    proof {
        let v = out@;
        assert(body@.len() >= 1) by {
            if body@.len() == 0 {
                assert(bytes_bits(body@) =~= Seq::<bool>::empty());
            }
        }
        assert(v.take(10) =~= gzip_header());
        assert(v.subrange(10, v.len() - 8) =~= body@);
        assert(v.skip(v.len() - 8) =~= le32(crc32_of(data@)) + le32(
            (data@.len() % 0x1_0000_0000) as u32,
        ));
    }
    Some(out)
}

} // verus!
