use rslog::deflate::deflate;
use rslog::gzip::{crc32, gzip_encode};

#[test]
fn gzip_crc32_check_values() {
    assert_eq!(crc32(b"123456789"), 0xcbf43926);
    assert_eq!(crc32(b""), 0);
    assert_eq!(crc32(b"hello"), 0x3610a686);
}

struct Bits<'a> {
    data: &'a [u8],
    pos: usize,
}

impl<'a> Bits<'a> {
    fn bit(&mut self) -> Option<u32> {
        let byte = *self.data.get(self.pos / 8)?;
        let b = (byte >> (self.pos % 8)) & 1;
        self.pos += 1;
        Some(b as u32)
    }
    fn lsb(&mut self, n: u32) -> Option<u32> {
        let mut v = 0;
        for k in 0..n {
            v |= self.bit()? << k;
        }
        Some(v)
    }
    fn msb(&mut self, n: u32) -> Option<u32> {
        let mut v = 0;
        for _ in 0..n {
            v = (v << 1) | self.bit()?;
        }
        Some(v)
    }
}

const LEN_BASE: [u32; 29] = [
    3, 4, 5, 6, 7, 8, 9, 10, 11, 13, 15, 17, 19, 23, 27, 31, 35, 43, 51, 59, 67, 83, 99, 115, 131,
    163, 195, 227, 258,
];
const LEN_EXTRA: [u32; 29] =
    [0, 0, 0, 0, 0, 0, 0, 0, 1, 1, 1, 1, 2, 2, 2, 2, 3, 3, 3, 3, 4, 4, 4, 4, 5, 5, 5, 5, 0];
const DIST_BASE: [u32; 30] = [
    1, 2, 3, 4, 5, 7, 9, 13, 17, 25, 33, 49, 65, 97, 129, 193, 257, 385, 513, 769, 1025, 1537,
    2049, 3073, 4097, 6145, 8193, 12289, 16385, 24577,
];
const DIST_EXTRA: [u32; 30] =
    [0, 0, 0, 0, 1, 1, 2, 2, 3, 3, 4, 4, 5, 5, 6, 6, 7, 7, 8, 8, 9, 9, 10, 10, 11, 11, 12, 12, 13, 13];

/// An independent reader of one final fixed-Huffman DEFLATE block.
fn inflate(data: &[u8]) -> Option<Vec<u8>> {
    let mut b = Bits { data, pos: 0 };
    if b.lsb(1)? != 1 || b.lsb(2)? != 1 {
        return None;
    }
    let mut out: Vec<u8> = Vec::new();
    loop {
        let mut code = b.msb(7)?;
        let sym = if code <= 23 {
            256 + code
        } else {
            code = (code << 1) | b.bit()?;
            if (48..=191).contains(&code) {
                code - 48
            } else if (192..=199).contains(&code) {
                code + 88
            } else {
                code = (code << 1) | b.bit()?;
                if !(400..=511).contains(&code) {
                    return None;
                }
                code - 256
            }
        };
        if sym < 256 {
            out.push(sym as u8);
        } else if sym == 256 {
            return Some(out);
        } else {
            let li = (sym - 257) as usize;
            if li > 28 {
                return None;
            }
            let len = LEN_BASE[li] + b.lsb(LEN_EXTRA[li])?;
            let di = b.msb(5)? as usize;
            if di > 29 {
                return None;
            }
            let dist = (DIST_BASE[di] + b.lsb(DIST_EXTRA[di])?) as usize;
            if dist > out.len() {
                return None;
            }
            for _ in 0..len {
                out.push(out[out.len() - dist]);
            }
        }
    }
}

#[test]
fn gzip_deflate_reads_back() {
    let samples: Vec<Vec<u8>> = vec![
        b"".to_vec(),
        b"a".to_vec(),
        b"abcabcabcabcabc".to_vec(),
        vec![b'a'; 1000],
        (0..70000u32).map(|i| (i * 31 % 251) as u8).collect(),
        b"[2026-05-09 10:30:45.123456789] [INFO] Application started\n[2026-05-09 10:30:46.000000001] [INFO] Application started\n"
            .to_vec(),
    ];
    for data in samples {
        assert_eq!(inflate(&deflate(&data)), Some(data));
    }
}

#[test]
fn gzip_deflate_compresses_repeats() {
    let data = vec![b'a'; 1000];
    let out = deflate(&data);
    assert!(out.len() < 20);
    assert_eq!(out.len(), 10);
    let line = b"[2026-05-09 10:30:45.123456789] [INFO] Application started\n";
    let text: Vec<u8> = line.iter().cycle().take(line.len() * 50).cloned().collect();
    assert!(deflate(&text).len() < text.len() / 4);
    assert_eq!(deflate(b""), vec![0x03, 0x00]);
}

#[test]
fn gzip_member_layout() {
    assert_eq!(gzip_encode(b""), None);
    let g = gzip_encode(b"hello").unwrap();
    assert_eq!(&g[0..10], &[0x1f, 0x8b, 8, 0, 0, 0, 0, 0, 0, 0xff]);
    let n = g.len();
    assert_eq!(inflate(&g[10..n - 8]), Some(b"hello".to_vec()));
    assert_eq!(&g[n - 8..n - 4], &0x3610a686u32.to_le_bytes());
    assert_eq!(&g[n - 4..], &[5, 0, 0, 0]);
}
