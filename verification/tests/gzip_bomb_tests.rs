use oxideav_svg::parser::{inflate_gzip, MAX_SVGZ_INFLATED};

struct Bits {
    out: Vec<u8>,
    acc: u64,
    n: u32,
}

impl Bits {
    fn new() -> Self {
        Bits { out: Vec::new(), acc: 0, n: 0 }
    }
    /// Write `len` bits of `v`, least significant first.
    fn put(&mut self, v: u64, len: u32) {
        self.acc |= v << self.n;
        self.n += len;
        while self.n >= 8 {
            self.out.push(self.acc as u8);
            self.acc >>= 8;
            self.n -= 8;
        }
    }
    /// Write a Huffman code, most significant bit first.
    fn code(&mut self, c: u64, len: u32) {
        for i in (0..len).rev() {
            self.put((c >> i) & 1, 1);
        }
    }
    fn finish(mut self) -> Vec<u8> {
        if self.n > 0 {
            self.out.push(self.acc as u8);
        }
        self.out
    }
}

/// A gzip stream of `1 + 258 * matches` zero bytes: one literal zero,
/// then length-258 distance-1 copies in a fixed-Huffman block.
fn zeros_gzip(matches: usize) -> (Vec<u8>, u64) {
    let mut b = Bits::new();
    b.put(1, 1); // final block
    b.put(1, 2); // fixed Huffman
    b.code(0x30, 8); // literal 0
    for _ in 0..matches {
        b.code(0xC5, 8); // length 258
        b.code(0, 5); // distance 1
    }
    b.code(0, 7); // end of block
    let body = b.finish();
    let total = 1 + 258 * matches as u64;
    let mut crc = flate2::Crc::new();
    let chunk = vec![0u8; 1 << 20];
    let mut left = total;
    while left > 0 {
        let n = left.min(chunk.len() as u64) as usize;
        crc.update(&chunk[..n]);
        left -= n as u64;
    }
    let mut z = vec![0x1f, 0x8b, 8, 0, 0, 0, 0, 0, 0, 0xff];
    z.extend_from_slice(&body);
    z.extend_from_slice(&crc.sum().to_le_bytes());
    z.extend_from_slice(&(total as u32).to_le_bytes());
    (z, total)
}

#[test]
fn small_crafted_stream_inflates() {
    let (z, total) = zeros_gzip(1000);
    let v = inflate_gzip(&z).unwrap();
    assert_eq!(v.len() as u64, total);
    assert!(v.iter().all(|b| *b == 0));
}

#[test]
fn decompression_bomb_is_refused() {
    let (z, total) = zeros_gzip(524288);
    assert!(total > MAX_SVGZ_INFLATED);
    assert!(z.len() < 1 << 20);
    assert!(inflate_gzip(&z).is_err());
}
