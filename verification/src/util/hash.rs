use vstd::prelude::*;
use crate::util::text::{str_eq, string_of};

verus! {

/// Supported hash algorithms.
#[derive(Debug, Clone, Copy, PartialEq, Eq, Structural)]
pub enum HashAlgorithm {
    Crc32,
}

impl HashAlgorithm {
    /// Name of this algorithm.
    pub fn name(&self) -> (r: &'static str)
        ensures r@ == "crc32"@,
    {
        match self {
            Self::Crc32 => "crc32",
        }
    }

    /// Output size in bytes.
    pub fn output_size(&self) -> (r: usize)
        ensures r == 4,
    {
        match self {
            Self::Crc32 => 4,
        }
    }

    /// Parse from name.
    pub fn from_name(name: &str) -> (r: Option<Self>)
        ensures r == (if name@ == "crc32"@ { Some(HashAlgorithm::Crc32) } else { None }),
    {
        if str_eq(name, "crc32") { Some(Self::Crc32) } else { None }
    }
}

/// One bit step of the reflected CRC-32 (polynomial 0xEDB88320).
pub open spec fn crc_bit(c: u32) -> u32 {
    if c & 1 != 0 { (c >> 1) ^ 0xEDB8_8320u32 } else { c >> 1 }
}

/// The CRC-32 register after `n` bit steps.
pub open spec fn crc_bits(c: u32, n: nat) -> u32
    decreases n,
{
    if n == 0 { c } else { crc_bits(crc_bit(c), (n - 1) as nat) }
}

/// The CRC-32 register after one byte.
pub open spec fn crc_byte(c: u32, b: u8) -> u32 {
    crc_bits(c ^ (b as u32), 8)
}

/// The CRC-32 register after the bytes of `d`, in order, from `c`.
pub open spec fn crc_update(c: u32, d: Seq<u8>) -> u32
    decreases d.len(),
{
    if d.len() == 0 { c } else { crc_byte(crc_update(c, d.drop_last()), d.last()) }
}

/// The register before any byte.
pub open spec fn crc_init() -> u32 { 0xFFFF_FFFFu32 }

/// The four bytes of `v`, most significant first.
pub open spec fn be_bytes(v: u32) -> Seq<u8> {
    seq![(v >> 24) as u8, (v >> 16) as u8, (v >> 8) as u8, v as u8]
}

/// CRC-32 digest of a register: its complement, big-endian.
pub open spec fn crc_digest(c: u32) -> Seq<u8> {
    be_bytes(!c)
}

/// A lowercase hexadecimal digit.
pub open spec fn hex_digit(d: u8) -> char {
    if d < 10 { (48 + d) as char } else { (87 + d) as char }
}

/// Two lowercase hexadecimal digits per byte.
pub open spec fn hex_text(b: Seq<u8>) -> Seq<char>
    decreases b.len(),
{
    if b.len() == 0 { Seq::empty() }
    else { hex_text(b.drop_last()) + seq![hex_digit(b.last() >> 4), hex_digit(b.last() & 15)] }
}

enum HashState {
    Crc32(u32),
}

/// A streaming hash context.
pub struct HashContext {
    algorithm: HashAlgorithm,
    state: HashState,
}

fn hex_char(d: u8) -> (c: char)
    requires d < 16,
    ensures c == hex_digit(d),
{
    if d < 10 { (48u8 + d) as char } else { (87u8 + d) as char }
}

impl HashContext {
    /// The CRC register.
    pub closed spec fn register(&self) -> u32 {
        match self.state { HashState::Crc32(c) => c }
    }

    /// The algorithm.
    pub closed spec fn spec_algorithm(&self) -> HashAlgorithm {
        self.algorithm
    }

    /// Create a new hash context for the given algorithm.
    pub fn new(algorithm: HashAlgorithm) -> (r: HashContext)
        ensures r.register() == crc_init(), r.spec_algorithm() == algorithm,
    {
        let state = match algorithm {
            HashAlgorithm::Crc32 => HashState::Crc32(0xFFFF_FFFF),
        };
        HashContext { algorithm, state }
    }

    /// Feed data into the hash.
    pub fn update(&mut self, data: &[u8])
        ensures
            final(self).register() == crc_update(old(self).register(), data@),
            final(self).spec_algorithm() == old(self).spec_algorithm(),
    {
        let HashState::Crc32(start) = self.state;
        let mut crc: u32 = start;
        let mut i: usize = 0;
        while i < data.len()
            invariant i <= data@.len(), crc == crc_update(start, data@.take(i as int)),
            decreases data.len() - i,
        {
            let mut c = crc ^ (data[i] as u32);
            let ghost c0 = c;
            let mut k: u32 = 0;
            while k < 8
                invariant k <= 8, crc_bits(c0, 8) == crc_bits(c, (8 - k) as nat),
                decreases 8 - k,
            {
                if c & 1 != 0 {
                    c = (c >> 1) ^ 0xEDB8_8320;
                } else {
                    c = c >> 1;
                }
                k += 1;
            }
            assert(data@.take(i + 1).drop_last() =~= data@.take(i as int));
            crc = c;
            i += 1;
        }
        assert(data@.take(i as int) =~= data@);
        self.state = HashState::Crc32(crc);
    }

    /// Finalize and return the digest: the complemented register, big-endian.
    pub fn finalize(&self) -> (r: Vec<u8>)
        ensures r@ == crc_digest(self.register()),
    {
        let HashState::Crc32(crc) = self.state;
        let v = !crc;
        let r = vec![(v >> 24) as u8, (v >> 16) as u8, (v >> 8) as u8, v as u8];
        assert(r@ =~= crc_digest(self.register()));
        r
    }

    /// Finalize and return the digest as lowercase hexadecimal text.
    pub fn finalize_hex(&self) -> (r: String)
        ensures r@ == hex_text(crc_digest(self.register())),
    {
        let bytes = self.finalize();
        let mut out: Vec<char> = Vec::new();
        let mut i: usize = 0;
        while i < bytes.len()
            invariant i <= bytes@.len(), out@ == hex_text(bytes@.take(i as int)),
            decreases bytes.len() - i,
        {
            let b = bytes[i];
            assert(b >> 4 < 16 && b & 15 < 16) by (bit_vector);
            out.push(hex_char(b >> 4));
            out.push(hex_char(b & 15));
            assert(bytes@.take(i + 1).drop_last() =~= bytes@.take(i as int));
            i += 1;
            assert(out@ =~= hex_text(bytes@.take(i as int)));
        }
        assert(bytes@.take(i as int) =~= bytes@);
        string_of(out.as_slice())
    }

    /// Reset to the initial state for reuse.
    pub fn reset(&mut self)
        ensures final(self).register() == crc_init(), final(self).spec_algorithm() == old(self).spec_algorithm(),
    {
        self.state = match self.algorithm {
            HashAlgorithm::Crc32 => HashState::Crc32(0xFFFF_FFFF),
        };
    }

    /// The algorithm used by this context.
    pub fn algorithm(&self) -> (r: HashAlgorithm)
        ensures r == self.spec_algorithm(),
    {
        self.algorithm
    }
}

/// Compute the digest of a byte slice in one call.
pub fn hash(algorithm: HashAlgorithm, data: &[u8]) -> (r: Vec<u8>)
    ensures r@ == crc_digest(crc_update(crc_init(), data@)),
{
    let mut ctx = HashContext::new(algorithm);
    ctx.update(data);
    ctx.finalize()
}

/// Compute the digest as lowercase hexadecimal text.
pub fn hash_hex(algorithm: HashAlgorithm, data: &[u8]) -> (r: String)
    ensures r@ == hex_text(crc_digest(crc_update(crc_init(), data@))),
{
    let mut ctx = HashContext::new(algorithm);
    ctx.update(data);
    ctx.finalize_hex()
}

/// Feeding data in two parts gives the register that feeding it at once does.
pub proof fn law_streaming_matches_oneshot(c: u32, a: Seq<u8>, b: Seq<u8>)
    ensures crc_update(crc_update(c, a), b) == crc_update(c, a + b),
    decreases b.len(),
{
    if b.len() == 0 {
        assert(a + b =~= a);
    } else {
        law_streaming_matches_oneshot(c, a, b.drop_last());
        assert((a + b).drop_last() =~= a + b.drop_last());
    }
}

} // verus!
