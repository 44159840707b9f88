//! FxHash: a single-multiply-per-word, non-cryptographic hash.
//!
//! For each word: `hash = hash * SEED + word` (wrapping), with
//! `SEED = 0x517CC1B727220A95` and no finalisation step. Byte input is read
//! in 8-byte words, then one 4-byte word, then single bytes; multi-byte
//! words are read little-endian.

use vstd::prelude::*;

verus! {

/// The multiplier of every step.
pub const SEED: u64 = 0x517CC1B727220A95u64;

/// One hashing step: `h * SEED + w` modulo 2⁶⁴.
pub open spec fn fx_step(h: u64, w: u64) -> u64 {
    (((h as nat * SEED as nat) % 0x10000000000000000nat + w as nat)
        % 0x10000000000000000nat) as u64
}

/// Little-endian value of the first eight bytes.
pub open spec fn le64(b: Seq<u8>) -> u64 {
    (b[0] as u64) | ((b[1] as u64) << 8u64) | ((b[2] as u64) << 16u64) | ((b[3] as u64) << 24u64)
        | ((b[4] as u64) << 32u64) | ((b[5] as u64) << 40u64) | ((b[6] as u64) << 48u64) | ((
    b[7] as u64) << 56u64)
}

/// Little-endian value of the first four bytes.
pub open spec fn le32(b: Seq<u8>) -> u64 {
    ((b[0] as u32) | ((b[1] as u32) << 8u32) | ((b[2] as u32) << 16u32) | ((b[3] as u32)
        << 24u32)) as u64
}

/// Hashing every byte on its own, in order.
pub open spec fn fx_bytes_each(h: u64, b: Seq<u8>) -> u64
    decreases b.len(),
{
    if b.len() == 0 {
        h
    } else {
        fx_bytes_each(fx_step(h, b[0] as u64), b.drop_first())
    }
}

/// The state after `write(bytes)`: 8-byte words, then one 4-byte word, then bytes.
pub open spec fn fx_write(h: u64, b: Seq<u8>) -> u64
    decreases b.len(),
{
    if b.len() >= 8 {
        fx_write(fx_step(h, le64(b)), b.skip(8))
    } else if b.len() >= 4 {
        fx_bytes_each(fx_step(h, le32(b)), b.skip(4))
    } else {
        fx_bytes_each(h, b)
    }
}

/// FxHash-style hasher: single multiply per word, no finalisation.
#[derive(Debug, Clone, Copy, PartialEq, Eq, Default, Structural)]
pub struct FxHasher {
    pub hash: u64,
}

fn step(h: u64, w: u64) -> (r: u64)
    ensures
        r == fx_step(h, w),
{
    h.wrapping_mul(SEED).wrapping_add(w)
}

impl FxHasher {
    /// A hasher in its initial state (hash 0).
    pub fn new() -> (r: FxHasher)
        ensures
            r.hash == 0,
    {
        FxHasher { hash: 0 }
    }

    /// The current hash value.
    pub fn finish(&self) -> (r: u64)
        ensures
            r == self.hash,
    {
        self.hash
    }

    /// Feeds bytes: 8-byte words, then one 4-byte word, then single bytes.
    pub fn write(&mut self, bytes: &[u8])
        ensures
            final(self).hash == fx_write(old(self).hash, bytes@),
    {
        let mut pos: usize = 0;
        let n = bytes.len();
        proof {
            assert(bytes@.skip(0) =~= bytes@);
        }
        while n - pos >= 8
            invariant
                n == bytes@.len(),
                pos <= n,
                fx_write(self.hash, bytes@.skip(pos as int)) == fx_write(
                    old(self).hash,
                    bytes@,
                ),
            decreases n - pos,
        {
            let ghost b = bytes@.skip(pos as int);
            let val: u64 = (bytes[pos] as u64) | ((bytes[pos + 1] as u64) << 8u64) | ((bytes[pos
                + 2] as u64) << 16u64) | ((bytes[pos + 3] as u64) << 24u64) | ((bytes[pos
                + 4] as u64) << 32u64) | ((bytes[pos + 5] as u64) << 40u64) | ((bytes[pos
                + 6] as u64) << 48u64) | ((bytes[pos + 7] as u64) << 56u64);
            assert(val == le64(b));
            self.hash = step(self.hash, val);
            proof {
                assert(b.skip(8) =~= bytes@.skip(pos + 8));
            }
            pos = pos + 8;
        }
        let ghost h8 = self.hash;
        let ghost rest = bytes@.skip(pos as int);
        if n - pos >= 4 {
            let val32: u32 = (bytes[pos] as u32) | ((bytes[pos + 1] as u32) << 8u32) | ((bytes[pos
                + 2] as u32) << 16u32) | ((bytes[pos + 3] as u32) << 24u32);
            assert(val32 as u64 == le32(rest));
            self.hash = step(self.hash, val32 as u64);
            proof {
                assert(rest.skip(4) =~= bytes@.skip(pos + 4));
            }
            pos = pos + 4;
        }
        while pos < n
            invariant
                n == bytes@.len(),
                pos <= n,
                fx_bytes_each(self.hash, bytes@.skip(pos as int)) == fx_write(
                    old(self).hash,
                    bytes@,
                ),
            decreases n - pos,
        {
            proof {
                assert(bytes@.skip(pos as int).drop_first() =~= bytes@.skip(pos + 1));
            }
            self.hash = step(self.hash, bytes[pos] as u64);
            pos = pos + 1;
        }
    }

    /// Feeds one byte.
    pub fn write_u8(&mut self, val: u8)
        ensures
            final(self).hash == fx_step(old(self).hash, val as u64),
    {
        self.hash = step(self.hash, val as u64);
    }

    /// Feeds one `usize` word.
    pub fn write_usize(&mut self, val: usize)
        ensures
            final(self).hash == fx_step(old(self).hash, val as u64),
    {
        self.hash = step(self.hash, val as u64);
    }

    /// Feeds one `u64` word.
    pub fn write_u64(&mut self, val: u64)
        ensures
            final(self).hash == fx_step(old(self).hash, val),
    {
        self.hash = step(self.hash, val);
    }
}

/// Builds fresh [`FxHasher`]s.
#[derive(Debug, Clone, Copy, PartialEq, Eq, Default, Structural)]
pub struct FxBuildHasher;

impl FxBuildHasher {
    /// A hasher in its initial state.
    pub fn build_hasher(&self) -> (r: FxHasher)
        ensures
            r.hash == 0,
    {
        FxHasher::new()
    }
}

/// The hash of a string: its UTF-8 bytes, then the terminator byte `0xff`.
pub open spec fn fx_hash_str(s: Seq<char>) -> u64 {
    fx_step(fx_write(0, vstd::utf8::encode_utf8(s)), 0xffu64)
}

/// Hashes a string slice the way `str`'s `Hash` feeds a hasher.
pub fn hash_str(s: &str) -> (r: u64)
    ensures
        r == fx_hash_str(s@),
{
    let mut h = FxHasher::new();
    h.write(s.as_bytes());
    h.write_u8(0xffu8);
    h.finish()
}

} // verus!
