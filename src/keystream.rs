//! Keystream ciphers and the model of applying a keystream to a byte stream.

use vstd::prelude::*;
use cipher::{KeyIvInit, StreamCipher, StreamCipherSeek};
use generic_array::GenericArray;

verus! {

/// Largest keystream position (exclusive, in bytes) that this library ever
/// asks of a cipher. Both ChaCha20 (32-bit block counter, 64-byte blocks) and
/// AES-128 in 32-bit counter mode (16-byte blocks) address far more.
pub const KEYSTREAM_LIMIT: usize = 0x7fff_ffff;

/// The selectable ciphers.
#[derive(Clone, Copy, Debug, PartialEq, Eq, Structural)]
pub enum Cipher {
    /// ChaCha20 (32-byte key, 12-byte nonce). Served, like `ChaCha20`, by
    /// the `chacha20` crate's `ChaCha20`; the two give the same keystream.
    ChaCha20Pulp,
    /// ChaCha20 (32-byte key, 12-byte nonce), by the `chacha20` crate's
    /// `ChaCha20`.
    ChaCha20,
    /// AES-128 in counter mode, 32-bit little-endian counter.
    Aes128Ctr,
}

/// Byte `pos` of the ChaCha20 keystream for `key` and `iv`.
pub uninterp spec fn chacha20_keystream_byte(key: Seq<u8>, iv: Seq<u8>, pos: int) -> u8;

/// Byte `pos` of the AES-128-CTR (32-bit little-endian counter) keystream.
pub uninterp spec fn aes128_ctr_keystream_byte(key: Seq<u8>, iv: Seq<u8>, pos: int) -> u8;

impl Cipher {
    pub open spec fn key_len_spec(self) -> nat {
        match self {
            Cipher::Aes128Ctr => 16,
            _ => 32,
        }
    }

    pub open spec fn iv_len_spec(self) -> nat {
        match self {
            Cipher::Aes128Ctr => 16,
            _ => 12,
        }
    }

    /// Byte `pos` of this cipher's keystream.
    pub open spec fn keystream_byte(self, key: Seq<u8>, iv: Seq<u8>, pos: int) -> u8 {
        match self {
            Cipher::Aes128Ctr => aes128_ctr_keystream_byte(key, iv, pos),
            _ => chacha20_keystream_byte(key, iv, pos),
        }
    }

    /// Whether `key` and `iv` have the lengths this cipher takes.
    pub open spec fn valid_key_iv(self, key: Seq<u8>, iv: Seq<u8>) -> bool {
        key.len() == self.key_len_spec() && iv.len() == self.iv_len_spec()
    }

    /// Key length in bytes.
    pub fn key_len(self) -> (r: usize)
        ensures
            r == self.key_len_spec(),
    {
        match self {
            Cipher::Aes128Ctr => 16,
            _ => 32,
        }
    }

    /// Initialisation vector length in bytes.
    pub fn iv_len(self) -> (r: usize)
        ensures
            r == self.iv_len_spec(),
    {
        match self {
            Cipher::Aes128Ctr => 16,
            _ => 12,
        }
    }
}

/// `data` combined by exclusive-or with the keystream starting at position
/// `start`: byte `i` meets keystream byte `start + i`.
pub open spec fn xor_keystream(c: Cipher, key: Seq<u8>, iv: Seq<u8>, data: Seq<u8>, start: int) -> Seq<u8> {
    Seq::new(data.len(), |i: int| data[i] ^ c.keystream_byte(key, iv, start + i))
}

/// `buf` where bytes `lo..hi` were combined with the keystream from position
/// `pos` onwards, and the other bytes kept.
pub open spec fn xor_range(c: Cipher, key: Seq<u8>, iv: Seq<u8>, buf: Seq<u8>, lo: int, hi: int, pos: int) -> Seq<u8> {
    Seq::new(buf.len(), |i: int|
        if lo <= i < hi { buf[i] ^ c.keystream_byte(key, iv, pos + (i - lo)) } else { buf[i] })
}

/// Relies on chacha20::ChaCha20 (`KeyIvInit::new`, `StreamCipherSeek::seek`,
/// `StreamCipher::apply_keystream`): a cipher made from `key` and `iv`, moved to
/// keystream byte `pos`, combines each byte by exclusive-or with the next
/// keystream byte. `GenericArray::from_slice` only reinterprets the key and
/// nonce; it panics on a length other than 32 and 12, which `requires` rules
/// out, as it rules out running past the end of the keystream (where `seek`
/// and `apply_keystream` panic).
#[verifier::external_body]
fn chacha20_apply(key: &Vec<u8>, iv: &Vec<u8>, pos: usize, buf: &mut Vec<u8>, lo: usize, hi: usize)
    requires
        key@.len() == 32,
        iv@.len() == 12,
        lo <= hi <= old(buf)@.len(),
        pos + (hi - lo) <= KEYSTREAM_LIMIT,
    ensures
        final(buf)@.len() == old(buf)@.len(),
        forall|i: int| 0 <= i < final(buf)@.len() ==> final(buf)@[i] == if lo <= i < hi {
            old(buf)@[i] ^ chacha20_keystream_byte(key@, iv@, pos + (i - lo))
        } else {
            old(buf)@[i]
        },
{
    let mut c = chacha20::ChaCha20::new(GenericArray::from_slice(key), GenericArray::from_slice(iv));
    c.seek(pos);
    c.apply_keystream(&mut buf[lo..hi]);
}

/// Relies on ctr::Ctr32LE<aes::Aes128> (`KeyIvInit::new`,
/// `StreamCipherSeek::seek`, `StreamCipher::apply_keystream`): a cipher made
/// from `key` and `iv`, moved to keystream byte `pos`, combines each byte by
/// exclusive-or with the next keystream byte. `GenericArray::from_slice` only
/// reinterprets the key and initial counter block; it panics on a length
/// other than 16, which `requires` rules out, as it rules out running past
/// the end of the 32-bit block counter (where `seek` and `apply_keystream`
/// panic).
#[verifier::external_body]
fn aes128_ctr_apply(key: &Vec<u8>, iv: &Vec<u8>, pos: usize, buf: &mut Vec<u8>, lo: usize, hi: usize)
    requires
        key@.len() == 16,
        iv@.len() == 16,
        lo <= hi <= old(buf)@.len(),
        pos + (hi - lo) <= KEYSTREAM_LIMIT,
    ensures
        final(buf)@.len() == old(buf)@.len(),
        forall|i: int| 0 <= i < final(buf)@.len() ==> final(buf)@[i] == if lo <= i < hi {
            old(buf)@[i] ^ aes128_ctr_keystream_byte(key@, iv@, pos + (i - lo))
        } else {
            old(buf)@[i]
        },
{
    let mut c = ctr::Ctr32LE::<aes::Aes128>::new(GenericArray::from_slice(key), GenericArray::from_slice(iv));
    c.seek(pos);
    c.apply_keystream(&mut buf[lo..hi]);
}

/// Combines bytes `lo..hi` of `buf` with the keystream of `c` from position
/// `pos` onwards; the other bytes stay.
pub fn apply_keystream_range(c: Cipher, key: &Vec<u8>, iv: &Vec<u8>, pos: usize, buf: &mut Vec<u8>, lo: usize, hi: usize)
    requires
        c.valid_key_iv(key@, iv@),
        lo <= hi <= old(buf)@.len(),
        pos + (hi - lo) <= KEYSTREAM_LIMIT,
    ensures
        final(buf)@ == xor_range(c, key@, iv@, old(buf)@, lo as int, hi as int, pos as int),
{
    match c {
        Cipher::Aes128Ctr => aes128_ctr_apply(key, iv, pos, buf, lo, hi),
        _ => chacha20_apply(key, iv, pos, buf, lo, hi),
    }
    assert(buf@ =~= xor_range(c, key@, iv@, old(buf)@, lo as int, hi as int, pos as int));
}

/// Serial reference path: combines the whole of `data` with the keystream of
/// `c` from position 0, on the calling core, with no cluster involved.
pub fn encrypt_serial(c: Cipher, data: &mut Vec<u8>, key: &Vec<u8>, iv: &Vec<u8>)
    requires
        c.valid_key_iv(key@, iv@),
        old(data)@.len() <= KEYSTREAM_LIMIT,
    ensures
        final(data)@ == xor_keystream(c, key@, iv@, old(data)@, 0),
{
    let n = data.len();
    apply_keystream_range(c, key, iv, 0, data, 0, n);
    assert(data@ =~= xor_keystream(c, key@, iv@, old(data)@, 0));
}

/// Serial reference path with the published ChaCha20: a 32-byte key and a
/// 12-byte initialisation vector.
pub fn encrypt_serial_orig(data: &mut Vec<u8>, key: &Vec<u8>, iv: &Vec<u8>)
    requires
        key@.len() == 32,
        iv@.len() == 12,
        old(data)@.len() <= KEYSTREAM_LIMIT,
    ensures
        final(data)@ == xor_keystream(Cipher::ChaCha20, key@, iv@, old(data)@, 0),
{
    encrypt_serial(Cipher::ChaCha20, data, key, iv);
}

/// Working on `lo..mid` and then on `mid..hi` with the keystream carried on
/// is working on `lo..hi` at once.
pub proof fn lemma_xor_range_extend(c: Cipher, key: Seq<u8>, iv: Seq<u8>, b: Seq<u8>, lo: int, mid: int, hi: int, pos: int)
    requires
        0 <= lo <= mid <= hi <= b.len(),
    ensures
        xor_range(c, key, iv, xor_range(c, key, iv, b, lo, mid, pos), mid, hi, pos + (mid - lo))
            == xor_range(c, key, iv, b, lo, hi, pos),
{
    assert(xor_range(c, key, iv, xor_range(c, key, iv, b, lo, mid, pos), mid, hi, pos + (mid - lo))
        =~= xor_range(c, key, iv, b, lo, hi, pos));
}

proof fn lemma_xor_twice(a: u8, k: u8)
    ensures
        (a ^ k) ^ k == a,
{
    assert((a ^ k) ^ k == a) by (bit_vector);
}

/// Decrypting what was encrypted with the same cipher, key, initialisation
/// vector and keystream position gives the plaintext back.
pub proof fn lemma_round_trip(c: Cipher, key: Seq<u8>, iv: Seq<u8>, p: Seq<u8>, start: int)
    ensures
        xor_keystream(c, key, iv, xor_keystream(c, key, iv, p, start), start) == p,
{
    let e = xor_keystream(c, key, iv, p, start);
    assert forall|i: int| 0 <= i < p.len() implies xor_keystream(c, key, iv, e, start)[i] == p[i] by {
        lemma_xor_twice(p[i], c.keystream_byte(key, iv, start + i));
    }
    assert(xor_keystream(c, key, iv, e, start) =~= p);
}

} // verus!
