//! SHA-256 digests in lower-case hex, HMAC-SHA256 over them, and the
//! manifest that seals a compliance replay package.
use vstd::prelude::*;
use sha2::{Digest, Sha256};
use crate::text::{from_chars, trim_non_empty};
use crate::error::own;
use vstd::string::StringSliceAdditionalSpecFns;

verus! {

/// The SHA-256 digest of a byte string (FIPS 180-4), as computed by the
/// `sha2` crate.
pub uninterp spec fn sha256(data: Seq<u8>) -> Seq<u8>;

/// `Sha256::digest` of the `sha2` crate: the result is the 32-byte SHA-256
/// digest of `data`, named `sha256(data)`; nothing else is claimed of it.
#[verifier::external_body]
fn sha256_digest(data: &[u8]) -> (r: Vec<u8>)
    ensures
        r@ == sha256(data@),
        r@.len() == 32,
{
    Sha256::digest(data).to_vec()
}

/// The lower-case hex digit of a value below 16.
pub open spec fn hex_digit(n: u8) -> char {
    if n < 10 {
        (('0' as u8) + n) as char
    } else {
        (('a' as u8) + n - 10) as char
    }
}

/// Two lower-case hex digits per byte, high nibble first (`{:02x}`).
pub open spec fn hex(bytes: Seq<u8>) -> Seq<char> {
    Seq::new(
        (2 * bytes.len()) as nat,
        |i: int|
            if i % 2 == 0 {
                hex_digit(bytes[i / 2] / 16)
            } else {
                hex_digit(bytes[i / 2] % 16)
            },
    )
}

/// Hex text is two lower-case hex digits per byte, and tells bytes apart:
/// two byte strings with the same hex text are equal.
pub proof fn law_hex_is_faithful(a: Seq<u8>, b: Seq<u8>)
    ensures
        hex(a).len() == 2 * a.len(),
        forall|i: int| 0 <= i < hex(a).len() ==> ('0' <= #[trigger] hex(a)[i] <= '9') || ('a'
            <= hex(a)[i] <= 'f'),
        hex(a) == hex(b) ==> a == b,
{
    assert forall|i: int| 0 <= i < hex(a).len() implies ('0' <= #[trigger] hex(a)[i] <= '9') || (
    'a' <= hex(a)[i] <= 'f') by {
        let x = a[i / 2];
        assert(x / 16 < 16 && x % 16 < 16) by (bit_vector);
    }
    if hex(a) == hex(b) {
        assert(hex(a).len() == 2 * a.len());
        assert(hex(b).len() == 2 * b.len());
        assert(a.len() == b.len());
        assert forall|k: int| 0 <= k < a.len() implies a[k] == b[k] by {
            let x = a[k];
            let y = b[k];
            assert(hex(a)[2 * k] == hex(b)[2 * k]);
            assert(hex(a)[2 * k + 1] == hex(b)[2 * k + 1]);
            assert((2 * k) / 2 == k && (2 * k) % 2 == 0);
            assert((2 * k + 1) / 2 == k && (2 * k + 1) % 2 == 1);
            assert(x / 16 < 16 && x % 16 < 16 && y / 16 < 16 && y % 16 < 16) by (bit_vector);
            assert(x / 16 == y / 16);
            assert(x % 16 == y % 16);
            assert(x / 16 == y / 16 && x % 16 == y % 16 ==> x == y) by (bit_vector);
        }
        assert(a =~= b);
    }
}

fn hex_digit_exec(n: u8) -> (c: char)
    requires
        n < 16,
    ensures
        c == hex_digit(n),
{
    if n < 10 {
        (48u8 + n) as char
    } else {
        (97u8 + n - 10) as char
    }
}

/// `hex_encode`.
pub fn hex_encode(bytes: &[u8]) -> (r: String)
    ensures
        r@ == hex(bytes@),
{
    let mut out: Vec<char> = Vec::new();
    let mut i: usize = 0;
    while i < bytes.len()
        invariant
            i <= bytes@.len(),
            out@.len() == 2 * i,
            forall|k: int| 0 <= k < 2 * i ==> out@[k] == #[trigger] hex(bytes@)[k],
        decreases bytes.len() - i,
    {
        let b = bytes[i];
        let ghost before = out@;
        out.push(hex_digit_exec(b / 16));
        out.push(hex_digit_exec(b % 16));
        proof {
            assert forall|k: int| 0 <= k < 2 * (i + 1) implies out@[k] == #[trigger] hex(
                bytes@,
            )[k] by {
                if k >= 2 * i {
                    assert(k / 2 == i as int);
                }
            }
        }
        i = i + 1;
    }
    proof {
        assert(out@ =~= hex(bytes@));
    }
    from_chars(out.as_slice())
}

/// `digest_sha256_hex`: the SHA-256 digest of `bytes` in hex.
pub fn digest_sha256_hex(bytes: &[u8]) -> (r: String)
    ensures
        r@ == hex(sha256(bytes@)),
        r@.len() == 64,
{
    let d = sha256_digest(bytes);
    hex_encode(d.as_slice())
}

pub const HMAC_BLOCK_SIZE: usize = 64;

/// The HMAC key block: keys longer than a block are hashed first; the key
/// is then padded with zero bytes to one block (RFC 2104).
pub open spec fn hmac_key_block(key: Seq<u8>) -> Seq<u8> {
    let base = if key.len() > HMAC_BLOCK_SIZE as nat {
        sha256(key)
    } else {
        key
    };
    Seq::new(HMAC_BLOCK_SIZE as nat, |i: int| if i < base.len() { base[i] } else { 0u8 })
}

pub open spec fn xor_pad(block: Seq<u8>, pad: u8) -> Seq<u8> {
    block.map_values(|b: u8| b ^ pad)
}

/// HMAC-SHA256 of `message` under `key`:
/// `H((K ^ opad) || H((K ^ ipad) || message))`.
pub open spec fn hmac_sha256(key: Seq<u8>, message: Seq<u8>) -> Seq<u8> {
    let kb = hmac_key_block(key);
    sha256(xor_pad(kb, 0x5c) + sha256(xor_pad(kb, 0x36) + message))
}

fn key_block(key: &[u8]) -> (r: Vec<u8>)
    ensures
        r@ == hmac_key_block(key@),
{
    let hashed: Vec<u8>;
    let base: &[u8] = if key.len() > HMAC_BLOCK_SIZE {
        hashed = sha256_digest(key);
        hashed.as_slice()
    } else {
        key
    };
    let mut block: Vec<u8> = Vec::new();
    let mut i: usize = 0;
    while i < HMAC_BLOCK_SIZE
        invariant
            i <= HMAC_BLOCK_SIZE,
            block@.len() == i,
            forall|k: int|
                0 <= k < i ==> block@[k] == (if k < base@.len() {
                    base@[k]
                } else {
                    0u8
                }),
        decreases HMAC_BLOCK_SIZE - i,
    {
        if i < base.len() {
            block.push(base[i]);
        } else {
            block.push(0u8);
        }
        i = i + 1;
    }
    proof {
        assert(block@ =~= hmac_key_block(key@));
    }
    block
}

fn pad_then(block: &Vec<u8>, pad: u8, tail: &[u8]) -> (r: Vec<u8>)
    ensures
        r@ == xor_pad(block@, pad) + tail@,
{
    let mut out: Vec<u8> = Vec::new();
    let mut i: usize = 0;
    while i < block.len()
        invariant
            i <= block@.len(),
            out@ == xor_pad(block@, pad).take(i as int),
        decreases block.len() - i,
    {
        out.push(block[i] ^ pad);
        proof {
            assert(xor_pad(block@, pad).take(i + 1) =~= xor_pad(block@, pad).take(i as int).push(
                block@[i as int] ^ pad,
            ));
        }
        i = i + 1;
    }
    let mut j: usize = 0;
    while j < tail.len()
        invariant
            j <= tail@.len(),
            out@ == xor_pad(block@, pad) + tail@.take(j as int),
        decreases tail.len() - j,
    {
        out.push(tail[j]);
        proof {
            assert(tail@.take(j + 1) =~= tail@.take(j as int).push(tail@[j as int]));
            assert(xor_pad(block@, pad) + tail@.take(j + 1) =~= (xor_pad(block@, pad) + tail@.take(
                j as int,
            )).push(tail@[j as int]));
        }
        j = j + 1;
    }
    proof {
        assert(xor_pad(block@, pad).take(block@.len() as int) =~= xor_pad(block@, pad));
        assert(tail@.take(tail@.len() as int) =~= tail@);
    }
    out
}

/// `hmac_sha256_hex`: HMAC-SHA256 of `message` under `key`, in hex.
pub fn hmac_sha256_hex(key: &[u8], message: &[u8]) -> (r: String)
    ensures
        r@ == hex(hmac_sha256(key@, message@)),
        r@.len() == 64,
{
    let kb = key_block(key);
    let inner_input = pad_then(&kb, 0x36, message);
    let inner = sha256_digest(inner_input.as_slice());
    let outer_input = pad_then(&kb, 0x5c, inner.as_slice());
    let outer = sha256_digest(outer_input.as_slice());
    hex_encode(outer.as_slice())
}

/// The manifest that seals a replay package.
#[derive(Debug)]
pub struct ReplayManifest {
    pub version: String,
    pub digest_sha256: String,
    pub signing_mode: String,
    pub signature: Option<String>,
}

/// The signing key used for replay manifests: the configured value,
/// trimmed, unless blank.
pub fn normalize_signing_key(raw: Option<&str>) -> (r: Option<String>)
    ensures
        match raw {
            None => r is None,
            Some(s) => match r {
                None => crate::text::trim_non_empty_spec(s@) is None,
                Some(t) => crate::text::trim_non_empty_spec(s@) == Some(t@),
            },
        },
{
    trim_non_empty(raw)
}

/// `build_replay_manifest`, given the canonical bytes of the manifest
/// payload and the signing key: version `v1`, the SHA-256 of the bytes, and
/// an HMAC-SHA256 signature when a key is configured.
pub fn build_replay_manifest(canonical_bytes: &[u8], signing_key: Option<&str>) -> (m: ReplayManifest)
    ensures
        m.version@ == "v1"@,
        m.digest_sha256@ == hex(sha256(canonical_bytes@)),
        match signing_key {
            Some(k) => m.signing_mode@ == "hmac-sha256"@ && (m.signature matches Some(sig)
                && sig@ == hex(hmac_sha256(k.spec_bytes(), canonical_bytes@))),
            None => m.signing_mode@ == "unsigned"@ && m.signature is None,
        },
{
    let digest_sha256 = digest_sha256_hex(canonical_bytes);
    let (signing_mode, signature) = match signing_key {
        Some(key) => (own("hmac-sha256"), Some(hmac_sha256_hex(key.as_bytes(), canonical_bytes))),
        None => (own("unsigned"), None),
    };
    ReplayManifest { version: own("v1"), digest_sha256, signing_mode, signature }
}

} // verus!
