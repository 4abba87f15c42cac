//! Parsing the vault's provisioning material.
//!
//! A vault is provisioned with one hex-encoded line: 64 hex digits of key
//! followed by 48 hex digits of nonce. Reading the file is the caller's
//! business; turning its bytes into the fixed key and nonce is decided here.

use vstd::prelude::*;

use crate::codec::CryptoConfig;

verus! {

/// Whether a byte is an ASCII hexadecimal digit.
pub open spec fn is_hex_digit(b: u8) -> bool {
    (48 <= b <= 57) || (97 <= b <= 102) || (65 <= b <= 70)
}

/// The value of one ASCII hexadecimal digit.
pub open spec fn hex_val(b: u8) -> u8
    recommends
        is_hex_digit(b),
{
    if 48 <= b <= 57 {
        (b - 48) as u8
    } else if 97 <= b <= 102 {
        (b - 97 + 10) as u8
    } else if 65 <= b <= 70 {
        (b - 65 + 10) as u8
    } else {
        0
    }
}

/// Whether every byte of `s` is an ASCII hexadecimal digit.
pub open spec fn all_hex_digits(s: Seq<u8>) -> bool {
    forall|i: int| 0 <= i < s.len() ==> is_hex_digit(#[trigger] s[i])
}

/// The bytes an even-length run of hexadecimal digits encodes: one byte per
/// digit pair, high digit first.
pub open spec fn spec_hex_decode(s: Seq<u8>) -> Seq<u8> {
    Seq::new((s.len() / 2) as nat, |i: int| (hex_val(s[2 * i]) * 16 + hex_val(s[2 * i + 1])) as u8)
}

/// Relies on `hex::decode`: it succeeds exactly on even-length input made of
/// hexadecimal digits, and maps each digit pair to its byte, high digit
/// first.
#[verifier::external_body]
fn hex_decode(data: &Vec<u8>) -> (r: Option<Vec<u8>>)
    ensures
        r is Some <==> (data@.len() % 2 == 0 && all_hex_digits(data@)),
        r matches Some(v) ==> v@ == spec_hex_decode(data@),
{
    hex::decode(data).ok()
}

/// Whether provisioning content is acceptable: 64 key digits and 48 nonce
/// digits, nothing else.
pub open spec fn spec_provisioning_ok(contents: Seq<u8>) -> bool {
    contents.len() == 112 && all_hex_digits(contents)
}

/// Copy a run of a byte vector.
fn copy_range(v: &Vec<u8>, from: usize, to: usize) -> (r: Vec<u8>)
    requires
        from <= to <= v@.len(),
    ensures
        r@ == v@.subrange(from as int, to as int),
{
    let s = vstd::slice::slice_subrange(v.as_slice(), from, to);
    vstd::slice::slice_to_vec(s)
}

/// Turn the provisioning file's bytes into the vault's key and nonce: the
/// first 64 hex digits are the 256-bit key, the remaining 48 the 192-bit
/// nonce. Content of any other shape is refused.
pub fn parse_key_and_nonce(contents: &Vec<u8>) -> (r: Option<CryptoConfig>)
    ensures
        r matches Some(cfg) ==> cfg.key@ == spec_hex_decode(contents@.take(64)) && cfg.nonce@
            == spec_hex_decode(contents@.skip(64)),
        r is Some <==> spec_provisioning_ok(contents@),
{
    if contents.len() != 112 {
        return None;
    }
    let key_part = copy_range(contents, 0, 64);
    let nonce_part = copy_range(contents, 64, 112);
    proof {
        assert(key_part@ =~= contents@.take(64));
        assert(nonce_part@ =~= contents@.skip(64));
    }
    let key_bytes = match hex_decode(&key_part) {
        Some(v) => v,
        None => {
            return None;
        },
    };
    let nonce_bytes = match hex_decode(&nonce_part) {
        Some(v) => v,
        None => {
            return None;
        },
    };
    let mut key: [u8; 32] = [0u8; 32];
    let mut i: usize = 0;
    while i < 32
        invariant
            i <= 32,
            key_bytes@.len() == 32,
            forall|j: int| 0 <= j < i ==> key@[j] == key_bytes@[j],
        decreases 32 - i,
    {
        key[i] = key_bytes[i];
        i = i + 1;
    }
    let mut nonce: [u8; 24] = [0u8; 24];
    let mut j: usize = 0;
    while j < 24
        invariant
            j <= 24,
            nonce_bytes@.len() == 24,
            forall|k: int| 0 <= k < j ==> nonce@[k] == nonce_bytes@[k],
        decreases 24 - j,
    {
        nonce[j] = nonce_bytes[j];
        j = j + 1;
    }
    proof {
        assert(key@ =~= key_bytes@);
        assert(nonce@ =~= nonce_bytes@);
        assert forall|i2: int| 0 <= i2 < 112 implies is_hex_digit(#[trigger] contents@[i2]) by {
            if i2 < 64 {
                assert(is_hex_digit(key_part@[i2]));
            } else {
                assert(is_hex_digit(nonce_part@[i2 - 64]));
            }
        }
    }
    Some(CryptoConfig { key, nonce })
}

} // verus!
