//! Storing and retrieving one encrypted raster per (document, page) pair.
//!
//! A page arrives from the rasterizer as raw RGBA bytes. It is repacked to
//! RGB (the alpha channel is dropped), encrypted under the vault's fixed key
//! and nonce, and written under a name derived from the document's key and
//! the page index. Loading reverses the steps and checks that the plaintext
//! length matches the recorded geometry.

use vstd::prelude::*;

use crate::codec::{cipher_len_cap, decrypt_payload, encrypt_payload, encrypt_of, CryptoConfig};
use crate::errors::VaultError;
use crate::PageGeometry;

verus! {

/// The packed RGB bytes of a raster given as packed RGBA bytes: three bytes
/// per pixel, row-major order kept, alpha dropped.
pub open spec fn rgb_of_rgba(rgba: Seq<u8>) -> Seq<u8> {
    Seq::new(rgba.len() / 4 * 3, |i: int| rgba[i / 3 * 4 + i % 3])
}

/// Repack raw RGBA bytes to RGB, dropping each pixel's alpha byte.
pub fn repack_rgba_to_rgb(rgba: &Vec<u8>) -> (r: Vec<u8>)
    ensures
        r@ == rgb_of_rgba(rgba@),
{
    let pixels = rgba.len() / 4;
    let mut out: Vec<u8> = Vec::new();
    let mut i: usize = 0;
    while i < pixels
        invariant
            i <= pixels,
            pixels == rgba@.len() / 4,
            rgba@.len() <= usize::MAX,
            out@.len() == 3 * i,
            forall|j: int| 0 <= j < 3 * i ==> out@[j] == rgba@[j / 3 * 4 + j % 3],
        decreases pixels - i,
    {
        proof {
            vstd::arithmetic::div_mod::lemma_fundamental_div_mod(rgba@.len() as int, 4);
            assert(4 * pixels <= rgba@.len());
            assert(4 * i + 3 <= 4 * pixels) by (nonlinear_arith)
                requires
                    i < pixels,
            ;
        }
        out.push(rgba[4 * i]);
        out.push(rgba[4 * i + 1]);
        out.push(rgba[4 * i + 2]);
        proof {
            assert forall|j: int| 0 <= j < 3 * (i + 1) implies out@[j] == rgba@[j / 3 * 4 + j
                % 3] by {
                if j >= 3 * i {
                    assert(j / 3 == i && j % 3 == j - 3 * i) by (nonlinear_arith)
                        requires
                            3 * i <= j < 3 * (i + 1),
                    ;
                }
            }
        }
        i = i + 1;
    }
    proof {
        assert(out@ =~= rgb_of_rgba(rgba@));
    }
    out
}

/// The repacked raster of a `width` by `height` RGBA buffer has exactly
/// `width * height * 3` bytes.
pub proof fn lemma_repack_geometry(rgba: Seq<u8>, width: nat, height: nat)
    requires
        rgba.len() == width * height * 4,
    ensures
        rgb_of_rgba(rgba).len() == width * height * 3,
{
    assert(rgba.len() / 4 == width * height) by (nonlinear_arith)
        requires
            rgba.len() == width * height * 4,
    ;
}

/// In the repacked raster of a `width` by `height` RGBA buffer, channel `c`
/// of pixel `p` equals channel `c` of the same pixel of the source raster:
/// the RGB channels are kept, only alpha is dropped.
pub proof fn lemma_repack_pixel(rgba: Seq<u8>, width: nat, height: nat, p: int, c: int)
    requires
        rgba.len() == width * height * 4,
        0 <= p < width * height,
        0 <= c < 3,
    ensures
        rgb_of_rgba(rgba)[3 * p + c] == rgba[4 * p + c],
{
    lemma_repack_geometry(rgba, width, height);
    let j = 3 * p + c;
    assert(0 <= j < rgba.len() / 4 * 3 && j / 3 == p && j % 3 == c) by (nonlinear_arith)
        requires
            0 <= p < rgba.len() / 4,
            0 <= c < 3,
            j == 3 * p + c,
    ;
}

/// Repack a page's raw RGBA bytes to RGB and encrypt them for storage.
/// Returns the ciphertext to be written, and the geometry to be recorded in
/// the ledger beside it.
pub fn store_page(cfg: &CryptoConfig, rgba: &Vec<u8>, width: u32, height: u32) -> (r: Result<
    (Vec<u8>, PageGeometry),
    VaultError,
>)
    requires
        rgba@.len() == width * height * 4,
    ensures
        r matches Ok(p) ==> p.0@ == encrypt_of(cfg.key@, cfg.nonce@, rgb_of_rgba(rgba@))
            && p.0@.len() == width * height * 3 + 16 && p.1.width == width && p.1.height
            == height,
        r is Ok <==> width * height * 3 < cipher_len_cap(),
        r is Err ==> r == Err::<(Vec<u8>, PageGeometry), VaultError>(VaultError::PayloadTooLarge),
{
    proof {
        lemma_repack_geometry(rgba@, width as nat, height as nat);
    }
    let rgb = repack_rgba_to_rgb(rgba);
    match encrypt_payload(cfg, &rgb) {
        Ok(ct) => Ok((ct, PageGeometry { width, height })),
        Err(e) => Err(e),
    }
}

/// Decrypt a stored page ciphertext and check it against the geometry the
/// ledger records for it. The result is the page's packed RGB bytes.
pub fn load_page(cfg: &CryptoConfig, ct: &Vec<u8>, geometry: &PageGeometry) -> (r: Result<
    Vec<u8>,
    VaultError,
>)
    ensures
        r matches Ok(p) ==> ct@ == encrypt_of(cfg.key@, cfg.nonce@, p@) && p@.len()
            == geometry.width * geometry.height * 3,
        r matches Ok(p) ==> forall|s: Seq<u8>|
            ct@ == encrypt_of(cfg.key@, cfg.nonce@, s) ==> s == p@,
        r is Ok <==> exists|s: Seq<u8>|
            ct@ == encrypt_of(cfg.key@, cfg.nonce@, s) && s.len() == geometry.width
                * geometry.height * 3,
        r == Err::<Vec<u8>, VaultError>(VaultError::AuthenticationError) <==> !(exists|s: Seq<u8>|
            ct@ == encrypt_of(cfg.key@, cfg.nonce@, s)),
        r == Err::<Vec<u8>, VaultError>(VaultError::CorruptPage) <==> (exists|s: Seq<u8>|
            ct@ == encrypt_of(cfg.key@, cfg.nonce@, s)) && !(exists|s: Seq<u8>|
            ct@ == encrypt_of(cfg.key@, cfg.nonce@, s) && s.len() == geometry.width
                * geometry.height * 3),
{
    match decrypt_payload(cfg, ct) {
        Ok(pt) => {
            proof {
                assert((geometry.width as int) * (geometry.height as int) * 3 < 0x1_0000_0000_0000_0000_0000int)
                    by (nonlinear_arith)
                    requires
                        geometry.width <= 0xFFFF_FFFFu32,
                        geometry.height <= 0xFFFF_FFFFu32,
                ;
            }
            let expected: u128 = geometry.width as u128 * geometry.height as u128 * 3;
            if pt.len() as u128 == expected {
                Ok(pt)
            } else {
                Err(VaultError::CorruptPage)
            }
        },
        Err(_) => Err(VaultError::AuthenticationError),
    }
}

} // verus!
