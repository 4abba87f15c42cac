use pdf_secure::codec::CryptoConfig;
use pdf_secure::errors::VaultError;
use pdf_secure::pagestore::{load_page, repack_rgba_to_rgb, store_page};
use pdf_secure::PageGeometry;

fn test_config() -> CryptoConfig {
    CryptoConfig { key: [7u8; 32], nonce: [9u8; 24] }
}

#[test]
fn repack_drops_alpha() {
    let rgba = vec![1u8, 2, 3, 4, 5, 6, 7, 8];
    let rgb = repack_rgba_to_rgb(&rgba);
    assert_eq!(rgb, vec![1u8, 2, 3, 5, 6, 7]);
}

#[test]
fn repack_empty() {
    let rgba: Vec<u8> = Vec::new();
    let rgb = repack_rgba_to_rgb(&rgba);
    assert!(rgb.is_empty());
}

#[test]
fn page_round_trip() {
    let cfg = test_config();
    let width = 2u32;
    let height = 2u32;
    let rgba: Vec<u8> = (0u8..16).collect();
    let (ct, geometry) = store_page(&cfg, &rgba, width, height).unwrap();
    assert_eq!(geometry.width, width);
    assert_eq!(geometry.height, height);
    assert_eq!(ct.len(), (width * height * 3 + 16) as usize);
    let rgb = load_page(&cfg, &ct, &geometry).unwrap();
    assert_eq!(rgb.len(), (width * height * 3) as usize);
    for p in 0..(width * height) as usize {
        for c in 0..3 {
            assert_eq!(rgb[3 * p + c], rgba[4 * p + c]);
        }
    }
}

#[test]
fn page_round_trip_single_pixel() {
    let cfg = test_config();
    let rgba = vec![200u8, 150, 100, 50];
    let (ct, geometry) = store_page(&cfg, &rgba, 1, 1).unwrap();
    let rgb = load_page(&cfg, &ct, &geometry).unwrap();
    assert_eq!(rgb, vec![200u8, 150, 100]);
}

#[test]
fn tampered_page_is_rejected() {
    let cfg = test_config();
    let rgba = vec![10u8, 20, 30, 40, 50, 60, 70, 80];
    let (ct, geometry) = store_page(&cfg, &rgba, 2, 1).unwrap();
    for byte in 0..ct.len() {
        for bit in 0..8 {
            let mut flipped = ct.clone();
            flipped[byte] ^= 1 << bit;
            let r = load_page(&cfg, &flipped, &geometry);
            assert_eq!(r, Err(VaultError::AuthenticationError));
        }
    }
}

#[test]
fn wrong_key_is_rejected() {
    let cfg = test_config();
    let other = CryptoConfig { key: [8u8; 32], nonce: [9u8; 24] };
    let rgba = vec![10u8, 20, 30, 40];
    let (ct, geometry) = store_page(&cfg, &rgba, 1, 1).unwrap();
    let r = load_page(&other, &ct, &geometry);
    assert_eq!(r, Err(VaultError::AuthenticationError));
}

#[test]
fn wrong_geometry_is_corrupt() {
    let cfg = test_config();
    let rgba = vec![10u8, 20, 30, 40];
    let (ct, _) = store_page(&cfg, &rgba, 1, 1).unwrap();
    let wrong = PageGeometry { width: 2, height: 1 };
    let r = load_page(&cfg, &ct, &wrong);
    assert_eq!(r, Err(VaultError::CorruptPage));
}

#[test]
fn garbage_ciphertext_is_rejected() {
    let cfg = test_config();
    let geometry = PageGeometry { width: 1, height: 1 };
    let r = load_page(&cfg, &vec![1u8, 2, 3], &geometry);
    assert_eq!(r, Err(VaultError::AuthenticationError));
}
