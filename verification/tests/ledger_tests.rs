use pdf_secure::codec::{encrypt_payload, CryptoConfig};
use pdf_secure::errors::VaultError;
use pdf_secure::ledger::{MetaData, DB};
use pdf_secure::vault::{load_ledger, load_ledger_file, save_ledger};

fn test_config() -> CryptoConfig {
    CryptoConfig { key: [3u8; 32], nonce: [5u8; 24] }
}

fn sample_meta(open_count: i8, max_open: i8) -> MetaData {
    MetaData {
        file_open_count: open_count,
        max_files_open_count: max_open,
        renders_config: vec![(800, 600), (640, 480)],
        glob_pattern: String::from("docs\\a.pdf_@@.enc"),
        number_of_images: 2,
    }
}

#[test]
fn new_ledger_is_empty() {
    let db = DB::new(&String::from("device-1"));
    assert_eq!(db.usb_id, "device-1");
    assert!(db.data.is_empty());
}

#[test]
fn join_inserts_and_get_finds() {
    let mut db = DB::new(&String::from("device-1"));
    db.join("docs\\a.pdf", sample_meta(1, 3));
    let m = db.get("docs\\a.pdf").unwrap();
    assert_eq!(m.file_open_count, 1);
    assert_eq!(m.max_files_open_count, 3);
    assert_eq!(m.number_of_images, 2);
    assert!(db.get("docs\\b.pdf").is_none());
}

#[test]
fn join_overwrites_existing_key() {
    let mut db = DB::new(&String::from("device-1"));
    db.join("k", sample_meta(1, 3));
    db.join("k", sample_meta(2, 9));
    assert_eq!(db.data.len(), 1);
    let m = db.get("k").unwrap();
    assert_eq!(m.file_open_count, 2);
    assert_eq!(m.max_files_open_count, 9);
}

#[test]
fn update_file_open_count_updates_only_its_key() {
    let mut db = DB::new(&String::from("device-1"));
    db.join("a", sample_meta(1, 3));
    db.join("b", sample_meta(1, 5));
    db.update_file_open_count("a", 2);
    assert_eq!(db.get("a").unwrap().file_open_count, 2);
    assert_eq!(db.get("b").unwrap().file_open_count, 1);
    db.update_file_open_count("missing", 7);
    assert_eq!(db.data.len(), 2);
}

#[test]
fn record_open_increments() {
    let mut db = DB::new(&String::from("device-1"));
    db.join("a", sample_meta(1, 2));
    db.record_open("a");
    assert_eq!(db.get("a").unwrap().file_open_count, 2);
    db.record_open("a");
    assert_eq!(db.get("a").unwrap().file_open_count, 3);
    db.record_open("missing");
    assert_eq!(db.data.len(), 1);
}

#[test]
fn record_open_saturates_at_ceiling() {
    let mut db = DB::new(&String::from("device-1"));
    db.join("a", sample_meta(i8::MAX, i8::MAX));
    db.record_open("a");
    assert_eq!(db.get("a").unwrap().file_open_count, i8::MAX);
}

#[test]
fn can_open_policy() {
    let at_ceiling = sample_meta(2, 2);
    assert!(at_ceiling.can_open());
    let past_ceiling = sample_meta(3, 2);
    assert!(!past_ceiling.can_open());
}

#[test]
fn ledger_round_trip() {
    let cfg = test_config();
    let mut db = DB::new(&String::from("usb-0042"));
    db.join("docs\\a.pdf", sample_meta(1, 3));
    db.join(
        "docs\\b\u{00e9}.pdf",
        MetaData {
            file_open_count: -2,
            max_files_open_count: 100,
            renders_config: vec![(1, 2), (3, 4), (5, 6)],
            glob_pattern: String::from("docs\\b\u{00e9}.pdf_@@.enc"),
            number_of_images: 3,
        },
    );
    let file = save_ledger(&cfg, &db).unwrap();
    let loaded = load_ledger(&cfg, &file).unwrap();
    assert_eq!(loaded.usb_id, db.usb_id);
    assert_eq!(loaded.data.len(), db.data.len());
    for i in 0..db.data.len() {
        assert_eq!(loaded.data[i].0, db.data[i].0);
        assert_eq!(loaded.data[i].1.file_open_count, db.data[i].1.file_open_count);
        assert_eq!(
            loaded.data[i].1.max_files_open_count,
            db.data[i].1.max_files_open_count
        );
        assert_eq!(loaded.data[i].1.renders_config, db.data[i].1.renders_config);
        assert_eq!(loaded.data[i].1.glob_pattern, db.data[i].1.glob_pattern);
        assert_eq!(loaded.data[i].1.number_of_images, db.data[i].1.number_of_images);
    }
    let file_again = save_ledger(&cfg, &loaded).unwrap();
    assert_eq!(file_again, file);
}

#[test]
fn empty_ledger_round_trip() {
    let cfg = test_config();
    let db = DB::new(&String::from(""));
    let file = save_ledger(&cfg, &db).unwrap();
    let loaded = load_ledger(&cfg, &file).unwrap();
    assert_eq!(loaded.usb_id, "");
    assert!(loaded.data.is_empty());
}

#[test]
fn tampered_ledger_is_rejected() {
    let cfg = test_config();
    let mut db = DB::new(&String::from("usb-0042"));
    db.join("a", sample_meta(1, 3));
    let file = save_ledger(&cfg, &db).unwrap();
    for byte in (0..file.len()).step_by(7) {
        for bit in 0..8 {
            let mut flipped = file.clone();
            flipped[byte] ^= 1 << bit;
            let r = load_ledger(&cfg, &flipped);
            assert_eq!(r.unwrap_err(), VaultError::AuthenticationError);
        }
    }
}

#[test]
fn foreign_file_is_rejected() {
    let cfg = test_config();
    let r = load_ledger(&cfg, &vec![0u8; 40]);
    assert_eq!(r.unwrap_err(), VaultError::AuthenticationError);
}

#[test]
fn valid_ciphertext_of_garbage_is_corrupt() {
    let cfg = test_config();
    let garbage = vec![0xFFu8; 10];
    let ct = encrypt_payload(&cfg, &garbage).unwrap();
    let r = load_ledger(&cfg, &ct);
    assert_eq!(r.unwrap_err(), VaultError::LedgerCorrupt);
}

#[test]
fn missing_ledger_file_is_distinguished() {
    let cfg = test_config();
    let r = load_ledger_file(&cfg, None);
    assert_eq!(r.unwrap_err(), VaultError::LedgerMissing);
    let db = DB::new(&String::from("usb"));
    let file = save_ledger(&cfg, &db).unwrap();
    let loaded = load_ledger_file(&cfg, Some(&file)).unwrap();
    assert_eq!(loaded.usb_id, "usb");
}
