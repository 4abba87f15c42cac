use pdf_secure::codec::CryptoConfig;
use pdf_secure::errors::VaultError;
use pdf_secure::keys::parse_key_and_nonce;
use pdf_secure::ledger::DB;
use pdf_secure::naming::{decimal_string, display_name, page_file_name};
use pdf_secure::pagestore::load_page;
use pdf_secure::registration::{glob_pattern, is_document_file, Registration};
use pdf_secure::session::{
    may_view, navigate, resolve_selection, session_step, verify_device, NavigationEvent,
    SessionAction, SessionEvent, SessionState,
};
use pdf_secure::vault::{load_ledger, save_ledger};
use pdf_secure::PageGeometry;

fn test_config() -> CryptoConfig {
    CryptoConfig { key: [11u8; 32], nonce: [13u8; 24] }
}

#[test]
fn device_binding() {
    let db = DB::new(&String::from("usb-A"));
    assert!(verify_device(&db, "usb-A").is_ok());
    assert_eq!(verify_device(&db, "usb-B"), Err(VaultError::DeviceMismatch));
    assert_eq!(verify_device(&db, ""), Err(VaultError::DeviceMismatch));
}

#[test]
fn navigation_bounds() {
    assert_eq!(navigate(0, 3, &NavigationEvent::PreviousPage), 0);
    assert_eq!(navigate(2, 3, &NavigationEvent::NextPage), 2);
    assert_eq!(navigate(0, 1, &NavigationEvent::NextPage), 0);
    assert_eq!(navigate(0, 1, &NavigationEvent::PreviousPage), 0);
}

#[test]
fn navigation_moves_within_bounds() {
    assert_eq!(navigate(0, 3, &NavigationEvent::NextPage), 1);
    assert_eq!(navigate(1, 3, &NavigationEvent::NextPage), 2);
    assert_eq!(navigate(2, 3, &NavigationEvent::PreviousPage), 1);
    assert_eq!(navigate(1, 3, &NavigationEvent::Exit), 1);
}

#[test]
fn selection_resolves_listing_numbers() {
    let mut db = DB::new(&String::from("usb"));
    let mut reg_a = Registration::new("a.pdf");
    reg_a.finish(&mut db, 5);
    let mut reg_b = Registration::new("b.pdf");
    reg_b.finish(&mut db, 5);
    assert_eq!(resolve_selection(&db, "1"), Some(0));
    assert_eq!(resolve_selection(&db, "2"), Some(1));
    assert_eq!(resolve_selection(&db, "0"), None);
    assert_eq!(resolve_selection(&db, "3"), None);
    assert_eq!(resolve_selection(&db, ""), None);
    assert_eq!(resolve_selection(&db, "01"), None);
    assert_eq!(resolve_selection(&db, "q"), None);
}

#[test]
fn decimal_rendering() {
    assert_eq!(decimal_string(0), "0");
    assert_eq!(decimal_string(7), "7");
    assert_eq!(decimal_string(10), "10");
    assert_eq!(decimal_string(409), "409");
}

#[test]
fn page_names_follow_the_scheme() {
    assert_eq!(page_file_name("docs\\a.pdf", 0), "docs\\a.pdf_0.enc");
    assert_eq!(page_file_name("docs\\a.pdf", 12), "docs\\a.pdf_12.enc");
    assert_eq!(glob_pattern("docs\\a.pdf"), "docs\\a.pdf_@@.enc");
}

#[test]
fn display_names_drop_directories() {
    assert_eq!(display_name("docs\\sub\\a.pdf"), "a.pdf");
    assert_eq!(display_name("a.pdf"), "a.pdf");
    assert_eq!(display_name("docs\\"), "");
}

#[test]
fn document_files_are_recognized() {
    assert!(is_document_file("a.pdf"));
    assert!(is_document_file("docs\\b.pdf"));
    assert!(!is_document_file("a.txt"));
    assert!(!is_document_file("pdf"));
    assert!(!is_document_file(""));
}

#[test]
fn provisioning_content_parses() {
    let mut contents = Vec::new();
    contents.extend_from_slice("00".repeat(31).as_bytes());
    contents.extend_from_slice(b"Ff");
    contents.extend_from_slice("0a".repeat(24).as_bytes());
    assert_eq!(contents.len(), 112);
    let cfg = parse_key_and_nonce(&contents).unwrap();
    assert_eq!(cfg.key[0], 0);
    assert_eq!(cfg.key[30], 0);
    assert_eq!(cfg.key[31], 0xFF);
    assert_eq!(cfg.nonce, [0x0Au8; 24]);
}

#[test]
fn provisioning_content_of_wrong_shape_is_refused() {
    assert!(parse_key_and_nonce(&vec![b'0'; 111]).is_none());
    assert!(parse_key_and_nonce(&vec![b'0'; 113]).is_none());
    let mut bad = vec![b'0'; 112];
    bad[50] = b'g';
    assert!(parse_key_and_nonce(&bad).is_none());
}

#[test]
fn end_to_end_three_page_document() {
    let cfg = test_config();
    let key = "intake\\report.pdf";

    // Registration: three pages of one pixel each, max two viewings.
    let mut db = DB::new(&String::from("usb-7"));
    let mut reg = Registration::new(key);
    let mut stored: Vec<Vec<u8>> = Vec::new();
    let pages: [[u8; 4]; 3] = [[1, 2, 3, 9], [4, 5, 6, 9], [7, 8, 9, 9]];
    for page in pages.iter() {
        let rgba = page.to_vec();
        assert_eq!(reg.page_count(), stored.len());
        let ct = reg.add_page(&cfg, &rgba, 1, 1).unwrap();
        stored.push(ct);
    }
    reg.finish(&mut db, 2);
    let file = save_ledger(&cfg, &db).unwrap();

    // First viewing: allowed, count goes from 1 to 2.
    let mut db = load_ledger(&cfg, &file).unwrap();
    assert!(verify_device(&db, "usb-7").is_ok());
    assert!(may_view(&db, key));
    let meta = db.get(key).unwrap();
    assert_eq!(meta.file_open_count, 1);
    assert_eq!(meta.number_of_images, 3);
    for (index, ct) in stored.iter().enumerate() {
        let (w, h) = meta.renders_config[index];
        let rgb = load_page(&cfg, ct, &PageGeometry { width: w, height: h }).unwrap();
        assert_eq!(rgb, pages[index][0..3].to_vec());
    }
    db.record_open(key);
    let file = save_ledger(&cfg, &db).unwrap();

    // Second viewing: still allowed, count goes to 3.
    let mut db = load_ledger(&cfg, &file).unwrap();
    assert!(may_view(&db, key));
    assert_eq!(db.get(key).unwrap().file_open_count, 2);
    db.record_open(key);
    let file = save_ledger(&cfg, &db).unwrap();

    // Third viewing: refused, count stays 3.
    let db = load_ledger(&cfg, &file).unwrap();
    assert!(!may_view(&db, key));
    assert_eq!(db.get(key).unwrap().file_open_count, 3);
}

#[test]
fn session_machine_walks_the_states() {
    let cfg = test_config();
    let mut db = DB::new(&String::from("usb"));
    let mut reg = Registration::new("a.pdf");
    reg.add_page(&cfg, &vec![1, 2, 3, 4], 1, 1).unwrap();
    reg.add_page(&cfg, &vec![5, 6, 7, 8], 1, 1).unwrap();
    reg.finish(&mut db, 5);

    // Listing: invalid input is re-prompted, a valid number opens page 0.
    let (state, action) = session_step(
        &db,
        &SessionState::Listing,
        &SessionEvent::Input(String::from("x")),
    );
    assert!(matches!(state, SessionState::Listing));
    assert!(matches!(action, SessionAction::Idle));
    let (state, action) = session_step(
        &db,
        &SessionState::Listing,
        &SessionEvent::Input(String::from("1")),
    );
    assert!(matches!(state, SessionState::Viewing { doc_index: 0, page: 0 }));
    assert!(matches!(action, SessionAction::ShowPage { doc_index: 0, page: 0 }));

    // Viewing: navigation moves inside the bounds.
    let (state, action) = session_step(&db, &state, &SessionEvent::Key(NavigationEvent::NextPage));
    assert!(matches!(state, SessionState::Viewing { doc_index: 0, page: 1 }));
    assert!(matches!(action, SessionAction::ShowPage { doc_index: 0, page: 1 }));
    let (state, action) = session_step(&db, &state, &SessionEvent::Key(NavigationEvent::NextPage));
    assert!(matches!(state, SessionState::Viewing { doc_index: 0, page: 1 }));
    assert!(matches!(action, SessionAction::ShowPage { doc_index: 0, page: 1 }));

    // Leaving the document commits the viewing; quitting closes the session.
    let (state, action) = session_step(&db, &state, &SessionEvent::Key(NavigationEvent::Exit));
    assert!(matches!(state, SessionState::Listing));
    assert!(matches!(action, SessionAction::CommitOpen { doc_index: 0 }));
    let (state, action) = session_step(
        &db,
        &SessionState::Listing,
        &SessionEvent::Input(String::from("q")),
    );
    assert!(matches!(state, SessionState::Closed));
    assert!(matches!(action, SessionAction::Idle));
}

#[test]
fn session_machine_refuses_spent_documents() {
    let mut db = DB::new(&String::from("usb"));
    let mut reg = Registration::new("a.pdf");
    reg.finish(&mut db, 0);
    // The record starts with one grant spent and a ceiling of zero.
    let (state, action) = session_step(
        &db,
        &SessionState::Listing,
        &SessionEvent::Input(String::from("1")),
    );
    assert!(matches!(state, SessionState::Listing));
    assert!(matches!(action, SessionAction::Refused { doc_index: 0 }));
}
