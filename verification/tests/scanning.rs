use artichoke::directory_scan::{DirectoryScan, ScanAction, ScanEvent};
use artichoke::file_map::{FileInfo, FileMap};
use artichoke::file_watcher::{
    describe_file, generate_id, get_file_extension, id_from, is_announceable, needs_rescan,
    WatchedChange, ID_LEN,
};
use artichoke::sealed_url::{decrypt_url, encrypt_url};

fn found(name: &str) -> ScanEvent {
    ScanEvent::Found { name: name.to_string(), is_file: true }
}

fn info(id: &str, name: &str) -> FileInfo {
    describe_file(id.to_string(), name.to_string(), 5, None)
}

#[test]
fn identifiers_are_random_letters_and_digits() {
    let a = generate_id();
    let b = generate_id();
    assert_eq!(a.len(), 32);
    assert_eq!(ID_LEN, 32);
    assert!(a.chars().all(|c| c.is_ascii_alphanumeric()));
    assert!(b.chars().all(|c| c.is_ascii_alphanumeric()));
    assert_ne!(a, b);
}

#[test]
fn identifiers_hold_what_was_drawn() {
    let drawn = b"abcdefghijklmnopqrstuvwxyzABC019".to_vec();
    assert_eq!(id_from(&drawn), "abcdefghijklmnopqrstuvwxyzABC019");
    let other = b"910CBAzyxwvutsrqponmlkjihgfedcba".to_vec();
    assert_eq!(id_from(&other), "910CBAzyxwvutsrqponmlkjihgfedcba");
}

#[test]
fn identifiers_are_drawn_character_by_character() {
    let id = generate_id();
    assert!(id.chars().any(|c| Some(c) != id.chars().next()));
}

#[test]
fn extensions_of_known_names() {
    assert_eq!(get_file_extension("a.TXT"), "txt");
    assert_eq!(get_file_extension("archive.tar.GZ"), "gz");
    assert_eq!(get_file_extension("README"), "unknown");
    assert_eq!(get_file_extension(".bashrc"), "unknown");
    assert_eq!(get_file_extension("a."), "");
    assert_eq!(get_file_extension(""), "unknown");
    assert_eq!(get_file_extension(".."), "unknown");
    assert_eq!(get_file_extension("dir.d/file"), "unknown");
    assert_eq!(get_file_extension("picture.JPEG/"), "jpeg");
    assert_eq!(get_file_extension("notes.\u{c9}T\u{c9}"), "\u{e9}t\u{e9}");
    assert_eq!(get_file_extension("x.\u{39f}\u{3a3}"), "\u{3bf}\u{3c2}");
}

#[test]
fn extensions_are_those_of_paths() {
    for name in [
        "", ".", "..", "...", "/", "//", "a", "a.b", "a.b.c", ".a", ".a.b", "a.", "a..", "..a",
        "a.b/", "a.b/.", "a.b/./", "a.b/..", "a.b/c", "./a.B", "/a.b", "a.b//", "a.b/.//.",
        "a b.C d", ".x/..y", "..b", "a.\u{df}", "./", "./.", "x/..", "x/../y.Z",
    ] {
        let expected = std::path::Path::new(name)
            .extension()
            .and_then(|ext| ext.to_str())
            .map(|ext| ext.to_lowercase())
            .unwrap_or_else(|| "unknown".to_string());
        assert_eq!(get_file_extension(name), expected, "{:?}", name);
    }
}

#[test]
fn extensions_ignore_case() {
    for name in ["Song.MP3", "song.mp3", "SONG.Mp3", "x/SONG.mP3/."] {
        assert_eq!(get_file_extension(name), "mp3");
    }
}

#[test]
fn a_second_scan_finds_the_same() {
    let mut names = vec!["my song.MP3".to_string(), "b.txt".to_string()];
    let mut maps = Vec::new();
    for round in 0..2 {
        let mut scan = DirectoryScan::new();
        for (i, name) in names.iter_mut().enumerate() {
            let id = format!("id{}", i);
            let mut action = scan.step_with_id(found(name), id.clone(), None);
            if let ScanAction::Rename { to } = action {
                assert_eq!(round, 0);
                *name = to;
                action = scan.step_with_id(ScanEvent::Renamed { done: true }, id.clone(), None);
            }
            assert!(matches!(action, ScanAction::Measure { .. }));
            scan.step_with_id(ScanEvent::Measured { size: Some(3) }, id, None);
        }
        maps.push(scan.finish());
    }
    assert_eq!(maps[0].records().len(), 2);
    assert_eq!(format!("{:?}", maps[0]), format!("{:?}", maps[1]));
}

#[test]
fn files_are_described() {
    let address = "abcdef.onion";
    assert!(is_announceable(Some(address)));
    let info = describe_file("id7".to_string(), "song.MP3".to_string(), 1234, Some(address));
    assert_eq!(info.id, "id7");
    assert_eq!(info.name, "song.MP3");
    assert_eq!(info.file_type, "mp3");
    assert_eq!(info.size, 1234);
    assert_eq!(info.url, encrypt_url(address));
    assert_eq!(decrypt_url(&info.url), address);
}

#[test]
fn a_peer_without_address_announces_none() {
    assert!(is_announceable(None));
    let info = describe_file("id".to_string(), "x".to_string(), 0, None);
    assert_eq!(decrypt_url(&info.url), "N/A");
}

#[test]
fn changes_that_call_for_a_scan() {
    assert!(needs_rescan(WatchedChange::Create));
    assert!(needs_rescan(WatchedChange::Modify));
    assert!(needs_rescan(WatchedChange::Remove));
    assert!(!needs_rescan(WatchedChange::Access));
    assert!(!needs_rescan(WatchedChange::Any));
    assert!(!needs_rescan(WatchedChange::Other));
}

#[test]
fn a_file_is_measured_and_shared() {
    let mut scan = DirectoryScan::new();
    match scan.step(found("a.txt"), Some("x.onion")) {
        ScanAction::Measure { name } => assert_eq!(name, "a.txt"),
        other => panic!("{:?}", other),
    }
    let action = scan.step(ScanEvent::Measured { size: Some(42) }, Some("x.onion"));
    assert!(matches!(action, ScanAction::Next));
    let files = scan.finish();
    assert_eq!(files.records().len(), 1);
    let record = &files.records()[0];
    assert_eq!(record.key, record.info.id);
    assert_eq!(record.key.len(), 32);
    assert_eq!(record.info.name, "a.txt");
    assert_eq!(record.info.file_type, "txt");
    assert_eq!(record.info.size, 42);
    assert_eq!(decrypt_url(&record.info.url), "x.onion");
}

#[test]
fn a_file_with_spaces_is_renamed_first() {
    let mut scan = DirectoryScan::new();
    match scan.step_with_id(found("my old song.mp3"), "k1".to_string(), None) {
        ScanAction::Rename { to } => assert_eq!(to, "my_old_song.mp3"),
        other => panic!("{:?}", other),
    }
    match scan.step_with_id(ScanEvent::Renamed { done: true }, "k2".to_string(), None) {
        ScanAction::Measure { name } => assert_eq!(name, "my_old_song.mp3"),
        other => panic!("{:?}", other),
    }
    let last = scan.step_with_id(ScanEvent::Measured { size: Some(9) }, "k3".to_string(), None);
    assert!(matches!(last, ScanAction::Next));
    let files = scan.finish();
    let info = files.get("k3").unwrap();
    assert_eq!(info.name, "my_old_song.mp3");
    assert_eq!(info.id, "k3");
    assert!(files.get("k1").is_none());
    assert!(files.get("k2").is_none());
}

#[test]
fn what_cannot_be_shared_is_left_out() {
    let mut scan = DirectoryScan::new();
    let directory = ScanEvent::Found { name: "sub dir".to_string(), is_file: false };
    assert!(matches!(scan.step(directory, None), ScanAction::Next));
    assert!(matches!(scan.step(found("a b"), None), ScanAction::Rename { .. }));
    let failed = ScanEvent::Renamed { done: false };
    assert!(matches!(scan.step(failed, None), ScanAction::Next));
    assert!(matches!(scan.step(found("c"), None), ScanAction::Measure { .. }));
    let missing = ScanEvent::Measured { size: None };
    assert!(matches!(scan.step(missing, None), ScanAction::Next));
    assert!(scan.finish().records().is_empty());
}

#[test]
fn a_directory_is_scanned_file_by_file() {
    let mut scan = DirectoryScan::new();
    for (i, name) in ["b.txt", "a.bin", "c"].iter().enumerate() {
        scan.step_with_id(found(name), String::new(), Some("h.onion"));
        let measured = ScanEvent::Measured { size: Some(i as u64) };
        scan.step_with_id(measured, format!("id{}", i), Some("h.onion"));
    }
    let files = scan.finish();
    assert_eq!(files.records().len(), 3);
    for (i, name) in ["b.txt", "a.bin", "c"].iter().enumerate() {
        let info = files.get(&format!("id{}", i)).unwrap();
        assert_eq!(&info.name, name);
        assert_eq!(info.size, i as u64);
        assert!(!info.name.contains(' '));
        assert_eq!(decrypt_url(&info.url), "h.onion");
    }
}

#[test]
fn events_out_of_turn_change_nothing() {
    let mut scan = DirectoryScan::new();
    let renamed = ScanEvent::Renamed { done: true };
    assert!(matches!(scan.step(renamed, None), ScanAction::Next));
    let measured = ScanEvent::Measured { size: Some(1) };
    assert!(matches!(scan.step(measured, None), ScanAction::Next));
    scan.step(found("x y"), None);
    assert!(matches!(scan.step(found("z"), None), ScanAction::Next));
    match scan.step(ScanEvent::Renamed { done: true }, None) {
        ScanAction::Measure { name } => assert_eq!(name, "x_y"),
        other => panic!("{:?}", other),
    }
    assert!(scan.finish().records().is_empty());
}

#[test]
fn maps_hold_what_was_put_in_last() {
    let mut files = FileMap::new();
    assert!(files.get("a").is_none());
    files.insert("b".to_string(), info("b", "one"));
    files.insert("a".to_string(), info("a", "two"));
    files.insert("B".to_string(), info("B", "three"));
    files.insert("b".to_string(), info("b", "four"));
    assert_eq!(files.get("b").unwrap().name, "four");
    assert_eq!(files.get("a").unwrap().name, "two");
    assert_eq!(files.get("B").unwrap().name, "three");
    assert!(files.get("c").is_none());
    let keys: Vec<&str> = files.records().iter().map(|record| record.key.as_str()).collect();
    assert_eq!(keys, vec!["B", "a", "b"]);
}

#[test]
fn maps_agree_with_the_standard_library() {
    let mut files = FileMap::new();
    let mut expected = std::collections::BTreeMap::new();
    for i in 0..200u32 {
        let key = format!("{}", i * 37 % 101);
        files.insert(key.clone(), info(&key, &format!("n{}", i)));
        expected.insert(key, format!("n{}", i));
    }
    let copy = files.clone();
    assert_eq!(copy.records().len(), expected.len());
    for (record, (key, name)) in copy.records().iter().zip(expected.iter()) {
        assert_eq!(&record.key, key);
        assert_eq!(&record.info.name, name);
        assert_eq!(&files.get(key).unwrap().name, name);
    }
}
