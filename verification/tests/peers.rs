use artichoke::catalog::{
    destination_url, find_file, hash_not_found_text, resolve_download, upload_rows,
};
use artichoke::file_map::FileMap;
use artichoke::file_watcher::describe_file;
use artichoke::mqtt_sync::{announcement, FileEntry};
use artichoke::onion_client::plan_download;
use artichoke::onion_service::{
    judge_stream, keeps_waiting, service_step, ServiceAction, ServiceEvent, StreamRequest,
    StreamVerdict, NICKNAME, SERVICE_PORT, SHARED_DIRECTORY, STATIC_ROUTE,
};

fn entry(peer_id: &str, address: &str, files: &[(&str, &str, u64)]) -> FileEntry {
    let mut map = FileMap::new();
    for (id, name, size) in files {
        let info = describe_file(id.to_string(), name.to_string(), *size, Some(address));
        map.insert(id.to_string(), info);
    }
    announcement(peer_id, map)
}

fn entries() -> Vec<FileEntry> {
    vec![
        entry("p", "p.onion", &[("k2", "b.TXT", 7), ("k1", "a", 2_500_000)]),
        entry("q", "q.onion", &[]),
        entry("r", "r.onion", &[("k1", "other", 1), ("k3", "c.bin", 3)]),
    ]
}

#[test]
fn files_are_listed_peer_by_peer() {
    let rows: Vec<(String, String, String, u64)> = upload_rows(&entries())
        .into_iter()
        .map(|row| (row.hash, row.filename, row.file_type, row.size))
        .collect();
    let expected: Vec<(String, String, String, u64)> = [
        ("k1", "a", "unknown", 2_500_000),
        ("k2", "b.TXT", "txt", 7),
        ("k1", "other", "unknown", 1),
        ("k3", "c.bin", "bin", 3),
    ]
    .iter()
    .map(|row| (row.0.to_string(), row.1.to_string(), row.2.to_string(), row.3))
    .collect();
    assert_eq!(rows, expected);
}

#[test]
fn nothing_is_listed_without_peers() {
    assert!(upload_rows(&vec![]).is_empty());
    assert!(upload_rows(&vec![entry("q", "q.onion", &[])]).is_empty());
}

#[test]
fn every_file_is_listed() {
    let entries = entries();
    let rows = upload_rows(&entries);
    for entry in &entries {
        for record in entry.files.records() {
            assert!(rows.iter().any(|row| row.hash == record.key
                && row.filename == record.info.name));
        }
    }
}

#[test]
fn the_first_peer_that_has_a_file_is_asked() {
    let entries = entries();
    assert_eq!(find_file(&entries, "k1").unwrap().name, "a");
    assert_eq!(find_file(&entries, "k3").unwrap().name, "c.bin");
    assert!(find_file(&entries, "k4").is_none());
    assert!(find_file(&entries, "").is_none());
}

#[test]
fn shared_files_are_found_where_they_are_served() {
    let entries = entries();
    assert_eq!(resolve_download(&entries, "k1").unwrap(), "http://p.onion/static/a");
    assert_eq!(resolve_download(&entries, "k3").unwrap(), "http://r.onion/static/c.bin");
    assert!(resolve_download(&entries, "K1").is_none());
}

#[test]
fn an_address_that_does_not_open_is_named_as_such() {
    let mut map = FileMap::new();
    let mut info = describe_file("k".to_string(), "x".to_string(), 1, None);
    info.url = "garbage".to_string();
    map.insert("k".to_string(), info);
    let entries = vec![announcement("p", map)];
    assert_eq!(resolve_download(&entries, "k").unwrap(), "http://error_decrypting/static/x");
}

#[test]
fn an_announced_file_is_fetched_under_its_name() {
    let url = resolve_download(&entries(), "k2").unwrap();
    let plan = plan_download(&url).unwrap();
    assert_eq!(plan.host, "p.onion");
    assert_eq!(plan.port, 80);
    assert_eq!(plan.target, "/static/b.TXT");
    assert_eq!(plan.file_name, "b.TXT");
}

#[test]
fn texts_about_files() {
    assert_eq!(destination_url("h.onion", "a_b"), "http://h.onion/static/a_b");
    assert_eq!(hash_not_found_text("x1"), "Hash 'x1' not found.");
}

#[test]
fn only_the_service_port_is_served() {
    assert_eq!(judge_stream(StreamRequest::Begin { port: 80 }), StreamVerdict::Serve);
    assert_eq!(SERVICE_PORT, 80);
    assert_eq!(judge_stream(StreamRequest::Begin { port: 81 }), StreamVerdict::ShutDownCircuit);
    assert_eq!(judge_stream(StreamRequest::Begin { port: 0 }), StreamVerdict::ShutDownCircuit);
    assert_eq!(judge_stream(StreamRequest::Other), StreamVerdict::ShutDownCircuit);
}

#[test]
fn the_service_is_awaited_until_reachable() {
    assert!(keeps_waiting(Some(false)));
    assert!(!keeps_waiting(Some(true)));
    assert!(!keeps_waiting(None));
}

#[test]
fn the_service_runs_until_it_is_told_to_stop() {
    assert_eq!(service_step(ServiceEvent::Requested), ServiceAction::Handle);
    assert_eq!(service_step(ServiceEvent::Ended), ServiceAction::Stop);
    assert_eq!(service_step(ServiceEvent::ShutdownSignal), ServiceAction::SayAndStop);
}

#[test]
fn the_service_has_its_names() {
    assert_eq!(NICKNAME, "orange-electron");
    assert_eq!(SHARED_DIRECTORY, "shared_files");
    assert_eq!(STATIC_ROUTE, "/static");
}
