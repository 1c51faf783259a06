use artichoke::file_map::FileMap;
use artichoke::file_watcher::describe_file;
use artichoke::mqtt_sync::{
    announcement, identity_of, new_identity, FileEntry, PeerRegistry, BROKER_HOST, BROKER_PORT,
    GLOBAL_MAP_FILE, KEEP_ALIVE_SECS, LOCAL_MAP_FILE, METADATA_TOPIC, PUBLISH_INTERVAL_SECS,
    REPLY_WAIT_SECS, REQUEST_QUEUE_LEN,
};
use artichoke::sync_loop::{is_retained, SyncAction, SyncEvent, SyncState};

fn entry(peer_id: &str, ids: &[&str]) -> FileEntry {
    let mut files = FileMap::new();
    for id in ids {
        files.insert(id.to_string(), describe_file(id.to_string(), format!("f{}", id), 1, None));
    }
    announcement(peer_id, files)
}

fn peers(registry: &PeerRegistry) -> Vec<String> {
    registry.entries_except("").iter().map(|entry| entry.peer_id.clone()).collect()
}

fn tick(bytes: &[u8]) -> SyncEvent {
    SyncEvent::Tick { file_map: Some(bytes.to_vec()) }
}

#[test]
fn identities_are_random_uuids() {
    let identity = new_identity();
    let id = identity.peer_id.as_bytes();
    assert_eq!(id.len(), 36);
    for (i, byte) in id.iter().enumerate() {
        if i == 8 || i == 13 || i == 18 || i == 23 {
            assert_eq!(*byte, b'-');
        } else {
            assert!(byte.is_ascii_digit() || (b'a'..=b'f').contains(byte));
        }
    }
    assert_eq!(id[14], b'4');
    assert!(b"89ab".contains(&id[19]));
    assert_eq!(identity.client_id, format!("peer-{}", identity.peer_id));
    assert_ne!(identity.peer_id, new_identity().peer_id);
}

#[test]
fn the_broker_knows_a_peer_by_its_identifier() {
    let identity = identity_of("1234".to_string());
    assert_eq!(identity.peer_id, "1234");
    assert_eq!(identity.client_id, "peer-1234");
}

#[test]
fn where_peers_meet() {
    assert_eq!(BROKER_HOST, "test.mosquitto.org");
    assert_eq!(BROKER_PORT, 1883);
    assert_eq!(METADATA_TOPIC, "artichoke_file_metadata/rumqtt");
    assert_eq!(LOCAL_MAP_FILE, "local_file_map.json");
    assert_eq!(GLOBAL_MAP_FILE, "global_file_map.json");
    assert_eq!(KEEP_ALIVE_SECS, 30);
    assert_eq!(REQUEST_QUEUE_LEN, 10);
    assert_eq!(PUBLISH_INTERVAL_SECS, 5);
    assert_eq!(REPLY_WAIT_SECS, 3);
}

#[test]
fn announcements_name_their_peer_and_files() {
    let own = entry("me", &["a", "b"]);
    assert_eq!(own.peer_id, "me");
    assert_eq!(own.files.records().len(), 2);
    assert_eq!(own.files.get("a").unwrap().name, "fa");
    let copy = own.clone();
    assert_eq!(copy.peer_id, "me");
    assert_eq!(copy.files.get("b").unwrap().name, "fb");
}

#[test]
fn a_registry_keeps_the_last_announcement_of_each_peer() {
    let mut registry = PeerRegistry::new();
    registry.store(entry("p", &["1"]));
    registry.store(entry("q", &["2"]));
    registry.store(entry("p", &["3", "4"]));
    assert_eq!(peers(&registry), vec!["p", "q"]);
    let entries = registry.entries_except("");
    assert_eq!(entries[0].files.records().len(), 2);
    assert!(entries[0].files.get("1").is_none());
    assert!(entries[0].files.get("3").is_some());
    assert!(entries[1].files.get("2").is_some());
}

#[test]
fn hearing_the_same_announcement_again_changes_nothing() {
    let mut registry = PeerRegistry::new();
    registry.store(entry("p", &["1"]));
    registry.store(entry("q", &[]));
    registry.store(entry("q", &[]));
    assert_eq!(peers(&registry), vec!["p", "q"]);
}

#[test]
fn a_registry_leaves_out_the_asker() {
    let mut registry = PeerRegistry::new();
    for peer in ["p", "q", "r"] {
        registry.store(entry(peer, &[]));
    }
    let ids: Vec<String> =
        registry.entries_except("q").iter().map(|entry| entry.peer_id.clone()).collect();
    assert_eq!(ids, vec!["p", "r"]);
    assert_eq!(registry.entries_except("").len(), 3);
}

#[test]
fn other_peers_are_stored_and_answered() {
    let mut state = SyncState::new("me".to_string());
    let mut registry = PeerRegistry::new();
    let heard = SyncEvent::Announced { entry: entry("p", &["1"]) };
    assert_eq!(state.step(&mut registry, heard), SyncAction::Reply);
    assert_eq!(peers(&registry), vec!["p"]);
}

#[test]
fn own_announcements_are_passed_over() {
    let mut state = SyncState::new("me".to_string());
    let mut registry = PeerRegistry::new();
    let own = SyncEvent::Announced { entry: entry("me", &["1"]) };
    assert_eq!(state.step(&mut registry, own), SyncAction::Wait);
    assert_eq!(state.step(&mut registry, SyncEvent::OtherTraffic), SyncAction::Wait);
    assert!(peers(&registry).is_empty());
}

#[test]
fn everything_heard_is_listed() {
    let mut state = SyncState::new("me".to_string());
    let mut registry = PeerRegistry::new();
    for peer in ["p", "me", "q", "p"] {
        state.step(&mut registry, SyncEvent::Announced { entry: entry(peer, &[]) });
    }
    assert_eq!(registry.entries_except("me").len(), 2);
    assert_eq!(peers(&registry), vec!["p", "q"]);
}

#[test]
fn a_change_is_announced_once() {
    let mut state = SyncState::new("me".to_string());
    let mut registry = PeerRegistry::new();
    assert_eq!(state.step(&mut registry, tick(b"{}")), SyncAction::Announce);
    let published = SyncEvent::Published { done: true };
    assert_eq!(state.step(&mut registry, published), SyncAction::Wait);
    assert_eq!(state.step(&mut registry, tick(b"{}")), SyncAction::Wait);
    assert_eq!(state.step(&mut registry, tick(b"{ }")), SyncAction::Announce);
    state.step(&mut registry, SyncEvent::Published { done: true });
    assert_eq!(state.step(&mut registry, tick(b"{}")), SyncAction::Announce);
}

#[test]
fn a_failed_announcement_is_tried_again() {
    let mut state = SyncState::new("me".to_string());
    let mut registry = PeerRegistry::new();
    assert_eq!(state.step(&mut registry, tick(b"x")), SyncAction::Announce);
    state.step(&mut registry, SyncEvent::Published { done: false });
    assert_eq!(state.step(&mut registry, tick(b"x")), SyncAction::Announce);
}

#[test]
fn an_unreadable_map_is_not_announced() {
    let mut state = SyncState::new("me".to_string());
    let mut registry = PeerRegistry::new();
    let unreadable = SyncEvent::Tick { file_map: None };
    assert_eq!(state.step(&mut registry, unreadable), SyncAction::Wait);
    assert_eq!(state.step(&mut registry, tick(b"")), SyncAction::Announce);
}

#[test]
fn answers_do_not_count_as_announcements() {
    let mut state = SyncState::new("me".to_string());
    let mut registry = PeerRegistry::new();
    let heard = SyncEvent::Announced { entry: entry("p", &[]) };
    assert_eq!(state.step(&mut registry, heard), SyncAction::Reply);
    state.step(&mut registry, SyncEvent::Published { done: true });
    assert_eq!(state.step(&mut registry, tick(b"x")), SyncAction::Announce);
}

#[test]
fn only_changes_are_retained() {
    assert!(is_retained(SyncAction::Announce));
    assert!(!is_retained(SyncAction::Reply));
    assert!(!is_retained(SyncAction::Wait));
}

#[test]
fn an_empty_registry_lists_nothing() {
    assert!(PeerRegistry::new().entries_except("").is_empty());
}

#[test]
fn peers_stay_distinct() {
    let mut state = SyncState::new("me".to_string());
    let mut registry = PeerRegistry::new();
    for peer in ["p", "q", "p", "r", "q", "p", "me", "r"] {
        state.step(&mut registry, SyncEvent::Announced { entry: entry(peer, &[]) });
        state.step(&mut registry, tick(peer.as_bytes()));
    }
    assert_eq!(peers(&registry), vec!["p", "q", "r"]);
}
