use p2p_chat::directory::PeerDirectory;
use p2p_chat::ident::PeerId;

fn peer(b: u8) -> PeerId {
    PeerId::from_bytes(vec![b; 32]).unwrap()
}

#[test]
fn observe_reports_first_sighting_only_once() {
    let mut dir = PeerDirectory::new();
    let first = dir.observe_about_me(&peer(1), "bob".to_string());
    assert!(first);
    let again = dir.observe_about_me(&peer(1), "bob".to_string());
    assert!(!again);
    assert_eq!(dir.resolve(&peer(1)), "bob");
}

#[test]
fn observe_twice_leaves_resolution_unchanged() {
    let mut dir = PeerDirectory::new();
    dir.observe_about_me(&peer(1), "bob".to_string());
    let before = dir.resolve(&peer(1));
    dir.observe_about_me(&peer(1), "bob".to_string());
    assert_eq!(dir.resolve(&peer(1)), before);
    assert_eq!(dir.len(), 1);
}

#[test]
fn observe_overwrites_the_name() {
    let mut dir = PeerDirectory::new();
    dir.observe_about_me(&peer(1), "bob".to_string());
    let first = dir.observe_about_me(&peer(1), "robert".to_string());
    assert!(!first);
    assert_eq!(dir.resolve(&peer(1)), "robert");
    assert_eq!(dir.len(), 1);
}

#[test]
fn resolve_falls_back_to_short_identity() {
    let dir = PeerDirectory::new();
    let id = PeerId::from_bytes({
        let mut v = vec![0u8; 32];
        v[0] = 0xDE;
        v[1] = 0xAD;
        v[2] = 0xBE;
        v[3] = 0xEF;
        v
    })
    .unwrap();
    assert_eq!(dir.resolve(&id), "User-deadbeef");
}

#[test]
fn forget_removes_only_the_named_peer() {
    let mut dir = PeerDirectory::new();
    dir.observe_about_me(&peer(1), "alice".to_string());
    dir.observe_about_me(&peer(2), "bob".to_string());
    dir.forget(&peer(1));
    assert_eq!(dir.len(), 1);
    assert_eq!(dir.resolve(&peer(2)), "bob");
    assert_ne!(dir.resolve(&peer(1)), "alice");
    // Forgetting an absent peer changes nothing.
    dir.forget(&peer(9));
    assert_eq!(dir.len(), 1);
}

#[test]
fn clear_empties_the_directory() {
    let mut dir = PeerDirectory::new();
    dir.observe_about_me(&peer(1), "alice".to_string());
    dir.observe_about_me(&peer(2), "bob".to_string());
    dir.clear();
    assert_eq!(dir.len(), 0);
}

#[test]
fn names_lists_every_stored_name() {
    let mut dir = PeerDirectory::new();
    dir.observe_about_me(&peer(1), "carol".to_string());
    dir.observe_about_me(&peer(2), "alice".to_string());
    let names = dir.names();
    assert_eq!(names.len(), 2);
    assert!(names.contains(&"carol".to_string()));
    assert!(names.contains(&"alice".to_string()));
}
