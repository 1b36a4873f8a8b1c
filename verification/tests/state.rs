use reelcast::cache::MediaCache;
use reelcast::media::MediaFile;
use reelcast::sessions::SessionRegistry;

fn media(id: &str) -> MediaFile {
    MediaFile {
        id: id.to_string(),
        path: format!("/{}.mkv", id),
        title: id.to_string(),
        year: None,
        duration_secs: None,
        size_bytes: 0,
        container: None,
        video_codec: None,
        audio_codec: None,
        width: None,
        height: None,
    }
}

#[test]
fn cache_snapshot_after_set() {
    let mut cache = MediaCache::new();
    assert!(cache.is_empty());
    let before = cache.get();
    cache.set(vec![media("a"), media("b")]);
    let after = cache.get();
    assert_eq!(after.len(), 2);
    assert_eq!(after[1].id, "b");
    assert!(!cache.is_empty());
    assert!(before.is_empty());
    cache.set(vec![]);
    assert!(cache.is_empty());
    assert_eq!(after.len(), 2);
}

#[test]
fn sessions_register_list_and_expire() {
    let mut reg: SessionRegistry<u32> = SessionRegistry::new();
    reg.register("s1".to_string(), "10.0.0.5".to_string(), 7, 1000);
    let listed = reg.list(1010);
    assert_eq!(listed.len(), 1);
    assert_eq!(listed[0].session_id, "s1");
    assert_eq!(listed[0].client_ip, "10.0.0.5");
    assert_eq!(listed[0].media_id, None);
    assert_eq!(listed[0].last_seen, 1000);
    assert_eq!(reg.list(1030).len(), 1);
    assert_eq!(reg.list(1031).len(), 0);
    reg.heartbeat("s1", 1025);
    assert_eq!(reg.list(1055).len(), 1);
    assert_eq!(reg.sender("s1"), Some(&7));
    assert_eq!(reg.sender("nope"), None);
}

#[test]
fn sessions_media_updates_and_removal() {
    let mut reg: SessionRegistry<&str> = SessionRegistry::new();
    reg.register("a".to_string(), "ip-a".to_string(), "tx-a", 5);
    reg.register("b".to_string(), "ip-b".to_string(), "tx-b", 5);
    reg.update_media("a", "m1", "Alien", 8);
    reg.update_media("ghost", "m2", "X", 8);
    let mut listed = reg.list(10);
    listed.sort_by(|x, y| x.session_id.cmp(&y.session_id));
    assert_eq!(listed.len(), 2);
    assert_eq!(listed[0].media_id.as_deref(), Some("m1"));
    assert_eq!(listed[0].media_title.as_deref(), Some("Alien"));
    assert_eq!(listed[0].last_seen, 8);
    assert_eq!(listed[1].media_id, None);

    reg.register("a".to_string(), "ip-a2".to_string(), "tx-a2", 9);
    let listed = reg.list(10);
    assert_eq!(listed.len(), 2);
    assert_eq!(reg.sender("a"), Some(&"tx-a2"));

    reg.remove("a");
    assert_eq!(reg.sender("a"), None);
    let listed = reg.list(10);
    assert_eq!(listed.len(), 1);
    assert_eq!(listed[0].session_id, "b");
}

#[test]
fn sessions_near_the_epoch() {
    let mut reg: SessionRegistry<()> = SessionRegistry::new();
    reg.register("z".to_string(), "ip".to_string(), (), 0);
    assert_eq!(reg.list(20).len(), 1);
}
