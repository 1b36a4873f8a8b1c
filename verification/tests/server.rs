use reelcast::config::Config;
use reelcast::error::ReelcastError;
use reelcast::media::{MediaFile, PlayHistory};
use reelcast::qr::{svg_for_url, try_svg_for_url};
use reelcast::serve::{
    base_url, file_base_url, find_media, m3u_disposition, media_items, recent_items,
    search_items, title_matches, xspf_disposition, MediaItem, media_or_not_found, cert_to_serve,
    title_like_pattern,
};

fn config(tls: bool) -> Config {
    Config {
        library: vec!["/films".to_string()],
        port: 3000,
        host: "0.0.0.0".to_string(),
        db: "reelcast.db".to_string(),
        scan_on_start: true,
        log_level: "info".to_string(),
        media_port: 3001,
        cert: if tls { Some("/c/cert.pem".to_string()) } else { None },
        key: if tls { Some("/c/key.pem".to_string()) } else { None },
    }
}

fn media(id: &str, title: &str, path: &str) -> MediaFile {
    MediaFile {
        id: id.to_string(),
        path: path.to_string(),
        title: title.to_string(),
        year: Some(1999),
        duration_secs: Some(60),
        size_bytes: 10,
        container: Some("mp4".to_string()),
        video_codec: None,
        audio_codec: None,
        width: Some(1280),
        height: Some(720),
    }
}

#[test]
fn tls_switches_scheme() {
    let plain = config(false);
    assert!(!plain.tls_enabled());
    assert_eq!(plain.scheme(), "http");
    let secure = config(true);
    assert!(secure.tls_enabled());
    assert_eq!(secure.scheme(), "https");
    let mut half = config(false);
    half.cert = Some("c.pem".to_string());
    assert!(!half.tls_enabled());
}

#[test]
fn tls_detection_and_resolution() {
    let mut c = config(false);
    let paths = c.tls_detection_paths(Some("/home/u/.config"));
    assert_eq!(
        paths,
        Some(("/home/u/.config/reelcast/cert.pem".to_string(), "/home/u/.config/reelcast/key.pem".to_string()))
    );
    assert_eq!(
        c.tls_detection_paths(None),
        Some(("~/.config/reelcast/cert.pem".to_string(), "~/.config/reelcast/key.pem".to_string()))
    );
    c.resolve_tls(None);
    assert!(!c.tls_enabled());
    c.resolve_tls(paths);
    assert!(c.tls_enabled());
    assert_eq!(c.cert.as_deref(), Some("/home/u/.config/reelcast/cert.pem"));

    let mut explicit = config(false);
    explicit.cert = Some("mine.pem".to_string());
    assert_eq!(explicit.tls_detection_paths(Some("/x")), None);
    explicit.resolve_tls(Some(("a".to_string(), "b".to_string())));
    assert_eq!(explicit.cert.as_deref(), Some("mine.pem"));
    assert_eq!(explicit.key, None);
}

#[test]
fn base_urls() {
    let plain = config(false);
    assert_eq!(base_url(&plain, Some("192.168.1.10")), "http://192.168.1.10:3000");
    assert_eq!(base_url(&plain, None), "http://0.0.0.0:3000");
    assert_eq!(file_base_url(&plain, Some("10.0.0.2")), "http://10.0.0.2:3000");
    let secure = config(true);
    assert_eq!(base_url(&secure, Some("10.0.0.2")), "https://10.0.0.2:3000");
    assert_eq!(file_base_url(&secure, Some("10.0.0.2")), "http://10.0.0.2:3001");
}

#[test]
fn media_item_urls() {
    let m = media("id7", "The Matrix", "/films/The.Matrix.1999.mp4");
    let item = MediaItem::from_media(&m, "https://h:3000", "http://h:3001");
    assert_eq!(item.file_url, "http://h:3001/file/id7/The%20Matrix.mp4");
    assert_eq!(item.play_url, "https://h:3000/play/id7");
    assert_eq!(item.playlist_url, "https://h:3000/playlist/id7");
    assert_eq!(item.resolution.as_deref(), Some("1280x720"));
    assert_eq!(item.id, "id7");
    assert_eq!(item.title, "The Matrix");
    assert_eq!(item.year, Some(1999));
    assert_eq!(item.container.as_deref(), Some("mp4"));

    let mut bare = media("x", "Bare", "/films/bare");
    bare.width = None;
    let item = MediaItem::from_media(&bare, "b", "f");
    assert_eq!(item.file_url, "f/file/x/Bare.mkv");
    assert_eq!(item.resolution, None);
}

#[test]
fn list_and_search() {
    let files = vec![
        media("1", "The Matrix", "/a.mkv"),
        media("2", "Alien", "/b.mkv"),
        media("3", "Matrix Reloaded", "/c.mkv"),
    ];
    let all = media_items(&files, "b", "f");
    assert_eq!(all.len(), 3);
    assert_eq!(all[2].id, "3");

    let found = search_items(&files, Some("MATRIX"), "b", "f");
    let ids: Vec<&str> = found.iter().map(|i| i.id.as_str()).collect();
    assert_eq!(ids, vec!["1", "3"]);

    assert_eq!(search_items(&files, Some(""), "b", "f").len(), 3);
    assert_eq!(search_items(&files, None, "b", "f").len(), 3);
    assert_eq!(search_items(&files, Some("zzz"), "b", "f").len(), 0);
    assert!(title_matches("the matrix", "matrix"));
    assert!(!title_matches("the matrix", "Matrix"));
}

#[test]
fn recent_plays_items() {
    let plays = vec![PlayHistory { media_id: "m1".to_string(), title: "A B".to_string(), played_at: 99 }];
    let items = recent_items(&plays, "https://h:3000", "http://h:3001");
    assert_eq!(items.len(), 1);
    assert_eq!(items[0].file_url, "http://h:3001/file/m1/A%20B");
    assert_eq!(items[0].play_url, "https://h:3000/play/m1");
    assert_eq!(items[0].played_at, 99);
}

#[test]
fn lookup_by_id() {
    let files = vec![media("1", "A", "/a"), media("2", "B", "/b"), media("2", "C", "/c")];
    assert_eq!(find_media(&files, "2").map(|m| m.title), Some("B".to_string()));
    assert!(find_media(&files, "9").is_none());
}

#[test]
fn playlist_download_names() {
    assert_eq!(xspf_disposition("Alien"), "attachment; filename=\"Alien.xspf\"");
    assert_eq!(m3u_disposition("Alien"), "attachment; filename=\"Alien.m3u\"");
}

#[test]
fn error_messages_and_statuses() {
    let e = ReelcastError::MediaNotFound { id: "abc".to_string() };
    assert_eq!(e.message(), "Media file not found: abc");
    assert_eq!(e.status_code(), 404);
    let e = ReelcastError::Ffprobe { path: "/x".to_string(), reason: "boom".to_string() };
    assert_eq!(e.message(), "FFprobe failed for /x: boom");
    assert_eq!(e.status_code(), 500);
    assert_eq!(ReelcastError::Scanner("No cert configured".to_string()).message(), "Scanner error: No cert configured");
    assert_eq!(ReelcastError::Db("locked".to_string()).message(), "Database error: locked");
    assert_eq!(ReelcastError::Migration("m".to_string()).message(), "Database migration error: m");
    assert_eq!(ReelcastError::Io("io".to_string()).status_code(), 500);
}

#[test]
fn qr_codes() {
    let svg = svg_for_url("http://192.168.1.10:3000");
    assert!(svg.starts_with("<?xml"));
    assert!(svg.contains("<svg"));
    assert_eq!(try_svg_for_url("http://192.168.1.10:3000"), Some(svg));
    let huge = "x".repeat(10_000);
    assert_eq!(try_svg_for_url(&huge), None);
}

#[test]
fn lookup_results_and_certificates() {
    let m = media("5", "E", "/e");
    assert_eq!(media_or_not_found(Some(m), "5").ok().map(|m| m.id), Some("5".to_string()));
    match media_or_not_found(None, "77") {
        Err(ReelcastError::MediaNotFound { id }) => assert_eq!(id, "77"),
        other => panic!("unexpected {:?}", other),
    }
    assert_eq!(cert_to_serve(&config(true)).ok(), Some("/c/cert.pem".to_string()));
    match cert_to_serve(&config(false)) {
        Err(e) => assert_eq!(e.message(), "Scanner error: No cert configured"),
        Ok(c) => panic!("unexpected {}", c),
    }
    assert_eq!(title_like_pattern("matrix"), "%matrix%");
}
