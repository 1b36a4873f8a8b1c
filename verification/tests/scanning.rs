use std::hash::{Hash, Hasher};
use reelcast::scanner::{
    has_media_extension, is_media_extension, media_from_probe, probe_record, stable_id,
    stable_id_from_hash, title_from_path,
    year_from_title, FfprobeFormat, FfprobeOutput, FfprobeStream,
};

#[test]
fn media_extensions() {
    for e in ["mkv", "mp4", "avi", "mov", "m4v", "wmv", "flv", "webm", "ts", "m2ts"] {
        assert!(is_media_extension(e));
    }
    for e in ["MKV", "txt", "srt", "", "mp3"] {
        assert!(!is_media_extension(e));
    }
}

#[test]
fn media_extension_of_paths_ignores_case() {
    assert!(has_media_extension("/films/Alien.MKV"));
    assert!(has_media_extension("clip.Mp4"));
    assert!(!has_media_extension("notes.txt"));
    assert!(!has_media_extension("mkv"));
    assert!(!has_media_extension(".mkv"));
    assert!(has_media_extension("dir.mkv/"));
}

#[test]
fn titles_from_file_names() {
    assert_eq!(title_from_path("/films/The.Matrix.1999.mkv"), "The Matrix 1999");
    assert_eq!(title_from_path("some_show-s01e02.mp4"), "some show s01e02");
    assert_eq!(title_from_path("  spaced .avi"), "spaced");
    assert_eq!(title_from_path("/"), "Unknown");
    assert_eq!(title_from_path("_.mkv"), "");
}

#[test]
fn years_match_the_regex() {
    let re = regex_lite::Regex::new(r"\b(19\d{2}|20\d{2})\b").unwrap();
    let cases = [
        "The Matrix 1999",
        "Blade Runner 2049 (2017)",
        "x1999",
        "1999x",
        "a 2100 b 1899 c",
        "é2001é",
        "_2001",
        "2001",
        "20011",
        "12001 2002",
        "",
        "Movie (2010) 1080p",
        "19999 1950",
    ];
    for c in cases {
        let expected: Option<i64> = re.find(c).and_then(|m| m.as_str().parse().ok());
        assert_eq!(year_from_title(c), expected, "year of {:?}", c);
    }
}

#[test]
fn stable_ids_are_uuid_shaped() {
    assert_eq!(stable_id_from_hash(0), "00000000-0000-0000-0000-000000000000");
    let n: u64 = 0x0123_4567_89ab_cdef;
    let low = n.wrapping_mul(0x9e3779b97f4a7c15);
    let expected = uuid::Uuid::from_u64_pair(n, low).to_string();
    assert_eq!(stable_id_from_hash(n), expected);
    assert!(stable_id_from_hash(n).starts_with("01234567-89ab-cdef-"));
    assert_eq!(stable_id_from_hash(n), stable_id_from_hash(n));
}

fn stream(kind: &str, codec: &str, w: Option<i64>, h: Option<i64>) -> FfprobeStream {
    FfprobeStream {
        codec_type: Some(kind.to_string()),
        codec_name: Some(codec.to_string()),
        width: w,
        height: h,
    }
}

#[test]
fn media_record_from_probe() {
    let probe = FfprobeOutput {
        streams: vec![
            stream("audio", "aac", None, None),
            stream("video", "hevc", Some(3840), Some(2160)),
            stream("video", "mjpeg", Some(100), Some(100)),
            stream("audio", "ac3", None, None),
        ],
        format: FfprobeFormat {
            duration: Some("5400.5".to_string()),
            format_name: Some("matroska,webm".to_string()),
        },
    };
    let m = media_from_probe("/films/Dune.2021.mkv", 42, 123456, Some(5400), &probe);
    assert_eq!(m.id, stable_id_from_hash(42));
    assert_eq!(m.path, "/films/Dune.2021.mkv");
    assert_eq!(m.title, "Dune 2021");
    assert_eq!(m.year, Some(2021));
    assert_eq!(m.duration_secs, Some(5400));
    assert_eq!(m.size_bytes, 123456);
    assert_eq!(m.container.as_deref(), Some("matroska"));
    assert_eq!(m.video_codec.as_deref(), Some("hevc"));
    assert_eq!(m.audio_codec.as_deref(), Some("aac"));
    assert_eq!(m.width, Some(3840));
    assert_eq!(m.height, Some(2160));
}

#[test]
fn media_record_without_streams() {
    let probe = FfprobeOutput {
        streams: vec![],
        format: FfprobeFormat { duration: None, format_name: None },
    };
    let m = media_from_probe("clip.ts", 1, 0, None, &probe);
    assert_eq!(m.title, "clip");
    assert_eq!(m.year, None);
    assert_eq!(m.container, None);
    assert_eq!(m.video_codec, None);
    assert_eq!(m.audio_codec, None);
    assert_eq!(m.width, None);
}

fn std_path_hash(p: &str) -> u64 {
    let mut h = std::collections::hash_map::DefaultHasher::new();
    std::path::Path::new(p).hash(&mut h);
    h.finish()
}

#[test]
fn stable_ids_from_paths() {
    let p = "/films/Alien.1979.mkv";
    assert_eq!(stable_id(p), stable_id_from_hash(std_path_hash(p)));
    assert_eq!(stable_id(p), stable_id(p));
    assert_ne!(stable_id(p), stable_id("/films/Aliens.1986.mkv"));
    assert_eq!(stable_id(p).len(), 36);
}

#[test]
fn probe_record_hashes_the_path() {
    let probe = FfprobeOutput {
        streams: vec![stream("video", "h264", Some(640), Some(480))],
        format: FfprobeFormat { duration: None, format_name: Some("mov,mp4,m4a".to_string()) },
    };
    let p = "/tv/Show_S01.mp4";
    let m = probe_record(p, 5, Some(3), &probe);
    assert_eq!(m.id, stable_id(p));
    assert_eq!(m.title, "Show S01");
    assert_eq!(m.container.as_deref(), Some("mov"));
    assert_eq!(m.width, Some(640));
}
