use reelcast::media::MediaFile;
use reelcast::vlc::{encode_path, escape_xml, m3u_single, xspf};

fn media(id: &str, title: &str, duration: Option<i64>) -> MediaFile {
    MediaFile {
        id: id.to_string(),
        path: format!("/films/{}.mkv", title),
        title: title.to_string(),
        year: None,
        duration_secs: duration,
        size_bytes: 1000,
        container: Some("matroska".to_string()),
        video_codec: Some("h264".to_string()),
        audio_codec: Some("aac".to_string()),
        width: Some(1920),
        height: Some(1080),
    }
}

#[test]
fn xspf_single_track() {
    let m = media("abc", "Tom & Jerry <1>", Some(90));
    let out = xspf(&[m], "http://192.168.1.10:3000");
    let expected = "<?xml version=\"1.0\" encoding=\"UTF-8\"?>\n<playlist xmlns=\"http://xspf.org/ns/0/\" version=\"1\">\n  <trackList>\n    <track>\n      <location>http://192.168.1.10:3000/file/abc</location>\n      <title>Tom &amp; Jerry &lt;1&gt;</title>\n      <duration>90000</duration>\n    </track>\n  </trackList>\n</playlist>";
    assert_eq!(out, expected);
}

#[test]
fn xspf_tracks_joined_by_newlines() {
    let a = media("a", "A", None);
    let b = media("b", "B", Some(1));
    let out = xspf(&[a, b], "http://h:1");
    assert!(out.contains("<duration>0</duration>\n    </track>\n    <track>\n      <location>http://h:1/file/b</location>"));
    assert!(out.contains("<duration>1000</duration>"));
}

#[test]
fn xspf_empty_playlist() {
    let out = xspf(&[], "http://h:1");
    assert_eq!(out, "<?xml version=\"1.0\" encoding=\"UTF-8\"?>\n<playlist xmlns=\"http://xspf.org/ns/0/\" version=\"1\">\n  <trackList>\n\n  </trackList>\n</playlist>");
}

#[test]
fn m3u_with_and_without_duration() {
    let m = media("id1", "Movie", Some(5400));
    assert_eq!(m3u_single(&m, "http://h:3000"), "#EXTM3U\n#EXTINF:5400,Movie\nhttp://h:3000/file/id1\n");
    let n = media("id2", "Clip", None);
    assert_eq!(m3u_single(&n, "http://h:3000"), "#EXTM3U\n#EXTINF:-1,Clip\nhttp://h:3000/file/id2\n");
}

#[test]
fn xml_escaping_of_all_five_characters() {
    assert_eq!(escape_xml("a&b<c>d\"e'f"), "a&amp;b&lt;c&gt;d&quot;e&apos;f");
    assert_eq!(escape_xml("plain"), "plain");
    assert_eq!(escape_xml("&amp;"), "&amp;amp;");
}

#[test]
fn path_encoding_escapes_everything_but_letters_and_digits() {
    assert_eq!(encode_path("foo bar?"), "foo%20bar%3F");
    assert_eq!(encode_path("The.Matrix-1999_x"), "The%2EMatrix%2D1999%5Fx");
    assert_eq!(encode_path("é/ü"), "%C3%A9%2F%C3%BC");
    assert_eq!(encode_path(""), "");
}

#[test]
fn escaping_equals_successive_replacements() {
    for t in ["", "a&b", "<&>", "\"'&amp;'\"", "&lt;", "plain text", "é & ü"] {
        let chained = t
            .replace('&', "&amp;")
            .replace('<', "&lt;")
            .replace('>', "&gt;")
            .replace('"', "&quot;")
            .replace('\'', "&apos;");
        assert_eq!(escape_xml(t), chained);
    }
}

fn unescape(t: &str) -> String {
    let mut out = String::new();
    let mut rest = t;
    while let Some(c) = rest.chars().next() {
        let mut hit = false;
        for (e, ch) in [("&amp;", '&'), ("&lt;", '<'), ("&gt;", '>'), ("&quot;", '"'), ("&apos;", '\'')] {
            if rest.starts_with(e) {
                out.push(ch);
                rest = &rest[e.len()..];
                hit = true;
                break;
            }
        }
        if !hit {
            out.push(c);
            rest = &rest[c.len_utf8()..];
        }
    }
    out
}

fn percent_decode(t: &str) -> Vec<u8> {
    let b = t.as_bytes();
    let mut out = Vec::new();
    let mut i = 0;
    while i < b.len() {
        if b[i] == b'%' && i + 2 < b.len() && (b[i + 1] as char).is_ascii_hexdigit() && (b[i + 2] as char).is_ascii_hexdigit() {
            out.push(u8::from_str_radix(&t[i + 1..i + 3], 16).unwrap());
            i += 3;
        } else {
            out.push(b[i]);
            i += 1;
        }
    }
    out
}

#[test]
fn unescaping_restores_the_text() {
    for t in ["", "a&b", "&amp;", "<tag attr=\"v\">it's</tag>", "é&ü", "&&&;"] {
        let e = escape_xml(t);
        assert_eq!(unescape(&e), t);
        for (i, c) in e.char_indices() {
            if c == '&' {
                let tail = &e[i..];
                assert!(["&amp;", "&lt;", "&gt;", "&quot;", "&apos;"].iter().any(|x| tail.starts_with(x)));
            }
        }
    }
    assert_eq!(escape_xml("Plain Title 2001"), "Plain Title 2001");
}

#[test]
fn percent_decoding_restores_the_path() {
    assert_eq!(encode_path("/m/My Movie.mkv"), "%2Fm%2FMy%20Movie%2Emkv");
    for p in ["/m/My Movie.mkv", "", "é/ü ∑ 🎬", "100%", "a+b=c"] {
        let e = encode_path(p);
        assert!(e.chars().all(|c| c.is_ascii_alphanumeric() || c == '%'));
        assert_eq!(String::from_utf8(percent_decode(&e)).unwrap(), p);
    }
}
