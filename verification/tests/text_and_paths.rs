use reelcast::paths::{join_path, path_extension, path_file_name, path_file_stem};
use reelcast::text::{chars_of, contains_chars, push_i64, push_u64, string_of, trim_chars};
use std::path::Path;

fn chars(s: &str) -> Vec<char> {
    chars_of(s)
}

fn opt_string(o: Option<Vec<char>>) -> Option<String> {
    o.map(|v| string_of(&v))
}

#[test]
fn decimal_rendering_matches_display() {
    for v in [0i64, 7, 10, 42, -1, -42, 1000, 123456789, i64::MAX, i64::MIN] {
        let mut s = String::new();
        push_i64(&mut s, v);
        assert_eq!(s, v.to_string());
    }
    let mut s = String::from("port ");
    push_u64(&mut s, 3000);
    assert_eq!(s, "port 3000");
}

#[test]
fn trim_removes_unicode_white_space() {
    let cases = ["  a b  ", "\u{3000}x\u{a0}", "\t\n", "", "x", " \u{2009}mid dle\u{85} "];
    for c in cases {
        assert_eq!(string_of(&trim_chars(&chars(c))), c.trim());
    }
}

#[test]
fn substring_search() {
    assert!(contains_chars(&chars("the matrix"), &chars("matrix")));
    assert!(contains_chars(&chars("abc"), &chars("")));
    assert!(!contains_chars(&chars("abc"), &chars("abcd")));
    assert!(!contains_chars(&chars("abc"), &chars("ac")));
}

#[test]
fn file_name_parts_follow_std_path() {
    let cases = [
        "movie.mkv",
        "/media/films/The.Matrix.1999.mkv",
        "dir/archive.tar.gz",
        ".hidden",
        ".hidden.mp4",
        "file.",
        "noext",
        "a/b/",
        "a/b/.",
        "a/..",
        "..",
        ".",
        "./",
        "/",
        "",
        "//x//",
        "a/./b",
        "...",
        "x/.../",
        "C:weird.mov",
    ];
    for c in cases {
        let p = Path::new(c);
        let std_name = p.file_name().map(|s| s.to_str().unwrap().to_string());
        let std_stem = p.file_stem().map(|s| s.to_str().unwrap().to_string());
        let std_ext = p.extension().map(|s| s.to_str().unwrap().to_string());
        assert_eq!(opt_string(path_file_name(&chars(c))), std_name, "file_name of {:?}", c);
        assert_eq!(opt_string(path_file_stem(&chars(c))), std_stem, "file_stem of {:?}", c);
        assert_eq!(opt_string(path_extension(&chars(c))), std_ext, "extension of {:?}", c);
    }
}

#[test]
fn join_follows_std_path() {
    for (base, rel) in [("/home/u/.config", "reelcast"), ("/home/u/.config/", "reelcast"), ("", "x"), ("~/.config", "reelcast")] {
        let expected = Path::new(base).join(rel).to_str().unwrap().to_string();
        assert_eq!(join_path(base, rel), expected);
    }
}
