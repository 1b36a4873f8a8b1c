//! What the library scanner decides about each file: whether its extension
//! marks it as media, the title and year read from its name, its stable id,
//! and the record built from what `ffprobe` reported about it.

use std::collections::hash_map::DefaultHasher;
use std::hash::{Hash, Hasher};
use vstd::prelude::*;
use crate::media::MediaFile;
use crate::paths::{extension, file_stem, path_extension, path_file_stem};
use crate::text::{
    opt_text,
    chars_of, lowercase, string_of, str_is, to_lowercase, trim, trim_chars,
};

verus! {

// ── media extensions ─────────────────────────────────────────────────────────

/// File extensions we consider media (already lower-cased).
pub open spec fn is_media_extension_text(e: Seq<char>) -> bool {
    ||| e == "mkv"@
    ||| e == "mp4"@
    ||| e == "avi"@
    ||| e == "mov"@
    ||| e == "m4v"@
    ||| e == "wmv"@
    ||| e == "flv"@
    ||| e == "webm"@
    ||| e == "ts"@
    ||| e == "m2ts"@
}

/// Whether the lower-cased extension `lower_ext` is one of the media extensions.
pub fn is_media_extension(lower_ext: &str) -> (r: bool)
    ensures
        r == is_media_extension_text(lower_ext@),
{
    str_is(lower_ext, "mkv") || str_is(lower_ext, "mp4") || str_is(lower_ext, "avi") || str_is(
        lower_ext,
        "mov",
    ) || str_is(lower_ext, "m4v") || str_is(lower_ext, "wmv") || str_is(lower_ext, "flv")
        || str_is(lower_ext, "webm") || str_is(lower_ext, "ts") || str_is(lower_ext, "m2ts")
}

/// A path is media when it has an extension whose lower-case form is a media
/// extension.
pub open spec fn has_media_extension_spec(path: Seq<char>) -> bool {
    match extension(path) {
        Some(e) => is_media_extension_text(lowercase(e)),
        None => false,
    }
}

/// Whether the scanner indexes the file at `path`, judged by its extension.
pub fn has_media_extension(path: &str) -> (r: bool)
    ensures
        r == has_media_extension_spec(path@),
{
    match path_extension(&chars_of(path)) {
        None => false,
        Some(e) => {
            let lower = to_lowercase(string_of(&e).as_str());
            is_media_extension(lower.as_str())
        },
    }
}

// ── titles ───────────────────────────────────────────────────────────────────

/// `.`, `_` and `-` become spaces.
pub open spec fn space_separators(s: Seq<char>) -> Seq<char> {
    s.map_values(|c: char| if c == '.' || c == '_' || c == '-' { ' ' } else { c })
}

/// The title of the file at `path`: its stem (or "Unknown"), with separators
/// turned into spaces and surrounding white space trimmed.
pub open spec fn title_text(path: Seq<char>) -> Seq<char> {
    let stem = match file_stem(path) {
        Some(s) => s,
        None => "Unknown"@,
    };
    trim(space_separators(stem))
}

/// The title of the file at `path`.
pub fn title_from_path(path: &str) -> (r: String)
    ensures
        r@ == title_text(path@),
{
    let stem = match path_file_stem(&chars_of(path)) {
        Some(s) => s,
        None => chars_of("Unknown"),
    };
    let mut spaced: Vec<char> = Vec::new();
    let mut i: usize = 0;
    while i < stem.len()
        invariant
            i <= stem.len(),
            spaced@ == space_separators(stem@).take(i as int),
        decreases stem.len() - i,
    {
        let c = stem[i];
        if c == '.' || c == '_' || c == '-' {
            spaced.push(' ');
        } else {
            spaced.push(c);
        }
        i = i + 1;
        assert(spaced@ =~= space_separators(stem@).take(i as int));
    }
    assert(space_separators(stem@).take(stem.len() as int) =~= space_separators(stem@));
    string_of(&trim_chars(&spaced))
}

// ── years ────────────────────────────────────────────────────────────────────

/// `[0-9]`.
pub open spec fn is_ascii_digit(c: char) -> bool {
    '0' <= c && c <= '9'
}

/// An ASCII word character `[0-9A-Za-z_]`.
pub open spec fn is_word_char(c: char) -> bool {
    is_ascii_digit(c) || ('A' <= c && c <= 'Z') || ('a' <= c && c <= 'z') || c == '_'
}

/// A year `19xx` or `20xx` stands at index `i` of `t` as a whole word.
pub open spec fn year_at(t: Seq<char>, i: int) -> bool {
    &&& 0 <= i
    &&& i + 4 <= t.len()
    &&& (t[i] == '1' && t[i + 1] == '9') || (t[i] == '2' && t[i + 1] == '0')
    &&& is_ascii_digit(t[i + 2])
    &&& is_ascii_digit(t[i + 3])
    &&& i == 0 || !is_word_char(t[i - 1])
    &&& i + 4 == t.len() || !is_word_char(t[i + 4])
}

/// The value of the ASCII digit `c`.
pub open spec fn digit_value(c: char) -> int {
    c as int - 48
}

/// The number written by the four digits at index `i` of `t`.
pub open spec fn year_value(t: Seq<char>, i: int) -> int {
    1000 * digit_value(t[i]) + 100 * digit_value(t[i + 1]) + 10 * digit_value(t[i + 2])
        + digit_value(t[i + 3])
}

/// The first year in `t` at or after index `i`.
pub open spec fn first_year_from(t: Seq<char>, i: int) -> Option<int>
    decreases t.len() - i,
{
    if i < 0 || i + 4 > t.len() {
        None
    } else if year_at(t, i) {
        Some(year_value(t, i))
    } else {
        first_year_from(t, i + 1)
    }
}

/// The first four-digit year (1900 to 2099) that stands as a word in `t`.
pub open spec fn year_in(t: Seq<char>) -> Option<int> {
    first_year_from(t, 0)
}

/// Look for a 4-digit year like (2001) or .2001. in the title.
pub fn year_from_title(title: &str) -> (r: Option<i64>)
    ensures
        match r {
            Some(y) => year_in(title@) == Some(y as int) && 1900 <= y <= 2099,
            None => year_in(title@) is None,
        },
{
    let t = chars_of(title);
    let n = t.len();
    let mut i: usize = 0;
    while n >= 4 && i <= n - 4
        invariant
            i <= n,
            t@ == title@,
            n == t.len(),
            first_year_from(t@, 0) == first_year_from(t@, i as int),
        decreases n - i,
    {
        let a = t[i];
        let b = t[i + 1];
        let c = t[i + 2];
        let d = t[i + 3];
        let century = (a == '1' && b == '9') || (a == '2' && b == '0');
        let digits = '0' <= c && c <= '9' && '0' <= d && d <= '9';
        let before = i == 0 || !is_word(t[i - 1]);
        let after = i + 4 == n || !is_word(t[i + 4]);
        if century && digits && before && after {
            let y: i64 = 1000 * ((a as u32) - 48) as i64 + 100 * ((b as u32) - 48) as i64 + 10 * ((
            c as u32) - 48) as i64 + ((d as u32) - 48) as i64;
            assert(year_at(t@, i as int));
            return Some(y);
        }
        i = i + 1;
    }
    None
}

fn is_word(c: char) -> (r: bool)
    ensures
        r == is_word_char(c),
{
    ('0' <= c && c <= '9') || ('A' <= c && c <= 'Z') || ('a' <= c && c <= 'z') || c == '_'
}

// ── stable ids ───────────────────────────────────────────────────────────────

/// Lower-case hexadecimal digit for `d` (`0 <= d < 16`).
pub open spec fn hex_lower(d: nat) -> char {
    if d < 10 {
        (d + 48) as char
    } else {
        (d + 87) as char
    }
}

/// The last `count` hexadecimal digits of `n`, most significant first.
pub open spec fn hex_digits(n: nat, count: nat) -> Seq<char>
    decreases count,
{
    if count == 0 {
        Seq::empty()
    } else {
        hex_digits(n / 16, (count - 1) as nat).push(hex_lower(n % 16))
    }
}

/// The hyphenated form `xxxxxxxx-xxxx-xxxx-xxxx-xxxxxxxxxxxx` of the 128-bit
/// value whose high half is `high` and low half is `low`.
pub open spec fn uuid_text(high: u64, low: u64) -> Seq<char> {
    let h = hex_digits(high as nat, 16) + hex_digits(low as nat, 16);
    h.subrange(0, 8) + seq!['-'] + h.subrange(8, 12) + seq!['-'] + h.subrange(12, 16) + seq!['-']
        + h.subrange(16, 20) + seq!['-'] + h.subrange(20, 32)
}

/// Calls `uuid::Uuid::from_u64_pair` and renders the UUID with `to_string`.
///
/// The contract claims what the crate's source shows: the 32 lower-case hex
/// digits of `high` then `low`, grouped 8-4-4-4-12 by hyphens.
#[verifier::external_body]
fn uuid_from_u64_pair(high: u64, low: u64) -> (r: String)
    ensures
        r@ == uuid_text(high, low),
{
    uuid::Uuid::from_u64_pair(high, low).to_string()
}

/// The odd multiplier that spreads the hash over the low half of the id.
pub open spec fn id_multiplier() -> u64 {
    0x9e3779b97f4a7c15
}

/// The id of the file whose path hashes to `path_hash`.
pub open spec fn stable_id_text(path_hash: u64) -> Seq<char> {
    uuid_text(path_hash, path_hash.wrapping_mul(id_multiplier()))
}

/// The id of the file whose path hashes to `path_hash`, formatted as a
/// UUID-shaped string for aesthetics.
pub fn stable_id_from_hash(path_hash: u64) -> (r: String)
    ensures
        r@ == stable_id_text(path_hash),
{
    uuid_from_u64_pair(path_hash, path_hash.wrapping_mul(0x9e3779b97f4a7c15u64))
}

/// Feeds the path `path` into the hasher `h` (`<Path as Hash>::hash`).
///
/// Nothing is claimed of what it writes into the hasher: std does not
/// document it, and the bytes it writes may differ between machines.
#[verifier::external_body]
fn hash_path(h: &mut DefaultHasher, path: &str) {
    std::path::Path::new(path).hash(h);
}

/// The `DefaultHasher` hash of the path `path`.
fn path_hash(path: &str) -> u64 {
    let mut h = DefaultHasher::new();
    hash_path(&mut h, path);
    h.finish()
}

/// Deterministic ID from path — stable across rescans. It is the id of the
/// path's `DefaultHasher` hash, which the same build on the same machine
/// computes the same way each time.
pub fn stable_id(path: &str) -> (r: String)
    ensures
        exists|h: u64| r@ == #[trigger] stable_id_text(h),
{
    let h = path_hash(path);
    stable_id_from_hash(h)
}

// ── ffprobe results ──────────────────────────────────────────────────────────

/// What `ffprobe` reports about a file: its streams and its container.
#[derive(Debug)]
pub struct FfprobeOutput {
    pub streams: Vec<FfprobeStream>,
    pub format: FfprobeFormat,
}

/// One stream of a probed file.
#[derive(Debug)]
pub struct FfprobeStream {
    pub codec_type: Option<String>,
    pub codec_name: Option<String>,
    pub width: Option<i64>,
    pub height: Option<i64>,
}

/// The container of a probed file.
#[derive(Debug)]
pub struct FfprobeFormat {
    pub duration: Option<String>,
    pub format_name: Option<String>,
}

/// `st` is a stream of the given kind (`"video"` or `"audio"`).
pub open spec fn stream_is(st: FfprobeStream, kind: Seq<char>) -> bool {
    st.codec_type matches Some(t) && t@ == kind
}

/// Index of the first stream of the given kind, or -1.
pub open spec fn first_stream(streams: Seq<FfprobeStream>, kind: Seq<char>) -> int
    decreases streams.len(),
{
    if streams.len() == 0 {
        -1
    } else {
        let r = first_stream(streams.drop_last(), kind);
        if r >= 0 {
            r
        } else if stream_is(streams.last(), kind) {
            streams.len() - 1
        } else {
            -1
        }
    }
}

/// `first_stream` finds the first stream of its kind.
pub proof fn lemma_first_stream(streams: Seq<FfprobeStream>, kind: Seq<char>)
    ensures
        -1 <= first_stream(streams, kind) < streams.len(),
        first_stream(streams, kind) >= 0 ==> stream_is(streams[first_stream(streams, kind)], kind),
        forall|j: int|
            0 <= j < streams.len() && (first_stream(streams, kind) == -1 || j < first_stream(
                streams,
                kind,
            )) ==> !stream_is(#[trigger] streams[j], kind),
    decreases streams.len(),
{
    if streams.len() > 0 {
        let t = streams.drop_last();
        lemma_first_stream(t, kind);
        assert forall|j: int|
            0 <= j < streams.len() && (first_stream(streams, kind) == -1 || j < first_stream(
                streams,
                kind,
            )) implies !stream_is(#[trigger] streams[j], kind) by {
            if j < streams.len() - 1 {
                assert(streams[j] == t[j]);
            }
        }
    }
}

/// Index of the first stream of the given kind.
fn find_stream(streams: &Vec<FfprobeStream>, kind: &str) -> (r: Option<usize>)
    ensures
        match r {
            Some(i) => i == first_stream(streams@, kind@) && i < streams@.len(),
            None => first_stream(streams@, kind@) == -1,
        },
{
    let mut i: usize = 0;
    proof {
        lemma_first_stream(streams@, kind@);
    }
    while i < streams.len()
        invariant
            i <= streams.len(),
            -1 <= first_stream(streams@, kind@) < streams@.len(),
            first_stream(streams@, kind@) >= 0 ==> stream_is(
                streams@[first_stream(streams@, kind@)],
                kind@,
            ),
            forall|j: int|
                0 <= j < streams@.len() && (first_stream(streams@, kind@) == -1 || j
                    < first_stream(streams@, kind@)) ==> !stream_is(#[trigger] streams@[j], kind@),
            forall|j: int| 0 <= j < i ==> !stream_is(#[trigger] streams@[j], kind@),
        decreases streams.len() - i,
    {
        let is_kind = match &streams[i].codec_type {
            Some(t) => str_is(t.as_str(), kind),
            None => false,
        };
        if is_kind {
            return Some(i);
        }
        i = i + 1;
    }
    None
}

/// The text before the first `,` of `s` (all of `s` when it has none).
pub open spec fn first_field(s: Seq<char>) -> Seq<char> {
    let k = crate::paths::first_index_of(s, ',');
    if k < 0 {
        s
    } else {
        s.take(k)
    }
}

/// The part of `s` before its first comma.
fn first_comma_field(s: &str) -> (r: String)
    ensures
        r@ == first_field(s@),
{
    let cs = chars_of(s);
    let mut i: usize = 0;
    proof {
        crate::paths::lemma_first_index_of(cs@, ',');
    }
    while i < cs.len() && cs[i] != ','
        invariant
            i <= cs.len(),
            -1 <= crate::paths::first_index_of(cs@, ',') < cs@.len(),
            crate::paths::first_index_of(cs@, ',') >= 0 ==> cs@[crate::paths::first_index_of(
                cs@,
                ',',
            )] == ',',
            crate::paths::first_index_of(cs@, ',') == -1 || i <= crate::paths::first_index_of(
                cs@,
                ',',
            ),
            forall|j: int| 0 <= j < i ==> cs@[j] != ',',
        decreases cs.len() - i,
    {
        i = i + 1;
    }
    proof {
        crate::paths::lemma_first_index_of(cs@, ',');
    }
    string_of(&crate::text::slice_chars(&cs, 0, i))
}

/// The stream field `f` of the first stream of a kind, if there is one.
pub open spec fn stream_field<T>(
    streams: Seq<FfprobeStream>,
    kind: Seq<char>,
    f: spec_fn(FfprobeStream) -> Option<T>,
) -> Option<T> {
    let i = first_stream(streams, kind);
    if i < 0 {
        None
    } else {
        f(streams[i])
    }
}

/// The record that the scanner stores for the file at `path`, given the hash
/// of its path, its size, its duration in whole seconds and what `ffprobe`
/// reported.
pub open spec fn probed_media(
    r: MediaFile,
    path: Seq<char>,
    path_hash: u64,
    size_bytes: i64,
    duration_secs: Option<i64>,
    probe: FfprobeOutput,
) -> bool {
    let streams = probe.streams@;
    &&& r.id@ == stable_id_text(path_hash)
    &&& r.path@ == path
    &&& r.title@ == title_text(path)
    &&& r.year == match year_in(title_text(path)) {
        Some(y) => Some(y as i64),
        None => None,
    }
    &&& r.duration_secs == duration_secs
    &&& r.size_bytes == size_bytes
    &&& opt_text(r.container) == match probe.format.format_name {
        Some(n) => Some(first_field(n@)),
        None => None,
    }
    &&& opt_text(r.video_codec) == stream_field(
        streams,
        "video"@,
        |st: FfprobeStream| opt_text(st.codec_name),
    )
    &&& opt_text(r.audio_codec) == stream_field(
        streams,
        "audio"@,
        |st: FfprobeStream| opt_text(st.codec_name),
    )
    &&& r.width == stream_field(streams, "video"@, |st: FfprobeStream| st.width)
    &&& r.height == stream_field(streams, "video"@, |st: FfprobeStream| st.height)
}

/// Builds the record of a probed file. `path_hash` is the hash of its path,
/// `size_bytes` its size and `duration_secs` the duration that `ffprobe`
/// reported, in whole seconds.
pub fn media_from_probe(
    path: &str,
    path_hash: u64,
    size_bytes: i64,
    duration_secs: Option<i64>,
    probe: &FfprobeOutput,
) -> (r: MediaFile)
    ensures
        probed_media(r, path@, path_hash, size_bytes, duration_secs, *probe),
{
    let title = title_from_path(path);
    let year = year_from_title(title.as_str());
    let video = find_stream(&probe.streams, "video");
    let audio = find_stream(&probe.streams, "audio");
    let container = match &probe.format.format_name {
        Some(n) => Some(first_comma_field(n.as_str())),
        None => None,
    };
    let (video_codec, width, height) = match video {
        Some(i) => {
            let st = &probe.streams[i];
            (crate::media::clone_opt_string(&st.codec_name), st.width, st.height)
        },
        None => (None, None, None),
    };
    let audio_codec = match audio {
        Some(i) => crate::media::clone_opt_string(&probe.streams[i].codec_name),
        None => None,
    };
    MediaFile {
        id: stable_id_from_hash(path_hash),
        path: string_of(&chars_of(path)),
        title,
        year,
        duration_secs,
        size_bytes,
        container,
        video_codec,
        audio_codec,
        width,
        height,
    }
}

/// The record that the scanner stores for the file at `path`: the record of
/// `media_from_probe` for the hash of that path.
pub fn probe_record(
    path: &str,
    size_bytes: i64,
    duration_secs: Option<i64>,
    probe: &FfprobeOutput,
) -> (r: MediaFile)
    ensures
        exists|h: u64| #[trigger] probed_media(r, path@, h, size_bytes, duration_secs, *probe),
{
    let h = path_hash(path);
    media_from_probe(path, h, size_bytes, duration_secs, probe)
}

// ── laws ─────────────────────────────────────────────────────────────────────

/// A lower-case hexadecimal digit.
pub open spec fn is_hex_lower(c: char) -> bool {
    ('0' <= c && c <= '9') || ('a' <= c && c <= 'f')
}

proof fn lemma_hex_digits(n: nat, count: nat)
    ensures
        hex_digits(n, count).len() == count,
        forall|i: int| 0 <= i < count ==> is_hex_lower(#[trigger] hex_digits(n, count)[i]),
    decreases count,
{
    if count > 0 {
        lemma_hex_digits(n / 16, (count - 1) as nat);
        let d = n % 16;
        assert(is_hex_lower(hex_lower(d)));
    }
}

/// Ids are UUID-shaped: 36 characters, hyphens at 8, 13, 18 and 23, and
/// lower-case hex digits everywhere else.
pub proof fn law_stable_id_is_uuid_shaped(path_hash: u64)
    ensures
        stable_id_text(path_hash).len() == 36,
        forall|i: int|
            0 <= i < 36 ==> if i == 8 || i == 13 || i == 18 || i == 23 {
                #[trigger] stable_id_text(path_hash)[i] == '-'
            } else {
                is_hex_lower(stable_id_text(path_hash)[i])
            },
{
    let high = path_hash;
    let low = path_hash.wrapping_mul(id_multiplier());
    lemma_hex_digits(high as nat, 16);
    lemma_hex_digits(low as nat, 16);
    let h = hex_digits(high as nat, 16) + hex_digits(low as nat, 16);
    assert forall|j: int| 0 <= j < 32 implies is_hex_lower(#[trigger] h[j]) by {
        if j < 16 {
            assert(h[j] == hex_digits(high as nat, 16)[j]);
        } else {
            assert(h[j] == hex_digits(low as nat, 16)[j - 16]);
        }
    }
    let t = uuid_text(high, low);
    assert forall|i: int| 0 <= i < 36 implies if i == 8 || i == 13 || i == 18 || i == 23 {
        #[trigger] t[i] == '-'
    } else {
        is_hex_lower(t[i])
    } by {
        if i < 8 {
            assert(t[i] == h[i]);
        } else if 8 < i < 13 {
            assert(t[i] == h[i - 1]);
        } else if 13 < i < 18 {
            assert(t[i] == h[i - 2]);
        } else if 18 < i < 23 {
            assert(t[i] == h[i - 3]);
        } else if 23 < i {
            assert(t[i] == h[i - 4]);
        }
    }
}

/// `trim` keeps a contiguous part of its input that neither starts nor ends
/// with white space.
pub proof fn lemma_trim(s: Seq<char>)
    ensures
        exists|a: int, b: int| 0 <= a <= b <= s.len() && trim(s) == s.subrange(a, b),
        trim(s).len() > 0 ==> !crate::text::is_whitespace(trim(s)[0])
            && !crate::text::is_whitespace(trim(s).last()),
{
    let a = lemma_trim_start(s);
    let t = crate::text::trim_start(s);
    let b = lemma_trim_end(t);
    assert(trim(s) == s.subrange(a, a + b));
}

proof fn lemma_trim_start(s: Seq<char>) -> (a: int)
    ensures
        0 <= a <= s.len(),
        crate::text::trim_start(s) == s.skip(a),
        crate::text::trim_start(s).len() > 0 ==> !crate::text::is_whitespace(
            crate::text::trim_start(s)[0],
        ),
    decreases s.len(),
{
    if s.len() > 0 && crate::text::is_whitespace(s[0]) {
        let a = lemma_trim_start(s.drop_first());
        assert(s.drop_first().skip(a) =~= s.skip(a + 1));
        a + 1
    } else {
        assert(s.skip(0) =~= s);
        0
    }
}

proof fn lemma_trim_end(s: Seq<char>) -> (b: int)
    ensures
        0 <= b <= s.len(),
        crate::text::trim_end(s) == s.take(b),
        crate::text::trim_end(s).len() > 0 ==> !crate::text::is_whitespace(
            crate::text::trim_end(s).last(),
        ),
        crate::text::trim_end(s).len() > 0 ==> crate::text::trim_end(s)[0] == s[0],
    decreases s.len(),
{
    if s.len() > 0 && crate::text::is_whitespace(s.last()) {
        let b = lemma_trim_end(s.drop_last());
        assert(s.drop_last().take(b) =~= s.take(b));
        b
    } else {
        assert(s.take(s.len() as int) =~= s);
        s.len() as int
    }
}

/// Titles hold no `.`, `_` or `-`, and neither start nor end with white space.
pub proof fn law_title_is_clean(path: Seq<char>)
    ensures
        forall|i: int|
            0 <= i < title_text(path).len() ==> {
                let c = #[trigger] title_text(path)[i];
                c != '.' && c != '_' && c != '-'
            },
        title_text(path).len() > 0 ==> !crate::text::is_whitespace(title_text(path)[0])
            && !crate::text::is_whitespace(title_text(path).last()),
{
    let stem = match file_stem(path) {
        Some(s) => s,
        None => "Unknown"@,
    };
    let sp = space_separators(stem);
    lemma_trim(sp);
    let (a, b) = choose|a: int, b: int| 0 <= a <= b <= sp.len() && trim(sp) == sp.subrange(a, b);
    assert forall|i: int| 0 <= i < title_text(path).len() implies {
        let c = #[trigger] title_text(path)[i];
        c != '.' && c != '_' && c != '-'
    } by {
        assert(title_text(path)[i] == sp[a + i]);
    }
}

/// The extensions the scanner indexes are exactly mkv, mp4, avi, mov, m4v,
/// wmv, flv, webm, ts and m2ts, compared after lower-casing the file's
/// extension; a path without an extension is never media.
pub proof fn law_media_extensions_are_the_ten(e: Seq<char>, path: Seq<char>)
    ensures
        is_media_extension_text(e) <==> (e == "mkv"@ || e == "mp4"@ || e == "avi"@ || e == "mov"@
            || e == "m4v"@ || e == "wmv"@ || e == "flv"@ || e == "webm"@ || e == "ts"@ || e
            == "m2ts"@),
        has_media_extension_spec(path) <==> (extension(path) matches Some(x) && {
            let l = lowercase(x);
            l == "mkv"@ || l == "mp4"@ || l == "avi"@ || l == "mov"@ || l == "m4v"@ || l == "wmv"@
                || l == "flv"@ || l == "webm"@ || l == "ts"@ || l == "m2ts"@
        }),
{
}

/// The year of a scanned file's record is the first year found in the
/// record's own title, whatever the directories of its path hold, and the
/// title is the one read from the path's file name.
pub proof fn law_record_year_comes_from_title(
    r: MediaFile,
    path: Seq<char>,
    path_hash: u64,
    size_bytes: i64,
    duration_secs: Option<i64>,
    probe: FfprobeOutput,
)
    requires
        probed_media(r, path, path_hash, size_bytes, duration_secs, probe),
    ensures
        r.title@ == title_text(path),
        r.year == match year_in(r.title@) {
            Some(y) => Some(y as i64),
            None => None,
        },
        r.year matches Some(y) ==> 1900 <= y <= 2099,
{
    lemma_year_range(r.title@, 0);
}

/// A year found in a text lies between 1900 and 2099.
proof fn lemma_year_range(t: Seq<char>, i: int)
    ensures
        first_year_from(t, i) matches Some(y) ==> 1900 <= y <= 2099,
    decreases t.len() - i,
{
    if i >= 0 && i + 4 <= t.len() && !year_at(t, i) {
        lemma_year_range(t, i + 1);
    }
}

} // verus!
