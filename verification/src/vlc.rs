//! Playlist formats that VLC understands: XSPF for a list of media, M3U for
//! one item, and percent-encoding of paths for URLs.

use vstd::prelude::*;
use crate::media::MediaFile;
use crate::text::{int_text, push_char, push_i64, push_str};

verus! {

// ── percent-encoding ─────────────────────────────────────────────────────────

/// ASCII letters and digits: the bytes that percent-encoding leaves as they are.
pub open spec fn is_ascii_alphanumeric(b: u8) -> bool {
    (48 <= b <= 57) || (65 <= b <= 90) || (97 <= b <= 122)
}

/// Upper-case hexadecimal digit for `d` (`0 <= d < 16`).
pub open spec fn hex_upper(d: nat) -> char {
    if d < 10 {
        (d + 48) as char
    } else {
        (d + 55) as char
    }
}

/// Percent-encoding of one byte: kept when it is an ASCII letter or digit,
/// otherwise `%` followed by its two upper-case hex digits.
pub open spec fn percent_byte(b: u8) -> Seq<char> {
    if is_ascii_alphanumeric(b) {
        seq![b as char]
    } else {
        seq!['%', hex_upper((b / 16) as nat), hex_upper((b % 16) as nat)]
    }
}

/// Percent-encoding of a byte sequence, byte by byte.
pub open spec fn percent_bytes(bs: Seq<u8>) -> Seq<char>
    decreases bs.len(),
{
    if bs.len() == 0 {
        Seq::empty()
    } else {
        percent_bytes(bs.drop_last()) + percent_byte(bs.last())
    }
}

/// Percent-encoding of the UTF-8 bytes of `s`, where every byte that is not
/// an ASCII letter or digit is escaped.
pub open spec fn percent_encoded(s: Seq<char>) -> Seq<char> {
    percent_bytes(vstd::utf8::encode_utf8(s))
}

/// Calls `percent_encoding::utf8_percent_encode` with the `NON_ALPHANUMERIC`
/// set and renders the result.
///
/// The contract claims what the crate's source shows: each byte of the UTF-8
/// encoding of `s` is kept if it is an ASCII letter or digit and otherwise
/// becomes `%XX`, with upper-case hex digits.
#[verifier::external_body]
pub(crate) fn percent_encode_non_alphanumeric(s: &str) -> (r: String)
    ensures
        r@ == percent_encoded(s@),
{
    percent_encoding::utf8_percent_encode(s, percent_encoding::NON_ALPHANUMERIC).to_string()
}

/// Encode a file path for use in a URL.
pub fn encode_path(path: &str) -> (r: String)
    ensures
        r@ == percent_encoded(path@),
{
    percent_encode_non_alphanumeric(path)
}

// ── XML escaping ─────────────────────────────────────────────────────────────

/// The XML escape of one character.
pub open spec fn escape_char(c: char) -> Seq<char> {
    if c == '&' {
        "&amp;"@
    } else if c == '<' {
        "&lt;"@
    } else if c == '>' {
        "&gt;"@
    } else if c == '"' {
        "&quot;"@
    } else if c == '\'' {
        "&apos;"@
    } else {
        seq![c]
    }
}

/// The XML escape of a string: each character escaped in turn.
pub open spec fn escape_text(s: Seq<char>) -> Seq<char>
    decreases s.len(),
{
    if s.len() == 0 {
        Seq::empty()
    } else {
        escape_text(s.drop_last()) + escape_char(s.last())
    }
}

/// Escapes `&`, `<`, `>`, `"` and `'` for use in XML text.
pub fn escape_xml(s: &str) -> (r: String)
    ensures
        r@ == escape_text(s@),
{
    let cs = crate::text::chars_of(s);
    let mut r = String::new();
    let mut i: usize = 0;
    while i < cs.len()
        invariant
            i <= cs.len(),
            cs@ == s@,
            r@ == escape_text(cs@.take(i as int)),
        decreases cs.len() - i,
    {
        let c = cs[i];
        if c == '&' {
            push_str(&mut r, "&amp;");
        } else if c == '<' {
            push_str(&mut r, "&lt;");
        } else if c == '>' {
            push_str(&mut r, "&gt;");
        } else if c == '"' {
            push_str(&mut r, "&quot;");
        } else if c == '\'' {
            push_str(&mut r, "&apos;");
        } else {
            push_char(&mut r, c);
        }
        assert(cs@.take(i + 1).drop_last() =~= cs@.take(i as int));
        i = i + 1;
    }
    assert(cs@.take(cs.len() as int) =~= cs@);
    r
}

// ── playlists ────────────────────────────────────────────────────────────────

/// The URL under which the server streams `m`.
pub open spec fn file_url(m: MediaFile, base_url: Seq<char>) -> Seq<char> {
    base_url + "/file/"@ + m.id@
}

/// The duration of `m` in milliseconds, 0 when unknown.
pub open spec fn duration_ms(m: MediaFile) -> int {
    match m.duration_secs {
        Some(d) => d * 1000,
        None => 0,
    }
}

/// The duration in milliseconds fits an `i64`.
pub open spec fn duration_ms_fits(m: MediaFile) -> bool {
    i64::MIN <= duration_ms(m) <= i64::MAX
}

/// The XSPF `<track>` element of `m`.
pub open spec fn track_text(m: MediaFile, base_url: Seq<char>) -> Seq<char> {
    "    <track>\n      <location>"@ + file_url(m, base_url) + "</location>\n      <title>"@
        + escape_text(m.title@) + "</title>\n      <duration>"@ + int_text(duration_ms(m))
        + "</duration>\n    </track>"@
}

/// The track elements of `media`, one per line.
pub open spec fn tracks_text(media: Seq<MediaFile>, base_url: Seq<char>) -> Seq<char>
    decreases media.len(),
{
    if media.len() == 0 {
        Seq::empty()
    } else if media.len() == 1 {
        track_text(media[0], base_url)
    } else {
        tracks_text(media.drop_last(), base_url) + "\n"@ + track_text(media.last(), base_url)
    }
}

/// The XSPF playlist of `media`.
pub open spec fn xspf_text(media: Seq<MediaFile>, base_url: Seq<char>) -> Seq<char> {
    "<?xml version=\"1.0\" encoding=\"UTF-8\"?>\n<playlist xmlns=\"http://xspf.org/ns/0/\" version=\"1\">\n  <trackList>\n"@
        + tracks_text(media, base_url) + "\n  </trackList>\n</playlist>"@
}

/// The single-item M3U playlist of `m`.
pub open spec fn m3u_text(m: MediaFile, base_url: Seq<char>) -> Seq<char> {
    let secs = match m.duration_secs {
        Some(d) => d as int,
        None => -1,
    };
    "#EXTM3U\n#EXTINF:"@ + int_text(secs) + ","@ + m.title@ + "\n"@ + file_url(m, base_url) + "\n"@
}

fn track_xml(m: &MediaFile, base_url: &str) -> (r: String)
    requires
        duration_ms_fits(*m),
    ensures
        r@ == track_text(*m, base_url@),
{
    let title = escape_xml(m.title.as_str());
    let duration_ms: i64 = match m.duration_secs {
        Some(d) => d * 1000,
        None => 0,
    };
    let mut r = String::new();
    push_str(&mut r, "    <track>\n      <location>");
    push_str(&mut r, base_url);
    push_str(&mut r, "/file/");
    push_str(&mut r, m.id.as_str());
    push_str(&mut r, "</location>\n      <title>");
    push_str(&mut r, title.as_str());
    push_str(&mut r, "</title>\n      <duration>");
    push_i64(&mut r, duration_ms);
    push_str(&mut r, "</duration>\n    </track>");
    r
}

/// Generate an XSPF playlist that VLC understands.
/// `base_url` is e.g. "http://192.168.1.10:3000"
pub fn xspf(media: &[MediaFile], base_url: &str) -> (r: String)
    requires
        forall|i: int| 0 <= i < media@.len() ==> duration_ms_fits(#[trigger] media@[i]),
    ensures
        r@ == xspf_text(media@, base_url@),
{
    let mut tracks = String::new();
    let mut i: usize = 0;
    while i < media.len()
        invariant
            i <= media@.len(),
            forall|k: int| 0 <= k < media@.len() ==> duration_ms_fits(#[trigger] media@[k]),
            tracks@ == tracks_text(media@.take(i as int), base_url@),
        decreases media.len() - i,
    {
        let t = track_xml(&media[i], base_url);
        if i > 0 {
            push_str(&mut tracks, "\n");
        }
        push_str(&mut tracks, t.as_str());
        let ghost next = media@.take(i + 1);
        assert(next.drop_last() =~= media@.take(i as int));
        assert(next.last() == media@[i as int]);
        if i == 0 {
            assert(next.len() == 1);
            assert(tracks@ =~= tracks_text(next, base_url@));
        }
        i = i + 1;
    }
    assert(media@.take(media@.len() as int) =~= media@);
    let mut r = String::new();
    push_str(&mut r, "<?xml version=\"1.0\" encoding=\"UTF-8\"?>\n<playlist xmlns=\"http://xspf.org/ns/0/\" version=\"1\">\n  <trackList>\n");
    push_str(&mut r, tracks.as_str());
    push_str(&mut r, "\n  </trackList>\n</playlist>");
    r
}

/// Generate a simple M3U playlist (single item)
pub fn m3u_single(m: &MediaFile, base_url: &str) -> (r: String)
    ensures
        r@ == m3u_text(*m, base_url@),
{
    let secs: i64 = match m.duration_secs {
        Some(d) => d,
        None => -1,
    };
    let mut r = String::new();
    push_str(&mut r, "#EXTM3U\n#EXTINF:");
    push_i64(&mut r, secs);
    push_str(&mut r, ",");
    push_str(&mut r, m.title.as_str());
    push_str(&mut r, "\n");
    push_str(&mut r, base_url);
    push_str(&mut r, "/file/");
    push_str(&mut r, m.id.as_str());
    push_str(&mut r, "\n");
    r
}

// ── laws ─────────────────────────────────────────────────────────────────────

/// An ASCII letter or digit.
pub open spec fn is_alphanumeric_char(c: char) -> bool {
    ('0' <= c && c <= '9') || ('A' <= c && c <= 'Z') || ('a' <= c && c <= 'z')
}

/// Percent-encoded text is URL-safe: it holds only ASCII letters, digits and `%`.
pub proof fn law_percent_encoded_is_url_safe(s: Seq<char>)
    ensures
        forall|i: int|
            0 <= i < percent_encoded(s).len() ==> is_alphanumeric_char(
                #[trigger] percent_encoded(s)[i],
            ) || percent_encoded(s)[i] == '%',
{
    lemma_percent_bytes_safe(vstd::utf8::encode_utf8(s));
}

proof fn lemma_percent_bytes_safe(bs: Seq<u8>)
    ensures
        forall|i: int|
            0 <= i < percent_bytes(bs).len() ==> is_alphanumeric_char(#[trigger] percent_bytes(bs)[i])
                || percent_bytes(bs)[i] == '%',
    decreases bs.len(),
{
    if bs.len() > 0 {
        let init = bs.drop_last();
        let b = bs.last();
        lemma_percent_bytes_safe(init);
        let head = percent_bytes(init);
        let tail = percent_byte(b);
        assert forall|j: int| 0 <= j < tail.len() implies is_alphanumeric_char(#[trigger] tail[j])
            || tail[j] == '%' by {
            if !is_ascii_alphanumeric(b) && j > 0 {
                let d: nat = if j == 1 { (b / 16) as nat } else { (b % 16) as nat };
                assert(d < 16);
                assert(tail[j] == hex_upper(d));
            }
        }
        assert forall|i: int| 0 <= i < percent_bytes(bs).len() implies is_alphanumeric_char(
            #[trigger] percent_bytes(bs)[i],
        ) || percent_bytes(bs)[i] == '%' by {
            if i < head.len() {
                assert(percent_bytes(bs)[i] == head[i]);
            } else {
                assert(percent_bytes(bs)[i] == tail[i - head.len()]);
            }
        }
    }
}

/// Escaped text holds no raw `<`, `>`, `"` or `'`, so it cannot open or
/// close markup or end an attribute value.
pub proof fn law_escaped_text_has_no_markup(s: Seq<char>)
    ensures
        forall|i: int|
            0 <= i < escape_text(s).len() ==> {
                let c = #[trigger] escape_text(s)[i];
                c != '<' && c != '>' && c != '"' && c != '\''
            },
    decreases s.len(),
{
    if s.len() > 0 {
        let init = s.drop_last();
        law_escaped_text_has_no_markup(init);
        reveal_strlit("&amp;");
        reveal_strlit("&lt;");
        reveal_strlit("&gt;");
        reveal_strlit("&quot;");
        reveal_strlit("&apos;");
        let head = escape_text(init);
        let tail = escape_char(s.last());
        assert forall|i: int| 0 <= i < escape_text(s).len() implies {
            let c = #[trigger] escape_text(s)[i];
            c != '<' && c != '>' && c != '"' && c != '\''
        } by {
            if i < head.len() {
                assert(escape_text(s)[i] == head[i]);
            } else {
                assert(escape_text(s)[i] == tail[i - head.len()]);
            }
        }
    }
}

/// `s` with every `c` replaced by `r` (`str::replace` with a `char` pattern).
pub open spec fn replace_char(s: Seq<char>, c: char, r: Seq<char>) -> Seq<char>
    decreases s.len(),
{
    if s.len() == 0 {
        Seq::empty()
    } else {
        replace_char(s.drop_last(), c, r) + if s.last() == c {
            r
        } else {
            seq![s.last()]
        }
    }
}

/// The five replacements `&`, `<`, `>`, `"`, `'` applied one after another.
pub open spec fn replace_chain(s: Seq<char>) -> Seq<char> {
    replace_char(
        replace_char(
            replace_char(replace_char(replace_char(s, '&', "&amp;"@), '<', "&lt;"@), '>', "&gt;"@),
            '"',
            "&quot;"@,
        ),
        '\'',
        "&apos;"@,
    )
}

proof fn lemma_replace_concat(a: Seq<char>, b: Seq<char>, c: char, r: Seq<char>)
    ensures
        replace_char(a + b, c, r) == replace_char(a, c, r) + replace_char(b, c, r),
    decreases b.len(),
{
    if b.len() == 0 {
        assert(a + b =~= a);
        assert(replace_char(a, c, r) + replace_char(b, c, r) =~= replace_char(a, c, r));
    } else {
        lemma_replace_concat(a, b.drop_last(), c, r);
        assert((a + b).drop_last() =~= a + b.drop_last());
        assert((a + b).last() == b.last());
    }
}

proof fn lemma_replace_absent(t: Seq<char>, c: char, r: Seq<char>)
    requires
        forall|i: int| 0 <= i < t.len() ==> t[i] != c,
    ensures
        replace_char(t, c, r) == t,
    decreases t.len(),
{
    if t.len() > 0 {
        lemma_replace_absent(t.drop_last(), c, r);
        assert(t.drop_last().push(t.last()) =~= t);
    }
}

proof fn lemma_replace_single(x: char, c: char, r: Seq<char>)
    ensures
        replace_char(seq![x], c, r) == if x == c {
            r
        } else {
            seq![x]
        },
{
    let one = seq![x];
    assert(one.drop_last() =~= Seq::<char>::empty());
    assert(one.last() == x);
    assert(replace_char(Seq::<char>::empty(), c, r) == Seq::<char>::empty());
    assert(Seq::<char>::empty() + r =~= r);
    assert(Seq::<char>::empty() + one =~= one);
    assert(replace_char(one, c, r) == replace_char(one.drop_last(), c, r) + if x == c {
        r
    } else {
        one
    });
}

/// One replacement step applied to `t`, which is either the single
/// character `x` or an entity that holds none of the characters still to be
/// replaced.
proof fn lemma_step(t: Seq<char>, x: char, c: char, r: Seq<char>)
    requires
        t == seq![x] || forall|i: int| 0 <= i < t.len() ==> t[i] != c,
    ensures
        t == seq![x] ==> replace_char(t, c, r) == if x == c {
            r
        } else {
            seq![x]
        },
        t != seq![x] ==> replace_char(t, c, r) == t,
{
    if t == seq![x] {
        lemma_replace_single(x, c, r);
    } else {
        lemma_replace_absent(t, c, r);
    }
}

proof fn lemma_chain_one(x: char)
    ensures
        replace_chain(seq![x]) == escape_char(x),
{
    reveal_strlit("&amp;");
    reveal_strlit("&lt;");
    reveal_strlit("&gt;");
    reveal_strlit("&quot;");
    reveal_strlit("&apos;");
    let one = seq![x];
    lemma_replace_single(x, '&', "&amp;"@);
    let s1 = replace_char(one, '&', "&amp;"@);
    lemma_step(s1, x, '<', "&lt;"@);
    let s2 = replace_char(s1, '<', "&lt;"@);
    lemma_step(s2, x, '>', "&gt;"@);
    let s3 = replace_char(s2, '>', "&gt;"@);
    lemma_step(s3, x, '"', "&quot;"@);
    let s4 = replace_char(s3, '"', "&quot;"@);
    lemma_step(s4, x, '\'', "&apos;"@);
}

/// Escaping character by character is the same as the five replacements
/// `&` → `&amp;`, `<` → `&lt;`, `>` → `&gt;`, `"` → `&quot;`, `'` → `&apos;`
/// applied in that order: `&` goes first, so no entity is escaped twice.
pub proof fn law_escape_is_replace_chain(s: Seq<char>)
    ensures
        replace_chain(s) == escape_text(s),
    decreases s.len(),
{
    if s.len() > 0 {
        let init = s.drop_last();
        let one = seq![s.last()];
        law_escape_is_replace_chain(init);
        assert(s =~= init + one);
        let a1 = replace_char(init, '&', "&amp;"@);
        let b1 = replace_char(one, '&', "&amp;"@);
        lemma_replace_concat(init, one, '&', "&amp;"@);
        let a2 = replace_char(a1, '<', "&lt;"@);
        let b2 = replace_char(b1, '<', "&lt;"@);
        lemma_replace_concat(a1, b1, '<', "&lt;"@);
        let a3 = replace_char(a2, '>', "&gt;"@);
        let b3 = replace_char(b2, '>', "&gt;"@);
        lemma_replace_concat(a2, b2, '>', "&gt;"@);
        let a4 = replace_char(a3, '"', "&quot;"@);
        let b4 = replace_char(b3, '"', "&quot;"@);
        lemma_replace_concat(a3, b3, '"', "&quot;"@);
        lemma_replace_concat(a4, b4, '\'', "&apos;"@);
        lemma_chain_one(s.last());
    }
}

/// The value of a hexadecimal digit (either case), or -1 for any other
/// character.
pub open spec fn hex_value(c: char) -> int {
    if '0' <= c && c <= '9' {
        c as int - 48
    } else if 'A' <= c && c <= 'F' {
        c as int - 55
    } else if 'a' <= c && c <= 'f' {
        c as int - 87
    } else {
        -1
    }
}

/// Percent-decoding of `t` into bytes: `%` followed by two hexadecimal
/// digits is the byte they spell; every other character stands for its own
/// UTF-8 bytes (`percent_encoding::percent_decode_str`).
pub open spec fn percent_decode(t: Seq<char>) -> Seq<u8>
    decreases t.len(),
{
    if t.len() == 0 {
        Seq::empty()
    } else if t[0] == '%' && t.len() >= 3 && hex_value(t[1]) >= 0 && hex_value(t[2]) >= 0 {
        seq![(16 * hex_value(t[1]) + hex_value(t[2])) as u8] + percent_decode(t.skip(3))
    } else {
        vstd::utf8::encode_utf8(seq![t[0]]) + percent_decode(t.skip(1))
    }
}

proof fn lemma_percent_bytes_concat(a: Seq<u8>, b: Seq<u8>)
    ensures
        percent_bytes(a + b) == percent_bytes(a) + percent_bytes(b),
    decreases b.len(),
{
    if b.len() == 0 {
        assert(a + b =~= a);
        assert(percent_bytes(a) + percent_bytes(b) =~= percent_bytes(a));
    } else {
        lemma_percent_bytes_concat(a, b.drop_last());
        assert((a + b).drop_last() =~= a + b.drop_last());
        assert((a + b).last() == b.last());
    }
}

proof fn lemma_hex_round_trip(d: nat)
    requires
        d < 16,
    ensures
        hex_value(hex_upper(d)) == d,
{
}

proof fn lemma_decode_one(b: u8, rest: Seq<char>)
    ensures
        percent_decode(percent_byte(b) + rest) == seq![b] + percent_decode(rest),
{
    let t = percent_byte(b) + rest;
    if is_ascii_alphanumeric(b) {
        let c = b as char;
        assert(t[0] == c);
        assert(t.skip(1) =~= rest);
        let u = c as u32;
        assert(u == b as u32);
        assert((u & 0x7F) as u8 == b) by (bit_vector)
            requires
                u == b as u32,
                b < 128,
        ;
        assert(seq![c].drop_first() =~= Seq::<char>::empty());
        assert(seq![c][0] == c);
        assert(vstd::utf8::encode_utf8(Seq::<char>::empty()) == Seq::<u8>::empty());
        assert(vstd::utf8::has_width_1_encoding(u));
        assert(vstd::utf8::encode_scalar(u) == seq![b]);
        assert(vstd::utf8::encode_utf8(seq![c]) =~= seq![b]);
    } else {
        let hi = (b / 16) as nat;
        let lo = (b % 16) as nat;
        lemma_hex_round_trip(hi);
        lemma_hex_round_trip(lo);
        assert(t[0] == '%');
        assert(t[1] == hex_upper(hi));
        assert(t[2] == hex_upper(lo));
        assert(t.skip(3) =~= rest);
        assert((16 * hi + lo) as u8 == b);
    }
}

proof fn lemma_decode_percent_bytes(bs: Seq<u8>)
    ensures
        percent_decode(percent_bytes(bs)) == bs,
    decreases bs.len(),
{
    if bs.len() > 0 {
        let b = bs[0];
        let rest = bs.drop_first();
        assert(bs =~= seq![b] + rest);
        lemma_percent_bytes_concat(seq![b], rest);
        assert(seq![b].drop_last() =~= Seq::<u8>::empty());
        assert(seq![b].last() == b);
        assert(percent_bytes(Seq::<u8>::empty()) == Seq::<char>::empty());
        assert(percent_bytes(seq![b]) =~= percent_byte(b));
        lemma_decode_one(b, percent_bytes(rest));
        lemma_decode_percent_bytes(rest);
        assert(seq![b] + rest =~= bs);
    }
}

/// Percent-decoding the encoding of `s` gives back the UTF-8 bytes of `s`,
/// and decoding those as UTF-8 gives back `s`: `encode_path` loses nothing.
pub proof fn law_percent_decoding_restores_text(s: Seq<char>)
    ensures
        percent_decode(percent_encoded(s)) == vstd::utf8::encode_utf8(s),
        vstd::utf8::valid_utf8(percent_decode(percent_encoded(s))),
        vstd::utf8::decode_utf8(percent_decode(percent_encoded(s))) == s,
{
    lemma_decode_percent_bytes(vstd::utf8::encode_utf8(s));
    vstd::utf8::encode_utf8_valid_utf8(s);
    vstd::utf8::encode_utf8_decode_utf8(s);
}

/// `t` begins with `p`.
pub open spec fn starts_with(t: Seq<char>, p: Seq<char>) -> bool {
    p.len() <= t.len() && t.take(p.len() as int) == p
}

/// `t` begins with one of the five entities `&amp;`, `&lt;`, `&gt;`,
/// `&quot;`, `&apos;`.
pub open spec fn starts_with_entity(t: Seq<char>) -> bool {
    ||| starts_with(t, seq!['&', 'a', 'm', 'p', ';'])
    ||| starts_with(t, seq!['&', 'l', 't', ';'])
    ||| starts_with(t, seq!['&', 'g', 't', ';'])
    ||| starts_with(t, seq!['&', 'q', 'u', 'o', 't', ';'])
    ||| starts_with(t, seq!['&', 'a', 'p', 'o', 's', ';'])
}

/// XML unescaping in one left-to-right pass: each of the five entities
/// becomes its character, every other character stays.
pub open spec fn xml_unescape(t: Seq<char>) -> Seq<char>
    decreases t.len(),
{
    if t.len() == 0 {
        Seq::empty()
    } else if starts_with(t, seq!['&', 'a', 'm', 'p', ';']) {
        seq!['&'] + xml_unescape(t.skip(5))
    } else if starts_with(t, seq!['&', 'l', 't', ';']) {
        seq!['<'] + xml_unescape(t.skip(4))
    } else if starts_with(t, seq!['&', 'g', 't', ';']) {
        seq!['>'] + xml_unescape(t.skip(4))
    } else if starts_with(t, seq!['&', 'q', 'u', 'o', 't', ';']) {
        seq!['"'] + xml_unescape(t.skip(6))
    } else if starts_with(t, seq!['&', 'a', 'p', 'o', 's', ';']) {
        seq!['\''] + xml_unescape(t.skip(6))
    } else {
        seq![t[0]] + xml_unescape(t.skip(1))
    }
}

/// One of the five characters that XML escaping rewrites.
pub open spec fn is_xml_special(c: char) -> bool {
    c == '&' || c == '<' || c == '>' || c == '"' || c == '\''
}

proof fn reveal_entities()
    ensures
        "&amp;"@ == seq!['&', 'a', 'm', 'p', ';'],
        "&lt;"@ == seq!['&', 'l', 't', ';'],
        "&gt;"@ == seq!['&', 'g', 't', ';'],
        "&quot;"@ == seq!['&', 'q', 'u', 'o', 't', ';'],
        "&apos;"@ == seq!['&', 'a', 'p', 'o', 's', ';'],
{
    reveal_strlit("&amp;");
    reveal_strlit("&lt;");
    reveal_strlit("&gt;");
    reveal_strlit("&quot;");
    reveal_strlit("&apos;");
    assert("&amp;"@ =~= seq!['&', 'a', 'm', 'p', ';']);
    assert("&lt;"@ =~= seq!['&', 'l', 't', ';']);
    assert("&gt;"@ =~= seq!['&', 'g', 't', ';']);
    assert("&quot;"@ =~= seq!['&', 'q', 'u', 'o', 't', ';']);
    assert("&apos;"@ =~= seq!['&', 'a', 'p', 'o', 's', ';']);
}

proof fn lemma_escape_concat(a: Seq<char>, b: Seq<char>)
    ensures
        escape_text(a + b) == escape_text(a) + escape_text(b),
    decreases b.len(),
{
    if b.len() == 0 {
        assert(a + b =~= a);
        assert(escape_text(a) + escape_text(b) =~= escape_text(a));
    } else {
        lemma_escape_concat(a, b.drop_last());
        assert((a + b).drop_last() =~= a + b.drop_last());
        assert((a + b).last() == b.last());
    }
}

proof fn lemma_escape_single(c: char)
    ensures
        escape_text(seq![c]) == escape_char(c),
{
    assert(seq![c].drop_last() =~= Seq::<char>::empty());
    assert(seq![c].last() == c);
    assert(escape_text(Seq::<char>::empty()) == Seq::<char>::empty());
    assert(Seq::<char>::empty() + escape_char(c) =~= escape_char(c));
}

proof fn lemma_skip_prefix(p: Seq<char>, rest: Seq<char>)
    ensures
        starts_with(p + rest, p),
        (p + rest).skip(p.len() as int) == rest,
{
    assert((p + rest).take(p.len() as int) =~= p);
    assert((p + rest).skip(p.len() as int) =~= rest);
}

proof fn lemma_unescape_one(c: char, rest: Seq<char>)
    ensures
        xml_unescape(escape_char(c) + rest) == seq![c] + xml_unescape(rest),
{
    reveal_entities();
    let e = escape_char(c);
    let t = e + rest;
    lemma_skip_prefix(e, rest);
    let amp = seq!['&', 'a', 'm', 'p', ';'];
    let lt = seq!['&', 'l', 't', ';'];
    let gt = seq!['&', 'g', 't', ';'];
    let quot = seq!['&', 'q', 'u', 'o', 't', ';'];
    let apos = seq!['&', 'a', 'p', 'o', 's', ';'];
    assert(t[0] == e[0]);
    if c == '&' {
        assert(e == amp);
    } else if c == '<' {
        assert(t[1] == 'l');
        assert(!starts_with(t, amp)) by {
            if starts_with(t, amp) {
                assert(t.take(5)[1] == t[1]);
            }
        }
    } else if c == '>' {
        assert(t[1] == 'g');
        assert(!starts_with(t, amp)) by {
            if starts_with(t, amp) {
                assert(t.take(5)[1] == t[1]);
            }
        }
        assert(!starts_with(t, lt)) by {
            if starts_with(t, lt) {
                assert(t.take(4)[1] == t[1]);
            }
        }
    } else if c == '"' {
        assert(t[1] == 'q');
        assert(!starts_with(t, amp)) by {
            if starts_with(t, amp) {
                assert(t.take(5)[1] == t[1]);
            }
        }
        assert(!starts_with(t, lt)) by {
            if starts_with(t, lt) {
                assert(t.take(4)[1] == t[1]);
            }
        }
        assert(!starts_with(t, gt)) by {
            if starts_with(t, gt) {
                assert(t.take(4)[1] == t[1]);
            }
        }
    } else if c == '\'' {
        assert(t[1] == 'a');
        assert(t[2] == 'p');
        assert(!starts_with(t, amp)) by {
            if starts_with(t, amp) {
                assert(t.take(5)[2] == t[2]);
            }
        }
        assert(!starts_with(t, lt)) by {
            if starts_with(t, lt) {
                assert(t.take(4)[1] == t[1]);
            }
        }
        assert(!starts_with(t, gt)) by {
            if starts_with(t, gt) {
                assert(t.take(4)[1] == t[1]);
            }
        }
        assert(!starts_with(t, quot)) by {
            if starts_with(t, quot) {
                assert(t.take(6)[1] == t[1]);
            }
        }
    } else {
        assert(t[0] == c);
        assert(!starts_with_entity(t)) by {
            if starts_with(t, amp) {
                assert(t.take(5)[0] == t[0]);
            }
            if starts_with(t, lt) {
                assert(t.take(4)[0] == t[0]);
            }
            if starts_with(t, gt) {
                assert(t.take(4)[0] == t[0]);
            }
            if starts_with(t, quot) {
                assert(t.take(6)[0] == t[0]);
            }
            if starts_with(t, apos) {
                assert(t.take(6)[0] == t[0]);
            }
        }
    }
}

/// Unescaping escaped text gives back the text: `escape_xml` loses nothing.
pub proof fn law_unescape_restores_text(s: Seq<char>)
    ensures
        xml_unescape(escape_text(s)) == s,
    decreases s.len(),
{
    if s.len() > 0 {
        let c = s[0];
        let tail = s.drop_first();
        assert(s =~= seq![c] + tail);
        lemma_escape_concat(seq![c], tail);
        lemma_escape_single(c);
        lemma_unescape_one(c, escape_text(tail));
        law_unescape_restores_text(tail);
    } else {
        assert(escape_text(s) == Seq::<char>::empty());
    }
}

proof fn lemma_starts_with_extend(x: Seq<char>, y: Seq<char>, p: Seq<char>)
    requires
        starts_with(x, p),
    ensures
        starts_with(x + y, p),
{
    assert((x + y).take(p.len() as int) =~= x.take(p.len() as int));
}

/// Every `&` in escaped text opens one of the five entities.
pub proof fn law_escaped_ampersands_open_entities(s: Seq<char>)
    ensures
        forall|i: int|
            0 <= i < escape_text(s).len() && #[trigger] escape_text(s)[i] == '&'
                ==> starts_with_entity(escape_text(s).skip(i)),
    decreases s.len(),
{
    if s.len() > 0 {
        reveal_entities();
        let init = s.drop_last();
        let c = s.last();
        law_escaped_ampersands_open_entities(init);
        let head = escape_text(init);
        let e = escape_char(c);
        let t = escape_text(s);
        assert(t == head + e);
        assert forall|i: int| 0 <= i < t.len() && #[trigger] t[i] == '&' implies starts_with_entity(
            t.skip(i),
        ) by {
            if i < head.len() {
                assert(head[i] == t[i]);
                assert(t.skip(i) =~= head.skip(i) + e);
                let amp = seq!['&', 'a', 'm', 'p', ';'];
                let lt = seq!['&', 'l', 't', ';'];
                let gt = seq!['&', 'g', 't', ';'];
                let quot = seq!['&', 'q', 'u', 'o', 't', ';'];
                let apos = seq!['&', 'a', 'p', 'o', 's', ';'];
                if starts_with(head.skip(i), amp) {
                    lemma_starts_with_extend(head.skip(i), e, amp);
                } else if starts_with(head.skip(i), lt) {
                    lemma_starts_with_extend(head.skip(i), e, lt);
                } else if starts_with(head.skip(i), gt) {
                    lemma_starts_with_extend(head.skip(i), e, gt);
                } else if starts_with(head.skip(i), quot) {
                    lemma_starts_with_extend(head.skip(i), e, quot);
                } else {
                    lemma_starts_with_extend(head.skip(i), e, apos);
                }
            } else {
                let k = i - head.len();
                assert(e[k] == t[i]);
                assert(is_xml_special(c));
                assert(k == 0);
                assert(t.skip(i) =~= e);
                assert(e.take(e.len() as int) =~= e);
            }
        }
    }
}

/// Text without any of `&`, `<`, `>`, `"`, `'` is left as it is.
pub proof fn law_plain_text_is_unchanged(s: Seq<char>)
    requires
        forall|i: int| 0 <= i < s.len() ==> !is_xml_special(#[trigger] s[i]),
    ensures
        escape_text(s) == s,
    decreases s.len(),
{
    if s.len() > 0 {
        let init = s.drop_last();
        assert forall|i: int| 0 <= i < init.len() implies !is_xml_special(#[trigger] init[i]) by {
            assert(init[i] == s[i]);
        }
        law_plain_text_is_unchanged(init);
        assert(!is_xml_special(s[s.len() - 1]));
        assert(init.push(s.last()) =~= s);
    }
}

/// Lines joined by `\n`.
pub open spec fn join_lines(parts: Seq<Seq<char>>) -> Seq<char>
    decreases parts.len(),
{
    if parts.len() == 0 {
        Seq::empty()
    } else if parts.len() == 1 {
        parts[0]
    } else {
        join_lines(parts.drop_last()) + "\n"@ + parts.last()
    }
}

proof fn lemma_tracks_are_joined(media: Seq<MediaFile>, base_url: Seq<char>)
    ensures
        tracks_text(media, base_url) == join_lines(
            Seq::new(media.len(), |k: int| track_text(media[k], base_url)),
        ),
    decreases media.len(),
{
    let parts = Seq::new(media.len(), |k: int| track_text(media[k], base_url));
    if media.len() > 1 {
        let init = media.drop_last();
        lemma_tracks_are_joined(init, base_url);
        assert(parts.drop_last() =~= Seq::new(init.len(), |k: int| track_text(init[k], base_url)));
    }
}

/// The playlist is the XSPF header, then the single-track element of each
/// media item in order, one per line, then the footer: the `k`-th `<track>`
/// of the playlist is exactly the track element of `media[k]`.
pub proof fn law_xspf_lists_each_track(media: Seq<MediaFile>, base_url: Seq<char>)
    ensures
        xspf_text(media, base_url) == "<?xml version=\"1.0\" encoding=\"UTF-8\"?>\n<playlist xmlns=\"http://xspf.org/ns/0/\" version=\"1\">\n  <trackList>\n"@
            + join_lines(Seq::new(media.len(), |k: int| track_text(media[k], base_url)))
            + "\n  </trackList>\n</playlist>"@,
{
    lemma_tracks_are_joined(media, base_url);
}

/// The track element of a media item holds its location, its title as
/// escaped XML text, and its duration in milliseconds: the title text has no
/// raw `<`, `>`, `"` or `'`, every `&` in it opens one of the five entities,
/// and unescaping it gives back the item's title.
pub proof fn law_track_title_is_escaped(m: MediaFile, base_url: Seq<char>)
    ensures
        exists|t: Seq<char>|
            {
                &&& track_text(m, base_url) == "    <track>\n      <location>"@ + base_url
                    + "/file/"@ + m.id@ + "</location>\n      <title>"@ + t
                    + "</title>\n      <duration>"@ + int_text(duration_ms(m))
                    + "</duration>\n    </track>"@
                &&& #[trigger] xml_unescape(t) == m.title@
                &&& forall|i: int|
                    0 <= i < t.len() ==> {
                        let c = #[trigger] t[i];
                        c != '<' && c != '>' && c != '"' && c != '\''
                    }
                &&& forall|i: int|
                    0 <= i < t.len() && #[trigger] t[i] == '&' ==> starts_with_entity(t.skip(i))
            },
{
    let t = escape_text(m.title@);
    law_unescape_restores_text(m.title@);
    law_escaped_text_has_no_markup(m.title@);
    law_escaped_ampersands_open_entities(m.title@);
    assert(track_text(m, base_url) == "    <track>\n      <location>"@ + base_url + "/file/"@
        + m.id@ + "</location>\n      <title>"@ + t + "</title>\n      <duration>"@ + int_text(
        duration_ms(m),
    ) + "</duration>\n    </track>"@);
    assert(xml_unescape(t) == m.title@);
}

} // verus!
