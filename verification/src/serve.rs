//! What the HTTP handlers compute: the base URLs the server advertises, the
//! JSON items of the media list, search and recent-plays views, media lookup
//! by id, and the download names of playlists.

use vstd::prelude::*;
use crate::config::Config;
use crate::error::ReelcastError;
use crate::media::{clone_opt_string, MediaFile, PlayHistory};
use crate::paths::{extension, path_extension};
use crate::text::{
    opt_str, opt_text,
    chars_of, contains_chars, contains_text, int_text, lowercase, nat_text, push_i64, push_str,
    push_u64, string_of, to_lowercase,
};
use crate::vlc::{percent_encode_non_alphanumeric, percent_encoded};

verus! {

// ── base URLs ────────────────────────────────────────────────────────────────

/// The host the server advertises: its LAN address when known, else the
/// configured host.
pub open spec fn advertised_host(config: Config, local_ip: Option<Seq<char>>) -> Seq<char> {
    match local_ip {
        Some(ip) => ip,
        None => config.host@,
    }
}

/// `scheme://host:port` of the server.
pub open spec fn base_url_text(config: Config, local_ip: Option<Seq<char>>) -> Seq<char> {
    let scheme = if config.tls_on() {
        "https"@
    } else {
        "http"@
    };
    scheme + "://"@ + advertised_host(config, local_ip) + ":"@ + nat_text(config.port as nat)
}

/// `http://host:port` for file URLs: plain HTTP on the media port when TLS is
/// on, since VLC does not trust self-signed certificates.
pub open spec fn file_base_url_text(config: Config, local_ip: Option<Seq<char>>) -> Seq<char> {
    let port = if config.tls_on() {
        config.media_port
    } else {
        config.port
    };
    "http://"@ + advertised_host(config, local_ip) + ":"@ + nat_text(port as nat)
}

/// The base URL of the server; `local_ip` is its LAN address, if one was found.
pub fn base_url(config: &Config, local_ip: Option<&str>) -> (r: String)
    ensures
        r@ == base_url_text(*config, opt_str(local_ip)),
{
    let mut r = String::new();
    push_str(&mut r, config.scheme());
    push_str(&mut r, "://");
    match local_ip {
        Some(ip) => push_str(&mut r, ip),
        None => push_str(&mut r, config.host.as_str()),
    }
    push_str(&mut r, ":");
    push_u64(&mut r, config.port as u64);
    r
}

/// File URLs always use plain HTTP — VLC doesn't trust self-signed certs.
/// When TLS is enabled, points to the dedicated HTTP media_port.
pub fn file_base_url(config: &Config, local_ip: Option<&str>) -> (r: String)
    ensures
        r@ == file_base_url_text(*config, opt_str(local_ip)),
{
    let port = if config.tls_enabled() {
        config.media_port
    } else {
        config.port
    };
    let mut r = String::new();
    push_str(&mut r, "http://");
    match local_ip {
        Some(ip) => push_str(&mut r, ip),
        None => push_str(&mut r, config.host.as_str()),
    }
    push_str(&mut r, ":");
    push_u64(&mut r, port as u64);
    r
}

// ── media items ──────────────────────────────────────────────────────────────

/// A media file as the JSON API lists it, with the URLs to reach it.
#[derive(Debug)]
pub struct MediaItem {
    pub id: String,
    pub title: String,
    pub year: Option<i64>,
    pub duration_secs: Option<i64>,
    pub size_bytes: i64,
    pub container: Option<String>,
    pub resolution: Option<String>,
    pub file_url: String,
    pub play_url: String,
    pub playlist_url: String,
}

/// A recently played media file as the JSON API lists it.
#[derive(Debug)]
pub struct RecentItem {
    pub media_id: String,
    pub title: String,
    pub played_at: i64,
    pub file_url: String,
    pub play_url: String,
}

/// `WxH` when both dimensions are known.
pub open spec fn resolution_text(width: Option<i64>, height: Option<i64>) -> Option<Seq<char>> {
    match (width, height) {
        (Some(w), Some(h)) => Some(int_text(w as int) + "x"@ + int_text(h as int)),
        _ => None,
    }
}

/// The extension a file URL carries: the file's own, `mkv` when it has none.
pub open spec fn url_extension(path: Seq<char>) -> Seq<char> {
    match extension(path) {
        Some(e) => e,
        None => "mkv"@,
    }
}

/// `item` lists `m`, with play URLs under `base_url` and file URLs under
/// `file_base`.
pub open spec fn lists_media(
    item: MediaItem,
    m: MediaFile,
    base_url: Seq<char>,
    file_base: Seq<char>,
) -> bool {
    &&& item.id@ == m.id@
    &&& item.title@ == m.title@
    &&& item.year == m.year
    &&& item.duration_secs == m.duration_secs
    &&& item.size_bytes == m.size_bytes
    &&& opt_text(item.container) == opt_text(m.container)
    &&& opt_text(item.resolution) == resolution_text(m.width, m.height)
    &&& item.file_url@ == file_base + "/file/"@ + m.id@ + "/"@ + percent_encoded(m.title@) + "."@
        + url_extension(m.path@)
    &&& item.play_url@ == base_url + "/play/"@ + m.id@
    &&& item.playlist_url@ == base_url + "/playlist/"@ + m.id@
}

/// `items` lists each of `files`, in order.
pub open spec fn lists_all(
    items: Seq<MediaItem>,
    files: Seq<MediaFile>,
    base_url: Seq<char>,
    file_base: Seq<char>,
) -> bool {
    &&& items.len() == files.len()
    &&& forall|i: int| 0 <= i < files.len() ==> lists_media(#[trigger] items[i], files[i], base_url, file_base)
}

fn urlenc(s: &str) -> (r: String)
    ensures
        r@ == percent_encoded(s@),
{
    percent_encode_non_alphanumeric(s)
}

impl MediaItem {
    /// The item that lists `m`.
    pub fn from_media(m: &MediaFile, base_url: &str, file_base: &str) -> (r: Self)
        ensures
            lists_media(r, *m, base_url@, file_base@),
    {
        let resolution = match (m.width, m.height) {
            (Some(w), Some(h)) => {
                let mut s = String::new();
                push_i64(&mut s, w);
                push_str(&mut s, "x");
                push_i64(&mut s, h);
                Some(s)
            },
            _ => None,
        };
        let mut file_url = String::new();
        push_str(&mut file_url, file_base);
        push_str(&mut file_url, "/file/");
        push_str(&mut file_url, m.id.as_str());
        push_str(&mut file_url, "/");
        push_str(&mut file_url, urlenc(m.title.as_str()).as_str());
        push_str(&mut file_url, ".");
        match path_extension(&chars_of(m.path.as_str())) {
            Some(e) => push_str(&mut file_url, string_of(&e).as_str()),
            None => push_str(&mut file_url, "mkv"),
        }
        let mut play_url = String::new();
        push_str(&mut play_url, base_url);
        push_str(&mut play_url, "/play/");
        push_str(&mut play_url, m.id.as_str());
        let mut playlist_url = String::new();
        push_str(&mut playlist_url, base_url);
        push_str(&mut playlist_url, "/playlist/");
        push_str(&mut playlist_url, m.id.as_str());
        MediaItem {
            file_url,
            play_url,
            playlist_url,
            id: m.id.clone(),
            title: m.title.clone(),
            year: m.year,
            duration_secs: m.duration_secs,
            size_bytes: m.size_bytes,
            container: clone_opt_string(&m.container),
            resolution,
        }
    }
}

/// The items of the media list: one per file, in order.
pub fn media_items(files: &[MediaFile], base_url: &str, file_base: &str) -> (r: Vec<MediaItem>)
    ensures
        lists_all(r@, files@, base_url@, file_base@),
{
    let mut r: Vec<MediaItem> = Vec::new();
    let mut i: usize = 0;
    while i < files.len()
        invariant
            i <= files@.len(),
            lists_all(r@, files@.take(i as int), base_url@, file_base@),
        decreases files.len() - i,
    {
        r.push(MediaItem::from_media(&files[i], base_url, file_base));
        i = i + 1;
    }
    assert(files@.take(files@.len() as int) =~= files@);
    r
}

// ── search ───────────────────────────────────────────────────────────────────

/// A title matches a query when the lower-cased query occurs in the
/// lower-cased title.
pub open spec fn title_matches_spec(title: Seq<char>, query: Seq<char>) -> bool {
    contains_text(lowercase(title), lowercase(query))
}

/// The files whose titles match `query`, in their order.
pub open spec fn matching(files: Seq<MediaFile>, query: Seq<char>) -> Seq<MediaFile>
    decreases files.len(),
{
    if files.len() == 0 {
        Seq::empty()
    } else if title_matches_spec(files.last().title@, query) {
        matching(files.drop_last(), query).push(files.last())
    } else {
        matching(files.drop_last(), query)
    }
}

/// The files a search returns: all of them when the query is absent or
/// empty, else those whose titles match it.
pub open spec fn search_results(files: Seq<MediaFile>, q: Option<Seq<char>>) -> Seq<MediaFile> {
    match q {
        Some(query) => if query.len() == 0 {
            files
        } else {
            matching(files, query)
        },
        None => files,
    }
}

/// Whether the lower-cased query occurs in the lower-cased title.
pub fn title_matches(lower_title: &str, lower_query: &str) -> (r: bool)
    ensures
        r == contains_text(lower_title@, lower_query@),
{
    contains_chars(&chars_of(lower_title), &chars_of(lower_query))
}

/// The items of a title search: the files whose lower-cased titles contain
/// the lower-cased query, or all files when the query is absent or empty.
pub fn search_items(files: &[MediaFile], q: Option<&str>, base_url: &str, file_base: &str) -> (r:
    Vec<MediaItem>)
    ensures
        lists_all(r@, search_results(files@, opt_str(q)), base_url@, file_base@),
{
    let query = match q {
        Some(q) => if chars_of(q).len() == 0 {
            None
        } else {
            Some(q)
        },
        None => None,
    };
    match query {
        None => media_items(files, base_url, file_base),
        Some(q) => {
            let q_lower = to_lowercase(q);
            let mut r: Vec<MediaItem> = Vec::new();
            let mut i: usize = 0;
            while i < files.len()
                invariant
                    i <= files@.len(),
                    q_lower@ == lowercase(q@),
                    lists_all(r@, matching(files@.take(i as int), q@), base_url@, file_base@),
                decreases files.len() - i,
            {
                let m = &files[i];
                let t_lower = to_lowercase(m.title.as_str());
                let ghost prefix = files@.take(i + 1);
                assert(prefix.drop_last() =~= files@.take(i as int));
                assert(prefix.last() == files@[i as int]);
                if title_matches(t_lower.as_str(), q_lower.as_str()) {
                    r.push(MediaItem::from_media(m, base_url, file_base));
                }
                i = i + 1;
            }
            assert(files@.take(files@.len() as int) =~= files@);
            r
        },
    }
}

// ── recent plays ─────────────────────────────────────────────────────────────

/// `item` lists the play `h`.
pub open spec fn lists_play(
    item: RecentItem,
    h: PlayHistory,
    base_url: Seq<char>,
    file_base: Seq<char>,
) -> bool {
    &&& item.media_id@ == h.media_id@
    &&& item.title@ == h.title@
    &&& item.played_at == h.played_at
    &&& item.file_url@ == file_base + "/file/"@ + h.media_id@ + "/"@ + percent_encoded(h.title@)
    &&& item.play_url@ == base_url + "/play/"@ + h.media_id@
}

impl RecentItem {
    /// The item that lists the play `h`.
    pub fn from_play(h: &PlayHistory, base_url: &str, file_base: &str) -> (r: Self)
        ensures
            lists_play(r, *h, base_url@, file_base@),
    {
        let mut file_url = String::new();
        push_str(&mut file_url, file_base);
        push_str(&mut file_url, "/file/");
        push_str(&mut file_url, h.media_id.as_str());
        push_str(&mut file_url, "/");
        push_str(&mut file_url, urlenc(h.title.as_str()).as_str());
        let mut play_url = String::new();
        push_str(&mut play_url, base_url);
        push_str(&mut play_url, "/play/");
        push_str(&mut play_url, h.media_id.as_str());
        RecentItem {
            file_url,
            play_url,
            media_id: h.media_id.clone(),
            title: h.title.clone(),
            played_at: h.played_at,
        }
    }
}

/// The items of the recent-plays view: one per play, in order.
pub fn recent_items(plays: &[PlayHistory], base_url: &str, file_base: &str) -> (r: Vec<RecentItem>)
    ensures
        r@.len() == plays@.len(),
        forall|i: int|
            0 <= i < plays@.len() ==> lists_play(#[trigger] r@[i], plays@[i], base_url@, file_base@),
{
    let mut r: Vec<RecentItem> = Vec::new();
    let mut i: usize = 0;
    while i < plays.len()
        invariant
            i <= plays@.len(),
            r@.len() == i,
            forall|k: int|
                0 <= k < i ==> lists_play(#[trigger] r@[k], plays@[k], base_url@, file_base@),
        decreases plays.len() - i,
    {
        r.push(RecentItem::from_play(&plays[i], base_url, file_base));
        i = i + 1;
    }
    r
}

// ── lookup and playlist downloads ────────────────────────────────────────────

/// Index of the first file with the given id, or -1.
pub open spec fn first_with_id(files: Seq<MediaFile>, id: Seq<char>) -> int
    decreases files.len(),
{
    if files.len() == 0 {
        -1
    } else {
        let r = first_with_id(files.drop_last(), id);
        if r >= 0 {
            r
        } else if files.last().id@ == id {
            files.len() - 1
        } else {
            -1
        }
    }
}

/// Look up a file by id: the first file that has it.
pub fn find_media(files: &[MediaFile], id: &str) -> (r: Option<MediaFile>)
    ensures
        first_with_id(files@, id@) >= 0 ==> r == Some(files@[first_with_id(files@, id@)]),
        first_with_id(files@, id@) < 0 ==> r is None,
{
    let mut i: usize = 0;
    while i < files.len()
        invariant
            i <= files@.len(),
            first_with_id(files@.take(i as int), id@) == -1,
        decreases files.len() - i,
    {
        let ghost prefix = files@.take(i + 1);
        assert(prefix.drop_last() =~= files@.take(i as int));
        if crate::text::str_is(files[i].id.as_str(), id) {
            let m = files[i].clone();
            proof {
                lemma_first_with_id_prefix(files@, id@, i + 1);
            }
            return Some(m);
        }
        i = i + 1;
    }
    assert(files@.take(files@.len() as int) =~= files@);
    None
}

/// The first file with an id is found in every prefix that holds it.
pub proof fn lemma_first_with_id_prefix(files: Seq<MediaFile>, id: Seq<char>, n: int)
    requires
        0 <= n <= files.len(),
        first_with_id(files.take(n), id) >= 0,
    ensures
        first_with_id(files, id) == first_with_id(files.take(n), id),
    decreases files.len() - n,
{
    if n < files.len() {
        let next = files.take(n + 1);
        assert(next.drop_last() =~= files.take(n));
        lemma_first_with_id_prefix(files, id, n + 1);
    } else {
        assert(files.take(n) =~= files);
    }
}

/// `attachment; filename="<title>.<ext>"`, the download name of a playlist.
pub open spec fn disposition_text(title: Seq<char>, ext: Seq<char>) -> Seq<char> {
    "attachment; filename=\""@ + title + "."@ + ext + "\""@
}

/// The `Content-Disposition` of the XSPF playlist of a file titled `title`.
pub fn xspf_disposition(title: &str) -> (r: String)
    ensures
        r@ == disposition_text(title@, "xspf"@),
{
    let mut r = String::new();
    push_str(&mut r, "attachment; filename=\"");
    push_str(&mut r, title);
    push_str(&mut r, ".");
    push_str(&mut r, "xspf");
    push_str(&mut r, "\"");
    r
}

/// The `Content-Disposition` of the M3U playlist of a file titled `title`.
pub fn m3u_disposition(title: &str) -> (r: String)
    ensures
        r@ == disposition_text(title@, "m3u"@),
{
    let mut r = String::new();
    push_str(&mut r, "attachment; filename=\"");
    push_str(&mut r, title);
    push_str(&mut r, ".");
    push_str(&mut r, "m3u");
    push_str(&mut r, "\"");
    r
}

/// The result of a lookup by id: the file when found, else `MediaNotFound`
/// naming the id.
pub fn media_or_not_found(found: Option<MediaFile>, id: &str) -> (r: Result<MediaFile, ReelcastError>)
    ensures
        match found {
            Some(m) => r == Ok::<MediaFile, ReelcastError>(m),
            None => r matches Err(ReelcastError::MediaNotFound { id: missing }) && missing@ == id@,
        },
{
    match found {
        Some(m) => Ok(m),
        None => Err(ReelcastError::MediaNotFound { id: string_of(&chars_of(id)) }),
    }
}

/// The certificate offered for download: the configured one, or a
/// `Scanner("No cert configured")` error when there is none.
pub fn cert_to_serve(config: &Config) -> (r: Result<String, ReelcastError>)
    ensures
        match config.cert {
            Some(c) => r == Ok::<String, ReelcastError>(c),
            None => r matches Err(ReelcastError::Scanner(msg)) && msg@ == "No cert configured"@,
        },
{
    match &config.cert {
        Some(c) => Ok(c.clone()),
        None => Err(ReelcastError::Scanner(string_of(&chars_of("No cert configured")))),
    }
}

/// The `LIKE` pattern of a title search: `%q%`, matching titles that contain `q`.
pub fn title_like_pattern(q: &str) -> (r: String)
    ensures
        r@ == "%"@ + q@ + "%"@,
{
    let mut r = String::new();
    push_str(&mut r, "%");
    push_str(&mut r, q);
    push_str(&mut r, "%");
    r
}

// ── laws ─────────────────────────────────────────────────────────────────────

/// File URLs always use plain HTTP, with or without TLS, and go to the media
/// port when TLS is on.
pub proof fn law_file_urls_are_plain_http(config: Config, local_ip: Option<Seq<char>>)
    ensures
        file_base_url_text(config, local_ip).take("http://"@.len() as int) == "http://"@,
        config.tls_on() ==> file_base_url_text(config, local_ip) == "http://"@ + advertised_host(
            config,
            local_ip,
        ) + ":"@ + nat_text(config.media_port as nat),
{
    let t = file_base_url_text(config, local_ip);
    let p = "http://"@;
    let rest = advertised_host(config, local_ip) + ":"@ + nat_text(
        (if config.tls_on() { config.media_port } else { config.port }) as nat,
    );
    assert(t =~= p + rest);
    assert((p + rest).take(p.len() as int) =~= p);
}

/// Play URLs use the server's scheme: `https` exactly when TLS is on.
pub proof fn law_play_urls_follow_tls(config: Config, local_ip: Option<Seq<char>>)
    ensures
        config.tls_on() ==> base_url_text(config, local_ip).take("https://"@.len() as int)
            == "https://"@,
        !config.tls_on() ==> base_url_text(config, local_ip).take("http://"@.len() as int)
            == "http://"@,
{
    reveal_strlit("https");
    reveal_strlit("http");
    reveal_strlit("://");
    reveal_strlit("https://");
    reveal_strlit("http://");
    let t = base_url_text(config, local_ip);
    let rest = advertised_host(config, local_ip) + ":"@ + nat_text(config.port as nat);
    if config.tls_on() {
        assert(t =~= "https://"@ + rest);
        assert(("https://"@ + rest).take(8) =~= "https://"@);
    } else {
        assert(t =~= "http://"@ + rest);
        assert(("http://"@ + rest).take(7) =~= "http://"@);
    }
}

/// A search without a query, or with an empty one, returns every file; with
/// a query it returns exactly the files whose titles match, in their order.
pub proof fn law_search_selects_matching_titles(files: Seq<MediaFile>, query: Seq<char>)
    ensures
        search_results(files, None) == files,
        search_results(files, Some(Seq::<char>::empty())) == files,
        query.len() > 0 ==> forall|i: int|
            0 <= i < search_results(files, Some(query)).len() ==> title_matches_spec(
                (#[trigger] search_results(files, Some(query))[i]).title@,
                query,
            ),
        query.len() > 0 ==> forall|j: int|
            0 <= j < files.len() && title_matches_spec((#[trigger] files[j]).title@, query)
                ==> search_results(files, Some(query)).contains(files[j]),
    decreases files.len(),
{
    if query.len() > 0 {
        lemma_matching(files, query);
    }
}

proof fn lemma_matching(files: Seq<MediaFile>, query: Seq<char>)
    ensures
        forall|i: int|
            0 <= i < matching(files, query).len() ==> title_matches_spec(
                (#[trigger] matching(files, query)[i]).title@,
                query,
            ),
        forall|j: int|
            0 <= j < files.len() && title_matches_spec((#[trigger] files[j]).title@, query)
                ==> matching(files, query).contains(files[j]),
    decreases files.len(),
{
    if files.len() > 0 {
        let init = files.drop_last();
        lemma_matching(init, query);
        let m = matching(init, query);
        assert forall|j: int|
            0 <= j < files.len() && title_matches_spec((#[trigger] files[j]).title@, query)
                implies matching(files, query).contains(files[j]) by {
            if j < files.len() - 1 {
                assert(files[j] == init[j]);
                let k = choose|k: int| 0 <= k < m.len() && m[k] == init[j];
                if title_matches_spec(files.last().title@, query) {
                    assert(matching(files, query)[k] == m[k]);
                }
            } else {
                assert(matching(files, query).last() == files.last());
            }
        }
        assert forall|i: int| 0 <= i < matching(files, query).len() implies title_matches_spec(
            (#[trigger] matching(files, query)[i]).title@,
            query,
        ) by {
            if i < m.len() {
                assert(matching(files, query)[i] == m[i]);
            }
        }
    }
}

/// A listed item carries the fields of the file it lists unchanged: id,
/// title, year, duration, size and container; its resolution is the file's
/// `WxH` when both are known; and its URLs all name the file's id.
pub proof fn law_items_copy_their_file(
    item: MediaItem,
    m: MediaFile,
    base_url: Seq<char>,
    file_base: Seq<char>,
)
    requires
        lists_media(item, m, base_url, file_base),
    ensures
        item.id@ == m.id@,
        item.title@ == m.title@,
        item.year == m.year,
        item.duration_secs == m.duration_secs,
        item.size_bytes == m.size_bytes,
        opt_text(item.container) == opt_text(m.container),
        item.resolution is Some <==> (m.width is Some && m.height is Some),
        item.play_url@ == base_url + "/play/"@ + m.id@,
        item.playlist_url@ == base_url + "/playlist/"@ + m.id@,
        item.file_url@.take((file_base + "/file/"@ + m.id@ + "/"@).len() as int) == file_base
            + "/file/"@ + m.id@ + "/"@,
{
    let p = file_base + "/file/"@ + m.id@ + "/"@;
    let rest = percent_encoded(m.title@) + "."@ + url_extension(m.path@);
    assert(item.file_url@ =~= p + rest);
    assert((p + rest).take(p.len() as int) =~= p);
}

/// Every item of the media list and of a search lists a file with that
/// file's duration and other fields, in the order of the files.
pub proof fn law_listed_items_keep_durations(
    items: Seq<MediaItem>,
    files: Seq<MediaFile>,
    base_url: Seq<char>,
    file_base: Seq<char>,
)
    requires
        lists_all(items, files, base_url, file_base),
    ensures
        items.len() == files.len(),
        forall|i: int|
            0 <= i < files.len() ==> (#[trigger] items[i]).duration_secs == files[i].duration_secs
                && items[i].id@ == files[i].id@ && items[i].title@ == files[i].title@
                && items[i].year == files[i].year && items[i].size_bytes == files[i].size_bytes,
{
    assert forall|i: int| 0 <= i < files.len() implies (#[trigger] items[i]).duration_secs
        == files[i].duration_secs && items[i].id@ == files[i].id@ && items[i].title@
        == files[i].title@ && items[i].year == files[i].year && items[i].size_bytes
        == files[i].size_bytes by {
        law_items_copy_their_file(items[i], files[i], base_url, file_base);
    }
}

} // verus!
