//! Server configuration and the decisions read from it: whether TLS is on,
//! which URL scheme the server speaks, and where certificates are looked for.

use vstd::prelude::*;
use crate::paths::{join_path, joined};
use crate::text::opt_str;

verus! {

/// Reelcast — local media server for VLC. Paths are held as text.
#[derive(Debug)]
pub struct Config {
    /// One or more directories to scan for media files
    pub library: Vec<String>,
    /// Port to listen on
    pub port: u16,
    /// Host/bind address
    pub host: String,
    /// SQLite database path
    pub db: String,
    /// Scan libraries on startup
    pub scan_on_start: bool,
    /// Log level (trace, debug, info, warn, error)
    pub log_level: String,
    /// HTTP port for VLC media access (used when TLS is enabled)
    pub media_port: u16,
    /// TLS certificate (PEM) — enables HTTPS when provided
    pub cert: Option<String>,
    /// TLS private key (PEM) — required when --cert is set
    pub key: Option<String>,
}

/// The directory under which certificates are looked for: `reelcast` inside
/// the user's configuration directory, or inside `~/.config` when there is none.
pub open spec fn tls_dir(config_dir: Option<Seq<char>>) -> Seq<char> {
    let base = match config_dir {
        Some(d) => d,
        None => "~/.config"@,
    };
    joined(base, "reelcast"@)
}

impl Config {
    /// TLS is on when both a certificate and a key are configured.
    pub open spec fn tls_on(&self) -> bool {
        self.cert is Some && self.key is Some
    }

    /// Whether the server speaks HTTPS.
    pub fn tls_enabled(&self) -> (r: bool)
        ensures
            r == self.tls_on(),
    {
        self.cert.is_some() && self.key.is_some()
    }

    /// The URL scheme of the server: `https` with TLS, `http` without.
    pub fn scheme(&self) -> (r: &'static str)
        ensures
            r@ == (if self.tls_on() {
                "https"@
            } else {
                "http"@
            }),
    {
        if self.tls_enabled() {
            "https"
        } else {
            "http"
        }
    }

    /// The certificate and key files to look for, when neither is configured:
    /// `cert.pem` and `key.pem` in `tls_dir(config_dir)`. `None` when a
    /// certificate or a key is configured, since explicit flags win.
    pub fn tls_detection_paths(&self, config_dir: Option<&str>) -> (r: Option<(String, String)>)
        ensures
            match r {
                Some((c, k)) => {
                    &&& self.cert is None && self.key is None
                    &&& c@ == joined(tls_dir(opt_str(config_dir)), "cert.pem"@)
                    &&& k@ == joined(tls_dir(opt_str(config_dir)), "key.pem"@)
                },
                None => self.cert is Some || self.key is Some,
            },
    {
        if self.cert.is_none() && self.key.is_none() {
            let base = match config_dir {
                Some(d) => join_path(d, "reelcast"),
                None => join_path("~/.config", "reelcast"),
            };
            let cert = join_path(base.as_str(), "cert.pem");
            let key = join_path(base.as_str(), "key.pem");
            Some((cert, key))
        } else {
            None
        }
    }

    /// Resolve cert/key — explicit flags win, then the files auto-detected in
    /// the configuration directory (`found`, when both exist there) are used.
    pub fn resolve_tls(&mut self, found: Option<(String, String)>)
        ensures
            (old(self).cert is None && old(self).key is None && found is Some) ==> {
                &&& final(self).cert == Some(found.unwrap().0)
                &&& final(self).key == Some(found.unwrap().1)
            },
            !(old(self).cert is None && old(self).key is None && found is Some) ==> {
                &&& final(self).cert == old(self).cert
                &&& final(self).key == old(self).key
            },
            final(self).library == old(self).library,
            final(self).port == old(self).port,
            final(self).host == old(self).host,
            final(self).db == old(self).db,
            final(self).scan_on_start == old(self).scan_on_start,
            final(self).log_level == old(self).log_level,
            final(self).media_port == old(self).media_port,
    {
        if self.cert.is_none() && self.key.is_none() {
            if let Some((cert, key)) = found {
                self.cert = Some(cert);
                self.key = Some(key);
            }
        }
    }
}

} // verus!
