//! Active player session registry.
//!
//! When a browser opens `/events/:session`, it registers here. The control
//! UI lists the sessions seen in the last 30 seconds, and commands go to a
//! session through the channel it registered with. Times are Unix seconds,
//! handed in by the caller.

use vstd::prelude::*;
use crate::media::clone_opt_string;
use crate::text::{chars_of, opt_text, str_is, string_of};

verus! {

/// What the registry knows about one player session.
#[derive(Debug)]
pub struct SessionInfo {
    pub session_id: String,
    pub media_id: Option<String>,
    pub media_title: Option<String>,
    pub client_ip: String,
    /// Unix timestamp, in seconds.
    pub last_seen: u64,
}

/// The abstract content of a `SessionInfo`.
pub struct SessionView {
    pub session_id: Seq<char>,
    pub media_id: Option<Seq<char>>,
    pub media_title: Option<Seq<char>>,
    pub client_ip: Seq<char>,
    pub last_seen: u64,
}

impl View for SessionInfo {
    type V = SessionView;

    open spec fn view(&self) -> SessionView {
        SessionView {
            session_id: self.session_id@,
            media_id: opt_text(self.media_id),
            media_title: opt_text(self.media_title),
            client_ip: self.client_ip@,
            last_seen: self.last_seen,
        }
    }
}

impl Clone for SessionInfo {
    fn clone(&self) -> (r: Self)
        ensures
            r == *self,
    {
        SessionInfo {
            session_id: self.session_id.clone(),
            media_id: clone_opt_string(&self.media_id),
            media_title: clone_opt_string(&self.media_title),
            client_ip: self.client_ip.clone(),
            last_seen: self.last_seen,
        }
    }
}

/// A registered session: what is known of it, and the channel that reaches
/// its player.
pub struct Session<Tx> {
    pub info: SessionInfo,
    pub tx: Tx,
}

/// The registry of sessions, keyed by session id.
pub struct SessionRegistry<Tx> {
    sessions: Vec<Session<Tx>>,
}

// ── the model ────────────────────────────────────────────────────────────────

/// The oldest `last_seen` that still counts as active at time `now`: 30
/// seconds earlier, or 0 near the epoch.
pub open spec fn cutoff(now: u64) -> u64 {
    if now >= 30 {
        (now - 30) as u64
    } else {
        0
    }
}

/// A session is active at `now` when it was seen at or after the cutoff.
pub open spec fn is_active(v: SessionView, now: u64) -> bool {
    v.last_seen >= cutoff(now)
}

/// The registry after `session_id` registers from `client_ip` at `now`: a
/// fresh entry with no media, replacing any entry of that id.
pub open spec fn registered<Tx>(
    m: Map<Seq<char>, (SessionView, Tx)>,
    session_id: Seq<char>,
    client_ip: Seq<char>,
    tx: Tx,
    now: u64,
) -> Map<Seq<char>, (SessionView, Tx)> {
    m.insert(
        session_id,
        (
            SessionView {
                session_id,
                media_id: None,
                media_title: None,
                client_ip,
                last_seen: now,
            },
            tx,
        ),
    )
}

/// The registry after the player of `session_id` reports playing a media
/// file at `now`; unchanged when the session is unknown.
pub open spec fn media_updated<Tx>(
    m: Map<Seq<char>, (SessionView, Tx)>,
    session_id: Seq<char>,
    media_id: Seq<char>,
    media_title: Seq<char>,
    now: u64,
) -> Map<Seq<char>, (SessionView, Tx)> {
    if m.contains_key(session_id) {
        let (v, tx) = m[session_id];
        m.insert(
            session_id,
            (
                SessionView {
                    media_id: Some(media_id),
                    media_title: Some(media_title),
                    last_seen: now,
                    ..v
                },
                tx,
            ),
        )
    } else {
        m
    }
}

/// The registry after a heartbeat of `session_id` at `now`; unchanged when
/// the session is unknown.
pub open spec fn heartbeat_at<Tx>(
    m: Map<Seq<char>, (SessionView, Tx)>,
    session_id: Seq<char>,
    now: u64,
) -> Map<Seq<char>, (SessionView, Tx)> {
    if m.contains_key(session_id) {
        let (v, tx) = m[session_id];
        m.insert(session_id, (SessionView { last_seen: now, ..v }, tx))
    } else {
        m
    }
}

/// `list` at `now` returns exactly the active sessions of `m`, each once.
pub open spec fn lists_active<Tx>(
    r: Seq<SessionInfo>,
    m: Map<Seq<char>, (SessionView, Tx)>,
    now: u64,
) -> bool {
    &&& forall|i: int|
        0 <= i < r.len() ==> {
            &&& m.contains_key(#[trigger] r[i]@.session_id)
            &&& m[r[i]@.session_id].0 == r[i]@
            &&& is_active(r[i]@, now)
        }
    &&& forall|k: Seq<char>|
        #![trigger m[k]]
        m.contains_key(k) && is_active(m[k].0, now) ==> exists|i: int|
            0 <= i < r.len() && (#[trigger] r[i]@).session_id == k
    &&& forall|i: int, j: int|
        0 <= i < r.len() && 0 <= j < r.len() && i != j ==> (#[trigger] r[i]@).session_id != (
        #[trigger] r[j]@).session_id
}

/// Session ids are distinct.
pub open spec fn unique_ids<Tx>(s: Seq<Session<Tx>>) -> bool {
    forall|i: int, j: int|
        0 <= i < s.len() && 0 <= j < s.len() && i != j ==> (#[trigger] s[i]).info.session_id@ != (
        #[trigger] s[j]).info.session_id@
}

/// What the registry records of a stored session.
pub open spec fn entry_of<Tx>(x: Session<Tx>) -> (SessionView, Tx) {
    (x.info@, x.tx)
}

/// The sessions of `s`, by id.
pub open spec fn sessions_view<Tx>(s: Seq<Session<Tx>>) -> Map<Seq<char>, (SessionView, Tx)> {
    Map::new(
        |k: Seq<char>| exists|i: int| 0 <= i < s.len() && (#[trigger] s[i]).info.session_id@ == k,
        |k: Seq<char>|
            entry_of(s[choose|i: int| 0 <= i < s.len() && (#[trigger] s[i]).info.session_id@ == k]),
    )
}

/// Each stored session is the entry for its id.
pub proof fn lemma_view_at<Tx>(s: Seq<Session<Tx>>, i: int)
    requires
        unique_ids(s),
        0 <= i < s.len(),
    ensures
        sessions_view(s).contains_key(s[i].info.session_id@),
        sessions_view(s)[s[i].info.session_id@] == entry_of(s[i]),
{
    let k = s[i].info.session_id@;
    assert(sessions_view(s).contains_key(k));
    let j = choose|j: int| 0 <= j < s.len() && (#[trigger] s[j]).info.session_id@ == k;
    assert(i == j);
}

/// Replacing a session by one of the same id replaces its entry.
pub proof fn lemma_view_update<Tx>(s: Seq<Session<Tx>>, i: int, x: Session<Tx>)
    requires
        unique_ids(s),
        0 <= i < s.len(),
        s[i].info.session_id@ == x.info.session_id@,
    ensures
        unique_ids(s.update(i, x)),
        sessions_view(s.update(i, x)) == sessions_view(s).insert(x.info.session_id@, entry_of(x)),
{
    let t = s.update(i, x);
    let id = x.info.session_id@;
    assert forall|a: int, b: int| 0 <= a < t.len() && 0 <= b < t.len() && a != b implies (
    #[trigger] t[a]).info.session_id@ != (#[trigger] t[b]).info.session_id@ by {
        assert(s[a].info.session_id@ != s[b].info.session_id@);
    }
    let m = sessions_view(s).insert(id, entry_of(x));
    assert forall|k: Seq<char>| sessions_view(t).contains_key(k) <==> m.contains_key(k) by {
        if sessions_view(t).contains_key(k) {
            let j = choose|j: int| 0 <= j < t.len() && (#[trigger] t[j]).info.session_id@ == k;
            if j != i {
                assert(s[j] == t[j]);
                assert(sessions_view(s).contains_key(k));
            }
        }
        if m.contains_key(k) {
            if k == id {
                assert(t[i].info.session_id@ == k);
            } else {
                let j = choose|j: int| 0 <= j < s.len() && (#[trigger] s[j]).info.session_id@ == k;
                assert(t[j] == s[j]);
            }
        }
    }
    assert forall|k: Seq<char>| sessions_view(t).contains_key(k) implies sessions_view(t)[k]
        == m[k] by {
        if k == id {
            lemma_view_at(t, i);
        } else {
            let j = choose|j: int| 0 <= j < t.len() && (#[trigger] t[j]).info.session_id@ == k;
            assert(j != i);
            assert(t[j] == s[j]);
            lemma_view_at(t, j);
            lemma_view_at(s, j);
        }
    }
    assert(sessions_view(t) =~= m);
}

/// Appending a session of a new id adds its entry.
pub proof fn lemma_view_push<Tx>(s: Seq<Session<Tx>>, x: Session<Tx>)
    requires
        unique_ids(s),
        !sessions_view(s).contains_key(x.info.session_id@),
    ensures
        unique_ids(s.push(x)),
        sessions_view(s.push(x)) == sessions_view(s).insert(x.info.session_id@, entry_of(x)),
{
    let t = s.push(x);
    let id = x.info.session_id@;
    let n = s.len() as int;
    assert forall|a: int, b: int| 0 <= a < t.len() && 0 <= b < t.len() && a != b implies (
    #[trigger] t[a]).info.session_id@ != (#[trigger] t[b]).info.session_id@ by {
        if a < n && b < n {
            assert(s[a].info.session_id@ != s[b].info.session_id@);
        } else if a < n {
            assert(t[a] == s[a]);
            if s[a].info.session_id@ == id {
                assert(sessions_view(s).contains_key(id));
            }
        } else {
            assert(t[b] == s[b]);
            if s[b].info.session_id@ == id {
                assert(sessions_view(s).contains_key(id));
            }
        }
    }
    let m = sessions_view(s).insert(id, entry_of(x));
    assert forall|k: Seq<char>| sessions_view(t).contains_key(k) <==> m.contains_key(k) by {
        if sessions_view(t).contains_key(k) {
            let j = choose|j: int| 0 <= j < t.len() && (#[trigger] t[j]).info.session_id@ == k;
            if j < n {
                assert(s[j] == t[j]);
                assert(sessions_view(s).contains_key(k));
            }
        }
        if m.contains_key(k) {
            if k == id {
                assert(t[n].info.session_id@ == k);
            } else {
                let j = choose|j: int| 0 <= j < s.len() && (#[trigger] s[j]).info.session_id@ == k;
                assert(t[j] == s[j]);
            }
        }
    }
    assert forall|k: Seq<char>| sessions_view(t).contains_key(k) implies sessions_view(t)[k]
        == m[k] by {
        if k == id {
            lemma_view_at(t, n);
        } else {
            let j = choose|j: int| 0 <= j < t.len() && (#[trigger] t[j]).info.session_id@ == k;
            assert(j < n);
            assert(t[j] == s[j]);
            lemma_view_at(t, j);
            lemma_view_at(s, j);
        }
    }
    assert(sessions_view(t) =~= m);
}

/// Removing a session removes its entry.
pub proof fn lemma_view_remove<Tx>(s: Seq<Session<Tx>>, i: int)
    requires
        unique_ids(s),
        0 <= i < s.len(),
    ensures
        unique_ids(s.remove(i)),
        sessions_view(s.remove(i)) == sessions_view(s).remove(s[i].info.session_id@),
{
    let t = s.remove(i);
    let id = s[i].info.session_id@;
    assert forall|a: int, b: int| 0 <= a < t.len() && 0 <= b < t.len() && a != b implies (
    #[trigger] t[a]).info.session_id@ != (#[trigger] t[b]).info.session_id@ by {
        let a2 = if a < i { a } else { a + 1 };
        let b2 = if b < i { b } else { b + 1 };
        assert(t[a] == s[a2]);
        assert(t[b] == s[b2]);
        assert(s[a2].info.session_id@ != s[b2].info.session_id@);
    }
    let m = sessions_view(s).remove(id);
    assert forall|k: Seq<char>| sessions_view(t).contains_key(k) <==> m.contains_key(k) by {
        if sessions_view(t).contains_key(k) {
            let j = choose|j: int| 0 <= j < t.len() && (#[trigger] t[j]).info.session_id@ == k;
            let j2 = if j < i { j } else { j + 1 };
            assert(t[j] == s[j2]);
            assert(sessions_view(s).contains_key(k));
            assert(s[j2].info.session_id@ != s[i].info.session_id@);
        }
        if m.contains_key(k) {
            let j = choose|j: int| 0 <= j < s.len() && (#[trigger] s[j]).info.session_id@ == k;
            assert(j != i);
            let j2 = if j < i { j } else { j - 1 };
            assert(t[j2] == s[j]);
        }
    }
    assert forall|k: Seq<char>| sessions_view(t).contains_key(k) implies sessions_view(t)[k]
        == m[k] by {
        let j = choose|j: int| 0 <= j < t.len() && (#[trigger] t[j]).info.session_id@ == k;
        let j2 = if j < i { j } else { j + 1 };
        assert(t[j] == s[j2]);
        lemma_view_at(t, j);
        lemma_view_at(s, j2);
    }
    assert(sessions_view(t) =~= m);
}

impl<Tx> SessionRegistry<Tx> {
    /// Session ids are distinct.
    pub closed spec fn wf(&self) -> bool {
        unique_ids(self.sessions@)
    }

    /// The sessions, by id: what is known of each and its channel.
    pub closed spec fn view(&self) -> Map<Seq<char>, (SessionView, Tx)> {
        sessions_view(self.sessions@)
    }

    /// Index of the session with id `id`, if any.
    fn position(&self, id: &str) -> (r: Option<usize>)
        requires
            self.wf(),
        ensures
            match r {
                Some(i) => i < self.sessions@.len() && self.sessions@[i as int].info.session_id@
                    == id@,
                None => !self.view().contains_key(id@),
            },
    {
        let mut i: usize = 0;
        while i < self.sessions.len()
            invariant
                i <= self.sessions@.len(),
                forall|j: int| 0 <= j < i ==> (#[trigger] self.sessions@[j]).info.session_id@ != id@,
            decreases self.sessions.len() - i,
        {
            if str_is(self.sessions[i].info.session_id.as_str(), id) {
                return Some(i);
            }
            i = i + 1;
        }
        None
    }

    /// An empty registry.
    pub fn new() -> (r: Self)
        ensures
            r.wf(),
            r.view() == Map::<Seq<char>, (SessionView, Tx)>::empty(),
    {
        let r = SessionRegistry { sessions: Vec::new() };
        assert(r.view() =~= Map::<Seq<char>, (SessionView, Tx)>::empty());
        r
    }

    /// Registers `session_id`, seen from `client_ip` at `now`, with the
    /// channel `tx` to its player. An earlier session of the same id is
    /// replaced.
    pub fn register(&mut self, session_id: String, client_ip: String, tx: Tx, now: u64)
        requires
            old(self).wf(),
        ensures
            final(self).wf(),
            final(self).view() == registered(old(self).view(), session_id@, client_ip@, tx, now),
    {
        let pos = self.position(session_id.as_str());
        let info = SessionInfo {
            session_id,
            media_id: None,
            media_title: None,
            client_ip,
            last_seen: now,
        };
        let x = Session { info, tx };
        let ghost before = self.sessions@;
        match pos {
            Some(i) => {
                proof {
                    lemma_view_update(before, i as int, x);
                }
                self.sessions.set(i, x);
            },
            None => {
                proof {
                    lemma_view_push(before, x);
                }
                self.sessions.push(x);
            },
        }
    }

    /// Records that the player of `session_id` plays the media file
    /// `media_id` titled `media_title`, at `now`. Unknown sessions are ignored.
    pub fn update_media(&mut self, session_id: &str, media_id: &str, media_title: &str, now: u64)
        requires
            old(self).wf(),
        ensures
            final(self).wf(),
            final(self).view() == media_updated(
                old(self).view(),
                session_id@,
                media_id@,
                media_title@,
                now,
            ),
    {
        if let Some(i) = self.position(session_id) {
            let ghost before = self.sessions@;
            self.sessions[i].info.media_id = Some(string_of(&chars_of(media_id)));
            self.sessions[i].info.media_title = Some(string_of(&chars_of(media_title)));
            self.sessions[i].info.last_seen = now;
            proof {
                lemma_view_update(before, i as int, self.sessions@[i as int]);
                lemma_view_at(before, i as int);
                assert(self.sessions@ == before.update(i as int, self.sessions@[i as int]));
            }
        }
    }

    /// Records that the player of `session_id` was seen at `now`. Unknown
    /// sessions are ignored.
    pub fn heartbeat(&mut self, session_id: &str, now: u64)
        requires
            old(self).wf(),
        ensures
            final(self).wf(),
            final(self).view() == heartbeat_at(old(self).view(), session_id@, now),
    {
        if let Some(i) = self.position(session_id) {
            let ghost before = self.sessions@;
            self.sessions[i].info.last_seen = now;
            proof {
                lemma_view_update(before, i as int, self.sessions@[i as int]);
                lemma_view_at(before, i as int);
                assert(self.sessions@ == before.update(i as int, self.sessions@[i as int]));
            }
        }
    }

    /// The channel to the player of `session_id`, if that session is
    /// registered; a command for an unknown session goes nowhere.
    pub fn sender(&self, session_id: &str) -> (r: Option<&Tx>)
        requires
            self.wf(),
        ensures
            match r {
                Some(tx) => self.view().contains_key(session_id@) && *tx == self.view()[session_id@].1,
                None => !self.view().contains_key(session_id@),
            },
    {
        match self.position(session_id) {
            Some(i) => {
                proof {
                    lemma_view_at(self.sessions@, i as int);
                }
                Some(&self.sessions[i].tx)
            },
            None => None,
        }
    }

    /// The sessions seen in the 30 seconds up to `now` (all since the epoch
    /// when `now` is under 30), each once.
    pub fn list(&self, now: u64) -> (r: Vec<SessionInfo>)
        requires
            self.wf(),
        ensures
            lists_active(r@, self.view(), now),
    {
        let oldest = now.saturating_sub(30);
        let mut r: Vec<SessionInfo> = Vec::new();
        let ghost mut idx: Seq<int> = Seq::empty();
        let mut i: usize = 0;
        while i < self.sessions.len()
            invariant
                self.wf(),
                oldest == cutoff(now),
                i <= self.sessions@.len(),
                idx.len() == r@.len(),
                forall|a: int|
                    0 <= a < idx.len() ==> 0 <= #[trigger] idx[a] < i && r@[a]
                        == self.sessions@[idx[a]].info && is_active(r@[a]@, now),
                forall|a: int, b: int| 0 <= a < b < idx.len() ==> #[trigger] idx[a] < #[trigger] idx[b],
                forall|j: int|
                    0 <= j < i && is_active((#[trigger] self.sessions@[j]).info@, now) ==> exists|a: int|
                        0 <= a < idx.len() && idx[a] == j,
            decreases self.sessions.len() - i,
        {
            let ghost old_idx = idx;
            if self.sessions[i].info.last_seen >= oldest {
                r.push(self.sessions[i].info.clone());
                proof {
                    idx = idx.push(i as int);
                }
            }
            proof {
                assert forall|j: int|
                    0 <= j < i + 1 && is_active((#[trigger] self.sessions@[j]).info@, now) implies exists|a: int|
                    0 <= a < idx.len() && idx[a] == j by {
                    if j < i {
                        let a = choose|a: int| 0 <= a < old_idx.len() && old_idx[a] == j;
                        assert(idx[a] == j);
                    } else {
                        assert(idx[idx.len() - 1] == j);
                    }
                }
            }
            i = i + 1;
        }
        proof {
            let s = self.sessions@;
            let m = self.view();
            assert forall|a: int| 0 <= a < r@.len() implies {
                &&& m.contains_key(#[trigger] r@[a]@.session_id)
                &&& m[r@[a]@.session_id].0 == r@[a]@
                &&& is_active(r@[a]@, now)
            } by {
                lemma_view_at(s, idx[a]);
            }
            assert forall|k: Seq<char>|
                #![trigger m[k]]
                m.contains_key(k) && is_active(m[k].0, now) implies exists|a: int|
                0 <= a < r@.len() && (#[trigger] r@[a]@).session_id == k by {
                let j = choose|j: int| 0 <= j < s.len() && (#[trigger] s[j]).info.session_id@ == k;
                lemma_view_at(s, j);
                assert(is_active(s[j].info@, now));
                let a = choose|a: int| 0 <= a < idx.len() && idx[a] == j;
                assert(r@[a]@.session_id == k);
            }
            assert forall|a: int, b: int|
                0 <= a < r@.len() && 0 <= b < r@.len() && a != b implies (#[trigger] r@[a]@).session_id
                != (#[trigger] r@[b]@).session_id by {
                if a < b {
                    assert(idx[a] < idx[b]);
                } else {
                    assert(idx[b] < idx[a]);
                }
                assert(s[idx[a]].info.session_id@ != s[idx[b]].info.session_id@);
            }
        }
        r
    }

    /// Forgets `session_id`.
    pub fn remove(&mut self, session_id: &str)
        requires
            old(self).wf(),
        ensures
            final(self).wf(),
            final(self).view() == old(self).view().remove(session_id@),
    {
        match self.position(session_id) {
            Some(i) => {
                let ghost before = self.sessions@;
                proof {
                    lemma_view_remove(before, i as int);
                }
                self.sessions.remove(i);
            },
            None => {
                assert(self.view() =~= self.view().remove(session_id@));
            },
        }
    }
}

// ── laws ─────────────────────────────────────────────────────────────────────

/// A session registered at `now` is listed, as registered and with no media,
/// by any `list` taken up to 30 seconds later.
pub proof fn law_registered_session_is_listed<Tx>(
    m: Map<Seq<char>, (SessionView, Tx)>,
    session_id: Seq<char>,
    client_ip: Seq<char>,
    tx: Tx,
    now: u64,
    later: u64,
    listed: Seq<SessionInfo>,
)
    requires
        now <= later <= now + 30,
        lists_active(listed, registered(m, session_id, client_ip, tx, now), later),
    ensures
        exists|i: int|
            0 <= i < listed.len() && (#[trigger] listed[i]@) == (SessionView {
                session_id,
                media_id: None,
                media_title: None,
                client_ip,
                last_seen: now,
            }),
{
    let m2 = registered(m, session_id, client_ip, tx, now);
    assert(m2.contains_key(session_id));
    assert(is_active(m2[session_id].0, later));
    let i = choose|i: int| 0 <= i < listed.len() && (#[trigger] listed[i]@).session_id == session_id;
    assert(listed[i]@ == m2[session_id].0);
}

/// Registering an id again replaces the earlier registration entirely.
pub proof fn law_register_replaces<Tx>(
    m: Map<Seq<char>, (SessionView, Tx)>,
    session_id: Seq<char>,
    first_ip: Seq<char>,
    first_tx: Tx,
    first_time: u64,
    second_ip: Seq<char>,
    second_tx: Tx,
    second_time: u64,
)
    ensures
        registered(
            registered(m, session_id, first_ip, first_tx, first_time),
            session_id,
            second_ip,
            second_tx,
            second_time,
        ) == registered(m, session_id, second_ip, second_tx, second_time),
{
    assert(registered(
        registered(m, session_id, first_ip, first_tx, first_time),
        session_id,
        second_ip,
        second_tx,
        second_time,
    ) =~= registered(m, session_id, second_ip, second_tx, second_time));
}

/// Updates and heartbeats of a session that is not registered change nothing.
pub proof fn law_unknown_session_ignored<Tx>(
    m: Map<Seq<char>, (SessionView, Tx)>,
    session_id: Seq<char>,
    media_id: Seq<char>,
    media_title: Seq<char>,
    now: u64,
)
    requires
        !m.contains_key(session_id),
    ensures
        media_updated(m, session_id, media_id, media_title, now) == m,
        heartbeat_at(m, session_id, now) == m,
{
}

/// After a media update at `now`, a `list` taken up to 30 seconds later
/// shows the session playing that media, with its id and client unchanged.
pub proof fn law_media_update_is_listed<Tx>(
    m: Map<Seq<char>, (SessionView, Tx)>,
    session_id: Seq<char>,
    media_id: Seq<char>,
    media_title: Seq<char>,
    now: u64,
    later: u64,
    listed: Seq<SessionInfo>,
)
    requires
        m.contains_key(session_id),
        now <= later <= now + 30,
        lists_active(listed, media_updated(m, session_id, media_id, media_title, now), later),
    ensures
        exists|i: int|
            0 <= i < listed.len() && (#[trigger] listed[i]@) == (SessionView {
                session_id: m[session_id].0.session_id,
                media_id: Some(media_id),
                media_title: Some(media_title),
                client_ip: m[session_id].0.client_ip,
                last_seen: now,
            }),
{
    let m2 = media_updated(m, session_id, media_id, media_title, now);
    assert(m2.contains_key(session_id));
    assert(is_active(m2[session_id].0, later));
    let i = choose|i: int| 0 <= i < listed.len() && (#[trigger] listed[i]@).session_id == session_id;
    assert(listed[i]@ == m2[session_id].0);
}

/// A heartbeat keeps what is known of a session and its channel, and moves
/// only its last-seen time.
pub proof fn law_heartbeat_keeps_session<Tx>(
    m: Map<Seq<char>, (SessionView, Tx)>,
    session_id: Seq<char>,
    now: u64,
)
    requires
        m.contains_key(session_id),
    ensures
        heartbeat_at(m, session_id, now).dom() == m.dom(),
        heartbeat_at(m, session_id, now)[session_id] == (
            SessionView { last_seen: now, ..m[session_id].0 },
            m[session_id].1,
        ),
{
    assert(heartbeat_at(m, session_id, now).dom() =~= m.dom());
}

/// A removed session is listed no more, and no command reaches it.
pub proof fn law_removed_session_is_gone<Tx>(
    m: Map<Seq<char>, (SessionView, Tx)>,
    session_id: Seq<char>,
    now: u64,
    listed: Seq<SessionInfo>,
)
    requires
        lists_active(listed, m.remove(session_id), now),
    ensures
        !m.remove(session_id).contains_key(session_id),
        forall|i: int| 0 <= i < listed.len() ==> (#[trigger] listed[i]@).session_id != session_id,
{
}

/// A session last seen more than 30 seconds before `now` is not listed.
pub proof fn law_stale_session_not_listed<Tx>(
    m: Map<Seq<char>, (SessionView, Tx)>,
    now: u64,
    listed: Seq<SessionInfo>,
    session_id: Seq<char>,
)
    requires
        lists_active(listed, m, now),
        m.contains_key(session_id),
        m[session_id].0.last_seen + 30 < now,
    ensures
        forall|i: int| 0 <= i < listed.len() ==> (#[trigger] listed[i]@).session_id != session_id,
{
    assert forall|i: int| 0 <= i < listed.len() implies (#[trigger] listed[i]@).session_id
        != session_id by {
        if listed[i]@.session_id == session_id {
            assert(m[listed[i]@.session_id].0 == listed[i]@);
        }
    }
}

/// Each operation touches only its own session: every other session keeps
/// its entry (what is known of it and its channel), and no session appears
/// or disappears except the one named.
pub proof fn law_operations_touch_only_their_session<Tx>(
    m: Map<Seq<char>, (SessionView, Tx)>,
    session_id: Seq<char>,
    client_ip: Seq<char>,
    tx: Tx,
    media_id: Seq<char>,
    media_title: Seq<char>,
    now: u64,
    other: Seq<char>,
)
    requires
        other != session_id,
    ensures
        heartbeat_at(m, session_id, now).contains_key(other) == m.contains_key(other),
        media_updated(m, session_id, media_id, media_title, now).contains_key(other)
            == m.contains_key(other),
        registered(m, session_id, client_ip, tx, now).contains_key(other) == m.contains_key(other),
        m.remove(session_id).contains_key(other) == m.contains_key(other),
        m.contains_key(other) ==> {
            &&& heartbeat_at(m, session_id, now)[other] == m[other]
            &&& media_updated(m, session_id, media_id, media_title, now)[other] == m[other]
            &&& registered(m, session_id, client_ip, tx, now)[other] == m[other]
            &&& m.remove(session_id)[other] == m[other]
        },
        heartbeat_at(m, session_id, now).contains_key(session_id) == m.contains_key(session_id),
        media_updated(m, session_id, media_id, media_title, now).contains_key(session_id)
            == m.contains_key(session_id),
{
}

/// A session whose player stops sending heartbeats drops out of `list` once
/// 30 seconds have passed, however often the other sessions beat.
pub proof fn law_silent_session_expires<Tx>(
    m: Map<Seq<char>, (SessionView, Tx)>,
    beating: Seq<char>,
    beat_time: u64,
    silent: Seq<char>,
    later: u64,
    listed: Seq<SessionInfo>,
)
    requires
        beating != silent,
        m.contains_key(silent),
        m[silent].0.last_seen + 30 < later,
        lists_active(listed, heartbeat_at(m, beating, beat_time), later),
    ensures
        forall|i: int| 0 <= i < listed.len() ==> (#[trigger] listed[i]@).session_id != silent,
{
    let m2 = heartbeat_at(m, beating, beat_time);
    assert(m2.contains_key(silent) && m2[silent] == m[silent]);
    law_stale_session_not_listed(m2, later, listed, silent);
}

} // verus!
