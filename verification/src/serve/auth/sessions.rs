//! Sessions: who is signed in, as a table of hashes with an expiry each.

use vstd::prelude::*;

use crate::digest::{digest_text, hex, hex_of, text_digest};
use crate::serve::auth::{no_random, random_bytes, sane};
use crate::text::starts;

verus! {

/// A month, so the phone is not asked for a code every morning.
pub const SESSION_SECS: u64 = 2_592_000;

/// A session is only rewritten to disk when it has less than this much life
/// left. Sliding expiry should not mean a file write per request.
pub const REFRESH_AFTER: u64 = 2_505_600;

/// Long enough to fetch a QR code and scan it, short enough to be worthless if
/// it leaks.
pub const SETUP_SECS: u64 = 600;

#[derive(Debug)]
pub struct Session {
    /// sha256 of the token, hex. The server never keeps a token it could leak.
    pub hash: String,
    /// Unix seconds.
    pub expires: u64,
}

/// A session as a mathematical value.
#[verifier::ext_equal]
pub struct SessionV {
    pub hash: Seq<char>,
    pub expires: u64,
}

impl View for Session {
    type V = SessionV;

    open spec fn view(&self) -> SessionV {
        SessionV { hash: self.hash@, expires: self.expires }
    }
}

/// `<data-dir>/serve/sessions.json`, readable by its owner alone.
#[derive(Debug)]
pub struct Sessions {
    pub entries: Vec<Session>,
}

impl View for Sessions {
    type V = Seq<SessionV>;

    open spec fn view(&self) -> Seq<SessionV> {
        self.entries@.map_values(|s: Session| s@)
    }
}

/// What a presented cookie turned out to be.
#[derive(Clone, Copy, PartialEq, Eq, Structural, Debug)]
pub enum SessionCheck {
    /// Good, and nothing on disk needs changing.
    Valid,
    /// Good, and the expiry was pushed out -- the caller should save.
    Refreshed,
    /// Unknown, expired, or not a session at all.
    Missing,
}

/// The sessions that have not expired, in order.
pub open spec fn live(s: Seq<SessionV>, now: int) -> Seq<SessionV>
    decreases s.len(),
{
    if s.len() == 0 {
        Seq::empty()
    } else if s.last().expires > now {
        live(s.drop_last(), now).push(s.last())
    } else {
        live(s.drop_last(), now)
    }
}

/// The sessions that are not this one, in order.
pub open spec fn others(s: Seq<SessionV>, hash: Seq<char>) -> Seq<SessionV>
    decreases s.len(),
{
    if s.len() == 0 {
        Seq::empty()
    } else if s.last().hash != hash {
        others(s.drop_last(), hash).push(s.last())
    } else {
        others(s.drop_last(), hash)
    }
}

/// Where the session with this hash stands, from `from` on.
pub open spec fn place_from(s: Seq<SessionV>, hash: Seq<char>, from: int) -> Option<int>
    decreases s.len() - from,
{
    if from < 0 || from >= s.len() {
        None
    } else if s[from].hash == hash {
        Some(from)
    } else {
        place_from(s, hash, from + 1)
    }
}

/// The table after a sign-in with this token.
pub open spec fn issued(s: Seq<SessionV>, token: Seq<char>, now: int) -> Seq<SessionV> {
    live(s, now).push(
        SessionV { hash: text_digest(token), expires: (now + SESSION_SECS) as u64 },
    )
}

/// What a presented token turns out to be, and the table after it.
pub open spec fn presented(s: Seq<SessionV>, token: Seq<char>, now: int) -> (
    SessionCheck,
    Seq<SessionV>,
) {
    let left = live(s, now);
    match place_from(left, text_digest(token), 0) {
        None => (SessionCheck::Missing, left),
        Some(i) => if left[i].expires - now < REFRESH_AFTER {
            (
                SessionCheck::Refreshed,
                left.update(i, SessionV { expires: (now + SESSION_SECS) as u64, ..left[i] }),
            )
        } else {
            (SessionCheck::Valid, left)
        },
    }
}

/// Whether two tokens are the same. However early two of one length differ,
/// every byte is looked at, so how long it takes says nothing of where.
pub fn token_matches(a: &str, b: &str) -> (r: bool)
    ensures
        r == (a@ == b@),
{
    let x: &[u8] = a.as_bytes();
    let y: &[u8] = b.as_bytes();
    proof {
        vstd::utf8::encode_utf8_decode_utf8(a@);
        vstd::utf8::encode_utf8_decode_utf8(b@);
    }
    if x.len() != y.len() {
        return false;
    }
    let mut differs: u8 = 0;
    let mut i: usize = 0;
    while i < x.len()
        invariant
            i <= x@.len(),
            x@.len() == y@.len(),
            differs == 0 <==> (forall|j: int| 0 <= j < i ==> #[trigger] x@[j] == y@[j]),
        decreases x@.len() - i,
    {
        let (p, q): (u8, u8) = (x[i], y[i]);
        assert(differs | (p ^ q) == 0 <==> differs == 0 && p == q) by (bit_vector);
        differs = differs | (p ^ q);
        i += 1;
    }
    proof {
        if differs == 0 {
            assert(x@ =~= y@);
        }
    }
    differs == 0
}

impl Default for Sessions {
    fn default() -> (r: Self)
        ensures
            r@ == Seq::<SessionV>::empty(),
    {
        let r: Sessions = Sessions { entries: Vec::new() };
        proof {
            assert(r@ =~= Seq::<SessionV>::empty());
        }
        r
    }
}

/// Whether a text has the form of a token: thirty-two bytes, in hexadecimal.
pub open spec fn minted(token: Seq<char>) -> bool {
    exists|bytes: Seq<u8>| bytes.len() == 32 && token == #[trigger] hex_of(bytes)
}

/// A token nobody could guess: thirty-two random bytes, in hexadecimal.
pub(crate) fn fresh_token(purpose: &str) -> (r: Result<String, String>)
    ensures
        match r {
            Ok(token) => minted(token@),
            Err(e) => starts(e@, no_random(purpose@)),
        },
{
    match random_bytes(32, purpose) {
        Ok(bytes) => Ok(hex(&bytes)),
        Err(e) => Err(e),
    }
}

impl Sessions {
    /// Mint a session and return the token, which is the only time it exists in
    /// a form anyone could read.
    pub fn create(&mut self, now: u64) -> (r: Result<String, String>)
        requires
            sane(now),
        ensures
            match r {
                Ok(token) => final(self)@ == issued(old(self)@, token@, now as int) && minted(
                    token@,
                ),
                Err(e) => final(self)@ == old(self)@ && starts(e@, no_random("session"@)),
            },
    {
        match fresh_token("session") {
            Ok(token) => {
                self.issue(token.as_str(), now);
                Ok(token)
            },
            Err(e) => Err(e),
        }
    }

    /// Remember a session by the hash of its token, and forget those that have
    /// expired.
    pub fn issue(&mut self, token: &str, now: u64)
        requires
            sane(now),
        ensures
            final(self)@ == issued(old(self)@, token@, now as int),
    {
        self.prune(now);
        let session: Session = Session {
            hash: digest_text(token),
            expires: now + SESSION_SECS,
        };
        proof {
            assert(self.entries@.push(session).map_values(|s: Session| s@) =~= self@.push(
                session@,
            ));
        }
        self.entries.push(session);
    }

    /// Is this cookie a session, and does using it extend it?
    pub fn check(&mut self, token: &str, now: u64) -> (r: SessionCheck)
        requires
            sane(now),
        ensures
            r == presented(old(self)@, token@, now as int).0,
            final(self)@ == presented(old(self)@, token@, now as int).1,
    {
        let hash: String = digest_text(token);
        self.prune(now);
        proof {
            lemma_live(old(self)@, now as int);
        }
        let ghost left = self@;
        let mut i: usize = 0;
        while i < self.entries.len()
            invariant
                i <= self.entries@.len(),
                left == self@,
                left == live(old(self)@, now as int),
                hash@ == text_digest(token@),
                sane(now),
                forall|j: int| 0 <= j < left.len() ==> (#[trigger] left[j]).expires > now,
                place_from(left, hash@, 0) == place_from(left, hash@, i as int),
            decreases self.entries@.len() - i,
        {
            proof {
                assert(left[i as int] == self.entries@[i as int]@);
            }
            if token_matches(self.entries[i].hash.as_str(), hash.as_str()) {
                if self.entries[i].expires - now < REFRESH_AFTER {
                    let session: Session = Session {
                        hash: self.entries[i].hash.clone(),
                        expires: now + SESSION_SECS,
                    };
                    proof {
                        assert(self.entries@.update(i as int, session).map_values(
                            |s: Session| s@,
                        ) =~= left.update(i as int, session@));
                    }
                    self.entries.set(i, session);
                    return SessionCheck::Refreshed;
                }
                return SessionCheck::Valid;
            }
            i += 1;
        }
        SessionCheck::Missing
    }

    /// Sign out. Returns whether anything was actually removed.
    pub fn revoke(&mut self, token: &str) -> (r: bool)
        ensures
            final(self)@ == others(old(self)@, text_digest(token@)),
            r == (final(self)@.len() != old(self)@.len()),
    {
        let hash: String = digest_text(token);
        let before: usize = self.entries.len();
        let ghost all = self@;
        let mut kept: Vec<Session> = Vec::new();
        let mut i: usize = 0;
        proof {
            assert(all.take(0) =~= Seq::empty());
            assert(kept@.map_values(|s: Session| s@) =~= Seq::empty());
        }
        while i < self.entries.len()
            invariant
                i <= self.entries@.len(),
                all == self@,
                all == old(self)@,
                kept@.map_values(|s: Session| s@) == others(all.take(i as int), hash@),
            decreases self.entries@.len() - i,
        {
            proof {
                assert(all.take(i + 1).drop_last() =~= all.take(i as int));
                assert(all.take(i + 1).last() == self.entries@[i as int]@);
            }
            if !token_matches(self.entries[i].hash.as_str(), hash.as_str()) {
                let session: Session = Session {
                    hash: self.entries[i].hash.clone(),
                    expires: self.entries[i].expires,
                };
                proof {
                    assert(kept@.push(session).map_values(|s: Session| s@) =~= kept@.map_values(
                        |s: Session| s@,
                    ).push(session@));
                }
                kept.push(session);
            }
            i += 1;
        }
        proof {
            assert(all.take(i as int) =~= all);
        }
        self.entries = kept;
        self.entries.len() != before
    }

    /// Forget the sessions that have expired.
    fn prune(&mut self, now: u64)
        ensures
            final(self)@ == live(old(self)@, now as int),
    {
        let ghost all = self@;
        let mut kept: Vec<Session> = Vec::new();
        let mut i: usize = 0;
        proof {
            assert(all.take(0) =~= Seq::empty());
            assert(kept@.map_values(|s: Session| s@) =~= Seq::empty());
        }
        while i < self.entries.len()
            invariant
                i <= self.entries@.len(),
                all == self@,
                all == old(self)@,
                kept@.map_values(|s: Session| s@) == live(all.take(i as int), now as int),
            decreases self.entries@.len() - i,
        {
            proof {
                assert(all.take(i + 1).drop_last() =~= all.take(i as int));
                assert(all.take(i + 1).last() == self.entries@[i as int]@);
            }
            if self.entries[i].expires > now {
                let session: Session = Session {
                    hash: self.entries[i].hash.clone(),
                    expires: self.entries[i].expires,
                };
                proof {
                    assert(kept@.push(session).map_values(|s: Session| s@) =~= kept@.map_values(
                        |s: Session| s@,
                    ).push(session@));
                }
                kept.push(session);
            }
            i += 1;
        }
        proof {
            assert(all.take(i as int) =~= all);
        }
        self.entries = kept;
    }
}

pub proof fn lemma_live(s: Seq<SessionV>, now: int)
    ensures
        forall|j: int| 0 <= j < live(s, now).len() ==> (#[trigger] live(s, now)[j]).expires > now,
        forall|j: int| 0 <= j < live(s, now).len() ==> s.contains(#[trigger] live(s, now)[j]),
        forall|j: int|
            0 <= j < s.len() && (#[trigger] s[j]).expires > now ==> live(s, now).contains(s[j]),
    decreases s.len(),
{
    if s.len() > 0 {
        let t = s.drop_last();
        lemma_live(t, now);
        let l = live(s, now);
        let lt = live(t, now);
        assert forall|j: int| 0 <= j < l.len() implies (#[trigger] l[j]).expires > now
            && s.contains(l[j]) by {
            if j < lt.len() {
                assert(l[j] == lt[j]);
                let k = choose|k: int| 0 <= k < t.len() && t[k] == lt[j];
                assert(s[k] == l[j]);
            } else {
                assert(l[j] == s[s.len() - 1]);
            }
        }
        assert forall|j: int| 0 <= j < s.len() && (#[trigger] s[j]).expires > now implies l.contains(
            s[j],
        ) by {
            if j < t.len() {
                assert(t[j] == s[j]);
                let k = choose|k: int| 0 <= k < lt.len() && lt[k] == t[j];
                assert(l[k] == s[j]);
            } else {
                assert(l[l.len() - 1] == s[j]);
            }
        }
    }
}

pub proof fn lemma_place(s: Seq<SessionV>, hash: Seq<char>, from: int)
    requires
        0 <= from <= s.len(),
    ensures
        match place_from(s, hash, from) {
            Some(i) => from <= i < s.len() && s[i].hash == hash,
            None => forall|i: int| from <= i < s.len() ==> (#[trigger] s[i]).hash != hash,
        },
    decreases s.len() - from,
{
    if from < s.len() && s[from].hash != hash {
        lemma_place(s, hash, from + 1);
    }
}

proof fn lemma_others(s: Seq<SessionV>, hash: Seq<char>)
    ensures
        forall|j: int|
            0 <= j < others(s, hash).len() ==> (#[trigger] others(s, hash)[j]).hash != hash,
    decreases s.len(),
{
    if s.len() > 0 {
        lemma_others(s.drop_last(), hash);
        let o = others(s, hash);
        let ot = others(s.drop_last(), hash);
        assert forall|j: int| 0 <= j < o.len() implies (#[trigger] o[j]).hash != hash by {
            if j < ot.len() {
                assert(o[j] == ot[j]);
            }
        }
    }
}

/// A token that was issued opens a session for a month.
pub proof fn law_an_issued_token_opens_a_session(
    s: Seq<SessionV>,
    token: Seq<char>,
    now: int,
    later: int,
)
    requires
        0 <= now <= later < now + SESSION_SECS,
        now + SESSION_SECS <= u64::MAX,
    ensures
        !(presented(issued(s, token, now), token, later).0 is Missing),
{
    let table = issued(s, token, now);
    let mine = table[table.len() - 1];
    lemma_live(table, later);
    let left = live(table, later);
    assert(left.contains(mine));
    let k = choose|k: int| 0 <= k < left.len() && left[k] == mine;
    lemma_place(left, text_digest(token), 0);
    assert(left[k].hash == text_digest(token));
}

/// A session that is used is good for twenty-nine days more, at the least.
pub proof fn law_a_session_slides(s: Seq<SessionV>, token: Seq<char>, now: int, later: int)
    requires
        0 <= now <= later < now + REFRESH_AFTER,
        now + SESSION_SECS <= u64::MAX,
        !(presented(s, token, now).0 is Missing),
    ensures
        !(presented(presented(s, token, now).1, token, later).0 is Missing),
{
    let hash = text_digest(token);
    let left = live(s, now);
    lemma_place(left, hash, 0);
    let i = place_from(left, hash, 0)->0;
    let table = presented(s, token, now).1;
    let mine = table[i];
    assert(mine.hash == hash);
    assert(mine.expires > later);
    lemma_live(table, later);
    let rest = live(table, later);
    assert(rest.contains(mine));
    let k = choose|k: int| 0 <= k < rest.len() && rest[k] == mine;
    lemma_place(rest, hash, 0);
    assert(rest[k].hash == hash);
}

/// Only a token that was issued opens a session: one whose hash is not in the
/// table, or whose every session has expired, is no session at all.
pub proof fn law_only_an_issued_token(s: Seq<SessionV>, token: Seq<char>, now: int)
    requires
        forall|i: int|
            0 <= i < s.len() && (#[trigger] s[i]).expires > now ==> s[i].hash != text_digest(token),
    ensures
        presented(s, token, now).0 is Missing,
{
    let left = live(s, now);
    lemma_live(s, now);
    lemma_place(left, text_digest(token), 0);
    if place_from(left, text_digest(token), 0) is Some {
        let i = place_from(left, text_digest(token), 0)->0;
        assert(s.contains(left[i]));
        let k = choose|k: int| 0 <= k < s.len() && s[k] == left[i];
        assert(left[i].expires > now);
        assert(s[k].hash != text_digest(token));
    }
}

/// Signing out ends the session for good.
pub proof fn law_a_revoked_token_is_missing(s: Seq<SessionV>, token: Seq<char>, now: int)
    ensures
        presented(others(s, text_digest(token)), token, now).0 is Missing,
        others(others(s, text_digest(token)), text_digest(token)) == others(s, text_digest(token)),
{
    let hash = text_digest(token);
    lemma_others(s, hash);
    assert forall|i: int|
        0 <= i < others(s, hash).len() && (#[trigger] others(s, hash)[i]).expires
            > now implies others(s, hash)[i].hash != hash by {}
    law_only_an_issued_token(others(s, hash), token, now);
    lemma_nothing_left_to_remove(others(s, hash), hash);
}

proof fn lemma_nothing_left_to_remove(s: Seq<SessionV>, hash: Seq<char>)
    requires
        forall|i: int| 0 <= i < s.len() ==> (#[trigger] s[i]).hash != hash,
    ensures
        others(s, hash) == s,
    decreases s.len(),
{
    if s.len() > 0 {
        let t = s.drop_last();
        assert forall|i: int| 0 <= i < t.len() implies (#[trigger] t[i]).hash != hash by {
            assert(t[i] == s[i]);
        }
        lemma_nothing_left_to_remove(t, hash);
        assert(s =~= t.push(s.last()));
    } else {
        assert(others(s, hash) =~= s);
    }
}

// ---------------------------------------------------------------------------
// The enrolment token
// ---------------------------------------------------------------------------

/// Permission to fetch the QR code, given out after a correct password and
/// before the authenticator exists. Held in memory, one at a time.
#[derive(Debug)]
pub struct SetupToken {
    pub token: String,
    pub expires: u64,
}

impl SetupToken {
    pub fn new(now: u64) -> (r: Result<Self, String>)
        requires
            sane(now),
        ensures
            match r {
                Ok(setup) => setup.expires == now + SETUP_SECS && minted(setup.token@),
                Err(e) => starts(e@, no_random("setup token"@)),
            },
    {
        match fresh_token("setup token") {
            Ok(token) => Ok(SetupToken::of(token, now)),
            Err(e) => Err(e),
        }
    }

    /// The permission this token gives, from now.
    pub fn of(token: String, now: u64) -> (r: Self)
        requires
            sane(now),
        ensures
            r.token == token,
            r.expires == now + SETUP_SECS,
    {
        SetupToken { token, expires: now + SETUP_SECS }
    }

    pub fn token(&self) -> (r: &str)
        ensures
            r@ == self.token@,
    {
        self.token.as_str()
    }

    pub fn accepts(&self, presented: &str, now: u64) -> (r: bool)
        ensures
            r == (now < self.expires && presented@ == self.token@),
    {
        now < self.expires && token_matches(self.token.as_str(), presented)
    }
}

} // verus!
