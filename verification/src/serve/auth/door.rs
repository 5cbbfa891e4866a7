//! The door: what a request has to show, and what signing in and out does.

use vstd::prelude::*;

use crate::json::{Json, JsonV};
use crate::script::model::{and, just, words_or_none};
use crate::serve::auth::limiter::{attempted, RateLimiter};
use crate::serve::auth::sessions::{
    fresh_token, issued, minted, others, presented, SessionCheck, SessionV, Sessions, SetupToken,
    SESSION_SECS, SETUP_SECS,
};
use crate::serve::auth::{
    checked, no_random, otpauth_png, password_matches, sane, unusable, usable_secret,
    verify_password, AuthStore, AuthV, CodeCheck, ACCOUNT, DIGITS, ISSUER, STEP,
};
use crate::serve::ServeOptions;
use crate::digest::text_digest;
use crate::text::{
    after, cut, decimal, decimal_of, pieces, same, split, split_once, starts, strip_prefix, texts,
    trim, trimmed,
};

verus! {

/// The header every mutation must carry. Its value does not matter; that a
/// cross-origin form cannot set a custom header at all is the point.
pub const CSRF_HEADER: &'static str = "x-evo";

pub const WRONG: &'static str = "That password or code is not right.";

pub const TOO_MANY: &'static str =
    "Too many sign-in attempts from this address. Wait five minutes.";

pub const NEEDS_CODE: &'static str =
    "evo also needs the six-digit code from your authenticator app.";

pub const ALREADY_USED: &'static str =
    "That code has already been used. Wait for your app to show the next one.";

pub const SIGN_IN: &'static str =
    "Sign in to evo first: POST your password and a code to /api/login.";

pub const OTHER_SITE: &'static str =
    "That request came from another site, so evo did not act on it.";

pub const NEEDS_HEADER: &'static str =
    "Requests that change something must carry the `X-Evo: 1` header.";

pub const SETUP_EXPIRED: &'static str =
    "That setup link has expired. Sign in with your password again.";

pub const ALREADY_PAIRED: &'static str =
    "This server is already paired with an authenticator app.";

/// A request that is not acted on: the status, and what is said.
#[derive(Debug)]
pub struct Refusal {
    pub status: u16,
    pub message: String,
}

/// A refusal as a mathematical value.
#[verifier::ext_equal]
pub struct RefusalV {
    pub status: u16,
    pub message: Seq<char>,
}

impl View for Refusal {
    type V = RefusalV;

    open spec fn view(&self) -> RefusalV {
        RefusalV { status: self.status, message: self.message@ }
    }
}

impl Refusal {
    pub fn new(status: u16, message: &str) -> (r: Self)
        ensures
            r@ == (RefusalV { status, message: message@ }),
    {
        Refusal { status, message: message.to_owned() }
    }

    /// What is sent: `{"error": ..}`.
    pub fn body(&self) -> (r: Json)
        ensures
            r.view() == just("error"@, JsonV::Str(self@.message)),
    {
        Json::object().with("error", Json::string(self.message.as_str()))
    }
}

// ---------------------------------------------------------------------------
// Where the request came from
// ---------------------------------------------------------------------------

/// The address the rate limiter counts by.
pub struct ClientIp(pub String);

/// The left-most entry of a list of addresses: the original client. The rest
/// are proxies.
pub open spec fn left_most(list: Seq<char>) -> Seq<char> {
    trimmed(
        match cut(list, ","@) {
            Some(parts) => parts.0,
            None => list,
        },
    )
}

/// The address a request counts for.
pub open spec fn client(trust_proxy: bool, forwarded: Option<Seq<char>>, peer: Option<
    Seq<char>,
>) -> Seq<char> {
    match forwarded {
        Some(list) if trust_proxy && left_most(list).len() > 0 => left_most(list),
        _ => match peer {
            Some(addr) => addr,
            None => "unknown"@,
        },
    }
}

/// What a borrowed text says, where there is one.
pub open spec fn said(s: Option<&str>) -> Option<Seq<char>> {
    match s {
        Some(s) => Some(s@),
        None => None,
    }
}

/// `X-Forwarded-For` is a header anyone can send, so it counts only when evo
/// has been told there is a proxy in front of it. Otherwise an attacker would
/// simply rotate the header to get unlimited password guesses.
pub fn client_ip(trust_proxy: bool, forwarded: Option<&str>, peer: Option<&str>) -> (r: ClientIp)
    ensures
        r.0@ == client(trust_proxy, said(forwarded), said(peer)),
{
    if trust_proxy {
        if let Some(list) = forwarded {
            let first: String = match split_once(list, ",") {
                Some((first, _rest)) => trim(first.as_str()),
                None => trim(list),
            };
            if !first.as_str().is_empty() {
                return ClientIp(first);
            }
        }
    }
    match peer {
        Some(addr) => ClientIp(addr.to_owned()),
        None => ClientIp("unknown".to_owned()),
    }
}

// ---------------------------------------------------------------------------
// Cookies
// ---------------------------------------------------------------------------

/// The cookie that carries a value for so many seconds.
pub open spec fn cookie_text(options: ServeOptions, value: Seq<char>, secs: nat) -> Seq<char> {
    options.cookie() + "="@ + value + "; Path=/; HttpOnly; SameSite=Strict; Max-Age="@ + decimal(
        secs,
    ) + (if options.secure_cookies {
        "; Secure"@
    } else {
        ""@
    })
}

fn cookie(options: &ServeOptions, value: &str, secs: u64) -> (r: String)
    ensures
        r@ == cookie_text(*options, value@, secs as nat),
{
    let mut r: String = options.cookie_name().to_owned();
    r.append("=");
    r.append(value);
    r.append("; Path=/; HttpOnly; SameSite=Strict; Max-Age=");
    r.append(decimal_of(secs).as_str());
    r.append(
        if options.secure_cookies {
            "; Secure"
        } else {
            ""
        },
    );
    r
}

/// The cookie of a session.
pub fn session_cookie(options: &ServeOptions, token: &str) -> (r: String)
    ensures
        r@ == cookie_text(*options, token@, SESSION_SECS as nat),
{
    cookie(options, token, SESSION_SECS)
}

/// The cookie that takes a session's away.
pub fn cleared_cookie(options: &ServeOptions) -> (r: String)
    ensures
        r@ == cookie_text(*options, Seq::empty(), 0),
{
    proof {
        reveal_strlit("");
        assert(""@ =~= Seq::<char>::empty());
    }
    cookie(options, "", 0)
}

/// What a `name=value` pair says, where it is the one asked for.
pub open spec fn pair_value(pair: Seq<char>, name: Seq<char>) -> Option<Seq<char>> {
    match cut(trimmed(pair), "="@) {
        Some(parts) => if parts.0 == name {
            Some(parts.1)
        } else {
            None
        },
        None => None,
    }
}

/// The first value for this name among these pairs, from `from` on.
pub open spec fn first_value(pairs: Seq<Seq<char>>, name: Seq<char>, from: int) -> Option<Seq<char>>
    decreases pairs.len() - from,
{
    if from < 0 || from >= pairs.len() {
        None
    } else {
        match pair_value(pairs[from], name) {
            Some(v) => Some(v),
            None => first_value(pairs, name, from + 1),
        }
    }
}

/// The first value for this name in these headers, from `from` on.
pub open spec fn cookie_in(headers: Seq<Seq<char>>, name: Seq<char>, from: int) -> Option<Seq<char>>
    decreases headers.len() - from,
{
    if from < 0 || from >= headers.len() {
        None
    } else {
        match first_value(pieces(headers[from], ";"@), name, 0) {
            Some(v) => Some(v),
            None => cookie_in(headers, name, from + 1),
        }
    }
}

fn value_in(header: &str, name: &str) -> (r: Option<String>)
    ensures
        crate::script::model::words(r) == first_value(pieces(header@, ";"@), name@, 0),
{
    proof {
        reveal_strlit(";");
    }
    let pairs: Vec<String> = split(header, ";");
    let ghost all = texts(pairs@);
    let mut i: usize = 0;
    while i < pairs.len()
        invariant
            i <= pairs@.len(),
            all == texts(pairs@),
            all == pieces(header@, ";"@),
            first_value(all, name@, 0) == first_value(all, name@, i as int),
        decreases pairs@.len() - i,
    {
        proof {
            assert(all[i as int] == pairs@[i as int]@);
        }
        if let Some((key, value)) = split_once(trim(pairs[i].as_str()).as_str(), "=") {
            if same(key.as_str(), name) {
                return Some(value);
            }
        }
        i += 1;
    }
    None
}

/// Pull one cookie out of the headers: `name=value` pairs separated by `; `.
pub fn cookie_value(headers: &Vec<String>, name: &str) -> (r: Option<String>)
    ensures
        crate::script::model::words(r) == cookie_in(texts(headers@), name@, 0),
{
    let ghost all = texts(headers@);
    let mut i: usize = 0;
    while i < headers.len()
        invariant
            i <= headers@.len(),
            all == texts(headers@),
            cookie_in(all, name@, 0) == cookie_in(all, name@, i as int),
        decreases headers@.len() - i,
    {
        proof {
            assert(all[i as int] == headers@[i as int]@);
        }
        match value_in(headers[i].as_str(), name) {
            Some(value) => {
                return Some(value);
            },
            None => {},
        }
        i += 1;
    }
    None
}

// ---------------------------------------------------------------------------
// What every request has to show
// ---------------------------------------------------------------------------

/// Which paths answer without a session.
///
/// The app shell -- HTML, CSS, the manifest, the service worker -- is public
/// because the browser has to be able to draw the sign-in form. It contains
/// nothing but the form. Everything under `/api/` needs a session except the
/// three endpoints that exist to get one.
pub open spec fn public(path: Seq<char>) -> bool {
    match after(path, "/api/"@) {
        Some(endpoint) => endpoint == "health"@ || endpoint == "login"@ || endpoint
            == "setup-qr"@,
        None => true,
    }
}

pub fn is_public(path: &str) -> (r: bool)
    ensures
        r == public(path@),
{
    match strip_prefix(path, "/api/") {
        Some(endpoint) => same(endpoint.as_str(), "health") || same(endpoint.as_str(), "login")
            || same(endpoint.as_str(), "setup-qr"),
        None => true,
    }
}

/// Every mutation must be one this app made.
///
/// `SameSite=Strict` already stops the cookie riding along on a cross-site
/// request, but it is one flag on one cookie: the required header is a second,
/// independent reason a form on someone else's page cannot act as you, because
/// a form cannot set a header at all. `Sec-Fetch-Site` is a third when the
/// browser sends it.
pub fn csrf(safe_method: bool, site: Option<&str>, has_header: bool) -> (r: Option<Refusal>)
    ensures
        match r {
            Some(refusal) => !safe_method && if site is Some && site->0@ != "same-origin"@
                && site->0@ != "none"@ {
                refusal@ == (RefusalV { status: 403, message: OTHER_SITE@ })
            } else {
                !has_header && refusal@ == (RefusalV { status: 403, message: NEEDS_HEADER@ })
            },
            None => safe_method || (has_header && (site is None || site->0@ == "same-origin"@
                || site->0@ == "none"@)),
        },
{
    if safe_method {
        return None;
    }
    if let Some(site) = site {
        if !same(site, "same-origin") && !same(site, "none") {
            return Some(Refusal::new(403, OTHER_SITE));
        }
    }
    if !has_header {
        return Some(Refusal::new(403, NEEDS_HEADER));
    }
    None
}

/// Who may come in: the credentials, who is signed in, who has been trying, and
/// who may fetch the QR code.
pub struct Door {
    pub auth: AuthStore,
    pub sessions: Sessions,
    pub logins: RateLimiter,
    /// The short-lived permission to fetch the enrolment QR code, held in
    /// memory only: it is worth less than a session and outlives nothing.
    pub setup: Option<SetupToken>,
}

/// The door as a mathematical value.
#[verifier::ext_equal]
pub struct DoorV {
    pub auth: AuthV,
    pub sessions: Seq<SessionV>,
    pub logins: Map<Seq<char>, Seq<u64>>,
    pub setup: Option<(Seq<char>, u64)>,
}

impl View for Door {
    type V = DoorV;

    open spec fn view(&self) -> DoorV {
        DoorV {
            auth: self.auth@,
            sessions: self.sessions@,
            logins: self.logins@,
            setup: match self.setup {
                Some(s) => Some((s.token@, s.expires)),
                None => None,
            },
        }
    }
}

#[derive(Debug)]
pub struct LoginBody {
    pub password: String,
    /// Absent on the first leg of enrolment, when there is no app to ask.
    pub code: Option<String>,
}

#[derive(Debug)]
pub struct SetupQuery {
    /// The token `/api/login` handed out.
    pub t: String,
}

/// What a sign-in is answered.
#[derive(Debug)]
pub enum LoginAnswer {
    Refused(Refusal),
    /// The password is right but there is no authenticator yet: a short-lived
    /// permission to fetch the QR code.
    Enroll { setup: String },
    /// A session, and the cookie that carries it.
    SignedIn { cookie: String },
}

impl LoginAnswer {
    /// What is sent.
    pub fn body(&self) -> (r: Json)
        ensures
            r.view() == (match self {
                LoginAnswer::Refused(refusal) => just("error"@, JsonV::Str(refusal@.message)),
                LoginAnswer::Enroll { setup } => and(
                    just("enroll"@, JsonV::Bool(true)),
                    "setup"@,
                    JsonV::Str(setup@),
                ),
                LoginAnswer::SignedIn { cookie } => just("ok"@, JsonV::Bool(true)),
            }),
    {
        match self {
            LoginAnswer::Refused(refusal) => refusal.body(),
            LoginAnswer::Enroll { setup } => Json::object().with("enroll", Json::Bool(true)).with(
                "setup",
                Json::string(setup.as_str()),
            ),
            LoginAnswer::SignedIn { cookie: _ } => Json::object().with("ok", Json::Bool(true)),
        }
    }
}

/// The answer to a sign-in, and which files have changed under it.
#[derive(Debug)]
pub struct LoginOutcome {
    pub answer: LoginAnswer,
    pub save_auth: bool,
    pub save_sessions: bool,
}

/// Whether a sign-in is refused in these words, and no file changed.
pub open spec fn refused(o: LoginOutcome, status: u16, message: Seq<char>) -> bool {
    &&& o.answer matches LoginAnswer::Refused(refusal) && refusal@ == (RefusalV { status, message })
    &&& !o.save_auth && !o.save_sessions
}

/// The code that was given, without the space around it.
pub open spec fn code_given(body: LoginBody) -> Seq<char> {
    trimmed(words_or_none(crate::script::model::words(body.code)))
}

/// What a sign-in does: the door before it and after it, and what is answered.
///
/// Which one of the password and the code was wrong is not something an
/// attacker needs told, so both are answered the same.
pub open spec fn signed_in(
    g: DoorV,
    after: DoorV,
    options: ServeOptions,
    ip: Seq<char>,
    body: LoginBody,
    now: int,
    o: LoginOutcome,
) -> bool {
    let (allowed, logins) = attempted(g.logins, ip, now);
    let tried = DoorV { logins, ..g };
    if !allowed {
        refused(o, 429, TOO_MANY@) && after == tried
    } else if !password_matches(g.auth.password_hash, body.password@) {
        refused(o, 401, WRONG@) && after == tried
    } else if code_given(body).len() == 0 {
        if g.auth.totp_confirmed {
            refused(o, 401, NEEDS_CODE@) && after == tried
        } else {
            &&& !o.save_auth && !o.save_sessions
            &&& match o.answer {
                LoginAnswer::Enroll { setup } => minted(setup@) && after == (DoorV {
                    setup: Some((setup@, (now + SETUP_SECS) as u64)),
                    ..tried
                }),
                LoginAnswer::Refused(refusal) => refusal@.status == 500 && starts(
                    refusal@.message,
                    no_random("setup token"@),
                ) && after == tried,
                LoginAnswer::SignedIn { .. } => false,
            }
        }
    } else {
        match usable_secret(g.auth.totp_secret) {
            None => {
                &&& o.answer matches LoginAnswer::Refused(refusal) && refusal@.status == 500
                    && unusable(g.auth.totp_secret, refusal@.message)
                &&& !o.save_auth && !o.save_sessions
                &&& after == tried
            },
            Some(secret) => {
                let (verdict, auth) = checked(g.auth, secret, code_given(body), now);
                match verdict {
                    CodeCheck::Wrong => refused(o, 401, WRONG@) && after == tried,
                    CodeCheck::Replayed => refused(o, 401, ALREADY_USED@) && after == tried,
                    CodeCheck::Accepted => {
                        &&& o.save_auth
                        &&& match o.answer {
                            LoginAnswer::SignedIn { cookie } => o.save_sessions && exists|
                                token: Seq<char>,
                            |
                                minted(token) && cookie@ == cookie_text(
                                    options,
                                    token,
                                    SESSION_SECS as nat,
                                ) && after == (DoorV {
                                    auth,
                                    sessions: #[trigger] issued(g.sessions, token, now),
                                    logins: logins.remove(ip),
                                    setup: None,
                                }),
                            LoginAnswer::Refused(refusal) => !o.save_sessions && refusal@.status
                                == 500 && starts(refusal@.message, no_random("session"@)) && after
                                == (DoorV { auth, ..tried }),
                            LoginAnswer::Enroll { .. } => false,
                        }
                    },
                }
            },
        }
    }
}

/// What the password and the code come to.
pub enum Verdict {
    Refused(Refusal),
    /// The password is right and there is no authenticator to ask.
    Enrol,
    /// Both are right.
    LetIn,
}

/// What the password and the code come to, the door before it and after it: the
/// attempt is counted, and a code that was good is used up.
pub open spec fn judged(
    g: DoorV,
    after: DoorV,
    ip: Seq<char>,
    body: LoginBody,
    now: int,
    v: Verdict,
) -> bool {
    let (allowed, logins) = attempted(g.logins, ip, now);
    let tried = DoorV { logins, ..g };
    if !allowed {
        turned_away(v, 429, TOO_MANY@) && after == tried
    } else if !password_matches(g.auth.password_hash, body.password@) {
        turned_away(v, 401, WRONG@) && after == tried
    } else if code_given(body).len() == 0 {
        if g.auth.totp_confirmed {
            turned_away(v, 401, NEEDS_CODE@) && after == tried
        } else {
            v is Enrol && after == tried
        }
    } else {
        match usable_secret(g.auth.totp_secret) {
            None => after == tried && (v matches Verdict::Refused(refusal) && refusal@.status == 500
                && unusable(g.auth.totp_secret, refusal@.message)),
            Some(secret) => {
                let (verdict, auth) = checked(g.auth, secret, code_given(body), now);
                match verdict {
                    CodeCheck::Wrong => turned_away(v, 401, WRONG@) && after == tried,
                    CodeCheck::Replayed => turned_away(v, 401, ALREADY_USED@) && after == tried,
                    CodeCheck::Accepted => v is LetIn && after == (DoorV { auth, ..tried }),
                }
            },
        }
    }
}

/// Whether a sign-in is turned away in these words.
pub open spec fn turned_away(v: Verdict, status: u16, message: Seq<char>) -> bool {
    v matches Verdict::Refused(refusal) && refusal@ == (RefusalV { status, message })
}

fn refuse(status: u16, message: &str) -> (o: LoginOutcome)
    ensures
        refused(o, status, message@),
{
    LoginOutcome {
        answer: LoginAnswer::Refused(Refusal::new(status, message)),
        save_auth: false,
        save_sessions: false,
    }
}

impl Door {
    pub open spec fn ok(&self) -> bool {
        self.logins.ok()
    }

    /// Sign in: a password, and a code from the authenticator app.
    pub fn login(&mut self, options: &ServeOptions, ip: &str, body: &LoginBody, now: u64) -> (o:
        LoginOutcome)
        requires
            old(self).ok(),
            sane(now),
        ensures
            final(self).ok(),
            signed_in(old(self)@, final(self)@, *options, ip@, *body, now as int, o),
    {
        match self.judge(ip, body, now) {
            Verdict::Refused(refusal) => LoginOutcome {
                answer: LoginAnswer::Refused(refusal),
                save_auth: false,
                save_sessions: false,
            },
            Verdict::Enrol => self.enrol(fresh_token("setup token"), now),
            Verdict::LetIn => {
                let token: Result<String, String> = fresh_token("session");
                let o: LoginOutcome = self.let_in(options, ip, token, now);
                o
            },
        }
    }

    /// Judge the password and the code.
    pub fn judge(&mut self, ip: &str, body: &LoginBody, now: u64) -> (v: Verdict)
        requires
            old(self).ok(),
            sane(now),
        ensures
            final(self).ok(),
            judged(old(self)@, final(self)@, ip@, *body, now as int, v),
    {
        if !self.logins.allow(ip, now) {
            return Verdict::Refused(Refusal::new(429, TOO_MANY));
        }
        if !verify_password(self.auth.password_hash.as_str(), body.password.as_str()) {
            return Verdict::Refused(Refusal::new(401, WRONG));
        }
        let code: String = match &body.code {
            Some(code) => trim(code.as_str()),
            None => trim(""),
        };
        proof {
            reveal_strlit("");
            assert(""@ =~= Seq::<char>::empty());
            assert(code@ == code_given(*body));
        }
        if code.as_str().is_empty() {
            return if self.auth.totp_confirmed {
                Verdict::Refused(Refusal::new(401, NEEDS_CODE))
            } else {
                Verdict::Enrol
            };
        }
        match self.auth.check_code(code.as_str(), now) {
            Ok(CodeCheck::Accepted) => Verdict::LetIn,
            Ok(CodeCheck::Replayed) => Verdict::Refused(Refusal::new(401, ALREADY_USED)),
            Ok(CodeCheck::Wrong) => Verdict::Refused(Refusal::new(401, WRONG)),
            Err(e) => Verdict::Refused(Refusal::new(500, e.as_str())),
        }
    }

    /// Hand out the permission to fetch the QR code, given a fresh token, or why
    /// there is none.
    pub fn enrol(&mut self, token: Result<String, String>, now: u64) -> (o: LoginOutcome)
        requires
            old(self).ok(),
            sane(now),
        ensures
            final(self).ok(),
            match token {
                Ok(t) => {
                    &&& o.answer matches LoginAnswer::Enroll { setup } && setup@ == t@
                    &&& !o.save_auth && !o.save_sessions
                    &&& final(self)@ == (DoorV {
                        setup: Some((t@, (now + SETUP_SECS) as u64)),
                        ..old(self)@
                    })
                },
                Err(e) => refused(o, 500, e@) && final(self)@ == old(self)@,
            },
    {
        match token {
            Ok(t) => {
                let setup: SetupToken = SetupToken::of(t, now);
                let shown: String = setup.token().to_owned();
                self.setup = Some(setup);
                LoginOutcome {
                    answer: LoginAnswer::Enroll { setup: shown },
                    save_auth: false,
                    save_sessions: false,
                }
            },
            Err(e) => refuse(500, e.as_str()),
        }
    }

    /// Open a session on a fresh token, or say why there is none. The code that
    /// was used up has to be remembered either way.
    pub fn let_in(
        &mut self,
        options: &ServeOptions,
        ip: &str,
        token: Result<String, String>,
        now: u64,
    ) -> (o: LoginOutcome)
        requires
            old(self).ok(),
            sane(now),
        ensures
            final(self).ok(),
            o.save_auth,
            match token {
                Ok(t) => {
                    &&& o.answer matches LoginAnswer::SignedIn { cookie } && cookie@ == cookie_text(
                        *options,
                        t@,
                        SESSION_SECS as nat,
                    )
                    &&& o.save_sessions
                    &&& final(self)@ == (DoorV {
                        sessions: issued(old(self)@.sessions, t@, now as int),
                        logins: old(self)@.logins.remove(ip@),
                        setup: None,
                        ..old(self)@
                    })
                },
                Err(e) => {
                    &&& o.answer matches LoginAnswer::Refused(refusal) && refusal@ == (RefusalV {
                        status: 500,
                        message: e@,
                    })
                    &&& !o.save_sessions
                    &&& final(self)@ == old(self)@
                },
            },
    {
        match token {
            Ok(t) => {
                self.sessions.issue(t.as_str(), now);
                self.logins.forget(ip);
                self.setup = None;
                LoginOutcome {
                    answer: LoginAnswer::SignedIn { cookie: session_cookie(options, t.as_str()) },
                    save_auth: true,
                    save_sessions: true,
                }
            },
            Err(e) => LoginOutcome {
                answer: LoginAnswer::Refused(Refusal::new(500, e.as_str())),
                save_auth: true,
                save_sessions: false,
            },
        }
    }

    /// Sign out: the cookie that takes the session's away, and whether the
    /// session table changed.
    pub fn logout(&mut self, options: &ServeOptions, token: Option<&str>) -> (r: (String, bool))
        requires
            old(self).ok(),
        ensures
            final(self).ok(),
            r.0@ == cookie_text(*options, Seq::empty(), 0),
            match token {
                Some(t) => final(self)@ == (DoorV {
                    sessions: others(old(self)@.sessions, text_digest(t@)),
                    ..old(self)@
                }) && r.1 == (final(self)@.sessions.len() != old(self)@.sessions.len()),
                None => final(self)@ == old(self)@ && !r.1,
            },
    {
        let save: bool = match token {
            Some(t) => self.sessions.revoke(t),
            None => false,
        };
        (cleared_cookie(options), save)
    }

    /// The cookie, on everything that is not public: why the request is
    /// refused, where it is, and whether the session table changed for the
    /// better.
    pub fn require_session(&mut self, path: &str, token: Option<&str>, now: u64) -> (r: (
        Option<Refusal>,
        bool,
    ))
        requires
            old(self).ok(),
            sane(now),
        ensures
            final(self).ok(),
            if public(path@) {
                r.0 is None && !r.1 && final(self)@ == old(self)@
            } else {
                match token {
                    None => r.0 is Some && r.0->0@ == (RefusalV { status: 401, message: SIGN_IN@ })
                        && !r.1 && final(self)@ == old(self)@,
                    Some(t) => {
                        let (verdict, sessions) = presented(old(self)@.sessions, t@, now as int);
                        &&& final(self)@ == (DoorV { sessions, ..old(self)@ })
                        &&& r.1 == (verdict is Refreshed)
                        &&& match r.0 {
                            Some(refusal) => verdict is Missing && refusal@ == (RefusalV {
                                status: 401,
                                message: SIGN_IN@,
                            }),
                            None => !(verdict is Missing),
                        }
                    },
                }
            },
    {
        if is_public(path) {
            return (None, false);
        }
        match token {
            None => (Some(Refusal::new(401, SIGN_IN)), false),
            Some(t) => match self.sessions.check(t, now) {
                SessionCheck::Missing => (Some(Refusal::new(401, SIGN_IN)), false),
                SessionCheck::Valid => (None, false),
                SessionCheck::Refreshed => (None, true),
            },
        }
    }

    /// The enrolment QR code, for the window between "the password is right" and
    /// "an authenticator app exists".
    pub fn setup_qr(&self, query: &SetupQuery, now: u64) -> (r: Result<Vec<u8>, Refusal>)
        ensures
            if !(self@.setup matches Some(s) && now < s.1 && query.t@ == s.0) {
                r is Err && r->Err_0@ == (RefusalV { status: 401, message: SETUP_EXPIRED@ })
            } else if self@.auth.totp_confirmed {
                r is Err && r->Err_0@ == (RefusalV { status: 403, message: ALREADY_PAIRED@ })
            } else {
                match r {
                    Ok(png) => usable_secret(self@.auth.totp_secret) is Some && otpauth_png(
                        usable_secret(self@.auth.totp_secret)->0,
                        DIGITS,
                        STEP,
                        ISSUER@,
                        ACCOUNT@,
                    ) == Some(png@),
                    Err(refusal) => refusal@.status == 500 && match usable_secret(
                        self@.auth.totp_secret,
                    ) {
                        Some(secret) => otpauth_png(secret, DIGITS, STEP, ISSUER@, ACCOUNT@) is None
                            && starts(
                            refusal@.message,
                            "could not draw the enrolment QR code: "@,
                        ),
                        None => unusable(self@.auth.totp_secret, refusal@.message),
                    },
                }
            },
    {
        let permitted: bool = match &self.setup {
            Some(setup) => setup.accepts(query.t.as_str(), now),
            None => false,
        };
        if !permitted {
            return Err(Refusal::new(401, SETUP_EXPIRED));
        }
        if self.auth.totp_confirmed {
            // Enrolment is over; the secret is not on offer any more.
            return Err(Refusal::new(403, ALREADY_PAIRED));
        }
        match self.auth.qr_png() {
            Ok(png) => Ok(png),
            Err(e) => Err(Refusal::new(500, e.as_str())),
        }
    }
}

/// A stolen password alone gets nobody in, and neither does a code alone: a
/// session is given only for the password and a code of this minute that was
/// not used before, to an address that has not tried too often.
pub proof fn law_a_session_takes_both(
    g: DoorV,
    after: DoorV,
    options: ServeOptions,
    ip: Seq<char>,
    body: LoginBody,
    now: int,
    o: LoginOutcome,
)
    requires
        signed_in(g, after, options, ip, body, now, o),
        o.answer is SignedIn,
    ensures
        attempted(g.logins, ip, now).0,
        password_matches(g.auth.password_hash, body.password@),
        usable_secret(g.auth.totp_secret) is Some,
        checked(
            g.auth,
            usable_secret(g.auth.totp_secret)->0,
            code_given(body),
            now,
        ).0 is Accepted,
{
}

/// Anything but a session leaves the session table as it was.
pub proof fn law_a_refused_sign_in_opens_nothing(
    g: DoorV,
    after: DoorV,
    options: ServeOptions,
    ip: Seq<char>,
    body: LoginBody,
    now: int,
    o: LoginOutcome,
)
    requires
        signed_in(g, after, options, ip, body, now, o),
        !(o.answer is SignedIn),
    ensures
        after.sessions == g.sessions,
        !o.save_sessions,
        after.auth.password_hash == g.auth.password_hash,
        after.auth.totp_secret == g.auth.totp_secret,
{
}

} // verus!
