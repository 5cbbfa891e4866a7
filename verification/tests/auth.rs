//! Who may talk to the server: passwords, codes, sessions, and the limits.

use evo::digest::digest_text;
use evo::serve::auth::door::{
    cleared_cookie, client_ip, cookie_value, csrf, is_public, session_cookie, Door, LoginAnswer,
    LoginBody, SetupQuery, Verdict, ALREADY_USED, CSRF_HEADER, NEEDS_CODE, TOO_MANY, WRONG,
};
use evo::serve::auth::limiter::{RateLimiter, LOGIN_ATTEMPTS, LOGIN_WINDOW_SECS};
use evo::serve::auth::sessions::{
    token_matches, Session, SessionCheck, Sessions, SetupToken, REFRESH_AFTER, SESSION_SECS,
    SETUP_SECS,
};
use evo::serve::auth::{
    already_set_up, credentials_failure, hash_password, hash_with_salt, new_totp_secret, password_from_env,
    password_from_lines, verify_password, AuthStore, CodeCheck, ACCOUNT, ISSUER, STEP,
};
use evo::serve::ServeOptions;
use totp_rs::{Algorithm, Builder, Secret, Totp};

/// A throwaway password, only ever used in this file.
const PASSWORD: &str = "correct horse battery staple";

fn fresh() -> AuthStore {
    AuthStore::create(PASSWORD).expect("credentials")
}

/// The app on the phone: what shows the codes the server is given.
fn app(store: &AuthStore) -> Totp {
    let secret = Secret::try_from_base32(&store.totp_secret).expect("base32");
    Builder::new()
        .with_algorithm(Algorithm::SHA1)
        .with_digits(6)
        .with_skew(1)
        .with_step_duration(STEP)
        .with_secret(secret)
        .with_issuer(Some(ISSUER))
        .with_account_name(ACCOUNT)
        .build()
        .expect("an authenticator")
}

fn code_at(store: &AuthStore, now: u64) -> String {
    app(store).generate(now).to_string()
}

#[test]
fn a_password_round_trips_and_nothing_else_verifies() {
    let store = fresh();
    assert!(
        store.password_hash.starts_with("$argon2id$"),
        "{}",
        store.password_hash
    );
    assert!(verify_password(&store.password_hash, PASSWORD));
    assert!(!verify_password(
        &store.password_hash,
        "correct horse battery stapl"
    ));
    assert!(!verify_password(&store.password_hash, ""));

    // Two of the same password must not produce the same hash: that is what
    // the salt is for.
    assert_ne!(store.password_hash, fresh().password_hash);
    assert_ne!(hash_password("x").unwrap(), hash_password("x").unwrap());
}

#[test]
fn an_unparseable_hash_lets_nobody_in() {
    assert!(!verify_password("", PASSWORD));
    assert!(!verify_password("not a phc string", PASSWORD));
    // Not even the empty password against an empty hash.
    assert!(!verify_password("", ""));
}

#[test]
fn a_short_password_is_refused_before_it_is_stored() {
    let message = AuthStore::create("short").expect_err("too short");
    assert!(message.contains("at least"), "{message}");
    assert_eq!(
        message,
        "that password is 5 characters; evo wants at least 8."
    );
}

#[test]
fn the_authenticator_secret_is_a_hundred_and_sixty_fresh_bits() {
    let a = new_totp_secret().expect("a secret");
    let b = new_totp_secret().expect("another");
    // 160 bits is 32 base32 characters.
    assert_eq!(a.len(), 32, "{a}");
    assert!(
        a.chars()
            .all(|c| c.is_ascii_uppercase() || ('2'..='7').contains(&c)),
        "{a}"
    );
    assert_ne!(a, b, "two secrets in a row must not match");
}

/// The published test vectors, at times this test picks, so it says something
/// about the algorithm rather than about the clock.
#[test]
fn the_codes_are_the_ones_rfc_6238_publishes() {
    let secret = Secret::from(b"12345678901234567890".to_vec());
    // The last six digits of 94287082 and 07081804.
    let mut store = fresh();
    store.totp_secret = secret.to_base32();
    assert_eq!(store.check_code("287082", 59), Ok(CodeCheck::Accepted));
    assert_eq!(store.last_totp_step, 1, "the matched step");
    assert_eq!(
        store.check_code("081804", 59),
        Ok(CodeCheck::Wrong),
        "a code from another minute"
    );
    assert_eq!(
        store.check_code("081804", 1_111_111_109),
        Ok(CodeCheck::Accepted)
    );
    // However late it is, as long as the next step can be told.
    assert_eq!(
        store.check_code("no code", u64::MAX - 45),
        Ok(CodeCheck::Wrong)
    );
}

/// Fixed time throughout: a clock-dependent test is a test that fails at
/// 23:59:59.
#[test]
fn a_code_is_accepted_one_step_either_side_and_no_further() {
    let now = 1_700_000_000_u64;
    let store = fresh();
    let check = |at: u64| {
        let mut copy = AuthStore {
            password_hash: store.password_hash.clone(),
            totp_secret: store.totp_secret.clone(),
            totp_confirmed: false,
            last_totp_step: 0,
        };
        copy.check_code(&code_at(&store, at), now).expect("an authenticator")
    };

    assert_eq!(check(now), CodeCheck::Accepted);
    assert_eq!(
        check(now - STEP),
        CodeCheck::Accepted,
        "a phone thirty seconds behind still works"
    );
    assert_eq!(check(now + STEP), CodeCheck::Accepted);
    assert_eq!(
        check(now - 2 * STEP),
        CodeCheck::Wrong,
        "two steps is further than is asked for"
    );
    assert_eq!(check(now + 2 * STEP), CodeCheck::Wrong);
}

/// A code copied off the wire is worthless a moment later.
#[test]
fn a_code_only_works_once() {
    let mut store = fresh();
    let now = 1_700_000_000_u64;
    let code = code_at(&store, now);

    assert!(!store.totp_confirmed, "enrolment is not finished yet");
    assert_eq!(store.check_code(&code, now), Ok(CodeCheck::Accepted));
    assert!(
        store.totp_confirmed,
        "the first accepted code finishes enrolment"
    );
    assert_eq!(store.check_code(&code, now), Ok(CodeCheck::Replayed));
    // Even a second later, inside the same step.
    assert_eq!(store.check_code(&code, now + 5), Ok(CodeCheck::Replayed));
    let wrong = if code == "123456" { "654321" } else { "123456" };
    assert_ne!(store.check_code(wrong, now), Ok(CodeCheck::Replayed));

    // The next step is a different code, and works.
    let next = code_at(&store, now + STEP);
    assert_eq!(store.check_code(&next, now + STEP), Ok(CodeCheck::Accepted));
    // With space around it, it is still the code.
    let later = format!(" {} ", code_at(&store, now + 2 * STEP));
    assert_eq!(
        store.check_code(&later, now + 2 * STEP),
        Ok(CodeCheck::Accepted)
    );
}

#[test]
fn the_enrolment_url_is_what_an_authenticator_app_expects() {
    let store = fresh();
    let url = store.otpauth_url().expect("a URL");
    assert!(url.starts_with("otpauth://totp/evo:evo%20serve?"), "{url}");
    assert!(
        url.contains(&format!("secret={}", store.totp_secret)),
        "{url}"
    );
    assert!(url.contains("issuer=evo"), "{url}");

    let png = store.qr_png().expect("a QR code");
    assert_eq!(&png[1..4], b"PNG", "the QR code is a PNG");
}

#[test]
fn a_secret_nothing_can_be_built_on_is_an_error() {
    let mut store = fresh();
    store.totp_secret = "not base32!".to_owned();
    let why = store.check_code("000000", 1000).expect_err("no secret");
    assert_eq!(why, "the stored authenticator secret is not valid base32.");
    assert!(store.otpauth_url().is_err());
    assert!(store.qr_png().is_err());

    // Base32, but too short to be a secret.
    store.totp_secret = "AAAA".to_owned();
    let why = store.check_code("000000", 1000).expect_err("too short");
    assert!(
        why.starts_with("could not set up the authenticator: "),
        "{why}"
    );
}

#[test]
fn a_session_expires_thirty_days_out_and_slides_while_it_is_used() {
    let mut sessions = Sessions::default();
    let now = 1_700_000_000_u64;
    let token = sessions.create(now).expect("a session");
    assert_eq!(token.len(), 64, "32 bytes of hex");

    assert_eq!(sessions.check(&token, now), SessionCheck::Valid);
    assert_eq!(
        sessions.check(&token, now + 60),
        SessionCheck::Valid,
        "using it constantly must not rewrite the file constantly"
    );

    // A day later it is worth pushing the expiry out.
    let later = now + 2 * 24 * 60 * 60;
    assert_eq!(sessions.check(&token, later), SessionCheck::Refreshed);
    assert_eq!(
        sessions.check(&token, later + SESSION_SECS - 60),
        SessionCheck::Refreshed,
        "the slide moved the deadline with it"
    );

    // Left alone for a month, it is gone.
    let mut stale = Sessions::default();
    let token = stale.create(now).expect("a session");
    assert_eq!(
        stale.check(&token, now + SESSION_SECS + 1),
        SessionCheck::Missing
    );
    assert!(
        stale.entries.is_empty(),
        "expired sessions are dropped, not kept"
    );
    assert_eq!(REFRESH_AFTER, SESSION_SECS - 24 * 60 * 60);
}

#[test]
fn only_the_token_that_was_issued_opens_a_session() {
    let mut sessions = Sessions::default();
    let now = 1_700_000_000_u64;
    let token = sessions.create(now).expect("a session");

    assert_eq!(sessions.check("", now), SessionCheck::Missing);
    assert_eq!(sessions.check(&token[..63], now), SessionCheck::Missing);
    assert_eq!(
        sessions.check(&digest_text(&token), now),
        SessionCheck::Missing
    );

    // The stored form is a hash, so the file does not hand out sessions.
    assert_ne!(
        sessions.entries[0].hash, token,
        "the token itself is never written down"
    );
    assert_eq!(sessions.entries[0].hash, digest_text(&token));

    assert!(sessions.revoke(&token), "signing out removes it");
    assert_eq!(sessions.check(&token, now), SessionCheck::Missing);
    assert!(
        !sessions.revoke(&token),
        "and there is nothing left to remove"
    );
}

#[test]
fn an_issued_token_is_remembered_and_the_expired_are_forgotten() {
    let mut sessions = Sessions {
        entries: vec![Session {
            hash: digest_text("old"),
            expires: 10,
        }],
    };
    sessions.issue("new", 100);
    assert_eq!(sessions.entries.len(), 1);
    assert_eq!(sessions.entries[0].expires, 100 + SESSION_SECS);
    assert_eq!(sessions.check("new", 101), SessionCheck::Valid);
    assert_eq!(sessions.check("old", 101), SessionCheck::Missing);
    assert!(token_matches("a", "a"));
    assert!(!token_matches("a", "b"));
}

#[test]
fn five_attempts_in_five_minutes_and_then_a_wait() {
    let mut limiter = RateLimiter::default();
    let now = 1_700_000_000_u64;

    for attempt in 0..LOGIN_ATTEMPTS {
        assert!(limiter.allow("10.0.0.1", now), "attempt {attempt}");
    }
    assert!(!limiter.allow("10.0.0.1", now), "the sixth is refused");
    assert!(
        !limiter.allow("10.0.0.1", now + LOGIN_WINDOW_SECS - 1),
        "still inside the window"
    );
    assert!(
        limiter.allow("10.0.0.1", now + LOGIN_WINDOW_SECS + 1),
        "the window has passed"
    );

    // The limit is per address, and signing in clears it.
    assert!(limiter.allow("10.0.0.2", now));
    limiter.forget("10.0.0.2");
    assert!(!limiter.attempts.iter().any(|a| a.key == "10.0.0.2"));
}

#[test]
fn addresses_that_have_gone_quiet_are_forgotten() {
    let mut limiter = RateLimiter::default();
    for n in 0..50 {
        assert!(limiter.allow(&format!("10.0.0.{n}"), 1000));
    }
    assert_eq!(limiter.attempts.len(), 50);
    assert!(limiter.allow("10.1.0.1", 1000 + LOGIN_WINDOW_SECS));
    assert_eq!(limiter.attempts.len(), 1);
}

#[test]
fn a_forwarded_address_counts_only_behind_a_proxy() {
    let forwarded = Some("203.0.113.9, 10.0.0.5");
    let peer = Some("10.0.0.5");

    assert_eq!(client_ip(true, forwarded, peer).0, "203.0.113.9");
    assert_eq!(
        client_ip(false, forwarded, peer).0,
        "10.0.0.5",
        "a header anyone can send is not an identity"
    );
    assert_eq!(client_ip(true, None, peer).0, "10.0.0.5");
    assert_eq!(client_ip(true, forwarded, None).0, "203.0.113.9");
    assert_eq!(client_ip(false, None, None).0, "unknown");
    assert_eq!(client_ip(true, Some(" , 10.0.0.5"), peer).0, "10.0.0.5");
}

#[test]
fn the_setup_token_is_short_lived_and_only_itself() {
    let now = 1_700_000_000_u64;
    let setup = SetupToken::new(now).expect("a token");
    assert!(setup.accepts(setup.token(), now));
    assert!(setup.accepts(setup.token(), now + SETUP_SECS - 1));
    assert!(!setup.accepts(setup.token(), now + SETUP_SECS));
    assert!(!setup.accepts("", now));
    assert!(!setup.accepts(&setup.token()[..31], now));
}

#[test]
fn the_cookie_says_host_only_secure_strict_unless_tls_was_waived() {
    let secure = ServeOptions::default();
    let cookie = session_cookie(&secure, "abc");
    assert!(cookie.starts_with("__Host-evo=abc;"), "{cookie}");
    assert!(cookie.contains("; Secure"), "{cookie}");
    assert!(cookie.contains("HttpOnly"), "{cookie}");
    assert!(cookie.contains("SameSite=Strict"), "{cookie}");
    assert!(cookie.contains("Path=/"), "{cookie}");

    let plain = ServeOptions {
        secure_cookies: false,
        trust_proxy: false,
    };
    let cookie = session_cookie(&plain, "abc");
    assert!(cookie.starts_with("evo=abc;"), "{cookie}");
    assert!(
        !cookie.contains("Secure"),
        "__Host- would be refused: {cookie}"
    );
    assert!(cleared_cookie(&plain).contains("Max-Age=0"));
    assert_eq!(
        cookie,
        "evo=abc; Path=/; HttpOnly; SameSite=Strict; Max-Age=2592000"
    );
}

#[test]
fn one_cookie_is_found_among_several() {
    let headers = vec!["theme=dark; __Host-evo=abc123; other=1".to_owned()];
    assert_eq!(
        cookie_value(&headers, "__Host-evo").as_deref(),
        Some("abc123")
    );
    assert_eq!(
        cookie_value(&headers, "evo"),
        None,
        "a prefix is a different cookie"
    );
    assert_eq!(cookie_value(&Vec::new(), "__Host-evo"), None);
    let two = vec!["nothing here".to_owned(), "evo=a=b".to_owned()];
    assert_eq!(cookie_value(&two, "evo").as_deref(), Some("a=b"));
}

/// The list of exceptions is the security boundary, so it gets a test of its
/// own rather than being read off the router.
#[test]
fn only_signing_in_and_the_shell_are_reachable_without_a_session() {
    for open in ["/api/health", "/api/login", "/api/setup-qr"] {
        assert!(is_public(open), "{open}");
    }
    for shell in [
        "/",
        "/index.html",
        "/style.css",
        "/manifest.webmanifest",
        "/sw.js",
    ] {
        assert!(is_public(shell), "{shell}");
    }
    for guarded in [
        "/api/logout",
        "/api/docs",
        "/api/docs/abc/page/1.png",
        "/api/status",
        "/api/anything-added-later",
    ] {
        assert!(!is_public(guarded), "{guarded}");
    }
}

#[test]
fn a_mutation_has_to_be_one_this_app_made() {
    assert!(csrf(true, Some("cross-site"), false).is_none(), "reading is safe");
    assert!(csrf(false, None, true).is_none());
    assert!(csrf(false, Some("same-origin"), true).is_none());
    assert!(csrf(false, Some("none"), true).is_none());
    let other = csrf(false, Some("cross-site"), true).expect("another site");
    assert_eq!(other.status, 403);
    assert!(other.message.contains("another site"));
    let bare = csrf(false, None, false).expect("no header");
    assert_eq!(bare.status, 403);
    assert!(bare.message.contains("X-Evo"));
    assert_eq!(CSRF_HEADER, "x-evo");
}

// ---------------------------------------------------------------------------
// Signing in
// ---------------------------------------------------------------------------

fn door() -> Door {
    Door {
        auth: fresh(),
        sessions: Sessions::default(),
        logins: RateLimiter::default(),
        setup: None,
    }
}

fn body(password: &str, code: Option<&str>) -> LoginBody {
    LoginBody {
        password: password.to_owned(),
        code: code.map(str::to_owned),
    }
}

fn refusal(answer: &LoginAnswer) -> (u16, &str) {
    match answer {
        LoginAnswer::Refused(r) => (r.status, r.message.as_str()),
        other => panic!("that was let in: {other:?}"),
    }
}

#[test]
fn a_browser_enrols_signs_in_and_signs_out() {
    let now = 1_700_000_000_u64;
    let options = ServeOptions::default();
    let mut door = door();
    let ip = "10.0.0.9";

    // The wrong password is the same answer whether or not there is a code.
    let wrong = door.login(&options, ip, &body("not it at all", None), now);
    assert_eq!(refusal(&wrong.answer), (401, WRONG));

    // The right password and no app yet: permission to fetch the QR code.
    let enrol = door.login(&options, ip, &body(PASSWORD, None), now);
    let setup = match &enrol.answer {
        LoginAnswer::Enroll { setup } => setup.clone(),
        other => panic!("{other:?}"),
    };
    let ask = |t: &str| SetupQuery { t: t.to_owned() };
    let png = door.setup_qr(&ask(&setup), now).expect("the QR code");
    assert_eq!(&png[1..4], b"PNG");
    assert_eq!(door.setup_qr(&ask("guess"), now).expect_err("not it").status, 401);
    let late = door.setup_qr(&ask(&setup), now + SETUP_SECS);
    assert_eq!(late.expect_err("too late").status, 401);

    // Nothing behind the door answers yet.
    let (stopped, _) = door.require_session("/api/docs", None, now);
    assert_eq!(stopped.expect("no session").status, 401);
    assert!(door.require_session("/api/health", None, now).0.is_none());

    let code = code_at(&door.auth, now);
    let enter = door.login(&options, ip, &body(PASSWORD, Some(&code)), now);
    assert!(enter.save_auth && enter.save_sessions);
    let cookie = match &enter.answer {
        LoginAnswer::SignedIn { cookie } => cookie.clone(),
        other => panic!("{other:?}"),
    };
    assert_eq!(enter.answer.body().text(), r#"{"ok":true}"#);
    assert!(door.auth.totp_confirmed);
    assert!(door.setup.is_none());
    let header = vec![cookie.split(';').next().unwrap().to_owned()];
    let token = cookie_value(&header, options.cookie_name()).expect("the token");
    let (stopped, save) = door.require_session("/api/docs", Some(&token), now);
    assert!(stopped.is_none() && !save);
    let (stopped, save) = door.require_session("/api/docs", Some(&token), now + 2 * 86_400);
    assert!(stopped.is_none() && save, "a day later the table is rewritten");

    // The same code is no use a second time, and the app is paired for good.
    let again = door.login(&options, ip, &body(PASSWORD, Some(&code)), now);
    assert_eq!(refusal(&again.answer), (401, ALREADY_USED));
    let bare = door.login(&options, ip, &body(PASSWORD, Some("  ")), now);
    assert_eq!(refusal(&bare.answer), (401, NEEDS_CODE));

    let (cleared, save) = door.logout(&options, Some(&token));
    assert!(save);
    assert!(cleared.starts_with("__Host-evo=;"), "{cleared}");
    let (stopped, _) = door.require_session("/api/docs", Some(&token), now + 2 * 86_400);
    assert!(stopped.is_some());
    assert!(!door.logout(&options, None).1);
}

#[test]
fn five_wrong_passwords_and_the_address_has_to_wait() {
    let now = 1_700_000_000_u64;
    let options = ServeOptions::default();
    let mut door = door();
    for _ in 0..5 {
        let wrong = door.login(&options, "10.0.0.1", &body("nope nope", None), now);
        assert_eq!(refusal(&wrong.answer).0, 401);
    }
    let sixth = door.login(&options, "10.0.0.1", &body(PASSWORD, None), now);
    assert_eq!(refusal(&sixth.answer), (429, TOO_MANY));
    assert!(!sixth.save_auth && !sixth.save_sessions);
    // Somebody else is not held to it.
    let other = door.login(&options, "10.0.0.2", &body(PASSWORD, None), now);
    assert!(matches!(other.answer, LoginAnswer::Enroll { .. }));
}

#[test]
fn a_paired_server_does_not_show_its_secret_again() {
    let now = 1_700_000_000_u64;
    let mut door = door();
    let setup = SetupToken::new(now).expect("a token");
    let query = SetupQuery {
        t: setup.token().to_owned(),
    };
    door.setup = Some(setup);
    door.auth.totp_confirmed = true;
    assert_eq!(door.setup_qr(&query, now).expect_err("paired").status, 403);
}

#[test]
fn a_password_comes_from_the_environment_or_the_keyboard() {
    assert_eq!(password_from_env(" secret ").as_deref(), Ok("secret"));
    assert!(password_from_env("  ").is_err());
    assert_eq!(
        password_from_lines("secret\r\n", None).as_deref(),
        Ok("secret")
    );
    assert_eq!(
        password_from_lines("secret\n", Some("secret\n")).as_deref(),
        Ok("secret")
    );
    assert_eq!(
        password_from_lines("secret\n", Some("other\n")).expect_err("a typo"),
        "those two passwords are not the same."
    );
    assert_eq!(
        password_from_lines("\n", None).expect_err("nothing"),
        "no password was given."
    );
    let missing = credentials_failure("/srv/auth.json", true, "");
    assert!(missing.contains("evo serve init"), "{missing}");
    assert_eq!(
        credentials_failure("/srv/auth.json", false, "denied"),
        "could not read /srv/auth.json: denied"
    );
    assert!(already_set_up("/srv/auth.json").starts_with("/srv/auth.json already exists."));
}

#[test]
fn credentials_are_made_of_a_salt_and_a_secret() {
    let salt = vec![7_u8; 16];
    let stored = hash_with_salt(PASSWORD, &salt).expect("a hash");
    assert_eq!(hash_with_salt(PASSWORD, &salt), Ok(stored.clone()));
    let short = hash_with_salt(PASSWORD, &vec![7_u8; 2]).expect_err("too little salt");
    assert!(short.starts_with("could not hash the password: "), "{short}");
    let long = hash_with_salt(PASSWORD, &vec![7_u8; 64]).expect_err("too much salt");
    assert!(long.starts_with("could not make a salt: "), "{long}");

    let made = AuthStore::of(PASSWORD, Ok(salt.clone()), Ok(vec![0_u8; 20])).expect("credentials");
    assert_eq!(made.password_hash, stored);
    assert_eq!(made.totp_secret, "A".repeat(32));
    assert!(!made.totp_confirmed && made.last_totp_step == 0);

    let dry = || Err("dry".to_owned());
    assert_eq!(AuthStore::of(PASSWORD, dry(), Ok(vec![0; 20])).expect_err("no salt"), "dry");
    assert_eq!(AuthStore::of(PASSWORD, Ok(salt), dry()).expect_err("no secret"), "dry");
    let message = AuthStore::of("short", dry(), dry()).expect_err("too short");
    assert_eq!(message, "that password is 5 characters; evo wants at least 8.");
}

#[test]
fn a_sign_in_is_judged_before_a_token_is_drawn() {
    let now = 1_700_000_000_u64;
    let options = ServeOptions::default();
    let mut door = door();
    let ip = "10.0.0.9";
    assert!(matches!(
        door.judge(ip, &body("not it at all", None), now),
        Verdict::Refused(r) if r.status == 401 && r.message == WRONG
    ));

    assert!(matches!(door.judge(ip, &body(PASSWORD, None), now), Verdict::Enrol));
    let dry = door.enrol(Err("dry".to_owned()), now);
    assert_eq!(refusal(&dry.answer), (500, "dry"));
    assert!(door.setup.is_none());
    let enrol = door.enrol(Ok("t0".to_owned()), now);
    assert!(matches!(&enrol.answer, LoginAnswer::Enroll { setup } if setup == "t0"));
    assert!(!enrol.save_auth && !enrol.save_sessions);
    let setup = door.setup.as_ref().expect("permission");
    assert!(setup.accepts("t0", now) && !setup.accepts("t0", now + SETUP_SECS));

    let code = code_at(&door.auth, now);
    assert!(matches!(door.judge(ip, &body(PASSWORD, Some(&code)), now), Verdict::LetIn));
    let dry = door.let_in(&options, ip, Err("dry".to_owned()), now);
    assert_eq!(refusal(&dry.answer), (500, "dry"));
    assert!(dry.save_auth && !dry.save_sessions, "the code is used up all the same");
    let enter = door.let_in(&options, ip, Ok("t1".to_owned()), now);
    assert!(enter.save_auth && enter.save_sessions);
    assert!(matches!(
        &enter.answer,
        LoginAnswer::SignedIn { cookie } if *cookie == session_cookie(&options, "t1")
    ));
    assert!(door.setup.is_none());
    assert!(door.require_session("/api/docs", Some("t1"), now).0.is_none());
    assert!(door.require_session("/api/docs", Some("t0"), now).0.is_some());
}

#[test]
fn an_accepted_code_is_a_replay_as_long_as_it_lasts() {
    let now = 1_700_000_010_u64 / STEP * STEP;
    let mut store = fresh();
    let code = code_at(&store, now);
    assert_eq!(store.check_code(&code, now), Ok(CodeCheck::Accepted));
    for later in [now, now + 1, now + STEP, now + 2 * STEP - 1] {
        assert_eq!(store.check_code(&code, later), Ok(CodeCheck::Replayed), "{later}");
    }
}

#[test]
fn the_enrolment_url_in_full() {
    let store = AuthStore::of(PASSWORD, Ok(vec![7; 16]), Ok(vec![0; 20])).expect("credentials");
    assert_eq!(
        store.otpauth_url().expect("a URL"),
        "otpauth://totp/evo:evo%20serve?secret=AAAAAAAAAAAAAAAAAAAAAAAAAAAAAAAA&issuer=evo"
    );
}

#[test]
fn refused_attempts_and_other_addresses_do_not_count() {
    let mut limiter = RateLimiter::default();
    for _ in 0..LOGIN_ATTEMPTS {
        assert!(limiter.allow("a", 1000));
    }
    for t in 1001..1000 + LOGIN_WINDOW_SECS {
        assert!(!limiter.allow("a", t), "{t}");
        assert_eq!(limiter.allow("b", t), t < 1001 + LOGIN_ATTEMPTS as u64, "{t}");
    }
    assert!(limiter.allow("a", 1000 + LOGIN_WINDOW_SECS), "the wait is no longer for trying");
    limiter.forget("b");
    assert!(limiter.allow("b", 1000 + LOGIN_WINDOW_SECS));
}

#[test]
fn tokens_are_compared_to_the_end() {
    assert!(token_matches("", ""));
    assert!(!token_matches("", "a"));
    assert!(!token_matches("abc", "abd"));
    assert!(!token_matches("abc", "xbc"));
    assert!(!token_matches("abc", "abcd"));
    assert!(token_matches("\u{e9}t\u{e9}", "\u{e9}t\u{e9}"));
}

#[test]
fn a_session_is_checked_late_in_time() {
    let now = u64::MAX - SESSION_SECS;
    let mut sessions = Sessions::default();
    sessions.issue("t", now);
    assert_eq!(sessions.check("t", now), SessionCheck::Valid);
    assert_eq!(sessions.check("u", now), SessionCheck::Missing);
}
