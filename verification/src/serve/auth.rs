//! Who may talk to `evo serve`: a password, an authenticator app, and a cookie.
//!
//! The threat this is built for is a port on the open internet. So: the
//! password is argon2id-hashed and never stored in the clear, a second factor
//! is mandatory (a stolen password alone gets nobody in), codes are single-use
//! so replaying one off the wire is worthless, sessions are stored as hashes so
//! reading `sessions.json` does not let you become anybody, login is rate
//! limited per client address, and every mutation needs a header no
//! cross-origin form can set.

pub mod door;
pub mod limiter;
pub mod sessions;

use argon2::password_hash::{PasswordHash, PasswordHasher, PasswordVerifier, SaltString};
use vstd::prelude::*;

use crate::serve::auth::sessions::SESSION_SECS;
use crate::text::{decimal, decimal_of, starts, to_chars, trim, trimmed};

verus! {

/// What an authenticator app files the entry under.
pub const ISSUER: &'static str = "evo";

/// The account name inside that entry. Shown next to the code on the phone.
pub const ACCOUNT: &'static str = "evo serve";

/// Six digits, thirty seconds, SHA-1: what every authenticator app expects.
/// Anything else is silently mishandled by some of them.
pub const DIGITS: u8 = 6;

pub const STEP: u64 = 30;

/// One step either side of now. More would be generous to an attacker for no
/// gain to a phone with a working clock.
pub const SKEW: u16 = 1;

/// The shortest password `evo serve init` will accept. Short of a policy nobody
/// reads, this at least rules out the ones typed by accident.
pub const MIN_PASSWORD: usize = 8;

// ---------------------------------------------------------------------------
// Random bytes
// ---------------------------------------------------------------------------

/// `getrandom::Error`
#[verifier::external_type_specification]
#[verifier::external_body]
pub struct ExRandomError(getrandom::Error);

/// `getrandom::fill` writes over every byte it is given, and keeps their
/// number. Which bytes is a matter of chance.
#[verifier::external_body]
fn fill_random(bytes: &mut Vec<u8>) -> (r: Result<(), getrandom::Error>)
    ensures
        final(bytes)@.len() == old(bytes)@.len(),
{
    getrandom::fill(bytes.as_mut_slice())
}

/// The `Display` text of a `getrandom::Error`: what the operating system says
/// of it, so nothing is claimed.
#[verifier::external_body]
fn random_error_text(e: &getrandom::Error) -> (r: String) {
    format!("{e}")
}

/// What is said when there are no random bytes to be had, up to the reason.
pub open spec fn no_random(purpose: Seq<char>) -> Seq<char> {
    "evo could not get random bytes for the "@ + purpose + ": "@
}

/// So many fresh random bytes.
pub(crate) fn random_bytes(n: usize, purpose: &str) -> (r: Result<Vec<u8>, String>)
    ensures
        match r {
            Ok(bytes) => bytes@.len() == n,
            Err(e) => starts(e@, no_random(purpose@)),
        },
{
    let mut bytes: Vec<u8> = Vec::new();
    while bytes.len() < n
        invariant
            bytes@.len() <= n,
        decreases n - bytes@.len(),
    {
        bytes.push(0);
    }
    match fill_random(&mut bytes) {
        Ok(_) => Ok(bytes),
        Err(e) => {
            let mut why: String = "evo could not get random bytes for the ".to_owned();
            why.append(purpose);
            why.append(": ");
            let reason: String = random_error_text(&e);
            why.append(reason.as_str());
            proof {
                lemma_starts(no_random(purpose@), reason@);
            }
            Err(why)
        },
    }
}

pub(crate) proof fn lemma_starts(a: Seq<char>, b: Seq<char>)
    ensures
        starts(a + b, a),
{
    assert((a + b).take(a.len() as int) =~= a);
}

// ---------------------------------------------------------------------------
// The password
// ---------------------------------------------------------------------------

/// `argon2::password_hash::Error`
#[verifier::external_type_specification]
#[verifier::external_body]
pub struct ExHashError(argon2::password_hash::Error);

/// The text of a salt, for its bytes.
pub uninterp spec fn salt_text(bytes: Seq<u8>) -> Option<Seq<char>>;

/// The PHC string Argon2id gives for a password and the text of a salt.
pub uninterp spec fn phc(password: Seq<char>, salt: Seq<char>) -> Option<Seq<char>>;

/// Whether a password verifies against a PHC string.
pub uninterp spec fn password_matches(stored: Seq<char>, password: Seq<char>) -> bool;

/// `SaltString::encode_b64`, as the salt's text.
#[verifier::external_body]
fn encode_salt(bytes: &Vec<u8>) -> (r: Result<String, argon2::password_hash::Error>)
    ensures
        match r {
            Ok(text) => salt_text(bytes@) == Some(text@),
            Err(_) => salt_text(bytes@) is None,
        },
{
    SaltString::encode_b64(bytes).map(|salt| salt.to_string())
}

/// `Argon2::hash_password` with the default parameters, as the PHC string. What
/// it gives for a password, that password verifies against.
#[verifier::external_body]
fn argon2_hash(password: &str, salt: &str) -> (r: Result<String, argon2::password_hash::Error>)
    ensures
        match r {
            Ok(text) => phc(password@, salt@) == Some(text@) && password_matches(
                text@,
                password@,
            ),
            Err(_) => phc(password@, salt@) is None,
        },
{
    let salt = SaltString::from_b64(salt)?;
    argon2::Argon2::default()
        .hash_password(password.as_bytes(), &salt)
        .map(|hash| hash.to_string())
}

/// The `Display` text of a `password_hash::Error`. Nothing is claimed of it.
#[verifier::external_body]
fn hash_error_text(e: &argon2::password_hash::Error) -> (r: String) {
    format!("{e}")
}

/// `PasswordHash::new`, then `Argon2::verify_password`. A hash that does not
/// parse verifies nothing.
#[verifier::external_body]
fn argon2_verify(stored: &str, password: &str) -> (r: bool)
    ensures
        r == password_matches(stored@, password@),
{
    match PasswordHash::new(stored) {
        Ok(parsed) => argon2::Argon2::default()
            .verify_password(password.as_bytes(), &parsed)
            .is_ok(),
        Err(_) => false,
    }
}

/// Whether this is what Argon2id gives for a password and some salt of sixteen
/// bytes.
pub open spec fn salted_hash(stored: Seq<char>, password: Seq<char>) -> bool {
    exists|salt: Seq<u8>|
        salt.len() == 16 && (#[trigger] salt_text(salt)) is Some && phc(
            password,
            salt_text(salt)->0,
        ) == Some(stored)
}

/// Hash a password with a fresh salt. It verifies against what comes out.
pub fn hash_password(password: &str) -> (r: Result<String, String>)
    ensures
        match r {
            Ok(stored) => salted_hash(stored@, password@) && password_matches(stored@, password@),
            Err(e) => starts(e@, no_random("password salt"@)) || starts(
                e@,
                "could not make a salt: "@,
            ) || starts(e@, "could not hash the password: "@),
        },
{
    match random_bytes(16, "password salt") {
        Ok(bytes) => {
            hash_with_salt(password, &bytes)
        },
        Err(e) => Err(e),
    }
}

/// What Argon2id gives for a password and a salt, or how the complaint begins
/// where it gives nothing.
pub open spec fn hashed(password: Seq<char>, bytes: Seq<u8>) -> Result<Seq<char>, Seq<char>> {
    match salt_text(bytes) {
        Some(salt) => match phc(password, salt) {
            Some(stored) => Ok(stored),
            None => Err("could not hash the password: "@),
        },
        None => Err("could not make a salt: "@),
    }
}

/// Hash a password with this salt.
pub fn hash_with_salt(password: &str, bytes: &Vec<u8>) -> (r: Result<String, String>)
    ensures
        match hashed(password@, bytes@) {
            Ok(stored) => (r matches Ok(s) && s@ == stored) && password_matches(stored, password@),
            Err(why) => r matches Err(e) && starts(e@, why),
        },
{
    let salt: String = match encode_salt(bytes) {
        Ok(text) => text,
        Err(e) => {
            let mut why: String = "could not make a salt: ".to_owned();
            let reason: String = hash_error_text(&e);
            why.append(reason.as_str());
            proof {
                lemma_starts("could not make a salt: "@, reason@);
            }
            return Err(why);
        },
    };
    match argon2_hash(password, salt.as_str()) {
        Ok(stored) => Ok(stored),
        Err(e) => {
            let mut why: String = "could not hash the password: ".to_owned();
            let reason: String = hash_error_text(&e);
            why.append(reason.as_str());
            proof {
                lemma_starts("could not hash the password: "@, reason@);
            }
            Err(why)
        },
    }
}

/// Verify against a PHC string. A hash evo cannot parse is not a reason to let
/// anyone in, so every failure is the same `false`.
pub fn verify_password(stored: &str, password: &str) -> (r: bool)
    ensures
        r == password_matches(stored@, password@),
{
    argon2_verify(stored, password)
}

/// The password in the environment: what a script is expected to set.
pub fn password_from_env(value: &str) -> (r: Result<String, String>)
    ensures
        match r {
            Ok(password) => password@ == trimmed(value@) && password@.len() > 0,
            Err(e) => trimmed(value@).len() == 0 && e@ == "EVO_SERVE_PASSWORD is set but empty."@,
        },
{
    let password: String = trim(value);
    if password.as_str().is_empty() {
        return Err("EVO_SERVE_PASSWORD is set but empty.".to_owned());
    }
    Ok(password)
}

/// A typed line without the end of the line.
pub open spec fn typed(line: Seq<char>) -> Seq<char>
    decreases line.len(),
{
    if line.len() > 0 && (line.last() == '\r' || line.last() == '\n') {
        typed(line.drop_last())
    } else {
        line
    }
}

fn typed_of(line: &str) -> (r: String)
    ensures
        r@ == typed(line@),
{
    let v: Vec<char> = to_chars(line);
    let mut n: usize = v.len();
    proof {
        assert(v@.take(n as int) =~= v@);
    }
    while n > 0 && (v[n - 1] == '\r' || v[n - 1] == '\n')
        invariant
            n <= v@.len(),
            typed(line@) == typed(v@.take(n as int)),
        decreases n,
    {
        proof {
            assert(v@.take(n as int).drop_last() =~= v@.take(n - 1));
        }
        n -= 1;
    }
    proof {
        assert(v@.subrange(0, n as int) =~= v@.take(n as int));
    }
    crate::text::from_chars(&v, 0, n)
}

/// The password from the keyboard: the line typed, and the same line again
/// where somebody is there to be asked twice.
pub fn password_from_lines(line: &str, again: Option<&str>) -> (r: Result<String, String>)
    ensures
        match r {
            Ok(password) => password@ == typed(line@) && password@.len() > 0 && (again is Some
                ==> typed(again->0@) == password@),
            Err(e) => if typed(line@).len() == 0 {
                e@ == "no password was given."@
            } else {
                again is Some && typed(again->0@) != typed(line@) && e@
                    == "those two passwords are not the same."@
            },
        },
{
    let password: String = typed_of(line);
    if password.as_str().is_empty() {
        return Err("no password was given.".to_owned());
    }
    if let Some(again) = again {
        if !crate::text::same(typed_of(again).as_str(), password.as_str()) {
            return Err("those two passwords are not the same.".to_owned());
        }
    }
    Ok(password)
}

// ---------------------------------------------------------------------------
// The authenticator
// ---------------------------------------------------------------------------

/// `totp_rs::TotpError`
#[verifier::external_type_specification]
#[verifier::external_body]
pub struct ExTotpError(totp_rs::TotpError);

/// The bytes a base32 text spells.
pub uninterp spec fn base32_bytes(text: Seq<char>) -> Option<Seq<u8>>;

/// Bytes spelled in base32.
pub uninterp spec fn base32_text(bytes: Seq<u8>) -> Seq<char>;

/// The code an authenticator with this secret shows at a time step, in so many
/// digits, with SHA-1.
pub uninterp spec fn totp_code(secret: Seq<u8>, digits: u8, counter: u64) -> Seq<char>;

/// Whether a byte stands for itself in a URL: a letter, a digit, or one of four
/// marks.
pub open spec fn url_safe(b: u8) -> bool {
    ||| 48 <= b <= 57
    ||| 65 <= b <= 90
    ||| 97 <= b <= 122
    ||| b == 45 || b == 46 || b == 95 || b == 126
}

/// A hexadecimal digit, in upper case.
pub open spec fn upper_digit(d: int) -> char {
    if d < 10 {
        (48 + d) as char
    } else {
        (55 + d) as char
    }
}

/// One byte as it is written in a URL.
pub open spec fn escaped(b: u8) -> Seq<char> {
    if url_safe(b) {
        seq![b as char]
    } else {
        seq!['%', upper_digit(b as int / 16), upper_digit(b as int % 16)]
    }
}

/// Bytes as they are written in a URL.
pub open spec fn percent(bytes: Seq<u8>) -> Seq<char>
    decreases bytes.len(),
{
    if bytes.len() == 0 {
        Seq::empty()
    } else {
        percent(bytes.drop_last()) + escaped(bytes.last())
    }
}

/// A text as it is written in a URL.
pub open spec fn url_text(s: Seq<char>) -> Seq<char> {
    percent(vstd::utf8::encode_utf8(s))
}

/// Whether an account of this name can be written in the URL.
pub open spec fn nameable(account: Seq<char>) -> bool {
    account.len() > 0 && !account.contains(':')
}

/// The URL an authenticator app takes its entry from: whose account it is, the
/// secret, and what is not as the app would take it to be anyway.
pub open spec fn otpauth(
    secret: Seq<u8>,
    digits: u8,
    step: u64,
    issuer: Seq<char>,
    account: Seq<char>,
) -> Seq<char> {
    let entry = "otpauth://totp/"@ + url_text(issuer) + ":"@ + url_text(account) + "?secret="@
        + base32_text(secret);
    let sized = if digits != 6 {
        entry + "&digits="@ + decimal(digits as nat)
    } else {
        entry
    };
    let issued = sized + "&issuer="@ + url_text(issuer);
    if step != 30 {
        issued + "&period="@ + decimal(step as nat)
    } else {
        issued
    }
}

/// That URL as a picture.
pub uninterp spec fn otpauth_png(
    secret: Seq<u8>,
    digits: u8,
    step: u64,
    issuer: Seq<char>,
    account: Seq<char>,
) -> Option<Seq<u8>>;

/// `Secret::try_from_base32`, as the secret's bytes.
#[verifier::external_body]
fn decode_base32(text: &str) -> (r: Option<Vec<u8>>)
    ensures
        match r {
            Some(bytes) => base32_bytes(text@) == Some(bytes@),
            None => base32_bytes(text@) is None,
        },
{
    match totp_rs::Secret::try_from_base32(text) {
        Ok(secret) => Some(secret.as_bytes().to_vec()),
        Err(_) => None,
    }
}

/// `Secret::to_base32`. Twenty bytes take thirty-two characters, and are read
/// back from them.
#[verifier::external_body]
fn encode_base32(bytes: &Vec<u8>) -> (r: String)
    ensures
        r@ == base32_text(bytes@),
        bytes@.len() == 20 ==> r@.len() == 32 && base32_bytes(r@) == Some(bytes@),
{
    totp_rs::Secret::from(bytes.clone()).to_base32()
}

/// Whether an authenticator can be built from these.
pub open spec fn buildable(
    secret: Seq<u8>,
    digits: u8,
    step: u64,
    issuer: Seq<char>,
    account: Seq<char>,
) -> bool {
    &&& 6 <= digits <= 8
    &&& step != 0
    &&& secret.len() >= 16
    &&& !issuer.contains(':')
    &&& !account.contains(':')
}

/// `totp_rs::Builder::build` accepts six to eight digits, a step that is not
/// zero, a secret of at least sixteen bytes, and names without a colon.
#[verifier::external_body]
fn try_totp(secret: &Vec<u8>, digits: u8, skew: u16, step: u64, issuer: &str, account: &str) -> (r:
    Result<(), totp_rs::TotpError>)
    ensures
        match r {
            Ok(_) => buildable(secret@, digits, step, issuer@, account@),
            Err(_) => !buildable(secret@, digits, step, issuer@, account@),
        },
{
    totp_rs::Builder::new()
        .with_algorithm(totp_rs::Algorithm::SHA1)
        .with_digits(digits)
        .with_skew(skew)
        .with_step_duration(step)
        .with_secret(secret.clone())
        .with_issuer(Some(issuer))
        .with_account_name(account)
        .build()
        .map(|_| ())
}

/// The `Display` text of a `TotpError`. Nothing is claimed of it.
#[verifier::external_body]
fn totp_error_text(e: &totp_rs::TotpError) -> (r: String) {
    format!("{e}")
}

/// The first step from `from` up to `to` at which `code` is the code.
pub open spec fn first_match(
    secret: Seq<u8>,
    digits: u8,
    from: int,
    to: int,
    code: Seq<char>,
) -> Option<int>
    decreases to - from + 1,
{
    if from > to {
        None
    } else if totp_code(secret, digits, from as u64) == code {
        Some(from)
    } else {
        first_match(secret, digits, from + 1, to, code)
    }
}

/// The first step of those looked at `now`.
pub open spec fn window_start(now: int, step: int, skew: int) -> int {
    if now / step < skew {
        0
    } else {
        now / step - skew
    }
}

/// `Totp::check`: the first step, among those no further from now than the
/// skew, whose code this is.
#[verifier::external_body]
fn totp_check(secret: &Vec<u8>, digits: u8, skew: u16, step: u64, code: &str, now: u64) -> (r:
    Option<u64>)
    requires
        1 <= digits < 10,
        step > 0,
        (now as int / step as int + skew) * step <= u64::MAX,
    ensures
        r matches Some(s) ==> totp_code(secret@, digits, s) == code@,
        match r {
            Some(s) => first_match(
                secret@,
                digits,
                window_start(now as int, step as int, skew as int),
                now as int / step as int + skew,
                code@,
            ) == Some(s as int),
            None => first_match(
                secret@,
                digits,
                window_start(now as int, step as int, skew as int),
                now as int / step as int + skew,
                code@,
            ) is None,
        },
{
    totp_rs::Builder::new()
        .with_algorithm(totp_rs::Algorithm::SHA1)
        .with_digits(digits)
        .with_skew(skew)
        .with_step_duration(step)
        .with_secret(secret.clone())
        .build_noncompliant()
        .check(code, now)
}

/// `Totp::to_url`: fixed parts, the secret in base32 and the two names
/// percent-encoded. Digits and step are left out where they are six and thirty,
/// and the algorithm where it is SHA-1, as it is here. An account has to have a
/// name, and the name no colon.
#[verifier::external_body]
fn totp_url(secret: &Vec<u8>, digits: u8, step: u64, issuer: &str, account: &str) -> (r: Result<
    String,
    totp_rs::TotpError,
>)
    ensures
        match r {
            Ok(url) => nameable(account@) && url@ == otpauth(
                secret@,
                digits,
                step,
                issuer@,
                account@,
            ),
            Err(_) => !nameable(account@),
        },
{
    totp_rs::Builder::new()
        .with_algorithm(totp_rs::Algorithm::SHA1)
        .with_digits(digits)
        .with_step_duration(step)
        .with_secret(secret.clone())
        .with_issuer(Some(issuer))
        .with_account_name(account)
        .build_noncompliant()
        .to_url()
}

/// `Totp::to_qr_png`
#[verifier::external_body]
fn totp_png(secret: &Vec<u8>, digits: u8, step: u64, issuer: &str, account: &str) -> (r: Result<
    Vec<u8>,
    totp_rs::TotpError,
>)
    ensures
        match r {
            Ok(png) => otpauth_png(secret@, digits, step, issuer@, account@) == Some(png@),
            Err(_) => otpauth_png(secret@, digits, step, issuer@, account@) is None,
        },
{
    totp_rs::Builder::new()
        .with_algorithm(totp_rs::Algorithm::SHA1)
        .with_digits(digits)
        .with_step_duration(step)
        .with_secret(secret.clone())
        .with_issuer(Some(issuer))
        .with_account_name(account)
        .build_noncompliant()
        .to_qr_png()
}

/// A 160-bit secret, base32-encoded: the recommended size, and what
/// authenticator apps are built around.
pub fn new_totp_secret() -> (r: Result<String, String>)
    ensures
        match r {
            Ok(text) => text@.len() == 32 && (base32_bytes(text@) matches Some(bytes)
                && bytes.len() == 20 && text@ == base32_text(bytes)),
            Err(e) => starts(e@, no_random("authenticator secret"@)),
        },
{
    match random_bytes(20, "authenticator secret") {
        Ok(bytes) => Ok(encode_base32(&bytes)),
        Err(e) => Err(e),
    }
}

/// The authenticator: what its app and the server both hold.
pub struct Authenticator {
    pub secret: Vec<u8>,
}

/// The secret this text spells, where an authenticator can be built on it.
pub open spec fn usable_secret(text: Seq<char>) -> Option<Seq<u8>> {
    match base32_bytes(text) {
        Some(bytes) => if bytes.len() >= 16 {
            Some(bytes)
        } else {
            None
        },
        None => None,
    }
}

/// Whether this is what is said of a secret no authenticator can be built on.
pub open spec fn unusable(text: Seq<char>, e: Seq<char>) -> bool {
    if base32_bytes(text) is None {
        e == "the stored authenticator secret is not valid base32."@
    } else {
        starts(e, "could not set up the authenticator: "@)
    }
}

// ---------------------------------------------------------------------------
// The secrets on disk
// ---------------------------------------------------------------------------

/// `<data-dir>/serve/auth.json`, readable by its owner alone.
#[derive(Debug)]
pub struct AuthStore {
    /// PHC string: algorithm, parameters, salt and hash, all in one field.
    pub password_hash: String,
    /// Base32, as authenticator apps spell it.
    pub totp_secret: String,
    /// False until a code from the app has been accepted once. Until then the
    /// server offers the QR code instead of asking for a code.
    pub totp_confirmed: bool,
    /// The last time step accepted. A code is good once; this is what makes
    /// that true, and it is why a code copied off the network is of no use a
    /// second later.
    pub last_totp_step: u64,
}

/// The secrets as a mathematical value.
#[verifier::ext_equal]
pub struct AuthV {
    pub password_hash: Seq<char>,
    pub totp_secret: Seq<char>,
    pub totp_confirmed: bool,
    pub last_totp_step: u64,
}

impl View for AuthStore {
    type V = AuthV;

    open spec fn view(&self) -> AuthV {
        AuthV {
            password_hash: self.password_hash@,
            totp_secret: self.totp_secret@,
            totp_confirmed: self.totp_confirmed,
            last_totp_step: self.last_totp_step,
        }
    }
}

/// What a submitted code turned out to be.
#[derive(Clone, Copy, PartialEq, Eq, Structural, Debug)]
pub enum CodeCheck {
    Accepted,
    /// Right code, already used. Worth its own answer because it is the shape
    /// of an attack, not of a typo.
    Replayed,
    Wrong,
}

/// The time step a submitted code is for, among those around now.
pub open spec fn step_of(secret: Seq<u8>, code: Seq<char>, now: int) -> Option<int> {
    first_match(
        secret,
        DIGITS,
        window_start(now, STEP as int, SKEW as int),
        now / (STEP as int) + SKEW,
        trimmed(code),
    )
}

/// What a submitted code turns out to be, and what is remembered of it.
pub open spec fn checked(a: AuthV, secret: Seq<u8>, code: Seq<char>, now: int) -> (
    CodeCheck,
    AuthV,
) {
    match step_of(secret, code, now) {
        None => (CodeCheck::Wrong, a),
        Some(step) => if step <= a.last_totp_step {
            (CodeCheck::Replayed, a)
        } else {
            (
                CodeCheck::Accepted,
                AuthV { last_totp_step: step as u64, totp_confirmed: true, ..a },
            )
        },
    }
}

/// A clock reading after which there is still room for a session.
pub open spec fn sane(now: u64) -> bool {
    now + SESSION_SECS <= u64::MAX
}

/// What is said of a password that is too short.
pub open spec fn too_short(password: Seq<char>) -> Seq<char> {
    "that password is "@ + decimal(password.len()) + " characters; evo wants at least "@ + decimal(
        MIN_PASSWORD as nat,
    ) + "."@
}

/// The credentials a password, a salt and a secret make. A secret of twenty
/// bytes can be read back from its text.
pub open spec fn made(
    password: Seq<char>,
    salt: Result<Vec<u8>, String>,
    secret: Result<Vec<u8>, String>,
    r: Result<AuthStore, String>,
) -> bool {
    if password.len() < MIN_PASSWORD {
        r matches Err(e) && e@ == too_short(password)
    } else {
        match salt {
            Err(why) => r matches Err(e) && e@ == why@,
            Ok(bytes) => match hashed(password, bytes@) {
                Err(why) => r matches Err(e) && starts(e@, why),
                Ok(stored) => match secret {
                    Err(why) => r matches Err(e) && e@ == why@,
                    Ok(key) => {
                        &&& r matches Ok(store) && store@ == (AuthV {
                            password_hash: stored,
                            totp_secret: base32_text(key@),
                            totp_confirmed: false,
                            last_totp_step: 0,
                        })
                        &&& password_matches(stored, password)
                        &&& key@.len() == 20 ==> base32_bytes(base32_text(key@)) == Some(key@)
                    },
                },
            },
        }
    }
}

impl AuthStore {
    /// Hash the password and mint a fresh 160-bit authenticator secret.
    pub fn create(password: &str) -> (r: Result<Self, String>)
        ensures
            match r {
                Ok(store) => {
                    &&& password@.len() >= MIN_PASSWORD
                    &&& salted_hash(store@.password_hash, password@)
                    &&& password_matches(store@.password_hash, password@)
                    &&& usable_secret(store@.totp_secret) is Some
                    &&& usable_secret(store@.totp_secret)->0.len() == 20
                    &&& store@.totp_secret == base32_text(usable_secret(store@.totp_secret)->0)
                    &&& !store@.totp_confirmed
                    &&& store@.last_totp_step == 0
                },
                Err(e) => if password@.len() < MIN_PASSWORD {
                    e@ == too_short(password@)
                } else {
                    starts(e@, no_random("password salt"@)) || starts(
                        e@,
                        "could not make a salt: "@,
                    ) || starts(e@, "could not hash the password: "@) || starts(
                        e@,
                        no_random("authenticator secret"@),
                    )
                },
            },
    {
        AuthStore::of(
            password,
            random_bytes(16, "password salt"),
            random_bytes(20, "authenticator secret"),
        )
    }

    /// The credentials a password, a salt and a secret make, or why there is no
    /// salt or no secret.
    pub fn of(
        password: &str,
        salt: Result<Vec<u8>, String>,
        secret: Result<Vec<u8>, String>,
    ) -> (r: Result<Self, String>)
        ensures
            made(password@, salt, secret, r),
    {
        let n: usize = to_chars(password).len();
        if n < MIN_PASSWORD {
            let mut why: String = "that password is ".to_owned();
            why.append(decimal_of(n as u64).as_str());
            why.append(" characters; evo wants at least ");
            why.append(decimal_of(MIN_PASSWORD as u64).as_str());
            why.append(".");
            return Err(why);
        }
        let salt: Vec<u8> = match salt {
            Ok(salt) => salt,
            Err(e) => {
                return Err(e);
            },
        };
        let password_hash: String = match hash_with_salt(password, &salt) {
            Ok(stored) => stored,
            Err(e) => {
                return Err(e);
            },
        };
        match secret {
            Ok(secret) => Ok(
                AuthStore {
                    password_hash,
                    totp_secret: encode_base32(&secret),
                    totp_confirmed: false,
                    last_totp_step: 0,
                },
            ),
            Err(e) => Err(e),
        }
    }

    /// The authenticator, built from the stored secret.
    pub fn totp(&self) -> (r: Result<Authenticator, String>)
        ensures
            match r {
                Ok(a) => usable_secret(self@.totp_secret) == Some(a.secret@),
                Err(e) => usable_secret(self@.totp_secret) is None && unusable(
                    self@.totp_secret,
                    e@,
                ),
            },
    {
        match decode_base32(self.totp_secret.as_str()) {
            None => Err("the stored authenticator secret is not valid base32.".to_owned()),
            Some(secret) => {
                proof {
                    reveal_strlit("evo");
                    reveal_strlit("evo serve");
                }
                match try_totp(&secret, DIGITS, SKEW, STEP, ISSUER, ACCOUNT) {
                    Ok(_) => Ok(Authenticator { secret }),
                    Err(e) => {
                        let mut why: String = "could not set up the authenticator: ".to_owned();
                        let reason: String = totp_error_text(&e);
                        why.append(reason.as_str());
                        proof {
                            lemma_starts("could not set up the authenticator: "@, reason@);
                        }
                        Err(why)
                    },
                }
            },
        }
    }

    /// What goes into the authenticator app.
    pub fn otpauth_url(&self) -> (r: Result<String, String>)
        ensures
            match r {
                Ok(url) => usable_secret(self@.totp_secret) is Some && url@ == otpauth(
                    usable_secret(self@.totp_secret)->0,
                    DIGITS,
                    STEP,
                    ISSUER@,
                    ACCOUNT@,
                ),
                Err(e) => usable_secret(self@.totp_secret) is None && unusable(
                    self@.totp_secret,
                    e@,
                ),
            },
    {
        match self.totp() {
            Ok(a) => {
                proof {
                    reveal_strlit("evo serve");
                }
                match totp_url(&a.secret, DIGITS, STEP, ISSUER, ACCOUNT) {
                    Ok(url) => Ok(url),
                    Err(e) => {
                        let mut why: String = "could not write the enrolment URL: ".to_owned();
                        why.append(totp_error_text(&e).as_str());
                        Err(why)
                    },
                }
            },
            Err(e) => Err(e),
        }
    }

    /// The same, as a QR code to scan.
    pub fn qr_png(&self) -> (r: Result<Vec<u8>, String>)
        ensures
            match usable_secret(self@.totp_secret) {
                Some(secret) => match r {
                    Ok(png) => otpauth_png(secret, DIGITS, STEP, ISSUER@, ACCOUNT@) == Some(png@),
                    Err(e) => otpauth_png(secret, DIGITS, STEP, ISSUER@, ACCOUNT@) is None
                        && starts(e@, "could not draw the enrolment QR code: "@),
                },
                None => r is Err && unusable(self@.totp_secret, r->Err_0@),
            },
    {
        match self.totp() {
            Ok(a) => match totp_png(&a.secret, DIGITS, STEP, ISSUER, ACCOUNT) {
                Ok(png) => Ok(png),
                Err(e) => {
                    let mut why: String = "could not draw the enrolment QR code: ".to_owned();
                    let reason: String = totp_error_text(&e);
                    why.append(reason.as_str());
                    proof {
                        lemma_starts("could not draw the enrolment QR code: "@, reason@);
                    }
                    Err(why)
                },
            },
            Err(e) => Err(e),
        }
    }

    /// Check a code, and remember it so it cannot be used twice.
    ///
    /// A first success is also enrolment finished: the app has demonstrably got
    /// the secret, so there is nothing left to confirm.
    pub fn check_code(&mut self, code: &str, now: u64) -> (r: Result<CodeCheck, String>)
        requires
            (now / STEP + SKEW) * STEP <= u64::MAX,
        ensures
            match usable_secret(old(self)@.totp_secret) {
                Some(secret) => r == Ok::<CodeCheck, String>(
                    checked(old(self)@, secret, code@, now as int).0,
                ) && final(self)@ == checked(old(self)@, secret, code@, now as int).1,
                None => r is Err && unusable(old(self)@.totp_secret, r->Err_0@) && final(self)@
                    == old(self)@,
            },
    {
        let a: Authenticator = match self.totp() {
            Ok(a) => a,
            Err(e) => {
                return Err(e);
            },
        };
        let code: String = trim(code);
        match totp_check(&a.secret, DIGITS, SKEW, STEP, code.as_str(), now) {
            None => Ok(CodeCheck::Wrong),
            Some(step) => if step <= self.last_totp_step {
                Ok(CodeCheck::Replayed)
            } else {
                self.last_totp_step = step;
                self.totp_confirmed = true;
                Ok(CodeCheck::Accepted)
            },
        }
    }
}

pub proof fn lemma_first_match(secret: Seq<u8>, digits: u8, from: int, to: int, code: Seq<char>)
    ensures
        match first_match(secret, digits, from, to, code) {
            Some(s) => from <= s <= to && totp_code(secret, digits, s as u64) == code,
            None => forall|s: int|
                from <= s <= to ==> totp_code(secret, digits, #[trigger] (s as u64)) != code,
        },
    decreases to - from + 1,
{
    if from <= to && totp_code(secret, digits, from as u64) != code {
        lemma_first_match(secret, digits, from + 1, to, code);
        if first_match(secret, digits, from + 1, to, code) is None {
            assert forall|s: int| from <= s <= to implies totp_code(
                secret,
                digits,
                #[trigger] (s as u64),
            ) != code by {
                if s > from {
                }
            }
        }
    }
}

/// A code only works once: after it has been accepted, the same code at the
/// same time is a replay, and any code accepted later belongs to a later time
/// step.
pub proof fn law_a_code_works_once(
    a: AuthV,
    secret: Seq<u8>,
    code: Seq<char>,
    now: int,
    later_code: Seq<char>,
    later: int,
)
    requires
        0 <= now <= u64::MAX - 60,
        0 <= later <= u64::MAX - 60,
        checked(a, secret, code, now).0 is Accepted,
    ensures
        checked(checked(a, secret, code, now).1, secret, code, now).0 is Replayed,
        step_of(secret, later_code, later) == step_of(secret, code, now) ==> checked(
            checked(a, secret, code, now).1,
            secret,
            later_code,
            later,
        ).0 is Replayed,
        checked(checked(a, secret, code, now).1, secret, later_code, later).0 is Accepted
            ==> step_of(secret, later_code, later)->0 > step_of(secret, code, now)->0,
{
    lemma_first_match(
        secret,
        DIGITS,
        window_start(now, STEP as int, SKEW as int),
        now / (STEP as int) + SKEW,
        trimmed(code),
    );
}

proof fn lemma_first_match_first(
    secret: Seq<u8>,
    digits: u8,
    from: int,
    to: int,
    code: Seq<char>,
    s: int,
)
    requires
        from <= s <= to,
        totp_code(secret, digits, s as u64) == code,
    ensures
        first_match(secret, digits, from, to, code) matches Some(first) && first <= s,
    decreases to - from + 1,
{
    if totp_code(secret, digits, from as u64) != code {
        lemma_first_match_first(secret, digits, from + 1, to, code, s);
    }
}

/// A code that was accepted is a replay at every later time at which it could
/// still be given.
pub proof fn law_an_accepted_code_stays_used(
    a: AuthV,
    secret: Seq<u8>,
    code: Seq<char>,
    now: int,
    later: int,
)
    requires
        0 <= now <= later <= u64::MAX - 60,
        checked(a, secret, code, now).0 is Accepted,
        later / 30 - 1 <= step_of(secret, code, now)->0,
    ensures
        checked(checked(a, secret, code, now).1, secret, code, later).0 is Replayed,
{
    let t = trimmed(code);
    lemma_first_match(
        secret,
        DIGITS,
        window_start(now, STEP as int, SKEW as int),
        now / (STEP as int) + SKEW,
        t,
    );
    let s = step_of(secret, code, now)->0;
    assert(now / 30 <= later / 30);
    lemma_first_match_first(
        secret,
        DIGITS,
        window_start(later, STEP as int, SKEW as int),
        later / (STEP as int) + SKEW,
        t,
        s,
    );
}

/// A code is accepted no further than one step from now, and only where it is
/// the code of that step.
pub proof fn law_a_code_is_for_now(a: AuthV, secret: Seq<u8>, code: Seq<char>, now: int)
    requires
        0 <= now <= u64::MAX - 60,
    ensures
        checked(a, secret, code, now).0 is Accepted ==> {
            let s = checked(a, secret, code, now).1.last_totp_step;
            &&& now / 30 - 1 <= s <= now / 30 + 1
            &&& totp_code(secret, DIGITS, s) == trimmed(code)
        },
{
    lemma_first_match(
        secret,
        DIGITS,
        window_start(now, STEP as int, SKEW as int),
        now / (STEP as int) + SKEW,
        trimmed(code),
    );
}

/// The code the app shows -- now, a step ago, or a step ahead -- is not wrong:
/// it is accepted, or it was used already.
pub proof fn law_the_right_code_is_not_wrong(
    a: AuthV,
    secret: Seq<u8>,
    code: Seq<char>,
    now: int,
    step: u64,
)
    requires
        0 <= now <= u64::MAX - 60,
        now / 30 - 1 <= step <= now / 30 + 1,
        trimmed(code) == totp_code(secret, DIGITS, step),
    ensures
        !(checked(a, secret, code, now).0 is Wrong),
{
    lemma_first_match(
        secret,
        DIGITS,
        window_start(now, STEP as int, SKEW as int),
        now / (STEP as int) + SKEW,
        trimmed(code),
    );
    assert((step as int) as u64 == step);
}

// ---------------------------------------------------------------------------
// What is said of the files
// ---------------------------------------------------------------------------

/// What is said when the credentials cannot be read.
pub fn credentials_failure(path: &str, missing: bool, reason: &str) -> (r: String)
    ensures
        r@ == if missing {
            "evo serve has no password yet. Run `evo serve init` first (it writes "@ + path@ + ")."@
        } else {
            "could not read "@ + path@ + ": "@ + reason@
        },
{
    if missing {
        let mut r: String =
            "evo serve has no password yet. Run `evo serve init` first (it writes ".to_owned();
        r.append(path);
        r.append(").");
        r
    } else {
        let mut r: String = "could not read ".to_owned();
        r.append(path);
        r.append(": ");
        r.append(reason);
        r
    }
}

/// What is said when there is a password already.
pub fn already_set_up(path: &str) -> (r: String)
    ensures
        r@ == path@
            + " already exists. Delete it to start over -- doing so un-enrols your authenticator app and signs out every device."@,
{
    let mut r: String = path.to_owned();
    r.append(
        " already exists. Delete it to start over -- doing so un-enrols your authenticator app and signs out every device.",
    );
    r
}

/// The enrolment URL for a secret, in full: it begins with its
/// scheme and whose account it is, and carries the secret and the issuer.
pub proof fn law_the_enrolment_url(key: Seq<u8>)
    ensures
        otpauth(key, DIGITS, STEP, ISSUER@, ACCOUNT@)
            == "otpauth://totp/evo:evo%20serve?secret="@ + base32_text(key) + "&issuer=evo"@,
{
    reveal_strlit("evo");
    reveal_strlit("evo serve");
    reveal_strlit("otpauth://totp/");
    reveal_strlit(":");
    reveal_strlit("?secret=");
    reveal_strlit("&issuer=");
    reveal_strlit("otpauth://totp/evo:evo%20serve?secret=");
    reveal_strlit("&issuer=evo");
    lemma_url_text_ascii(ISSUER@);
    lemma_url_text_ascii(ACCOUNT@);
    assert(spelled(ISSUER@) =~= seq!['e', 'v', 'o']) by {
        reveal_with_fuel(spelled, 4);
    }
    assert(spelled(ACCOUNT@) =~= seq!['e', 'v', 'o', '%', '2', '0', 's', 'e', 'r', 'v', 'e']) by {
        reveal_with_fuel(spelled, 10);
    }
    assert(otpauth(key, DIGITS, STEP, ISSUER@, ACCOUNT@)
        =~= "otpauth://totp/evo:evo%20serve?secret="@ + base32_text(key) + "&issuer=evo"@);
}

/// Characters of one byte each, as they are written in a URL.
spec fn spelled(s: Seq<char>) -> Seq<char>
    decreases s.len(),
{
    if s.len() == 0 {
        Seq::empty()
    } else {
        spelled(s.drop_last()) + escaped(s.last() as u8)
    }
}

proof fn lemma_percent(s: Seq<char>, bytes: Seq<u8>)
    requires
        s.len() == bytes.len(),
        forall|i: int| 0 <= i < s.len() ==> #[trigger] bytes[i] == s[i] as u8,
    ensures
        percent(bytes) == spelled(s),
    decreases s.len(),
{
    if s.len() > 0 {
        assert(bytes.last() == s.last() as u8);
        lemma_percent(s.drop_last(), bytes.drop_last());
    }
}

proof fn lemma_url_text_ascii(s: Seq<char>)
    requires
        vstd::utf8::is_ascii_chars(s),
    ensures
        url_text(s) == spelled(s),
{
    vstd::utf8::is_ascii_chars_encode_utf8(s);
    lemma_percent(s, vstd::utf8::encode_utf8(s));
}

} // verus!
