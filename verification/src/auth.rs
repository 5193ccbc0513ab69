//! Administrator sessions: logging in with the password, the session
//! token carried in a cookie, and the check that guards protected routes.
use vstd::prelude::*;
use vstd::string::StringSliceAdditionalSpecFns;

use argon2::password_hash::rand_core::OsRng;
use argon2::password_hash::SaltString;
use argon2::{Argon2, PasswordHash, PasswordHasher, PasswordVerifier};
use hmac::{Hmac, Mac};
use jwt::{SignWithKey, VerifyWithKey};
use sha2::Sha256;
use std::collections::BTreeMap;

use crate::text::{
    chars_eq, chars_of, concat_text, lemma_find_first, lemma_find_none, occurs_at, split_by,
    split_chars, split_from, string_from_chars, text_of, views,
};

verus! {

/// Claims as (name, value) pairs of texts.
pub open spec fn pairs_view(v: Seq<(String, String)>) -> Seq<(Seq<char>, Seq<char>)> {
    v.map_values(|p: (String, String)| (p.0@, p.1@))
}

pub open spec fn opt_pairs_view(o: Option<Vec<(String, String)>>) -> Option<
    Seq<(Seq<char>, Seq<char>)>,
> {
    match o {
        Some(v) => Some(pairs_view(v@)),
        None => None,
    }
}

pub open spec fn opt_text_view(o: Option<String>) -> Option<Seq<char>> {
    match o {
        Some(s) => Some(s@),
        None => None,
    }
}

/// The claims that `jwt`'s `verify_with_key` reads from `token` when its
/// HMAC-SHA256 signature under the key `secret` is valid; `None` when the
/// token is malformed or its signature does not match.
pub uninterp spec fn jwt_verified_claims(token: Seq<char>, secret: Seq<char>) -> Option<
    Seq<(Seq<char>, Seq<char>)>,
>;

/// The token that `jwt`'s `sign_with_key` makes of `claims` with the
/// HMAC-SHA256 key `secret`.
pub uninterp spec fn jwt_signed(claims: Seq<(Seq<char>, Seq<char>)>, secret: Seq<char>) -> Seq<
    char,
>;

/// Whether `argon2` accepts `password` against the PHC hash string `hash`
/// (`Argon2::default().verify_password`); `None` when `hash` is not a
/// PHC string (`PasswordHash::new` fails).
pub uninterp spec fn argon2_verifies(password: Seq<char>, hash: Seq<char>) -> Option<bool>;

/// A character of a signed token: the URL-safe base64 alphabet and the
/// `.` between the token's three parts.
pub open spec fn is_token_char(c: char) -> bool {
    ('A' <= c && c <= 'Z') || ('a' <= c && c <= 'z') || ('0' <= c && c <= '9') || c == '-' || c
        == '_' || c == '.'
}

/// Checks a session token with `jwt`'s `VerifyWithKey::verify_with_key`
/// for `BTreeMap<String, String>` claims and an `Hmac<Sha256>` key made
/// from `secret` with `Mac::new_from_slice`. Claimed: the result is
/// `jwt_verified_claims` of the token and the secret; the claims come out
/// as the map's (name, value) pairs.
#[verifier::external_body]
fn verify_token(token: &str, secret: &str) -> (r: Option<Vec<(String, String)>>)
    ensures
        opt_pairs_view(r) == jwt_verified_claims(token@, secret@),
{
    let key: Hmac<Sha256> = match Hmac::new_from_slice(secret.as_bytes()) {
        Ok(k) => k,
        Err(_) => return None,
    };
    let claims: BTreeMap<String, String> = match token.verify_with_key(&key) {
        Ok(c) => c,
        Err(_) => return None,
    };
    Some(claims.into_iter().collect())
}

/// Signs claims with `jwt`'s `SignWithKey::sign_with_key` (claims as a
/// `BTreeMap`, key `Hmac<Sha256>` from `secret`). Claimed: the result is
/// `jwt_signed` of the claims and the secret; signing always succeeds (an
/// HMAC key takes any length, and a map of strings always serializes); as
/// the crate joins three URL-safe base64 parts with `.`, a token holds only
/// such characters; and `verify_with_key` under the same secret accepts the
/// token. When no name repeats in `claims`, the claims it gives back hold,
/// for each name, the value that `claims` gives it; which of repeated
/// values the map keeps is left unsaid.
#[verifier::external_body]
fn sign_claims(claims: &Vec<(String, String)>, secret: &str) -> (t: String)
    ensures
        t@ == jwt_signed(pairs_view(claims@), secret@),
        forall|i: int| 0 <= i < t@.len() ==> is_token_char(#[trigger] t@[i]),
        jwt_verified_claims(t@, secret@) is Some,
        distinct_names(pairs_view(claims@)) ==> forall|k: Seq<char>|
            #[trigger] claim_value(jwt_verified_claims(t@, secret@)->0, k) == claim_value(
                pairs_view(claims@),
                k,
            ),
{
    let key: Hmac<Sha256> = Hmac::new_from_slice(secret.as_bytes()).unwrap();
    let map: BTreeMap<&str, &str> = claims.iter().map(|p| (p.0.as_str(), p.1.as_str())).collect();
    map.sign_with_key(&key).unwrap()
}

/// Checks a password against a stored hash with `argon2`
/// (`PasswordHash::new`, then `Argon2::default().verify_password`).
/// Claimed: the result is `argon2_verifies` of the two texts.
#[verifier::external_body]
fn verify_password(password: &str, hash: &str) -> (r: Option<bool>)
    ensures
        r == argon2_verifies(password@, hash@),
{
    let parsed = match PasswordHash::new(hash) {
        Ok(h) => h,
        Err(_) => return None,
    };
    Some(Argon2::default().verify_password(password.as_bytes(), &parsed).is_ok())
}

/// Hashes a password with `argon2` (`Argon2::default().hash_password` with
/// a fresh `SaltString::generate(&mut OsRng)`), as a PHC string. The salt
/// is random, so the hash itself is not stated; claimed, as the crate's own
/// documentation example shows: the password verifies against its hash; and,
/// as the source shows (the only input check that default parameters and a
/// generated 16-byte salt can fail is `MAX_PWD_LEN`, 0xFFFFFFFF bytes): a
/// hash is made for every password of at most that many bytes.
#[verifier::external_body]
fn hash_password(password: &str) -> (r: Option<String>)
    ensures
        r matches Some(h) ==> argon2_verifies(password@, h@) == Some(true),
        password.spec_bytes().len() <= 0xFFFF_FFFF ==> r is Some,
{
    let salt = SaltString::generate(&mut OsRng);
    match Argon2::default().hash_password(password.as_bytes(), &salt) {
        Ok(h) => Some(h.to_string()),
        Err(_) => None,
    }
}

/// The value of the first claim named `key`.
pub open spec fn claim_value(c: Seq<(Seq<char>, Seq<char>)>, key: Seq<char>) -> Option<Seq<char>>
    decreases c.len(),
{
    if c.len() == 0 {
        None
    } else if c[0].0 == key {
        Some(c[0].1)
    } else {
        claim_value(c.drop_first(), key)
    }
}

/// No two claims have the same name.
pub open spec fn distinct_names(c: Seq<(Seq<char>, Seq<char>)>) -> bool {
    forall|i: int, j: int| 0 <= i < j < c.len() ==> #[trigger] c[i].0 != #[trigger] c[j].0
}

/// The subject that administrator sessions are issued for.
pub open spec fn admin_subject() -> Seq<char> {
    "schedapiadmin"@
}

/// Claims that open a session: subject `schedapiadmin`, and a `psw` claim
/// equal to the current password hash.
pub open spec fn grants(c: Seq<(Seq<char>, Seq<char>)>, password_hash: Seq<char>) -> bool {
    claim_value(c, "sub"@) == Some(admin_subject()) && claim_value(c, "psw"@) == Some(
        password_hash,
    )
}

/// The claims of a session issued while the password hash is `hash`.
pub open spec fn admin_claims_view(hash: Seq<char>) -> Seq<(Seq<char>, Seq<char>)> {
    seq![("sub"@, admin_subject()), ("psw"@, hash)]
}

fn claim_position(c: &Vec<(String, String)>, key: &str) -> (r: Option<usize>)
    ensures
        match r {
            Some(i) => i < c@.len() && claim_value(pairs_view(c@), key@) == Some(c@[i as int].1@),
            None => claim_value(pairs_view(c@), key@) == None::<Seq<char>>,
        },
{
    let ghost pv = pairs_view(c@);
    let k = chars_of(key);
    let mut i: usize = 0;
    assert(pv.subrange(0, pv.len() as int) =~= pv);
    while i < c.len()
        invariant
            i <= c.len(),
            pv == pairs_view(c@),
            k@ == key@,
            claim_value(pv, key@) == claim_value(pv.subrange(i as int, pv.len() as int), key@),
        decreases c.len() - i,
    {
        let name = chars_of(c[i].0.as_str());
        let ghost rest = pv.subrange(i as int, pv.len() as int);
        assert(rest[0] == pv[i as int]);
        assert(rest.drop_first() =~= pv.subrange(i + 1, pv.len() as int));
        if chars_eq(&name, &k) {
            return Some(i);
        }
        i += 1;
    }
    None
}

/// Whether the claims of a verified token open a session while the
/// password hash is `password_hash`.
pub fn claims_grant_access(claims: &Vec<(String, String)>, password_hash: &str) -> (r: bool)
    ensures
        r == grants(pairs_view(claims@), password_hash@),
{
    let admin = chars_of("schedapiadmin");
    let ok_sub = match claim_position(claims, "sub") {
        Some(i) => {
            let v = chars_of(claims[i].1.as_str());
            chars_eq(&v, &admin)
        },
        None => false,
    };
    if !ok_sub {
        return false;
    }
    let pw = chars_of(password_hash);
    match claim_position(claims, "psw") {
        Some(i) => {
            let v = chars_of(claims[i].1.as_str());
            chars_eq(&v, &pw)
        },
        None => false,
    }
}

/// The cookie text `token` as a character sequence.
pub open spec fn token_name() -> Seq<char> {
    seq!['t', 'o', 'k', 'e', 'n']
}

/// The value of the first `token=...` pair in `pieces[k..]` that has a value.
pub open spec fn token_in(pieces: Seq<Seq<char>>, k: int) -> Option<Seq<char>>
    decreases pieces.len() - k,
{
    if k < 0 || k >= pieces.len() {
        None
    } else {
        let kv = split_by(pieces[k], seq!['=']);
        if kv.len() >= 2 && kv[0] == token_name() {
            Some(kv[1])
        } else {
            token_in(pieces, k + 1)
        }
    }
}

/// The session token in a `Cookie` header: the cookies are separated by
/// `; `, and the first cookie named `token` that has a value gives it.
pub open spec fn cookie_token(header: Seq<char>) -> Option<Seq<char>> {
    token_in(split_by(header, seq![';', ' ']), 0)
}

/// Reads the session token from a `Cookie` header.
pub fn token_from_cookie(header: &str) -> (r: Option<String>)
    ensures
        opt_text_view(r) == cookie_token(header@),
{
    let h = chars_of(header);
    let sep = vec![';', ' '];
    let eq = vec!['='];
    let name = vec!['t', 'o', 'k', 'e', 'n'];
    assert(sep@ =~= seq![';', ' ']);
    assert(eq@ =~= seq!['=']);
    assert(name@ =~= token_name());
    let pieces = split_chars(&h, &sep);
    let ghost ps = split_by(header@, seq![';', ' ']);
    let mut k: usize = 0;
    while k < pieces.len()
        invariant
            k <= pieces.len(),
            views(pieces@) == ps,
            eq@ == seq!['='],
            name@ == token_name(),
            cookie_token(header@) == token_in(ps, k as int),
        decreases pieces.len() - k,
    {
        assert(pieces@[k as int]@ == ps[k as int]);
        let kv = split_chars(&pieces[k], &eq);
        if kv.len() >= 2 && chars_eq(&kv[0], &name) {
            assert(kv@[0]@ == views(kv@)[0]);
            assert(kv@[1]@ == views(kv@)[1]);
            return Some(string_from_chars(&kv[1]));
        }
        proof {
            if kv.len() >= 2 {
                assert(kv@[0]@ == views(kv@)[0]);
            }
        }
        k += 1;
    }
    None
}

/// Law: a cookie `token=T`, where `T` holds neither `;` nor `=`, gives
/// back `T` as the session token.
pub proof fn lemma_cookie_round_trip(t: Seq<char>)
    requires
        forall|i: int| 0 <= i < t.len() ==> #[trigger] t[i] != ';' && t[i] != '=',
    ensures
        cookie_token(seq!['t', 'o', 'k', 'e', 'n', '='] + t) == Some(t),
{
    let s = seq!['t', 'o', 'k', 'e', 'n', '='] + t;
    let semi = seq![';', ' '];
    let eq = seq!['='];
    assert forall|k: int| 0 <= k < s.len() implies s[k] != semi[0] by {
        if k >= 6 {
            assert(s[k] == t[k - 6]);
        }
    }
    lemma_find_none(s, semi, 0);
    assert(split_by(s, semi) =~= seq![s.subrange(0, s.len() as int)]);
    assert(s.subrange(0, s.len() as int) =~= s);
    assert forall|k: int| 0 <= k < 5 implies !occurs_at(s, eq, k) by {
        assert(s.subrange(k, k + 1)[0] == s[k]);
    }
    assert(s.subrange(5, 6) =~= eq);
    lemma_find_first(s, eq, 0, 5);
    assert forall|k: int| 6 <= k < s.len() implies s[k] != eq[0] by {
        assert(s[k] == t[k - 6]);
    }
    lemma_find_none(s, eq, 6);
    assert(split_from(s, eq, 6) == seq![s.subrange(6, s.len() as int)]);
    assert(split_by(s, eq) == seq![s.subrange(0, 5)] + seq![s.subrange(6, s.len() as int)]);
    assert(s.subrange(0, 5) =~= token_name());
    assert(s.subrange(6, s.len() as int) =~= t);
    let kv = split_by(s, eq);
    assert(kv[0] == token_name());
    assert(kv[1] == t);
    assert(token_in(seq![s], 1) == None::<Seq<char>>);
}

/// Whether `routes` lists `path` as a route that needs a session.
pub fn is_authorized_route(routes: &Vec<String>, path: &str) -> (r: bool)
    ensures
        r == routes@.map_values(|s: String| s@).contains(path@),
{
    let ghost rv = routes@.map_values(|s: String| s@);
    let p = chars_of(path);
    let mut i: usize = 0;
    while i < routes.len()
        invariant
            i <= routes.len(),
            rv == routes@.map_values(|s: String| s@),
            p@ == path@,
            forall|j: int| 0 <= j < i ==> rv[j] != path@,
        decreases routes.len() - i,
    {
        let r = chars_of(routes[i].as_str());
        if chars_eq(&r, &p) {
            assert(rv[i as int] == path@);
            return true;
        }
        i += 1;
    }
    false
}

/// A request may go on: its route needs no session, or its `Cookie` header
/// carries a token whose signature verifies under `secret` and whose
/// claims open a session for the current password hash.
pub open spec fn admits(
    routes: Seq<Seq<char>>,
    path: Seq<char>,
    cookie: Option<Seq<char>>,
    secret: Seq<char>,
    password_hash: Seq<char>,
) -> bool {
    !routes.contains(path) || match cookie {
        None => false,
        Some(h) => match cookie_token(h) {
            None => false,
            Some(t) => match jwt_verified_claims(t, secret) {
                None => false,
                Some(c) => grants(c, password_hash),
            },
        },
    }
}

/// Decides whether a request may reach its route.
pub fn admit_request(
    routes: &Vec<String>,
    path: &str,
    cookie_header: Option<&str>,
    secret: &str,
    password_hash: &str,
) -> (r: bool)
    ensures
        r == admits(
            routes@.map_values(|s: String| s@),
            path@,
            match cookie_header {
                Some(h) => Some(h@),
                None => None,
            },
            secret@,
            password_hash@,
        ),
{
    if !is_authorized_route(routes, path) {
        return true;
    }
    let header = match cookie_header {
        Some(h) => h,
        None => return false,
    };
    let token = match token_from_cookie(header) {
        Some(t) => t,
        None => return false,
    };
    let claims = match verify_token(token.as_str(), secret) {
        Some(c) => c,
        None => return false,
    };
    claims_grant_access(&claims, password_hash)
}

/// Why a login did not open a session.
#[derive(Clone, Copy, Debug, PartialEq, Eq, Structural)]
pub enum LoginError {
    /// The password does not match.
    Unauthorized,
    /// The stored password hash is not a PHC string.
    StoredHashUnreadable,
}

/// The cookie that a login sets, `token=` and the signed session token,
/// or why there is none.
pub open spec fn login_result(password: Seq<char>, hash: Seq<char>, secret: Seq<char>) -> Result<
    Seq<char>,
    LoginError,
> {
    match argon2_verifies(password, hash) {
        None => Err(LoginError::StoredHashUnreadable),
        Some(false) => Err(LoginError::Unauthorized),
        Some(true) => Ok("token="@ + jwt_signed(admin_claims_view(hash), secret)),
    }
}

/// The claims of a session issued while the password hash is `password_hash`.
pub fn admin_claims(password_hash: &str) -> (c: Vec<(String, String)>)
    ensures
        pairs_view(c@) == admin_claims_view(password_hash@),
{
    let mut c: Vec<(String, String)> = Vec::new();
    c.push((text_of("sub"), text_of("schedapiadmin")));
    c.push((text_of("psw"), text_of(password_hash)));
    assert(pairs_view(c@) =~= admin_claims_view(password_hash@));
    c
}

/// Logs the administrator in: checks the password against the stored
/// hash and, when it matches, returns the `Set-Cookie` value that carries
/// a new session token. That cookie opens the protected routes for exactly
/// as long as the password hash stays `stored_hash`.
pub fn login(password: &str, stored_hash: &str, secret: &str) -> (r: Result<String, LoginError>)
    ensures
        match r {
            Ok(c) => login_result(password@, stored_hash@, secret@) == Ok::<Seq<char>, LoginError>(
                c@,
            ) && cookie_token(c@) == Some(jwt_signed(admin_claims_view(stored_hash@), secret@))
                && c@ == "token="@ + jwt_signed(admin_claims_view(stored_hash@), secret@),
            Err(e) => login_result(password@, stored_hash@, secret@) == Err::<
                Seq<char>,
                LoginError,
            >(e),
        },
        r matches Ok(c) ==> forall|routes: Seq<Seq<char>>, path: Seq<char>, current: Seq<char>|
            #[trigger] admits(routes, path, Some(c@), secret@, current) <==> (!routes.contains(path)
                || current == stored_hash@),
{
    match verify_password(password, stored_hash) {
        None => return Err(LoginError::StoredHashUnreadable),
        Some(false) => return Err(LoginError::Unauthorized),
        Some(true) => {},
    }
    let claims = admin_claims(stored_hash);
    let t = sign_claims(&claims, secret);
    let c = concat_text("token=", t.as_str());
    proof {
        reveal_strlit("token=");
        assert("token="@ =~= seq!['t', 'o', 'k', 'e', 'n', '=']);
        assert forall|i: int| 0 <= i < t@.len() implies #[trigger] t@[i] != ';' && t@[i] != '=' by {
            assert(is_token_char(t@[i]));
        }
        lemma_cookie_round_trip(t@);
        let v = jwt_verified_claims(t@, secret@)->0;
        lemma_admin_claims(stored_hash@);
        assert(claim_value(v, "sub"@) == Some(admin_subject()));
        assert(claim_value(v, "psw"@) == Some(stored_hash@));
        assert forall|routes: Seq<Seq<char>>, path: Seq<char>, current: Seq<char>| #[trigger]
            admits(routes, path, Some(c@), secret@, current) <==> (!routes.contains(path)
                || current == stored_hash@) by {
            assert(grants(v, current) <==> current == stored_hash@);
        }
    }
    Ok(c)
}

proof fn lemma_admin_claims(hash: Seq<char>)
    ensures
        distinct_names(admin_claims_view(hash)),
        claim_value(admin_claims_view(hash), "sub"@) == Some(admin_subject()),
        claim_value(admin_claims_view(hash), "psw"@) == Some(hash),
{
    reveal_strlit("sub");
    reveal_strlit("psw");
    let c = admin_claims_view(hash);
    assert("sub"@ != "psw"@) by {
        assert("sub"@[0] != "psw"@[0]);
    }
    let d = c.drop_first();
    assert(d =~= seq![("psw"@, hash)]);
    assert(claim_value(d, "psw"@) == Some(hash));
}

/// Hashes a new administrator password (with a random salt); there is a
/// hash for every password of at most 0xFFFFFFFF bytes in UTF-8.
pub fn new_password_hash(password: &str) -> (r: Option<String>)
    ensures
        r matches Some(h) ==> argon2_verifies(password@, h@) == Some(true),
        password.spec_bytes().len() <= 0xFFFF_FFFF ==> r is Some,
{
    hash_password(password)
}

/// Law: a request to a route that is not protected is always let through,
/// whatever its `Cookie` header; a request to a protected route without a
/// `Cookie` header, or whose header has no `token` cookie, is refused.
pub proof fn lemma_admission(
    routes: Seq<Seq<char>>,
    path: Seq<char>,
    cookie: Option<Seq<char>>,
    secret: Seq<char>,
    password_hash: Seq<char>,
)
    ensures
        !routes.contains(path) ==> admits(routes, path, cookie, secret, password_hash),
        routes.contains(path) && cookie is None ==> !admits(
            routes,
            path,
            cookie,
            secret,
            password_hash,
        ),
        routes.contains(path) && (cookie matches Some(h) && cookie_token(h) is None) ==> !admits(
            routes,
            path,
            cookie,
            secret,
            password_hash,
        ),
{
}

/// Law: a login succeeds whenever the password verifies against the stored
/// hash, and the cookie it sets is exactly `token=` followed by the token
/// signed for the administrator claims of that hash, with nothing after it.
pub proof fn lemma_login_cookie(password: Seq<char>, hash: Seq<char>, secret: Seq<char>)
    ensures
        argon2_verifies(password, hash) == Some(true) ==> login_result(password, hash, secret)
            is Ok,
        login_result(password, hash, secret) matches Ok(c) ==> c == seq![
            't',
            'o',
            'k',
            'e',
            'n',
            '=',
        ] + jwt_signed(admin_claims_view(hash), secret),
        argon2_verifies(password, hash) == Some(false) ==> login_result(password, hash, secret)
            == Err::<Seq<char>, LoginError>(LoginError::Unauthorized),
{
    reveal_strlit("token=");
    assert("token="@ =~= seq!['t', 'o', 'k', 'e', 'n', '=']);
}

/// Law: a session opens exactly while the password hash it was issued
/// with is still the current one; changing the password closes all
/// earlier sessions.
pub proof fn lemma_session_follows_password(issued_with: Seq<char>, current: Seq<char>)
    ensures
        grants(admin_claims_view(issued_with), current) <==> issued_with == current,
{
    reveal_strlit("sub");
    reveal_strlit("psw");
    let c = admin_claims_view(issued_with);
    assert("sub"@ != "psw"@) by {
        assert("sub"@[0] != "psw"@[0]);
    }
    assert(c.drop_first().drop_first() =~= Seq::<(Seq<char>, Seq<char>)>::empty());
    assert(claim_value(c, "sub"@) == Some(admin_subject()));
    assert(claim_value(c.drop_first(), "psw"@) == Some(issued_with));
    assert(claim_value(c, "psw"@) == Some(issued_with));
}

/// Law: after the password is set to a new hash of `password`, logging in
/// with `password` succeeds.
pub proof fn lemma_login_after_password_change(password: Seq<char>, hash: Seq<char>, secret: Seq<char>)
    requires
        argon2_verifies(password, hash) == Some(true),
    ensures
        login_result(password, hash, secret) is Ok,
{
}

} // verus!
