//! The decisions of the WebDAV client: request addresses, authentication
//! negotiation, recursive directory creation and directory listings.
//! The HTTP exchanges themselves are made by the caller.

use vstd::prelude::*;
use crate::auth::{challenge_result, parse_www_authenticate, Auth, DigestAuth};
use crate::digest::{build_digest_auth_header, digest_header, hex_text, md5_of};
use crate::text::{
    append, chars_of, drop_back, drop_front, has_prefix, same, slice, split, split_on,
    starts_with, string_of, trim_back, trim_front, CharClass,
};

verus! {

/// What to attach to a request for authentication.
#[derive(Debug)]
pub enum AuthHeader {
    /// Nothing.
    Anonymous,
    /// HTTP Basic credentials of the session.
    Basic,
    /// This `Authorization` header value.
    Value(String),
}

/// Why a WebDAV exchange failed on the client's side.
#[derive(Debug)]
pub enum WebDavError {
    /// A 401 answer without a readable `WWW-Authenticate` header.
    MissingChallenge,
    /// A challenge of a scheme other than Basic or Digest.
    UnsupportedScheme(String),
}

/// The state of a WebDAV client apart from its HTTP connection: where it
/// points, its credentials, and the authentication scheme the server asked
/// for so far.
#[derive(Debug)]
pub struct WebDavSession {
    pub base_url: String,
    pub username: String,
    pub password: String,
    pub auth: Option<Auth>,
}

pub open spec fn slash() -> CharClass {
    CharClass::Exactly('/')
}

/// `base/path`, with the leading slashes of `path` dropped.
pub open spec fn spec_url(base: Seq<char>, path: Seq<char>) -> Seq<char> {
    base + seq!['/'] + drop_front(path, slash())
}

/// What the session attaches to a request before any 401.
pub open spec fn spec_auth_for(
    auth: Option<Auth>,
    method: Seq<char>,
    uri: Seq<char>,
    r: AuthHeader,
) -> bool {
    match auth {
        None => r is Anonymous,
        Some(Auth::Basic) => r is Basic,
        Some(Auth::Digest(d)) => exists|seed: Seq<u8>|
            seed.len() == 16 && md5_of(seed).len() == 16 && (r matches AuthHeader::Value(h) && h@ == digest_header(
                d,
                method,
                uri,
                d.nc,
                hex_text(md5_of(seed)),
            )),
    }
}

/// The state after a request: a Digest count advances by one.
pub open spec fn advanced(auth: Option<Auth>) -> Option<Auth> {
    match auth {
        Some(Auth::Digest(d)) => Some(Auth::Digest(DigestAuth { nc: d.nc.wrapping_add(1), ..d })),
        other => other,
    }
}

/// The segments of a directory path, slashes at either end aside, empty
/// ones dropped.
pub open spec fn path_segments(path: Seq<char>) -> Seq<Seq<char>> {
    split(drop_back(drop_front(path, slash()), slash()), '/').filter(|s: Seq<char>| s.len() > 0)
}

/// `a/b/...` of the first `k` segments.
pub open spec fn joined(segs: Seq<Seq<char>>, k: int) -> Seq<char>
    decreases k,
{
    if k <= 0 {
        Seq::empty()
    } else if k == 1 {
        segs[0]
    } else {
        joined(segs, k - 1) + seq!['/'] + segs[k - 1]
    }
}

/// What an answer to MKCOL means for the directory being created.
#[derive(Debug, PartialEq, Eq)]
pub enum MkcolOutcome {
    /// Created: go on with the next level.
    Created,
    /// Refused with 405 or 409: the directory may already exist; ask.
    CheckExisting,
    /// Any other answer: creation failed.
    Failed,
}

pub open spec fn is_success(status: u16) -> bool {
    200 <= status <= 299
}

/// Whether an HTTP status is a success (2xx).
pub fn status_is_success(status: u16) -> (b: bool)
    ensures
        b == is_success(status),
{
    200 <= status && status <= 299
}

/// The meaning of a MKCOL answer.
pub fn mkcol_outcome(status: u16) -> (r: MkcolOutcome)
    ensures
        r == (if is_success(status) {
            MkcolOutcome::Created
        } else if status == 405 || status == 409 {
            MkcolOutcome::CheckExisting
        } else {
            MkcolOutcome::Failed
        }),
{
    if status_is_success(status) {
        MkcolOutcome::Created
    } else if status == 405 || status == 409 {
        MkcolOutcome::CheckExisting
    } else {
        MkcolOutcome::Failed
    }
}

/// Whether a PROPFIND answer shows that a collection exists (a success or
/// 207 Multi-Status).
pub fn propfind_shows_collection(status: u16) -> (b: bool)
    ensures
        b == (is_success(status) || status == 207),
{
    status_is_success(status) || status == 207
}

/// `path` with trailing slashes replaced by one, as PROPFIND is sent for a
/// collection.
pub fn collection_path(path: &str) -> (r: String)
    ensures
        r@ == drop_back(path@, slash()) + seq!['/'],
{
    let mut v = trim_back(&chars_of(path), CharClass::Exactly('/'));
    v.push('/');
    string_of(&v)
}

/// The directories that MKCOL creates, outermost first: `a`, `a/b`,
/// `a/b/c` for `/a/b/c/`.
pub fn mkdir_levels(path: &str) -> (r: Vec<String>)
    ensures
        r@.len() == path_segments(path@).len(),
        forall|k: int| 0 <= k < r@.len() ==> #[trigger] r@[k]@ == joined(path_segments(path@), k + 1),
{
    let inner = trim_back(&trim_front(&chars_of(path), CharClass::Exactly('/')), CharClass::Exactly('/'));
    let parts = split_on(&inner, '/');
    let ghost all = split(inner@, '/');
    let ghost pred = |s: Seq<char>| s.len() > 0;
    let mut r: Vec<String> = Vec::new();
    let mut current: Vec<char> = Vec::new();
    let mut i: usize = 0;
    assert(all.take(0).filter(pred) =~= Seq::<Seq<char>>::empty());
    while i < parts.len()
        invariant
            i <= parts@.len() == all.len(),
            all == split(inner@, '/'),
            inner@ == drop_back(drop_front(path@, slash()), slash()),
            forall|k: int| 0 <= k < parts@.len() ==> #[trigger] parts@[k]@ == all[k],
            pred == (|s: Seq<char>| s.len() > 0),
            r@.len() == all.take(i as int).filter(pred).len(),
            current@ == joined(all.take(i as int).filter(pred), r@.len() as int),
            forall|k: int|
                0 <= k < r@.len() ==> #[trigger] r@[k]@ == joined(all.take(i as int).filter(pred), k + 1),
        decreases parts.len() - i,
    {
        let ghost before = all.take(i as int).filter(pred);
        proof {
            reveal_with_fuel(Seq::<_>::filter, 1);
            assert(all.take(i + 1).drop_last() =~= all.take(i as int));
        }
        let ghost after = all.take(i + 1).filter(pred);
        if parts[i].len() > 0 {
            assert(after == before.push(all[i as int]));
            if current.len() > 0 {
                current.push('/');
            }
            append(&mut current, &parts[i]);
            proof {
                lemma_joined_prefix(before, all[i as int], before.len() as int);
                if before.len() > 0 {
                    lemma_joined_nonempty(before, before.len() as int);
                }
                assert(current@ =~= joined(after, before.len() + 1int));
            }
            let ghost old_r = r@;
            r.push(string_of(&current));
            proof {
                assert forall|k: int| 0 <= k < r@.len() implies #[trigger] r@[k]@ == joined(after, k + 1) by {
                    if k < old_r.len() {
                        assert(r@[k] == old_r[k]);
                        lemma_joined_prefix(before, all[i as int], k + 1);
                    }
                }
            }
        } else {
            assert(after == before);
        }
        i = i + 1;
    }
    assert(all.take(parts.len() as int) =~= all);
    r
}

/// `joined` only reads the first `k` segments.
proof fn lemma_joined_prefix(segs: Seq<Seq<char>>, x: Seq<char>, k: int)
    requires
        0 <= k <= segs.len(),
    ensures
        joined(segs.push(x), k) == joined(segs, k),
    decreases k,
{
    if k > 1 {
        lemma_joined_prefix(segs, x, k - 1);
    }
}

/// Joining at least one non-empty segment gives a non-empty path.
proof fn lemma_joined_nonempty(segs: Seq<Seq<char>>, k: int)
    requires
        1 <= k <= segs.len(),
        forall|j: int| 0 <= j < segs.len() ==> #[trigger] segs[j].len() > 0,
    ensures
        joined(segs, k).len() > 0,
    decreases k,
{
    if k > 1 {
        lemma_joined_nonempty(segs, k - 1);
    }
}

/// What a 401 answer with challenge `challenge` leads to: the scheme to
/// remember and the authentication of the retried request.
pub open spec fn spec_challenge(
    old_auth: Option<Auth>,
    new_auth: Option<Auth>,
    username: Seq<char>,
    password: Seq<char>,
    challenge: Option<Seq<char>>,
    method: Seq<char>,
    uri: Seq<char>,
    r: Result<AuthHeader, WebDavError>,
) -> bool {
    match challenge {
        None => r matches Err(WebDavError::MissingChallenge) && new_auth == old_auth,
        Some(c) => {
            let t = crate::text::trim(c);
            if has_prefix(t, crate::auth::basic_prefix()) {
                r matches Ok(AuthHeader::Basic) && new_auth == Some(Auth::Basic)
            } else if has_prefix(t, crate::auth::digest_prefix()) && exists|d: DigestAuth|
                challenge_result(c, Some(Auth::Digest(d))) {
                exists|d: DigestAuth, seed: Seq<u8>|
                    challenge_result(c, Some(Auth::Digest(d))) && seed.len() == 16 && md5_of(seed).len()
                        == 16 && new_auth
                        == Some(
                        Auth::Digest(
                            DigestAuth {
                                username: new_username(new_auth),
                                password: new_password(new_auth),
                                nc: d.nc.wrapping_add(1),
                                ..d
                            },
                        ),
                    ) && new_username(new_auth)@ == username && new_password(new_auth)@
                        == password && (r matches Ok(AuthHeader::Value(h)) && h@ == digest_header(
                        DigestAuth {
                            username: new_username(new_auth),
                            password: new_password(new_auth),
                            ..d
                        },
                        method,
                        uri,
                        d.nc,
                        hex_text(md5_of(seed)),
                    ))
            } else {
                (r matches Err(WebDavError::UnsupportedScheme(h)) && h@ == c) && new_auth
                    == old_auth
            }
        },
    }
}

pub open spec fn new_username(a: Option<Auth>) -> String {
    match a {
        Some(Auth::Digest(d)) => d.username,
        _ => arbitrary(),
    }
}

pub open spec fn new_password(a: Option<Auth>) -> String {
    match a {
        Some(Auth::Digest(d)) => d.password,
        _ => arbitrary(),
    }
}

/// The names in a PROPFIND listing of `path`: each href without leading
/// slashes, the listed directory itself left out, the directory prefix
/// `path/` removed, empty names dropped; in listing order.
pub open spec fn listed_names(path: Seq<char>, hrefs: Seq<Seq<char>>) -> Seq<Seq<char>>
    decreases hrefs.len(),
{
    if hrefs.len() == 0 {
        Seq::empty()
    } else {
        let prev = listed_names(path, hrefs.drop_last());
        let n = drop_front(hrefs.last(), slash());
        let own = drop_front(path, slash());
        let pre = drop_front(drop_back(path, slash()) + seq!['/'], slash());
        if n == own || n == drop_back(own, slash()) {
            prev
        } else {
            let name = if has_prefix(n, pre) {
                n.skip(pre.len() as int)
            } else {
                n
            };
            if name.len() > 0 {
                prev.push(name)
            } else {
                prev
            }
        }
    }
}

/// Dropping leading slashes from `s + t` drops them from `s` alone when `s`
/// holds more than slashes.
proof fn lemma_drop_front_append(s: Seq<char>, t: Seq<char>)
    requires
        drop_front(s, slash()).len() > 0,
    ensures
        drop_front(s + t, slash()) == drop_front(s, slash()) + t,
    decreases s.len(),
{
    assert(s.len() > 0);
    assert((s + t)[0] == s[0]);
    if s[0] == '/' {
        assert((s + t).drop_first() =~= s.drop_first() + t);
        lemma_drop_front_append(s.drop_first(), t);
    }
}

/// What is left after dropping leading slashes ends as `s` does.
proof fn lemma_drop_front_last(s: Seq<char>)
    requires
        drop_front(s, slash()).len() > 0,
    ensures
        drop_front(s, slash()).last() == s.last(),
    decreases s.len(),
{
    if s[0] == '/' {
        lemma_drop_front_last(s.drop_first());
    }
}

/// An entry `path/name` of the listed directory (its href with or without
/// leading slashes, `path` too) is listed as `name`, however many segments
/// `path` has; the names listed before it stay as they were.
pub proof fn lemma_listed_child(
    path: Seq<char>,
    hrefs: Seq<Seq<char>>,
    href: Seq<char>,
    name: Seq<char>,
)
    requires
        drop_front(path, slash()).len() > 0,
        path.last() != '/',
        name.len() > 0,
        drop_front(href, slash()) == drop_front(path, slash()) + seq!['/'] + name,
    ensures
        listed_names(path, hrefs.push(href)) == listed_names(path, hrefs).push(name),
{
    let hs = hrefs.push(href);
    assert(hs.drop_last() =~= hrefs);
    assert(hs.last() == href);
    let own = drop_front(path, slash());
    let n = own + seq!['/'] + name;
    assert(drop_back(path, slash()) == path);
    lemma_drop_front_append(path, seq!['/']);
    let withslash = own + seq!['/'];
    lemma_drop_front_last(path);
    assert(own.last() == path.last());
    assert(drop_back(own, slash()) == own);
    assert(n.len() > own.len());
    assert(has_prefix(n, withslash)) by {
        assert(n.subrange(0, withslash.len() as int) =~= withslash);
    }
    assert(n.skip(withslash.len() as int) =~= name);
}

/// The listed directory itself (its href `path` or `path/`) is not listed.
pub proof fn lemma_listed_self(path: Seq<char>, hrefs: Seq<Seq<char>>, href: Seq<char>)
    requires
        drop_front(path, slash()).len() > 0,
        path.last() != '/',
        drop_front(href, slash()) == drop_front(path, slash()) || drop_front(href, slash())
            == drop_front(path, slash()) + seq!['/'],
    ensures
        listed_names(path, hrefs.push(href)) == listed_names(path, hrefs),
{
    let hs = hrefs.push(href);
    assert(hs.drop_last() =~= hrefs);
    assert(hs.last() == href);
    let own = drop_front(path, slash());
    assert(drop_back(path, slash()) == path);
    lemma_drop_front_append(path, seq!['/']);
    lemma_drop_front_last(path);
    let withslash = own + seq!['/'];
    if drop_front(href, slash()) == withslash {
        assert(has_prefix(withslash, withslash)) by {
            assert(withslash.subrange(0, withslash.len() as int) =~= withslash);
        }
        assert(withslash.skip(withslash.len() as int).len() == 0);
    }
}

impl WebDavSession {
    /// A session with no authentication scheme yet; the base URL loses its
    /// trailing slashes.
    pub fn new(base_url: &str, username: String, password: String) -> (s: Self)
        ensures
            s.base_url@ == drop_back(base_url@, slash()),
            s.username == username,
            s.password == password,
            s.auth is None,
    {
        let b = trim_back(&chars_of(base_url), CharClass::Exactly('/'));
        WebDavSession { base_url: string_of(&b), username, password, auth: None }
    }

    /// The URL of `path` on the server.
    pub fn url_for(&self, path: &str) -> (r: String)
        ensures
            r@ == spec_url(self.base_url@, path@),
    {
        let mut v = chars_of(self.base_url.as_str());
        v.push('/');
        append(&mut v, &trim_front(&chars_of(path), CharClass::Exactly('/')));
        string_of(&v)
    }

    /// The request URI that Digest authentication signs for `path`.
    pub fn uri_for(&self, path: &str) -> (r: String)
        ensures
            r@ == drop_front(path@, slash()),
    {
        string_of(&trim_front(&chars_of(path), CharClass::Exactly('/')))
    }

    /// The authentication of a request before the server answered it: none
    /// until a scheme is known, then Basic credentials or a fresh Digest
    /// header (which advances the nonce count).
    pub fn auth_for_request(&mut self, method: &str, uri: &str) -> (r: AuthHeader)
        ensures
            spec_auth_for(old(self).auth, method@, uri@, r),
            final(self).auth == advanced(old(self).auth),
            final(self).base_url == old(self).base_url,
            final(self).username == old(self).username,
            final(self).password == old(self).password,
    {
        match &mut self.auth {
            None => AuthHeader::Anonymous,
            Some(Auth::Basic) => AuthHeader::Basic,
            Some(Auth::Digest(d)) => {
                let h = build_digest_auth_header(d, method, uri);
                AuthHeader::Value(h)
            },
        }
    }

    /// Reacts to a 401 answer whose `WWW-Authenticate` header is
    /// `challenge`: remembers the scheme asked for and gives the
    /// authentication of the retried request.
    pub fn on_unauthorized(&mut self, challenge: Option<&str>, method: &str, uri: &str) -> (r:
        Result<AuthHeader, WebDavError>)
        ensures
            spec_challenge(
                old(self).auth,
                final(self).auth,
                old(self).username@,
                old(self).password@,
                match challenge {
                    Some(c) => Some(c@),
                    None => None,
                },
                method@,
                uri@,
                r,
            ),
            final(self).base_url == old(self).base_url,
            final(self).username == old(self).username,
            final(self).password == old(self).password,
    {
        let c = match challenge {
            Some(c) => c,
            None => return Err(WebDavError::MissingChallenge),
        };
        let parsed = parse_www_authenticate(c);
        match parsed {
            Some(Auth::Basic) => {
                self.auth = Some(Auth::Basic);
                Ok(AuthHeader::Basic)
            },
            Some(Auth::Digest(mut d)) => {
                let ghost parsed_d = d;
                d.username = self.username.clone();
                d.password = self.password.clone();
                let ghost signed = d;
                let h = build_digest_auth_header(&mut d, method, uri);
                self.auth = Some(Auth::Digest(d));
                proof {
                    assert(parsed_d.nc == 1);
                    let seed = choose|seed: Seq<u8>|
                        seed.len() == 16 && md5_of(seed).len() == 16 && h@ == digest_header(
                            signed,
                            method@,
                            uri@,
                            signed.nc,
                            hex_text(md5_of(seed)),
                        );
                    assert(signed == DigestAuth {
                        username: new_username(self.auth),
                        password: new_password(self.auth),
                        ..parsed_d
                    });
                    assert(challenge_result(c@, Some(Auth::Digest(parsed_d))));
                }
                Ok(AuthHeader::Value(h))
            },
            None => {
                proof {
                    let t = crate::text::trim(c@);
                    if has_prefix(t, crate::auth::digest_prefix()) && !has_prefix(t, crate::auth::basic_prefix()) {
                        assert forall|d: DigestAuth| !challenge_result(c@, Some(Auth::Digest(d))) by {
                            if challenge_result(c@, Some(Auth::Digest(d))) {
                                lemma_challenge_unique(c@, None, Some(Auth::Digest(d)));
                            }
                        }
                    }
                }
                Err(WebDavError::UnsupportedScheme(string_of(&chars_of(c))))
            },
        }
    }
}

/// After a Digest challenge, the retried request carries the Digest header
/// computed with the session's own username and password over the realm,
/// nonce, `qop`, opaque and algorithm that the challenge gave, with nonce
/// count 1; the scheme remembered holds the same credentials, its count
/// advanced to 2.
pub proof fn lemma_retry_uses_session_credentials(
    old_auth: Option<Auth>,
    new_auth: Option<Auth>,
    username: Seq<char>,
    password: Seq<char>,
    challenge: Seq<char>,
    method: Seq<char>,
    uri: Seq<char>,
    r: Result<AuthHeader, WebDavError>,
)
    requires
        spec_challenge(old_auth, new_auth, username, password, Some(challenge), method, uri, r),
        r matches Ok(AuthHeader::Value(_)),
    ensures
        exists|d: DigestAuth, signed: DigestAuth, cnonce: Seq<char>|
            #![trigger challenge_result(challenge, Some(Auth::Digest(d))), digest_header(signed, method, uri, 1, cnonce)]
            {
                &&& challenge_result(challenge, Some(Auth::Digest(d)))
                &&& signed.username@ == username
                &&& signed.password@ == password
                &&& signed.realm == d.realm
                &&& signed.nonce == d.nonce
                &&& signed.opaque == d.opaque
                &&& signed.qop == d.qop
                &&& signed.algorithm == d.algorithm
                &&& r matches Ok(AuthHeader::Value(h)) && h@ == digest_header(
                    signed,
                    method,
                    uri,
                    1,
                    cnonce,
                )
                &&& new_auth == Some(Auth::Digest(DigestAuth { nc: 2, ..signed }))
            },
{
    let t = crate::text::trim(challenge);
    assert(!has_prefix(t, crate::auth::basic_prefix()));
    assert(has_prefix(t, crate::auth::digest_prefix()) && exists|d: DigestAuth|
        challenge_result(challenge, Some(Auth::Digest(d))));
    let (d, seed) = choose|d: DigestAuth, seed: Seq<u8>|
        challenge_result(challenge, Some(Auth::Digest(d))) && seed.len() == 16 && md5_of(seed).len()
            == 16 && new_auth == Some(
            Auth::Digest(
                DigestAuth {
                    username: new_username(new_auth),
                    password: new_password(new_auth),
                    nc: d.nc.wrapping_add(1),
                    ..d
                },
            ),
        ) && new_username(new_auth)@ == username && new_password(new_auth)@ == password && (r matches Ok(
            AuthHeader::Value(h),
        ) && h@ == digest_header(
            DigestAuth { username: new_username(new_auth), password: new_password(new_auth), ..d },
            method,
            uri,
            d.nc,
            hex_text(md5_of(seed)),
        ));
    let signed = DigestAuth { username: new_username(new_auth), password: new_password(new_auth), ..d };
    assert(d.nc == 1);
    assert(signed.nc == 1);
    assert(d.nc.wrapping_add(1) == 2);
    assert(new_auth == Some(Auth::Digest(DigestAuth { nc: 2, ..signed })));
    assert(challenge_result(challenge, Some(Auth::Digest(d))));
    let cnonce = hex_text(md5_of(seed));
    assert(r matches Ok(AuthHeader::Value(h)) && h@ == digest_header(signed, method, uri, 1, cnonce));
}

/// A challenge has at most one reading.
proof fn lemma_challenge_unique(c: Seq<char>, a: Option<Auth>, b: Option<Auth>)
    requires
        challenge_result(c, a),
        challenge_result(c, b),
        a is None,
    ensures
        b is None,
{
}

/// The names in a PROPFIND listing of `path` (see `listed_names`).
pub fn list_names(path: &str, hrefs: &Vec<String>) -> (r: Vec<String>)
    ensures
        r@.len() == listed_names(path@, hrefs@.map_values(|h: String| h@)).len(),
        forall|k: int|
            0 <= k < r@.len() ==> #[trigger] r@[k]@ == listed_names(
                path@,
                hrefs@.map_values(|h: String| h@),
            )[k],
{
    let ghost hs = hrefs@.map_values(|h: String| h@);
    let p = chars_of(path);
    let own = trim_front(&p, CharClass::Exactly('/'));
    let own_trimmed = trim_back(&own, CharClass::Exactly('/'));
    let mut pre_raw = trim_back(&p, CharClass::Exactly('/'));
    pre_raw.push('/');
    assert(pre_raw@ =~= drop_back(path@, slash()) + seq!['/']);
    let pre = trim_front(&pre_raw, CharClass::Exactly('/'));
    let mut r: Vec<String> = Vec::new();
    let mut i: usize = 0;
    assert(hs.take(0) =~= Seq::<Seq<char>>::empty());
    while i < hrefs.len()
        invariant
            i <= hrefs@.len() == hs.len(),
            hs == hrefs@.map_values(|h: String| h@),
            own@ == drop_front(path@, slash()),
            own_trimmed@ == drop_back(drop_front(path@, slash()), slash()),
            pre@ == drop_front(drop_back(path@, slash()) + seq!['/'], slash()),
            r@.len() == listed_names(path@, hs.take(i as int)).len(),
            forall|k: int|
                0 <= k < r@.len() ==> #[trigger] r@[k]@ == listed_names(path@, hs.take(i as int))[k],
        decreases hrefs.len() - i,
    {
        assert(hs.take(i + 1).drop_last() =~= hs.take(i as int));
        assert(hs.take(i + 1).last() == hrefs@[i as int]@);
        let n = trim_front(&chars_of(hrefs[i].as_str()), CharClass::Exactly('/'));
        if !same(&n, &own) && !same(&n, &own_trimmed) {
            let name = if starts_with(&n, &pre) {
                slice(&n, pre.len(), n.len())
            } else {
                slice(&n, 0, n.len())
            };
            assert(name@ =~= (if has_prefix(n@, pre@) {
                n@.skip(pre@.len() as int)
            } else {
                n@
            }));
            if name.len() > 0 {
                let ghost old_r = r@;
                r.push(string_of(&name));
                proof {
                    assert forall|k: int| 0 <= k < r@.len() implies #[trigger] r@[k]@
                        == listed_names(path@, hs.take(i + 1))[k] by {
                        if k < old_r.len() {
                            assert(r@[k] == old_r[k]);
                        }
                    }
                }
            }
        }
        i = i + 1;
    }
    assert(hs.take(hrefs.len() as int) =~= hs);
    r
}

impl WebDavError {
    /// The error as a sentence.
    pub fn message(&self) -> (m: String)
        ensures
            m@ == (match self {
                WebDavError::MissingChallenge => "401 without www-authenticate header"@,
                WebDavError::UnsupportedScheme(h) => "unsupported auth scheme: "@ + h@,
            }),
    {
        match self {
            WebDavError::MissingChallenge => string_of(&chars_of("401 without www-authenticate header")),
            WebDavError::UnsupportedScheme(h) => {
                let mut v = chars_of("unsupported auth scheme: ");
                append(&mut v, &chars_of(h.as_str()));
                string_of(&v)
            },
        }
    }
}

/// Whether an answer calls for authenticating and sending the request
/// again: a 401 to a request not yet retried (a request is retried at most
/// once).
pub fn should_reauthenticate(status: u16, retried: bool) -> (r: bool)
    ensures
        r == (status == 401 && !retried),
{
    status == 401 && !retried
}

/// The next step of creating a directory level by level.
#[derive(Debug)]
pub enum MkdirAction {
    /// Send MKCOL for this path (a level with a trailing `/`).
    Create(String),
    /// MKCOL was refused: ask whether this level already exists.
    CheckExisting(String),
    /// Every level exists.
    Finished,
    /// The current level could not be created.
    Failed,
}

/// Progress through the levels of a directory path.
pub struct MkdirProgress {
    pub levels: Vec<String>,
    /// How many levels exist so far.
    pub done: usize,
}

impl MkdirProgress {
    pub open spec fn wf(&self) -> bool {
        self.done <= self.levels@.len()
    }

    /// What comes after `done` levels exist.
    pub open spec fn spec_next(&self, a: MkdirAction) -> bool {
        if self.done < self.levels@.len() {
            a matches MkdirAction::Create(p) && p@ == self.levels@[self.done as int]@ + seq!['/']
        } else {
            a is Finished
        }
    }

    /// Starts at the outermost level of `path` (see `mkdir_levels`).
    pub fn new(path: &str) -> (s: Self)
        ensures
            s.wf(),
            s.done == 0,
            s.levels@.len() == path_segments(path@).len(),
            forall|k: int|
                0 <= k < s.levels@.len() ==> #[trigger] s.levels@[k]@ == joined(path_segments(path@), k + 1),
    {
        MkdirProgress { levels: mkdir_levels(path), done: 0 }
    }

    /// The request to make next.
    pub fn next_action(&self) -> (a: MkdirAction)
        requires
            self.wf(),
        ensures
            self.spec_next(a),
    {
        if self.done < self.levels.len() {
            let mut v = chars_of(self.levels[self.done].as_str());
            v.push('/');
            assert(v@ =~= self.levels@[self.done as int]@ + seq!['/']);
            MkdirAction::Create(string_of(&v))
        } else {
            MkdirAction::Finished
        }
    }

    /// Takes in the answer to MKCOL of the current level: created goes on
    /// to the next level; 405 or 409 asks whether the level exists; any other
    /// answer fails.
    pub fn on_mkcol(&mut self, status: u16) -> (a: MkdirAction)
        requires
            old(self).wf(),
            old(self).done < old(self).levels@.len(),
        ensures
            final(self).wf(),
            final(self).levels == old(self).levels,
            is_success(status) ==> final(self).done == old(self).done + 1 && final(self).spec_next(a),
            !is_success(status) && (status == 405 || status == 409) ==> final(self).done == old(
                self,
            ).done && (a matches MkdirAction::CheckExisting(l) && l@ == old(self).levels@[old(
                self,
            ).done as int]@),
            !is_success(status) && status != 405 && status != 409 ==> final(self).done == old(
                self,
            ).done && a is Failed,
    {
        match mkcol_outcome(status) {
            MkcolOutcome::Created => {
                let n: usize = self.levels.len();
                assert(self.done < n);
                self.done = self.done + 1;
                self.next_action()
            },
            MkcolOutcome::CheckExisting => MkdirAction::CheckExisting(
                string_of(&chars_of(self.levels[self.done].as_str())),
            ),
            MkcolOutcome::Failed => MkdirAction::Failed,
        }
    }

    /// Takes in whether the current level exists: if so go on, else fail.
    pub fn on_check(&mut self, exists: bool) -> (a: MkdirAction)
        requires
            old(self).wf(),
            old(self).done < old(self).levels@.len(),
        ensures
            final(self).wf(),
            final(self).levels == old(self).levels,
            exists ==> final(self).done == old(self).done + 1 && final(self).spec_next(a),
            !exists ==> final(self).done == old(self).done && a is Failed,
    {
        if exists {
            let n: usize = self.levels.len();
            assert(self.done < n);
            self.done = self.done + 1;
            self.next_action()
        } else {
            MkdirAction::Failed
        }
    }
}

} // verus!
