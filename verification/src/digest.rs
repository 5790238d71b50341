//! The `Authorization` header of HTTP Digest authentication.

use vstd::prelude::*;
use md5::Digest;
use crate::auth::DigestAuth;
use crate::config::opt_view;
use crate::text::{append, chars_of, string_of};

verus! {

/// What the MD5 hash of `data` is.
pub uninterp spec fn md5_of(data: Seq<u8>) -> Seq<u8>;

/// Calls `md5::Md5::digest`. Claimed of it: the result is the named MD5
/// hash of the input, 16 bytes long.
#[verifier::external_body]
fn md5_digest(data: &[u8]) -> (r: Vec<u8>)
    ensures
        r@ == md5_of(data@),
        r@.len() == 16,
{
    md5::Md5::digest(data).to_vec()
}

/// Calls `rand::random` for 16 bytes. Nothing is claimed of the bytes.
#[verifier::external_body]
fn random_bytes() -> [u8; 16] {
    rand::random::<[u8; 16]>()
}

/// A lowercase hexadecimal digit.
pub open spec fn hex_digit(d: int) -> char {
    if d < 10 {
        (48 + d) as char
    } else {
        (87 + d) as char
    }
}

/// Two lowercase hex digits per byte, high nibble first.
pub open spec fn hex_text(b: Seq<u8>) -> Seq<char>
    decreases b.len(),
{
    if b.len() == 0 {
        Seq::empty()
    } else {
        hex_text(b.drop_last()) + seq![hex_digit(b.last() as int / 16), hex_digit(b.last() as int % 16)]
    }
}

/// Calls `hex::encode`. Claimed of it: each byte becomes two lowercase
/// hexadecimal digits, high nibble first, in order.
#[verifier::external_body]
fn hex_encode(data: &[u8]) -> (r: String)
    ensures
        r@ == hex_text(data@),
{
    hex::encode(data)
}

/// The last `k` hexadecimal digits of `n`, zero-padded (`{:0kx}` when
/// `n < 16^k`).
pub open spec fn hex_fixed(n: nat, k: nat) -> Seq<char>
    decreases k,
{
    if k == 0 {
        Seq::empty()
    } else {
        hex_fixed(n / 16, (k - 1) as nat).push(hex_digit((n % 16) as int))
    }
}

/// Whether `p` occurs in `s`.
pub open spec fn contains_text(s: Seq<char>, p: Seq<char>) -> bool {
    exists|i: int| 0 <= i <= s.len() - p.len() && #[trigger] s.subrange(i, i + p.len()) == p
}

pub open spec fn auth_word() -> Seq<char> {
    seq!['a', 'u', 't', 'h']
}

/// The lowercase hex MD5 of the UTF-8 text `s`.
pub open spec fn md5_hex(s: Seq<char>) -> Seq<char> {
    hex_text(md5_of(vstd::utf8::encode_utf8(s)))
}

pub open spec fn colon() -> Seq<char> {
    seq![':']
}

/// The `response` value of RFC 2617 Digest authentication.
pub open spec fn digest_response(
    d: DigestAuth,
    method: Seq<char>,
    uri: Seq<char>,
    nc: u32,
    cnonce: Seq<char>,
) -> Seq<char> {
    let ha1 = md5_hex(d.username@ + colon() + d.realm@ + colon() + d.password@);
    let ha2 = md5_hex(method + colon() + uri);
    match d.qop {
        Some(q) => {
            let qop = if contains_text(q@, auth_word()) {
                auth_word()
            } else {
                Seq::empty()
            };
            md5_hex(
                ha1 + colon() + d.nonce@ + colon() + hex_fixed(nc as nat, 8) + colon() + cnonce
                    + colon() + qop + colon() + ha2,
            )
        },
        None => md5_hex(ha1 + colon() + d.nonce@ + colon() + ha2),
    }
}

/// `key="value"`.
pub open spec fn quoted(key: Seq<char>, value: Seq<char>) -> Seq<char> {
    key + seq!['=', '"'] + value + seq!['"']
}

/// `key=value`.
pub open spec fn bare(key: Seq<char>, value: Seq<char>) -> Seq<char> {
    key + seq!['='] + value
}

pub open spec fn sep() -> Seq<char> {
    seq![',', ' ']
}

/// The whole `Authorization` header value.
pub open spec fn digest_header(
    d: DigestAuth,
    method: Seq<char>,
    uri: Seq<char>,
    nc: u32,
    cnonce: Seq<char>,
) -> Seq<char> {
    let nc_hex = hex_fixed(nc as nat, 8);
    let base = seq!['D', 'i', 'g', 'e', 's', 't', ' '] + quoted(
        seq!['u', 's', 'e', 'r', 'n', 'a', 'm', 'e'],
        d.username@,
    ) + sep() + quoted(seq!['r', 'e', 'a', 'l', 'm'], d.realm@) + sep() + quoted(
        seq!['n', 'o', 'n', 'c', 'e'],
        d.nonce@,
    ) + sep() + quoted(seq!['u', 'r', 'i'], uri) + sep() + quoted(
        seq!['r', 'e', 's', 'p', 'o', 'n', 's', 'e'],
        digest_response(d, method, uri, nc, cnonce),
    );
    let with_qop = match d.qop {
        Some(q) => base + sep() + bare(
            seq!['q', 'o', 'p'],
            if contains_text(q@, auth_word()) {
                auth_word()
            } else {
                q@
            },
        ) + sep() + bare(seq!['n', 'c'], nc_hex) + sep() + quoted(
            seq!['c', 'n', 'o', 'n', 'c', 'e'],
            cnonce,
        ),
        None => base,
    };
    let with_opaque = match d.opaque {
        Some(o) => with_qop + sep() + quoted(seq!['o', 'p', 'a', 'q', 'u', 'e'], o@),
        None => with_qop,
    };
    match d.algorithm {
        Some(a) => with_opaque + sep() + bare(
            seq!['a', 'l', 'g', 'o', 'r', 'i', 't', 'h', 'm'],
            a@,
        ),
        None => with_opaque,
    }
}

/// The lowercase hex MD5 of a text.
fn md5_hex_of(s: &Vec<char>) -> (r: Vec<char>)
    ensures
        r@ == md5_hex(s@),
{
    let st = string_of(s);
    let h = md5_digest(st.as_str().as_bytes());
    chars_of(hex_encode(h.as_slice()).as_str())
}

/// The last `k` hex digits of `n`.
fn hex_fixed_digits(n: u32, k: usize) -> (r: Vec<char>)
    ensures
        r@ == hex_fixed(n as nat, k as nat),
    decreases k,
{
    if k == 0 {
        Vec::new()
    } else {
        let mut v = hex_fixed_digits(n / 16, k - 1);
        let d: u32 = n % 16;
        let c = if d < 10 {
            ((48 + d) as u8) as char
        } else {
            ((87 + d) as u8) as char
        };
        v.push(c);
        v
    }
}

/// Whether `p` occurs in `s`.
fn contains_chars(s: &Vec<char>, p: &Vec<char>) -> (r: bool)
    ensures
        r == contains_text(s@, p@),
{
    if p.len() > s.len() {
        return false;
    }
    let mut i: usize = 0;
    while i <= s.len() - p.len()
        invariant
            p.len() <= s.len(),
            i <= s.len() - p.len() + 1,
            forall|k: int| 0 <= k < i ==> #[trigger] s@.subrange(k, k + p@.len()) != p@,
        decreases s.len() - p.len() + 1 - i,
    {
        let mut j: usize = 0;
        let mut hit = true;
        while j < p.len()
            invariant
                i + p.len() <= s.len(),
                j <= p.len(),
                hit == (forall|m: int| 0 <= m < j ==> s@[i + m] == p@[m]),
            decreases p.len() - j,
        {
            if s[i + j] != p[j] {
                hit = false;
            }
            j = j + 1;
        }
        if hit {
            assert(s@.subrange(i as int, i + p@.len()) =~= p@);
            return true;
        }
        proof {
            if s@.subrange(i as int, i + p@.len()) == p@ {
                assert forall|m: int| 0 <= m < p.len() implies s@[i + m] == p@[m] by {
                    assert(s@.subrange(i as int, i + p@.len())[m] == s@[i + m]);
                }
            }
        }
        i = i + 1;
    }
    false
}

/// Appends `key="value"`.
fn push_quoted(out: &mut Vec<char>, key: &Vec<char>, value: &Vec<char>)
    ensures
        final(out)@ == old(out)@ + quoted(key@, value@),
{
    append(out, key);
    out.push('=');
    out.push('"');
    append(out, value);
    out.push('"');
    assert(out@ =~= old(out)@ + quoted(key@, value@));
}

/// Appends `key=value`.
fn push_bare(out: &mut Vec<char>, key: &Vec<char>, value: &Vec<char>)
    ensures
        final(out)@ == old(out)@ + bare(key@, value@),
{
    append(out, key);
    out.push('=');
    append(out, value);
    assert(out@ =~= old(out)@ + bare(key@, value@));
}

fn push_sep(out: &mut Vec<char>)
    ensures
        final(out)@ == old(out)@ + sep(),
{
    out.push(',');
    out.push(' ');
    assert(out@ =~= old(out)@ + sep());
}

fn push_colon(out: &mut Vec<char>, part: &Vec<char>)
    ensures
        final(out)@ == old(out)@ + colon() + part@,
{
    out.push(':');
    append(out, part);
    assert(out@ =~= old(out)@ + colon() + part@);
}

/// The Digest `Authorization` header for one request, with nonce count
/// `nc` and client nonce `cnonce`.
pub fn digest_header_with(auth: &DigestAuth, method: &str, uri: &str, nc: u32, cnonce: &str) -> (r:
    String)
    ensures
        r@ == digest_header(*auth, method@, uri@, nc, cnonce@),
{
    let username = chars_of(auth.username.as_str());
    let realm = chars_of(auth.realm.as_str());
    let password = chars_of(auth.password.as_str());
    let nonce = chars_of(auth.nonce.as_str());
    let m = chars_of(method);
    let u = chars_of(uri);
    let cn = chars_of(cnonce);
    let auth_w = vec!['a', 'u', 't', 'h'];
    assert(auth_w@ =~= auth_word());

    let mut a1 = username.clone();
    push_colon(&mut a1, &realm);
    push_colon(&mut a1, &password);
    let ha1 = md5_hex_of(&a1);
    let mut a2 = m.clone();
    push_colon(&mut a2, &u);
    let ha2 = md5_hex_of(&a2);
    let nc_hex = hex_fixed_digits(nc, 8);

    let response = match &auth.qop {
        Some(q) => {
            let qv = chars_of(q.as_str());
            let qop: Vec<char> = if contains_chars(&qv, &auth_w) {
                auth_w.clone()
            } else {
                Vec::new()
            };
            let mut input = ha1.clone();
            push_colon(&mut input, &nonce);
            push_colon(&mut input, &nc_hex);
            push_colon(&mut input, &cn);
            push_colon(&mut input, &qop);
            push_colon(&mut input, &ha2);
            assert(input@ =~= ha1@ + colon() + nonce@ + colon() + nc_hex@ + colon() + cn@ + colon()
                + qop@ + colon() + ha2@);
            md5_hex_of(&input)
        },
        None => {
            let mut input = ha1.clone();
            push_colon(&mut input, &nonce);
            push_colon(&mut input, &ha2);
            md5_hex_of(&input)
        },
    };
    assert(response@ == digest_response(*auth, method@, uri@, nc, cnonce@));

    let mut out = vec!['D', 'i', 'g', 'e', 's', 't', ' '];
    push_quoted(&mut out, &vec!['u', 's', 'e', 'r', 'n', 'a', 'm', 'e'], &username);
    push_sep(&mut out);
    push_quoted(&mut out, &vec!['r', 'e', 'a', 'l', 'm'], &realm);
    push_sep(&mut out);
    push_quoted(&mut out, &vec!['n', 'o', 'n', 'c', 'e'], &nonce);
    push_sep(&mut out);
    push_quoted(&mut out, &vec!['u', 'r', 'i'], &u);
    push_sep(&mut out);
    push_quoted(&mut out, &vec!['r', 'e', 's', 'p', 'o', 'n', 's', 'e'], &response);
    let ghost base = out@;
    assert(base =~= seq!['D', 'i', 'g', 'e', 's', 't', ' '] + quoted(
        seq!['u', 's', 'e', 'r', 'n', 'a', 'm', 'e'],
        auth.username@,
    ) + sep() + quoted(seq!['r', 'e', 'a', 'l', 'm'], auth.realm@) + sep() + quoted(
        seq!['n', 'o', 'n', 'c', 'e'],
        auth.nonce@,
    ) + sep() + quoted(seq!['u', 'r', 'i'], uri@) + sep() + quoted(
        seq!['r', 'e', 's', 'p', 'o', 'n', 's', 'e'],
        digest_response(*auth, method@, uri@, nc, cnonce@),
    ));
    if let Some(q) = &auth.qop {
        let qv = chars_of(q.as_str());
        let shown: Vec<char> = if contains_chars(&qv, &auth_w) {
            auth_w.clone()
        } else {
            qv
        };
        push_sep(&mut out);
        push_bare(&mut out, &vec!['q', 'o', 'p'], &shown);
        push_sep(&mut out);
        push_bare(&mut out, &vec!['n', 'c'], &nc_hex);
        push_sep(&mut out);
        push_quoted(&mut out, &vec!['c', 'n', 'o', 'n', 'c', 'e'], &cn);
    }
    if let Some(o) = &auth.opaque {
        push_sep(&mut out);
        push_quoted(&mut out, &vec!['o', 'p', 'a', 'q', 'u', 'e'], &chars_of(o.as_str()));
    }
    if let Some(a) = &auth.algorithm {
        push_sep(&mut out);
        push_bare(
            &mut out,
            &vec!['a', 'l', 'g', 'o', 'r', 'i', 't', 'h', 'm'],
            &chars_of(a.as_str()),
        );
    }
    assert(out@ =~= digest_header(*auth, method@, uri@, nc, cnonce@));
    string_of(&out)
}

/// The Digest `Authorization` header for the next request: uses the
/// current nonce count and a fresh random client nonce (the hex MD5 of 16
/// random bytes), and advances the count by one (wrapping).
pub fn build_digest_auth_header(auth: &mut DigestAuth, method: &str, uri: &str) -> (r: String)
    ensures
        final(auth).nc == old(auth).nc.wrapping_add(1),
        *final(auth) == (DigestAuth { nc: final(auth).nc, ..*old(auth) }),
        exists|seed: Seq<u8>|
            seed.len() == 16 && md5_of(seed).len() == 16 && r@ == digest_header(
                *old(auth),
                method@,
                uri@,
                old(auth).nc,
                hex_text(md5_of(seed)),
            ),
{
    let nc: u32 = auth.nc;
    auth.nc = nc.wrapping_add(1);
    let seed = random_bytes();
    let digest = md5_digest(seed.as_slice());
    let cnonce = hex_encode(digest.as_slice());
    let ghost old_auth = DigestAuth { nc, ..*auth };
    assert(old_auth == *old(auth));
    let r = digest_header_with(auth, method, uri, nc, cnonce.as_str());
    proof {
        assert(seed@.len() == 16);
    }
    r
}

/// The opening fields of a Digest header, up to its response, written as
/// text.
pub open spec fn plain_fields(
    username: Seq<char>,
    realm: Seq<char>,
    nonce: Seq<char>,
    uri: Seq<char>,
    response: Seq<char>,
) -> Seq<char> {
    "Digest username=\""@ + username + "\", realm=\""@ + realm + "\", nonce=\""@ + nonce
        + "\", uri=\""@ + uri + "\", response=\""@ + response + "\""@
}

/// The opening fields of a Digest header with a `qop`, written as text.
pub open spec fn qop_fields(
    username: Seq<char>,
    realm: Seq<char>,
    nonce: Seq<char>,
    uri: Seq<char>,
    response: Seq<char>,
    qop: Seq<char>,
    count: Seq<char>,
    cnonce: Seq<char>,
) -> Seq<char> {
    plain_fields(username, realm, nonce, uri, response) + ", qop="@ + qop + ", nc="@ + count
        + ", cnonce=\""@ + cnonce + "\""@
}

proof fn lemma_plain_fields_text(
    username: Seq<char>,
    realm: Seq<char>,
    nonce: Seq<char>,
    uri: Seq<char>,
    response: Seq<char>,
)
    ensures
        plain_fields(username, realm, nonce, uri, response) == seq!['D', 'i', 'g', 'e', 's', 't', ' ']
            + quoted(seq!['u', 's', 'e', 'r', 'n', 'a', 'm', 'e'], username) + sep() + quoted(
            seq!['r', 'e', 'a', 'l', 'm'],
            realm,
        ) + sep() + quoted(seq!['n', 'o', 'n', 'c', 'e'], nonce) + sep() + quoted(
            seq!['u', 'r', 'i'],
            uri,
        ) + sep() + quoted(seq!['r', 'e', 's', 'p', 'o', 'n', 's', 'e'], response),
{
    reveal_strlit("Digest username=\"");
    reveal_strlit("\", realm=\"");
    reveal_strlit("\", nonce=\"");
    reveal_strlit("\", uri=\"");
    reveal_strlit("\", response=\"");
    reveal_strlit("\"");
    let a = seq!['D', 'i', 'g', 'e', 's', 't', ' '] + quoted(
        seq!['u', 's', 'e', 'r', 'n', 'a', 'm', 'e'],
        username,
    );
    assert(a =~= "Digest username=\""@ + username + "\""@);
    let b = a + sep() + quoted(seq!['r', 'e', 'a', 'l', 'm'], realm);
    assert(b =~= "Digest username=\""@ + username + "\", realm=\""@ + realm + "\""@);
    let c = b + sep() + quoted(seq!['n', 'o', 'n', 'c', 'e'], nonce);
    assert(c =~= "Digest username=\""@ + username + "\", realm=\""@ + realm + "\", nonce=\""@
        + nonce + "\""@);
    let e = c + sep() + quoted(seq!['u', 'r', 'i'], uri);
    assert(e =~= "Digest username=\""@ + username + "\", realm=\""@ + realm + "\", nonce=\""@
        + nonce + "\", uri=\""@ + uri + "\""@);
    let f = e + sep() + quoted(seq!['r', 'e', 's', 'p', 'o', 'n', 's', 'e'], response);
    assert(f =~= plain_fields(username, realm, nonce, uri, response));
}

proof fn lemma_qop_fields_text(
    username: Seq<char>,
    realm: Seq<char>,
    nonce: Seq<char>,
    uri: Seq<char>,
    response: Seq<char>,
    qop: Seq<char>,
    count: Seq<char>,
    cnonce: Seq<char>,
)
    ensures
        qop_fields(username, realm, nonce, uri, response, qop, count, cnonce) == plain_fields(
            username,
            realm,
            nonce,
            uri,
            response,
        ) + sep() + bare(seq!['q', 'o', 'p'], qop) + sep() + bare(seq!['n', 'c'], count) + sep()
            + quoted(seq!['c', 'n', 'o', 'n', 'c', 'e'], cnonce),
{
    reveal_strlit(", qop=");
    reveal_strlit(", nc=");
    reveal_strlit(", cnonce=\"");
    reveal_strlit("\"");
    let f = plain_fields(username, realm, nonce, uri, response);
    assert(f + sep() + bare(seq!['q', 'o', 'p'], qop) + sep() + bare(seq!['n', 'c'], count) + sep()
        + quoted(seq!['c', 'n', 'o', 'n', 'c', 'e'], cnonce) =~= f + ", qop="@ + qop + ", nc="@ + count
        + ", cnonce=\""@ + cnonce + "\""@);
}

/// `HA1 = MD5(username:realm:password)`, in lowercase hex.
pub open spec fn spec_ha1(d: DigestAuth) -> Seq<char> {
    md5_hex(d.username@ + ":"@ + d.realm@ + ":"@ + d.password@)
}

/// `HA2 = MD5(method:uri)`, in lowercase hex.
pub open spec fn spec_ha2(method: Seq<char>, uri: Seq<char>) -> Seq<char> {
    md5_hex(method + ":"@ + uri)
}

proof fn lemma_ha_text(d: DigestAuth, method: Seq<char>, uri: Seq<char>)
    ensures
        spec_ha1(d) == md5_hex(d.username@ + colon() + d.realm@ + colon() + d.password@),
        spec_ha2(method, uri) == md5_hex(method + colon() + uri),
{
    reveal_strlit(":");
    assert(d.username@ + ":"@ + d.realm@ + ":"@ + d.password@ =~= d.username@ + colon() + d.realm@
        + colon() + d.password@);
    assert(method + ":"@ + uri =~= method + colon() + uri);
}

/// With a `qop` that offers `auth` (for instance RFC 2617's
/// `"auth,auth-int"`), the header answers with `qop=auth`, and its response
/// is `MD5(HA1:nonce:nc:cnonce:auth:HA2)`, all in lowercase hex, `nc` in
/// eight hex digits: the header opens with exactly these fields.
pub proof fn lemma_digest_offers_auth(
    d: DigestAuth,
    method: Seq<char>,
    uri: Seq<char>,
    nc: u32,
    cnonce: Seq<char>,
)
    requires
        d.qop is Some,
        exists|i: int|
            0 <= i && i + 4 <= d.qop->0@.len() && #[trigger] d.qop->0@.subrange(i, i + 4) == "auth"@,
    ensures
        ({
            let count = hex_fixed(nc as nat, 8);
            let response = md5_hex(
                spec_ha1(d) + ":"@ + d.nonce@ + ":"@ + count + ":"@ + cnonce + ":auth:"@ + spec_ha2(
                    method,
                    uri,
                ),
            );
            crate::text::has_prefix(
                digest_header(d, method, uri, nc, cnonce),
                qop_fields(d.username@, d.realm@, d.nonce@, uri, response, "auth"@, count, cnonce),
            )
        }),
{
    reveal_strlit(":");
    reveal_strlit(":auth:");
    reveal_strlit("auth");
    let q = d.qop->0@;
    let i = choose|i: int| 0 <= i && i + 4 <= q.len() && #[trigger] q.subrange(i, i + 4) == "auth"@;
    assert(q.subrange(i, i + auth_word().len()) =~= auth_word());
    assert(contains_text(q, auth_word()));
    lemma_ha_text(d, method, uri);
    let ha1 = spec_ha1(d);
    let ha2 = spec_ha2(method, uri);
    let count = hex_fixed(nc as nat, 8);
    let response = md5_hex(ha1 + ":"@ + d.nonce@ + ":"@ + count + ":"@ + cnonce + ":auth:"@ + ha2);
    assert(ha1 + ":"@ + d.nonce@ + ":"@ + count + ":"@ + cnonce + ":auth:"@ + ha2 =~= ha1 + colon()
        + d.nonce@ + colon() + count + colon() + cnonce + colon() + auth_word() + colon() + ha2);
    assert(digest_response(d, method, uri, nc, cnonce) == response);
    assert("auth"@ =~= auth_word());
    let fields = qop_fields(d.username@, d.realm@, d.nonce@, uri, response, "auth"@, count, cnonce);
    lemma_plain_fields_text(d.username@, d.realm@, d.nonce@, uri, response);
    lemma_qop_fields_text(d.username@, d.realm@, d.nonce@, uri, response, "auth"@, count, cnonce);
    let h = digest_header(d, method, uri, nc, cnonce);
    assert(h.subrange(0, fields.len() as int) =~= fields);
}

/// With a `qop` that does not offer `auth`, the header repeats the `qop`
/// as given and its response hashes an empty `qop`:
/// `MD5(HA1:nonce:nc:cnonce::HA2)`.
pub proof fn lemma_digest_other_qop(
    d: DigestAuth,
    method: Seq<char>,
    uri: Seq<char>,
    nc: u32,
    cnonce: Seq<char>,
)
    requires
        d.qop is Some,
        forall|i: int|
            0 <= i && i + 4 <= d.qop->0@.len() ==> #[trigger] d.qop->0@.subrange(i, i + 4) != "auth"@,
    ensures
        ({
            let count = hex_fixed(nc as nat, 8);
            let response = md5_hex(
                spec_ha1(d) + ":"@ + d.nonce@ + ":"@ + count + ":"@ + cnonce + "::"@ + spec_ha2(
                    method,
                    uri,
                ),
            );
            crate::text::has_prefix(
                digest_header(d, method, uri, nc, cnonce),
                qop_fields(d.username@, d.realm@, d.nonce@, uri, response, d.qop->0@, count, cnonce),
            )
        }),
{
    reveal_strlit(":");
    reveal_strlit("::");
    reveal_strlit("auth");
    let q = d.qop->0@;
    assert(!contains_text(q, auth_word())) by {
        if contains_text(q, auth_word()) {
            let i = choose|i: int|
                0 <= i <= q.len() - auth_word().len() && #[trigger] q.subrange(i, i + auth_word().len())
                    == auth_word();
            assert(auth_word() =~= "auth"@);
            assert(q.subrange(i, i + 4) == "auth"@);
        }
    }
    lemma_ha_text(d, method, uri);
    let ha1 = spec_ha1(d);
    let ha2 = spec_ha2(method, uri);
    let count = hex_fixed(nc as nat, 8);
    let response = md5_hex(ha1 + ":"@ + d.nonce@ + ":"@ + count + ":"@ + cnonce + "::"@ + ha2);
    assert(ha1 + ":"@ + d.nonce@ + ":"@ + count + ":"@ + cnonce + "::"@ + ha2 =~= ha1 + colon()
        + d.nonce@ + colon() + count + colon() + cnonce + colon() + Seq::<char>::empty() + colon()
        + ha2);
    assert(digest_response(d, method, uri, nc, cnonce) == response);
    let fields = qop_fields(d.username@, d.realm@, d.nonce@, uri, response, q, count, cnonce);
    lemma_plain_fields_text(d.username@, d.realm@, d.nonce@, uri, response);
    lemma_qop_fields_text(d.username@, d.realm@, d.nonce@, uri, response, q, count, cnonce);
    let h = digest_header(d, method, uri, nc, cnonce);
    assert(h.subrange(0, fields.len() as int) =~= fields);
}

/// Without a `qop` (the RFC 2069 form), the response is
/// `MD5(HA1:nonce:HA2)` and no `qop`, `nc` or `cnonce` field follows: with
/// neither opaque nor algorithm the header is exactly the opening fields.
pub proof fn lemma_digest_without_qop(
    d: DigestAuth,
    method: Seq<char>,
    uri: Seq<char>,
    nc: u32,
    cnonce: Seq<char>,
)
    requires
        d.qop is None,
    ensures
        ({
            let response = md5_hex(spec_ha1(d) + ":"@ + d.nonce@ + ":"@ + spec_ha2(method, uri));
            let fields = plain_fields(d.username@, d.realm@, d.nonce@, uri, response);
            &&& crate::text::has_prefix(digest_header(d, method, uri, nc, cnonce), fields)
            &&& d.opaque is None && d.algorithm is None ==> digest_header(d, method, uri, nc, cnonce)
                == fields
        }),
{
    reveal_strlit(":");
    lemma_ha_text(d, method, uri);
    let ha1 = spec_ha1(d);
    let ha2 = spec_ha2(method, uri);
    let response = md5_hex(ha1 + ":"@ + d.nonce@ + ":"@ + ha2);
    assert(ha1 + ":"@ + d.nonce@ + ":"@ + ha2 =~= ha1 + colon() + d.nonce@ + colon() + ha2);
    assert(digest_response(d, method, uri, nc, cnonce) == response);
    let fields = plain_fields(d.username@, d.realm@, d.nonce@, uri, response);
    lemma_plain_fields_text(d.username@, d.realm@, d.nonce@, uri, response);
    let h = digest_header(d, method, uri, nc, cnonce);
    assert(h.subrange(0, fields.len() as int) =~= fields);
}

/// Hex text has two digits per byte: an MD5 hash (16 bytes), such as the
/// client nonce, is 32 hex digits.
pub proof fn lemma_hex_text_len(b: Seq<u8>)
    ensures
        hex_text(b).len() == 2 * b.len(),
    decreases b.len(),
{
    if b.len() > 0 {
        lemma_hex_text_len(b.drop_last());
    }
}

} // verus!
