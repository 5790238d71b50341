//! HTTP authentication negotiation for WebDAV: reading a
//! `WWW-Authenticate` challenge.

use vstd::prelude::*;
use crate::config::{clone_opt, opt_view};
use crate::text::{
    chars_of, find, find_char, has_prefix, same, slice, split, split_on, starts_with, string_of,
    trim, trim_char, trim_matches, trim_white,
};

verus! {

/// The state of HTTP Digest authentication against one server.
#[derive(Debug)]
pub struct DigestAuth {
    pub username: String,
    pub password: String,
    pub realm: String,
    pub nonce: String,
    pub opaque: Option<String>,
    pub qop: Option<String>,
    pub algorithm: Option<String>,
    /// The nonce count of the next request.
    pub nc: u32,
}

impl Clone for DigestAuth {
    fn clone(&self) -> (r: Self)
        ensures
            r == *self,
    {
        DigestAuth {
            username: self.username.clone(),
            password: self.password.clone(),
            realm: self.realm.clone(),
            nonce: self.nonce.clone(),
            opaque: clone_opt(&self.opaque),
            qop: clone_opt(&self.qop),
            algorithm: clone_opt(&self.algorithm),
            nc: self.nc,
        }
    }
}

/// The authentication scheme that a server asked for.
#[derive(Debug)]
pub enum Auth {
    Basic,
    Digest(DigestAuth),
}

impl Clone for Auth {
    fn clone(&self) -> (r: Self)
        ensures
            r == *self,
    {
        match self {
            Auth::Basic => Auth::Basic,
            Auth::Digest(d) => Auth::Digest(d.clone()),
        }
    }
}

pub open spec fn basic_prefix() -> Seq<char> {
    seq!['B', 'a', 's', 'i', 'c', ' ']
}

pub open spec fn digest_prefix() -> Seq<char> {
    seq!['D', 'i', 'g', 'e', 's', 't', ' ']
}

pub open spec fn realm_key() -> Seq<char> {
    seq!['r', 'e', 'a', 'l', 'm']
}

pub open spec fn nonce_key() -> Seq<char> {
    seq!['n', 'o', 'n', 'c', 'e']
}

pub open spec fn opaque_key() -> Seq<char> {
    seq!['o', 'p', 'a', 'q', 'u', 'e']
}

pub open spec fn qop_key() -> Seq<char> {
    seq!['q', 'o', 'p']
}

pub open spec fn algorithm_key() -> Seq<char> {
    seq!['a', 'l', 'g', 'o', 'r', 'i', 't', 'h', 'm']
}

/// A `key=value` part of a challenge: both sides trimmed, the value
/// without surrounding double quotes.
pub open spec fn parse_param(part: Seq<char>) -> Option<(Seq<char>, Seq<char>)> {
    let p = trim(part);
    let i: nat = find(p, '=');
    if i < p.len() {
        Some((trim(p.take(i as int)), trim_char(trim(p.skip((i + 1) as int)), '"')))
    } else {
        None
    }
}

/// A `key=value` parameter keeps the whole text after its first `=`: a
/// value that itself holds `=` (such as a base64 nonce) is read whole, and
/// the key is the text before it; the value loses only surrounding white
/// space and double quotes.
pub proof fn lemma_param_value_whole(key: Seq<char>, value: Seq<char>)
    requires
        crate::text::lacks(key, '='),
        key.len() > 0,
        !crate::text::is_white(key[0]),
        value.len() > 0,
        !crate::text::is_white(value.last()),
    ensures
        parse_param(key + seq!['='] + value) == Some((trim(key), trim_char(trim(value), '"'))),
{
    let part = key + seq!['='] + value;
    assert(part[0] == key[0]);
    assert(part.last() == value.last());
    assert(crate::text::drop_front(part, crate::text::CharClass::Whitespace) == part);
    assert(crate::text::drop_back(part, crate::text::CharClass::Whitespace) == part);
    assert(trim(part) == part);
    crate::text::lemma_find_bounds(part, '=');
    let i = find(part, '=');
    assert(part[key.len() as int] == '=');
    if i < key.len() {
        assert(part[i as int] == key[i as int]);
    }
    assert(i == key.len());
    assert(part.take(i as int) =~= key);
    assert(part.skip((i + 1) as int) =~= value);
}

proof fn lemma_split_run(a: Seq<char>, s: Seq<char>, c: char, cur: Seq<char>)
    requires
        crate::text::lacks(a, c),
    ensures
        crate::text::split_from(a + s, c, cur) == crate::text::split_from(s, c, cur + a),
    decreases a.len(),
{
    if a.len() == 0 {
        assert(a + s =~= s);
        assert(cur + a =~= cur);
    } else {
        assert((a + s)[0] == a[0]);
        assert((a + s).drop_first() =~= a.drop_first() + s);
        lemma_split_run(a.drop_first(), s, c, cur.push(a[0]));
        assert(cur.push(a[0]) + a.drop_first() =~= cur + a);
    }
}

/// Two pieces joined by one separator split back into those pieces.
proof fn lemma_split_two(a: Seq<char>, b: Seq<char>, c: char)
    requires
        crate::text::lacks(a, c),
        crate::text::lacks(b, c),
    ensures
        split(a + seq![c] + b, c) == seq![a, b],
{
    lemma_split_run(a, seq![c] + b, c, Seq::empty());
    assert(a + seq![c] + b =~= a + (seq![c] + b));
    assert(Seq::<char>::empty() + a =~= a);
    assert((seq![c] + b)[0] == c);
    assert((seq![c] + b).drop_first() =~= b);
    lemma_split_run(b, Seq::empty(), c, Seq::empty());
    assert(b + Seq::<char>::empty() =~= b);
    assert(Seq::<char>::empty() + b =~= b);
    assert(crate::text::split_from(Seq::<char>::empty(), c, b) == seq![b]);
    assert(seq![a] + seq![b] =~= seq![a, b]);
}

/// `key="value"` with a plain key and a quoted value free of `"`
/// (surrounding white space aside) reads as that key and value.
proof fn lemma_quoted_param(lead: Seq<char>, key: Seq<char>, value: Seq<char>)
    requires
        forall|i: int| 0 <= i < lead.len() ==> crate::text::is_white(#[trigger] lead[i]),
        forall|i: int| 0 <= i < key.len() ==> !crate::text::is_white(#[trigger] key[i]) && key[i] != '=',
        key.len() > 0,
        value.len() > 0,
        crate::text::lacks(value, '"'),
    ensures
        parse_param(lead + key + seq!['=', '"'] + value + seq!['"']) == Some((key, value)),
    decreases lead.len(),
{
    let quoted_value = seq!['"'] + value + seq!['"'];
    let part = key + seq!['='] + quoted_value;
    assert(lead + key + seq!['=', '"'] + value + seq!['"'] =~= lead + part);
    if lead.len() > 0 {
        let rest = lead.drop_first() + part;
        assert((lead + part).drop_first() =~= rest);
        assert((lead + part)[0] == lead[0]);
        assert(crate::text::drop_front(lead + part, crate::text::CharClass::Whitespace)
            == crate::text::drop_front(rest, crate::text::CharClass::Whitespace));
        lemma_quoted_param(lead.drop_first(), key, value);
        assert(lead.drop_first() + key + seq!['=', '"'] + value + seq!['"'] =~= rest);
    } else {
        assert(lead + part =~= part);
        lemma_param_value_whole(key, quoted_value);
        assert(crate::text::drop_front(key, crate::text::CharClass::Whitespace) == key);
        assert(crate::text::drop_back(key, crate::text::CharClass::Whitespace) == key);
        assert(quoted_value[0] == '"');
        assert(quoted_value.last() == '"');
        assert(crate::text::drop_front(quoted_value, crate::text::CharClass::Whitespace) == quoted_value);
        assert(crate::text::drop_back(quoted_value, crate::text::CharClass::Whitespace) == quoted_value);
        let inner = value + seq!['"'];
        assert(quoted_value.drop_first() =~= inner);
        assert(inner[0] == value[0]);
        assert(value[0] != '"');
        assert(crate::text::drop_front(inner, crate::text::CharClass::Exactly('"')) == inner);
        assert(crate::text::drop_front(quoted_value, crate::text::CharClass::Exactly('"')) == inner);
        assert(inner.drop_last() =~= value);
        assert(value.last() != '"');
        assert(crate::text::drop_back(value, crate::text::CharClass::Exactly('"')) == value);
        assert(crate::text::drop_back(inner, crate::text::CharClass::Exactly('"')) == value);
    }
}

/// A Digest challenge `realm="R", nonce="N"` (values free of `"` and `,`)
/// is read with exactly that realm and nonce, whatever other characters,
/// `=` among them, the values hold; with no opaque, `qop` or algorithm.
pub proof fn lemma_digest_challenge_values(realm: Seq<char>, nonce: Seq<char>, r: Option<Auth>)
    requires
        realm.len() > 0,
        nonce.len() > 0,
        crate::text::lacks(realm, '"'),
        crate::text::lacks(realm, ','),
        crate::text::lacks(nonce, '"'),
        crate::text::lacks(nonce, ','),
        challenge_result(
            "Digest realm=\""@ + realm + "\", nonce=\""@ + nonce + "\""@,
            r,
        ),
    ensures
        r matches Some(Auth::Digest(d)) && d.realm@ == realm && d.nonce@ == nonce && d.opaque is None
            && d.qop is None && d.algorithm is None && d.nc == 1,
{
    reveal_strlit("Digest realm=\"");
    reveal_strlit("\", nonce=\"");
    reveal_strlit("\"");
    let header = "Digest realm=\""@ + realm + "\", nonce=\""@ + nonce + "\""@;
    let rp = realm_key() + seq!['=', '"'] + realm + seq!['"'];
    let np = seq![' '] + nonce_key() + seq!['=', '"'] + nonce + seq!['"'];
    assert(header =~= digest_prefix() + rp + seq![','] + np);
    assert(header[0] == 'D');
    assert(header.last() == '"');
    assert(crate::text::drop_front(header, crate::text::CharClass::Whitespace) == header);
    assert(crate::text::drop_back(header, crate::text::CharClass::Whitespace) == header);
    assert(trim(header) == header);
    assert(!has_prefix(header, basic_prefix())) by {
        assert(header.subrange(0, 6)[0] != basic_prefix()[0]);
    }
    assert(has_prefix(header, digest_prefix())) by {
        assert(header.subrange(0, 7) =~= digest_prefix());
    }
    assert(header.skip(7) =~= rp + seq![','] + np);
    assert(crate::text::lacks(rp, ','));
    assert(crate::text::lacks(np, ','));
    lemma_split_two(rp, np, ',');
    let parts = digest_parts(header);
    assert(parts == seq![rp, np]);
    lemma_quoted_param(Seq::empty(), realm_key(), realm);
    assert(Seq::<char>::empty() + realm_key() + seq!['=', '"'] + realm + seq!['"'] =~= rp);
    lemma_quoted_param(seq![' '], nonce_key(), nonce);
    assert(parse_param(rp) == Some((realm_key(), realm)));
    assert(parse_param(np) == Some((nonce_key(), nonce)));
    assert(parts.last() == np);
    assert(parts.drop_last() =~= seq![rp]);
    assert(seq![rp].last() == rp);
    assert(seq![rp].drop_last() =~= Seq::<Seq<char>>::empty());
    assert(nonce_key() != realm_key()) by {
        assert(nonce_key()[0] != realm_key()[0]);
    }
    assert(nonce_key() != opaque_key()) by {
        assert(nonce_key()[0] != opaque_key()[0]);
    }
    assert(nonce_key() != qop_key()) by {
        assert(nonce_key().len() != qop_key().len());
    }
    assert(nonce_key() != algorithm_key()) by {
        assert(nonce_key().len() != algorithm_key().len());
    }
    assert(realm_key() != opaque_key()) by {
        assert(realm_key()[0] != opaque_key()[0]);
    }
    assert(realm_key() != qop_key()) by {
        assert(realm_key().len() != qop_key().len());
    }
    assert(realm_key() != algorithm_key()) by {
        assert(realm_key().len() != algorithm_key().len());
    }
    let first = seq![rp];
    assert(param_value(first, realm_key()) == Some(realm));
    assert(param_value(first.drop_last(), opaque_key()) is None);
    assert(param_value(first, opaque_key()) is None);
    assert(param_value(first.drop_last(), qop_key()) is None);
    assert(param_value(first, qop_key()) is None);
    assert(param_value(first.drop_last(), algorithm_key()) is None);
    assert(param_value(first, algorithm_key()) is None);
    assert(param_value(parts, realm_key()) == param_value(first, realm_key()));
    assert(param_value(parts, opaque_key()) == param_value(first, opaque_key()));
    assert(param_value(parts, qop_key()) == param_value(first, qop_key()));
    assert(param_value(parts, algorithm_key()) == param_value(first, algorithm_key()));
    assert(param_value(parts, realm_key()) == Some(realm));
    assert(param_value(parts, nonce_key()) == Some(nonce));
    assert(param_value(parts, opaque_key()) is None);
    assert(param_value(parts, qop_key()) is None);
    assert(param_value(parts, algorithm_key()) is None);
}

/// The value that the last part with key `key` gives.
pub open spec fn param_value(parts: Seq<Seq<char>>, key: Seq<char>) -> Option<Seq<char>>
    decreases parts.len(),
{
    if parts.len() == 0 {
        None
    } else {
        match parse_param(parts.last()) {
            Some(kv) => if kv.0 == key {
                Some(kv.1)
            } else {
                param_value(parts.drop_last(), key)
            },
            None => param_value(parts.drop_last(), key),
        }
    }
}

/// The comma-separated parts of a Digest challenge.
pub open spec fn digest_parts(header: Seq<char>) -> Seq<Seq<char>> {
    split(trim(header).skip(7), ',')
}

/// What `parse_www_authenticate` gives for `header`.
pub open spec fn challenge_result(header: Seq<char>, r: Option<Auth>) -> bool {
    let t = trim(header);
    if has_prefix(t, basic_prefix()) {
        r matches Some(Auth::Basic)
    } else if !has_prefix(t, digest_prefix()) {
        r is None
    } else {
        let parts = digest_parts(header);
        match (param_value(parts, realm_key()), param_value(parts, nonce_key())) {
            (Some(realm), Some(nonce)) => r matches Some(Auth::Digest(d)) && d.username@.len() == 0
                && d.password@.len() == 0 && d.realm@ == realm && d.nonce@ == nonce && opt_view(
                d.opaque,
            ) == param_value(parts, opaque_key()) && opt_view(d.qop) == param_value(
                parts,
                qop_key(),
            ) && opt_view(d.algorithm) == param_value(parts, algorithm_key()) && d.nc == 1,
            _ => r is None,
        }
    }
}

fn opt_string(o: &Option<Vec<char>>) -> (r: Option<String>)
    ensures
        opt_view(r) == (match o {
            Some(v) => Some(v@),
            None => None::<Seq<char>>,
        }),
{
    match o {
        Some(v) => Some(string_of(v)),
        None => None,
    }
}

proof fn lemma_param_value_step(parts: Seq<Seq<char>>, j: int, key: Seq<char>)
    requires
        0 <= j < parts.len(),
    ensures
        param_value(parts.take(j + 1), key) == (match parse_param(parts[j]) {
            Some(kv) => if kv.0 == key {
                Some(kv.1)
            } else {
                param_value(parts.take(j), key)
            },
            None => param_value(parts.take(j), key),
        }),
{
    assert(parts.take(j + 1).drop_last() =~= parts.take(j));
    assert(parts.take(j + 1).last() == parts[j]);
}

/// Reads a `WWW-Authenticate` challenge: Basic, or Digest with at least a
/// realm and a nonce.
pub fn parse_www_authenticate(header: &str) -> (r: Option<Auth>)
    ensures
        challenge_result(header@, r),
{
    let h = trim_white(&chars_of(header));
    let basic = vec!['B', 'a', 's', 'i', 'c', ' '];
    let digest = vec!['D', 'i', 'g', 'e', 's', 't', ' '];
    assert(basic@ =~= basic_prefix());
    assert(digest@ =~= digest_prefix());
    if starts_with(&h, &basic) {
        return Some(Auth::Basic);
    }
    if !starts_with(&h, &digest) {
        return None;
    }
    let rest = slice(&h, 7, h.len());
    assert(rest@ =~= trim(header@).skip(7));
    let parts = split_on(&rest, ',');
    let ghost ps = split(rest@, ',');
    let k_realm = vec!['r', 'e', 'a', 'l', 'm'];
    let k_nonce = vec!['n', 'o', 'n', 'c', 'e'];
    let k_opaque = vec!['o', 'p', 'a', 'q', 'u', 'e'];
    let k_qop = vec!['q', 'o', 'p'];
    let k_algorithm = vec!['a', 'l', 'g', 'o', 'r', 'i', 't', 'h', 'm'];
    assert(k_realm@ =~= realm_key());
    assert(k_nonce@ =~= nonce_key());
    assert(k_opaque@ =~= opaque_key());
    assert(k_qop@ =~= qop_key());
    assert(k_algorithm@ =~= algorithm_key());
    let mut realm: Option<Vec<char>> = None;
    let mut nonce: Option<Vec<char>> = None;
    let mut opaque: Option<Vec<char>> = None;
    let mut qop: Option<Vec<char>> = None;
    let mut algorithm: Option<Vec<char>> = None;
    let mut j: usize = 0;
    while j < parts.len()
        invariant
            j <= parts@.len() == ps.len(),
            forall|i: int| 0 <= i < parts@.len() ==> #[trigger] parts@[i]@ == ps[i],
            k_realm@ == realm_key(),
            k_nonce@ == nonce_key(),
            k_opaque@ == opaque_key(),
            k_qop@ == qop_key(),
            k_algorithm@ == algorithm_key(),
            (match realm { Some(v) => Some(v@), None => None::<Seq<char>> }) == param_value(
                ps.take(j as int),
                realm_key(),
            ),
            (match nonce { Some(v) => Some(v@), None => None::<Seq<char>> }) == param_value(
                ps.take(j as int),
                nonce_key(),
            ),
            (match opaque { Some(v) => Some(v@), None => None::<Seq<char>> }) == param_value(
                ps.take(j as int),
                opaque_key(),
            ),
            (match qop { Some(v) => Some(v@), None => None::<Seq<char>> }) == param_value(
                ps.take(j as int),
                qop_key(),
            ),
            (match algorithm { Some(v) => Some(v@), None => None::<Seq<char>> }) == param_value(
                ps.take(j as int),
                algorithm_key(),
            ),
        decreases parts.len() - j,
    {
        proof {
            lemma_param_value_step(ps, j as int, realm_key());
            lemma_param_value_step(ps, j as int, nonce_key());
            lemma_param_value_step(ps, j as int, opaque_key());
            lemma_param_value_step(ps, j as int, qop_key());
            lemma_param_value_step(ps, j as int, algorithm_key());
        }
        let part = trim_white(&parts[j]);
        let eq: usize = find_char(&part, '=');
        if eq < part.len() {
            let key = trim_white(&slice(&part, 0, eq));
            let value = trim_matches(&trim_white(&slice(&part, eq + 1, part.len())), '"');
            assert(key@ =~= trim(part@.take(eq as int)));
            assert(value@ =~= trim_char(trim(part@.skip(eq + 1)), '"'));
            if same(&key, &k_realm) {
                realm = Some(value);
            } else if same(&key, &k_nonce) {
                nonce = Some(value);
            } else if same(&key, &k_opaque) {
                opaque = Some(value);
            } else if same(&key, &k_qop) {
                qop = Some(value);
            } else if same(&key, &k_algorithm) {
                algorithm = Some(value);
            }
        }
        j = j + 1;
    }
    assert(ps.take(parts.len() as int) =~= ps);
    let realm = match opt_string(&realm) {
        Some(s) => s,
        None => return None,
    };
    let nonce = match opt_string(&nonce) {
        Some(s) => s,
        None => return None,
    };
    Some(
        Auth::Digest(
            DigestAuth {
                username: String::new(),
                password: String::new(),
                realm,
                nonce,
                opaque: opt_string(&opaque),
                qop: opt_string(&qop),
                algorithm: opt_string(&algorithm),
                nc: 1,
            },
        ),
    )
}

} // verus!
