use md5::{Digest, Md5};
use webdav_backup::auth::{parse_www_authenticate, Auth, DigestAuth};
use webdav_backup::digest::{build_digest_auth_header, digest_header_with};

fn md5_hex(s: &str) -> String {
    hex::encode(Md5::digest(s.as_bytes()))
}

fn rfc_auth() -> DigestAuth {
    DigestAuth {
        username: "Mufasa".to_string(),
        password: "Circle Of Life".to_string(),
        realm: "testrealm@host.com".to_string(),
        nonce: "dcd98b7102dd2f0e8b11d0f600bfb0c093".to_string(),
        opaque: Some("5ccc069c403ebaf9f0171e9517f40e41".to_string()),
        qop: Some("auth,auth-int".to_string()),
        algorithm: None,
        nc: 1,
    }
}

#[test]
fn basic_challenge() {
    assert!(matches!(parse_www_authenticate("Basic realm=\"x\""), Some(Auth::Basic)));
    assert!(matches!(parse_www_authenticate("  Basic realm=\"x\"  "), Some(Auth::Basic)));
}

#[test]
fn unknown_challenge() {
    assert!(parse_www_authenticate("Bearer realm=\"x\"").is_none());
    assert!(parse_www_authenticate("").is_none());
    assert!(parse_www_authenticate("Basic").is_none());
    assert!(parse_www_authenticate("basic realm=x").is_none());
}

#[test]
fn digest_challenge_fields() {
    let h = "Digest realm=\"testrealm@host.com\", qop=\"auth,auth-int\", nonce=\"dcd98b7102dd2f0e8b11d0f600bfb0c093\", opaque=\"5ccc069c403ebaf9f0171e9517f40e41\", algorithm=MD5";
    match parse_www_authenticate(h) {
        Some(Auth::Digest(d)) => {
            assert_eq!(d.username, "");
            assert_eq!(d.password, "");
            assert_eq!(d.realm, "testrealm@host.com");
            assert_eq!(d.nonce, "dcd98b7102dd2f0e8b11d0f600bfb0c093");
            assert_eq!(d.opaque.as_deref(), Some("5ccc069c403ebaf9f0171e9517f40e41"));
            assert_eq!(d.qop.as_deref(), Some("auth"));
            assert_eq!(d.algorithm.as_deref(), Some("MD5"));
            assert_eq!(d.nc, 1);
        }
        other => panic!("unexpected {:?}", other),
    }
}

#[test]
fn digest_challenge_last_value_wins_and_trims() {
    let h = "Digest realm = \"a\" , nonce=n1, realm=\"b\", junk, other=1";
    match parse_www_authenticate(h) {
        Some(Auth::Digest(d)) => {
            assert_eq!(d.realm, "b");
            assert_eq!(d.nonce, "n1");
            assert!(d.opaque.is_none() && d.qop.is_none() && d.algorithm.is_none());
        }
        other => panic!("unexpected {:?}", other),
    }
}

#[test]
fn digest_challenge_needs_realm_and_nonce() {
    assert!(parse_www_authenticate("Digest realm=\"a\"").is_none());
    assert!(parse_www_authenticate("Digest nonce=\"a\"").is_none());
}

#[test]
fn digest_auth_clone_keeps_fields() {
    let a = rfc_auth();
    let b = a.clone();
    assert_eq!(b.username, a.username);
    assert_eq!(b.qop, a.qop);
    assert_eq!(b.nc, a.nc);
    let wrapped = Auth::Digest(a).clone();
    assert!(matches!(wrapped, Auth::Digest(d) if d.realm == "testrealm@host.com"));
}

#[test]
fn digest_header_matches_rfc2617_example() {
    let mut a = rfc_auth();
    a.qop = Some("auth".to_string());
    let h = digest_header_with(&a, "GET", "/dir/index.html", 1, "0a4f113b");
    assert_eq!(
        h,
        "Digest username=\"Mufasa\", realm=\"testrealm@host.com\", nonce=\"dcd98b7102dd2f0e8b11d0f600bfb0c093\", uri=\"/dir/index.html\", response=\"6629fae49393a05397450978507c4ef1\", qop=auth, nc=00000001, cnonce=\"0a4f113b\", opaque=\"5ccc069c403ebaf9f0171e9517f40e41\""
    );
}

#[test]
fn digest_header_without_qop() {
    let mut a = rfc_auth();
    a.qop = None;
    a.opaque = None;
    a.algorithm = Some("MD5".to_string());
    let ha1 = md5_hex("Mufasa:testrealm@host.com:Circle Of Life");
    let ha2 = md5_hex("PUT:backup/x.zip");
    let response = md5_hex(&format!("{}:{}:{}", ha1, a.nonce, ha2));
    let h = digest_header_with(&a, "PUT", "backup/x.zip", 7, "cafe");
    assert_eq!(
        h,
        format!(
            "Digest username=\"Mufasa\", realm=\"testrealm@host.com\", nonce=\"dcd98b7102dd2f0e8b11d0f600bfb0c093\", uri=\"backup/x.zip\", response=\"{}\", algorithm=MD5",
            response
        )
    );
}

#[test]
fn digest_header_qop_without_auth_word() {
    let mut a = rfc_auth();
    a.qop = Some("token".to_string());
    a.opaque = None;
    let ha1 = md5_hex("Mufasa:testrealm@host.com:Circle Of Life");
    let ha2 = md5_hex("GET:p");
    let response = md5_hex(&format!("{}:{}:{}:{}:{}:{}", ha1, a.nonce, "0000abcd", "cn", "", ha2));
    let h = digest_header_with(&a, "GET", "p", 0xabcd, "cn");
    assert!(h.contains(&format!("response=\"{}\"", response)));
    assert!(h.contains("qop=token, nc=0000abcd, cnonce=\"cn\""));
}

#[test]
fn building_a_header_advances_the_count() {
    let mut a = rfc_auth();
    a.nc = 41;
    let h = build_digest_auth_header(&mut a, "GET", "x");
    assert_eq!(a.nc, 42);
    assert!(h.contains("nc=00000029"));
    let start = h.find("cnonce=\"").unwrap() + 8;
    let cnonce = &h[start..start + 32];
    assert!(cnonce.chars().all(|c| c.is_ascii_hexdigit() && !c.is_ascii_uppercase()));
    let mut b = rfc_auth();
    b.nc = u32::MAX;
    let _ = build_digest_auth_header(&mut b, "GET", "x");
    assert_eq!(b.nc, 0);
}
