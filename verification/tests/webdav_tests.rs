use webdav_backup::auth::Auth;
use webdav_backup::propfind::{collect_hrefs, parse_propfind_response, XmlItem};
use webdav_backup::webdav::{
    collection_path, list_names, mkcol_outcome, mkdir_levels, propfind_shows_collection,
    should_reauthenticate, status_is_success, AuthHeader, MkcolOutcome, MkdirAction,
    MkdirProgress, WebDavError, WebDavSession,
};

fn session() -> WebDavSession {
    WebDavSession::new("https://dav.example.com/remote/", "alice".to_string(), "secret".to_string())
}

#[test]
fn session_addresses() {
    let s = session();
    assert_eq!(s.base_url, "https://dav.example.com/remote");
    assert_eq!(s.url_for("/backup/x.zip"), "https://dav.example.com/remote/backup/x.zip");
    assert_eq!(s.url_for("backup/"), "https://dav.example.com/remote/backup/");
    assert_eq!(s.uri_for("//backup/x.zip"), "backup/x.zip");
    assert!(s.auth.is_none());
}

#[test]
fn anonymous_until_challenged() {
    let mut s = session();
    assert!(matches!(s.auth_for_request("GET", "x"), AuthHeader::Anonymous));
}

#[test]
fn basic_challenge_switches_to_basic() {
    let mut s = session();
    let r = s.on_unauthorized(Some("Basic realm=\"dav\""), "PUT", "x");
    assert!(matches!(r, Ok(AuthHeader::Basic)));
    assert!(matches!(s.auth, Some(Auth::Basic)));
    assert!(matches!(s.auth_for_request("PUT", "y"), AuthHeader::Basic));
}

#[test]
fn digest_challenge_signs_and_counts() {
    let mut s = session();
    let r = s.on_unauthorized(Some("Digest realm=\"dav\", nonce=\"abc\", qop=\"auth\""), "PROPFIND", "backup/");
    match r {
        Ok(AuthHeader::Value(h)) => {
            assert!(h.starts_with("Digest username=\"alice\", realm=\"dav\", nonce=\"abc\", uri=\"backup/\""));
            assert!(h.contains("nc=00000001"));
        }
        other => panic!("unexpected {:?}", other),
    }
    match &s.auth {
        Some(Auth::Digest(d)) => {
            assert_eq!(d.username, "alice");
            assert_eq!(d.password, "secret");
            assert_eq!(d.nc, 2);
        }
        other => panic!("unexpected {:?}", other),
    }
    match s.auth_for_request("PUT", "backup/x.zip") {
        AuthHeader::Value(h) => assert!(h.contains("nc=00000002") && h.contains("uri=\"backup/x.zip\"")),
        other => panic!("unexpected {:?}", other),
    }
}

#[test]
fn challenge_errors() {
    let mut s = session();
    assert!(matches!(s.on_unauthorized(None, "GET", "x"), Err(WebDavError::MissingChallenge)));
    match s.on_unauthorized(Some("Negotiate abc"), "GET", "x") {
        Err(WebDavError::UnsupportedScheme(h)) => assert_eq!(h, "Negotiate abc"),
        other => panic!("unexpected {:?}", other),
    }
    assert!(matches!(s.on_unauthorized(Some("Digest realm=\"x\""), "GET", "x"), Err(WebDavError::UnsupportedScheme(_))));
    assert!(s.auth.is_none());
}

#[test]
fn status_classes() {
    assert!(status_is_success(200) && status_is_success(201) && status_is_success(299));
    assert!(!status_is_success(199) && !status_is_success(301) && !status_is_success(404));
    assert_eq!(mkcol_outcome(201), MkcolOutcome::Created);
    assert_eq!(mkcol_outcome(405), MkcolOutcome::CheckExisting);
    assert_eq!(mkcol_outcome(409), MkcolOutcome::CheckExisting);
    assert_eq!(mkcol_outcome(403), MkcolOutcome::Failed);
    assert!(propfind_shows_collection(207) && propfind_shows_collection(200));
    assert!(!propfind_shows_collection(404));
}

#[test]
fn mkdir_levels_are_cumulative() {
    assert_eq!(mkdir_levels("/a/b//c/"), vec!["a", "a/b", "a/b/c"]);
    assert_eq!(mkdir_levels("backup"), vec!["backup"]);
    assert!(mkdir_levels("///").is_empty());
    assert_eq!(collection_path("a/b//"), "a/b/");
    assert_eq!(collection_path("a"), "a/");
}

#[test]
fn listing_names() {
    let hrefs: Vec<String> = ["/backup/", "/backup/backup_1.zip", "backup/x/", "/other/y.zip", "/backup"]
        .iter()
        .map(|s| s.to_string())
        .collect();
    assert_eq!(list_names("backup", &hrefs), vec!["backup_1.zip", "x/", "other/y.zip"]);
    assert_eq!(list_names("/backup/", &hrefs), vec!["backup_1.zip", "x/", "other/y.zip"]);
}

#[test]
fn propfind_hrefs_in_order() {
    let xml = r#"<?xml version="1.0" encoding="utf-8"?>
<d:multistatus xmlns:d="DAV:">
  <d:response><d:href>/backup/</d:href><d:propstat><d:prop><d:resourcetype><d:collection/></d:resourcetype></d:prop></d:propstat></d:response>
  <d:response><d:href>
     /backup/a&amp;b.zip
  </d:href></d:response>
  <response xmlns="DAV:"><href>/backup/c.zip</href></response>
</d:multistatus>"#;
    assert_eq!(parse_propfind_response(xml), vec!["/backup/", "/backup/a&b.zip", "/backup/c.zip"]);
}

#[test]
fn propfind_stops_at_error() {
    let xml = "<m><href>/a</href><href>/b</wrong></m>";
    assert_eq!(parse_propfind_response(xml), vec!["/a"]);
    assert!(parse_propfind_response("").is_empty());
}

#[test]
fn collect_hrefs_from_events() {
    let items = vec![
        XmlItem::Open(b"href".to_vec()),
        XmlItem::Text(Some("/a".to_string())),
        XmlItem::Text(None),
        XmlItem::Text(Some("b".to_string())),
        XmlItem::Close(b"href".to_vec()),
        XmlItem::Text(Some("ignored".to_string())),
        XmlItem::Open(b"prop".to_vec()),
        XmlItem::Skip,
        XmlItem::Open(b"href".to_vec()),
        XmlItem::Close(b"href".to_vec()),
    ];
    assert_eq!(collect_hrefs(&items), vec!["/ab", ""]);
}

#[test]
fn webdav_error_messages() {
    assert_eq!(WebDavError::MissingChallenge.message(), "401 without www-authenticate header");
    assert_eq!(WebDavError::UnsupportedScheme("NTLM".to_string()).message(), "unsupported auth scheme: NTLM");
}

#[test]
fn retry_only_once_after_401() {
    assert!(should_reauthenticate(401, false));
    assert!(!should_reauthenticate(401, true));
    assert!(!should_reauthenticate(403, false));
}

#[test]
fn mkdir_progress_steps() {
    let mut p = MkdirProgress::new("/a/b/");
    assert!(matches!(p.next_action(), MkdirAction::Create(ref s) if s == "a/"));
    assert!(matches!(p.on_mkcol(201), MkdirAction::Create(ref s) if s == "a/b/"));
    assert!(matches!(p.on_mkcol(405), MkdirAction::CheckExisting(ref s) if s == "a/b"));
    assert!(matches!(p.on_check(true), MkdirAction::Finished));
    let mut q = MkdirProgress::new("x");
    assert!(matches!(q.on_mkcol(409), MkdirAction::CheckExisting(_)));
    assert!(matches!(q.on_check(false), MkdirAction::Failed));
    let mut r = MkdirProgress::new("x/y");
    assert!(matches!(r.on_mkcol(500), MkdirAction::Failed));
    assert_eq!(r.done, 0);
    assert!(matches!(MkdirProgress::new("/").next_action(), MkdirAction::Finished));
}
