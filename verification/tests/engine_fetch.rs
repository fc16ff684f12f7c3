//! `ADD <url>`: where a fetch goes, and what it brings.
use umf_builder::engine_build::fetch::{
    choose_address, fetch_failed, resolve_failed, start_fetch, url_leaf, AddressCheck, FetchBody,
    FetchWalk, Reply, MAX_REDIRECTS, MAX_URL_FETCH_BYTES,
};
use umf_builder::engine_build::util::{civil_from_epoch, now_rfc3339};
use umf_builder::engine_build::EngineBuildError;

fn t(s: &str) -> String {
    s.to_string()
}

#[test]
fn url_leaf_takes_the_last_path_segment() {
    assert_eq!(url_leaf("https://example.com/dist/app.tar.gz"), "app.tar.gz");
    assert_eq!(url_leaf("http://example.com/a/b/c.bin?x=1&y=2"), "c.bin");
    assert_eq!(url_leaf("https://example.com/file#frag"), "file");
}

#[test]
fn url_leaf_falls_back_for_bare_authorities() {
    assert_eq!(url_leaf("https://example.com"), "download");
    assert_eq!(url_leaf("https://example.com/"), "download");
}

#[test]
fn an_ipv6_literal_keeps_its_brackets() {
    let walk = FetchWalk::start("http://[::1]:8080/x").expect("url");
    assert_eq!(walk.endpoint().expect("endpoint"), (t("[::1]"), 8080));
}

#[test]
fn a_fetch_starts_at_its_url() {
    let walk = FetchWalk::start("https://Example.com/a").expect("url");
    assert_eq!(walk.original, "https://Example.com/a");
    assert_eq!(walk.target.url, "https://example.com/a");
    let (host, port) = walk.endpoint().expect("endpoint");
    assert_eq!((host.as_str(), port), ("example.com", 443));
    let walk = FetchWalk::start("http://example.com:8080/").expect("url");
    assert_eq!(walk.endpoint().unwrap(), (t("example.com"), 8080));
    assert!(matches!(
        FetchWalk::start("not a url"),
        Err(EngineBuildError::AddUrlFetchFailed { url, .. }) if url == "not a url"
    ));
    assert!(start_fetch("x", Err(t("why"))).is_err());
}

#[test]
fn a_redirect_is_followed_as_seen_from_where_it_came() {
    let mut walk = FetchWalk::start("https://example.com/a/b").expect("url");
    assert!(matches!(walk.on_reply(302, "302 Found", Some("../c")), Ok(Reply::Redirected)));
    assert_eq!(walk.target.url, "https://example.com/c");
    assert_eq!(walk.hops, 1);
    assert!(matches!(walk.on_reply(200, "200 OK", None), Ok(Reply::Body)));
}

#[test]
fn add_url_fetch_failure_is_a_clear_error() {
    let mut walk = FetchWalk::start("https://example.com/missing.tar.gz").expect("url");
    assert!(matches!(
        walk.on_reply(404, "404 Not Found", None),
        Err(EngineBuildError::AddUrlFetchFailed { .. })
    ));
    assert!(matches!(
        fetch_failed("u", t("d")),
        EngineBuildError::AddUrlFetchFailed { url, detail } if url == "u" && detail == "d"
    ));
}

#[test]
fn a_redirect_needs_a_target() {
    let mut walk = FetchWalk::start("https://example.com/a").expect("url");
    assert!(walk.on_reply(301, "301 Moved Permanently", None).is_err());
}

#[test]
fn redirects_end() {
    let mut walk = FetchWalk::start("https://example.com/0").expect("url");
    let mut followed = 0;
    while walk.on_reply(302, "302 Found", Some("/next")).is_ok() {
        followed += 1;
        assert!(followed <= MAX_REDIRECTS);
    }
    assert_eq!(followed, MAX_REDIRECTS);
}

#[test]
fn the_first_allowed_address_is_taken() {
    let ok = |a: &str| AddressCheck { address: t(a), denied: None };
    let bad = |a: &str, why: &str| AddressCheck { address: t(a), denied: Some(t(why)) };
    assert_eq!(choose_address("u", "u", "h", &vec![ok("1.1.1.1"), ok("2.2.2.2")]).unwrap(), 0);
    assert_eq!(
        choose_address("u", "u", "h", &vec![bad("127.0.0.1", "loopback"), ok("2.2.2.2")]).unwrap(),
        1
    );
    let all_bad = vec![bad("127.0.0.1", "loopback"), bad("10.0.0.1", "private")];
    match choose_address("u", "v", "h", &all_bad) {
        Err(EngineBuildError::AddUrlEgressDenied { url, target, address, category }) => {
            assert_eq!(url, "u");
            assert_eq!(target, "v");
            assert_eq!(address, "127.0.0.1");
            assert_eq!(category, "loopback");
        }
        other => panic!("expected AddUrlEgressDenied, got {other:?}"),
    }
    assert!(matches!(
        choose_address("u", "u", "h", &Vec::new()),
        Err(EngineBuildError::AddUrlFetchFailed { .. })
    ));
    assert!(matches!(
        resolve_failed("u", "h", "why"),
        EngineBuildError::AddUrlFetchFailed { url, .. } if url == "u"
    ));
}

#[test]
fn a_body_is_hashed_as_it_comes() {
    let body = FetchBody::new().on_chunk("u", b"ab").unwrap().on_chunk("u", b"c").unwrap();
    assert_eq!(body.len(), 3);
    assert_eq!(
        body.finish(),
        "sha256:ba7816bf8f01cfea414140de5dae2223b00361a396177a9cb410ff61f20015ad"
    );
    assert_eq!(MAX_URL_FETCH_BYTES, 8 * 1024 * 1024 * 1024);
}

#[test]
fn seconds_become_a_date() {
    assert_eq!(civil_from_epoch(0), (1970, 1, 1, 0, 0, 0));
    assert_eq!(civil_from_epoch(951_782_400), (2000, 2, 29, 0, 0, 0));
    assert_eq!(civil_from_epoch(-1), (1969, 12, 31, 23, 59, 59));
    assert_eq!(now_rfc3339(Some("0"), Some(5)), "1970-01-01T00:00:00Z");
    assert_eq!(now_rfc3339(None, Some(1_700_000_000)), "2023-11-14T22:13:20Z");
    assert_eq!(now_rfc3339(Some("junk"), Some(1)), "1970-01-01T00:00:01Z");
}
