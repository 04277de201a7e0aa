use asset_discovery::request::{decoded_or_raw, relative_request_path, resolve_request_path};

fn relative(url: &str) -> String {
    relative_request_path(url).into_iter().collect()
}

#[test]
fn query_is_cut_off() {
    assert_eq!(relative("/a/b.png?x=1"), "a/b.png");
    assert_eq!(relative("/a/b.png?x=1?y=2"), "a/b.png");
    assert_eq!(relative("/a/b.png"), "a/b.png");
    assert_eq!(relative("?x"), "");
}

#[test]
fn encoded_path_resolves_as_decoded() {
    assert_eq!(relative("/%E6%B5%8B%E8%AF%95.png"), "测试.png");
    assert_eq!(relative("/测试.png"), "测试.png");
    assert_eq!(
        resolve_request_path("/%E6%B5%8B%E8%AF%95.png", "/srv"),
        resolve_request_path("/测试.png", "/srv")
    );
    assert_eq!(relative("/a%20b/c%2Fd.png"), "a b/c/d.png");
}

#[test]
fn undecodable_path_is_kept_as_written() {
    assert_eq!(relative("/%FF.png"), "%FF.png");
    assert_eq!(relative("/100%.png"), "100%.png");
}

#[test]
fn query_is_cut_before_decoding() {
    assert_eq!(relative("/a%3Fb.png?c"), "a?b.png");
}

#[test]
fn one_leading_slash_is_dropped() {
    assert_eq!(relative("/a.png"), "a.png");
    assert_eq!(relative("a.png"), "a.png");
    assert_eq!(relative("//a.png"), "/a.png");
    assert_eq!(relative("/"), "");
    assert_eq!(relative(""), "");
    assert_eq!(relative("%2Fa.png"), "a.png");
}

#[test]
fn path_is_joined_onto_the_base() {
    assert_eq!(resolve_request_path("/a/b.png?x", "/srv/assets"), "/srv/assets/a/b.png");
    assert_eq!(resolve_request_path("/a/b.png", "/srv/assets/"), "/srv/assets/a/b.png");
    assert_eq!(resolve_request_path("/a.png", "C:\\assets\\"), "C:\\assets\\a.png");
    assert_eq!(resolve_request_path("/a.png", ""), "a.png");
    assert_eq!(resolve_request_path("//etc/passwd", "/srv"), "/srv//etc/passwd");
}

#[test]
fn decoder_outcome_decides() {
    let raw: Vec<char> = "a%20b".chars().collect();
    let decoded: Vec<char> = "a b".chars().collect();
    assert_eq!(decoded_or_raw(raw.clone(), Some("a b".to_string())), decoded);
    assert_eq!(decoded_or_raw(raw.clone(), None), raw);
}
