use caching_proxy::headers::{
    clone_headers, end_to_end_headers, forwardable_headers, is_hop_by_hop_header, is_host_header,
    Headers,
};
use caching_proxy::text::{find_first, str_equal};
use caching_proxy::utils::{convert_reqwest_headers_to_warp, normalize_path};

#[test]
fn normalize_path_examples() {
    assert_eq!(normalize_path("/"), "/");
    assert_eq!(normalize_path("/a/"), "/a");
    assert_eq!(normalize_path("/a"), "/a");
}

#[test]
fn normalize_path_removes_exactly_one_slash() {
    assert_eq!(normalize_path("/a//"), "/a/");
    assert_eq!(normalize_path("//"), "/");
    assert_eq!(normalize_path("/a/b/"), "/a/b");
}

#[test]
fn normalize_path_leaves_short_and_plain_paths() {
    assert_eq!(normalize_path(""), "");
    assert_eq!(normalize_path("a"), "a");
    assert_eq!(normalize_path("/test"), "/test");
}

#[test]
fn normalize_path_counts_characters_not_bytes() {
    assert_eq!(normalize_path("\u{e9}"), "\u{e9}");
    assert_eq!(normalize_path("\u{e9}/"), "\u{e9}");
    assert_eq!(normalize_path("/caf\u{e9}/"), "/caf\u{e9}");
}

#[test]
fn normalize_path_is_idempotent_on_examples() {
    for path in ["/", "/a/", "/a", "", "//", "/a/b/", "/x?y"] {
        let once = normalize_path(path);
        let twice = normalize_path(&once);
        assert_eq!(once, twice);
    }
}

#[test]
fn hop_by_hop_set_is_recognised() {
    for name in [
        "connection",
        "proxy-connection",
        "keep-alive",
        "proxy-authenticate",
        "proxy-authorization",
        "te",
        "trailers",
        "transfer-encoding",
        "upgrade",
    ] {
        assert!(is_hop_by_hop_header(name), "{}", name);
    }
}

#[test]
fn hop_by_hop_ignores_case() {
    assert!(is_hop_by_hop_header("Connection"));
    assert!(is_hop_by_hop_header("TRANSFER-ENCODING"));
    assert!(is_hop_by_hop_header("Keep-Alive"));
    assert!(is_hop_by_hop_header("tE"));
}

#[test]
fn other_headers_are_end_to_end() {
    for name in ["host", "content-type", "x-cache", "t", "tee", "connections", "", "upgrade "] {
        assert!(!is_hop_by_hop_header(name), "{}", name);
    }
}

#[test]
fn host_is_recognised_whatever_its_case() {
    assert!(is_host_header("host"));
    assert!(is_host_header("Host"));
    assert!(is_host_header("HOST"));
    assert!(!is_host_header("hosts"));
    assert!(!is_host_header("connection"));
}

#[test]
fn str_equal_compares_contents() {
    assert!(str_equal("", ""));
    assert!(str_equal("te", "te"));
    assert!(!str_equal("te", "tE"));
    assert!(!str_equal("te", "tee"));
    assert!(str_equal("caf\u{e9}", "caf\u{e9}"));
}

#[test]
fn find_first_counts_characters() {
    assert_eq!(find_first("/a?b?c", '?'), 2);
    assert_eq!(find_first("/abc", '?'), 4);
    assert_eq!(find_first("", '?'), 0);
    assert_eq!(find_first("?", '?'), 0);
    assert_eq!(find_first("\u{e9}\u{e9}?x", '?'), 2);
}

#[test]
fn headers_start_empty() {
    let headers = Headers::new();
    assert_eq!(headers.len(), 0);
    assert!(headers.get("content-type").is_none());
}

#[test]
fn headers_insert_and_get_ignore_case() {
    let mut headers = Headers::new();
    headers.insert("Content-Type", b"text/plain");
    assert_eq!(headers.len(), 1);
    assert_eq!(headers.get("content-type").unwrap().as_slice(), b"text/plain");
    assert_eq!(headers.get("CONTENT-TYPE").unwrap().as_slice(), b"text/plain");
    assert_eq!(headers.name_at(0), "content-type");
    assert_eq!(headers.value_at(0).as_slice(), b"text/plain");
}

#[test]
fn headers_later_value_overwrites() {
    let mut headers = Headers::new();
    headers.insert("X-A", b"1");
    headers.insert("X-B", b"2");
    headers.insert("x-a", b"3");
    assert_eq!(headers.len(), 2);
    assert_eq!(headers.get("X-A").unwrap().as_slice(), b"3");
    assert_eq!(headers.get("X-B").unwrap().as_slice(), b"2");
}

#[test]
fn headers_accept_empty_values() {
    let mut headers = Headers::new();
    headers.insert("x-empty", b"");
    assert_eq!(headers.get("x-empty").unwrap().len(), 0);
}

#[test]
fn clone_headers_copies_every_entry() {
    let mut headers = Headers::new();
    headers.insert("a", b"1");
    headers.insert("b", b"2");
    let mut copy = clone_headers(&headers);
    assert_eq!(copy.len(), 2);
    assert_eq!(copy.get("a").unwrap().as_slice(), b"1");
    assert_eq!(copy.get("b").unwrap().as_slice(), b"2");
    copy.insert("a", b"changed");
    assert_eq!(headers.get("a").unwrap().as_slice(), b"1");
}

#[test]
fn retain_marked_keeps_the_marked_positions() {
    let mut headers = Headers::new();
    headers.insert("a", b"1");
    headers.insert("b", b"2");
    headers.insert("c", b"3");
    let kept = headers.retain_marked(&vec![true, false, true]);
    assert_eq!(kept.len(), 2);
    assert_eq!(kept.get("a").unwrap().as_slice(), b"1");
    assert!(kept.get("b").is_none());
    assert_eq!(kept.get("c").unwrap().as_slice(), b"3");
}

#[test]
fn retain_marked_treats_missing_marks_as_unmarked() {
    let mut headers = Headers::new();
    headers.insert("a", b"1");
    headers.insert("b", b"2");
    let kept = headers.retain_marked(&vec![true]);
    assert_eq!(kept.len(), 1);
    assert!(kept.get("a").is_some());
    let none = headers.retain_marked(&Vec::new());
    assert_eq!(none.len(), 0);
    let all = headers.retain_marked(&vec![true, true, true, true]);
    assert_eq!(all.len(), 2);
}

#[test]
fn end_to_end_headers_drop_the_hop_by_hop_set() {
    let mut headers = Headers::new();
    headers.insert("Connection", b"close");
    headers.insert("Content-Type", b"text/plain");
    headers.insert("TRANSFER-ENCODING", b"chunked");
    headers.insert("Host", b"example.org");
    headers.insert("Upgrade", b"h2c");
    let kept = end_to_end_headers(&headers);
    assert_eq!(kept.len(), 2);
    assert_eq!(kept.get("content-type").unwrap().as_slice(), b"text/plain");
    assert_eq!(kept.get("host").unwrap().as_slice(), b"example.org");
    assert!(kept.get("connection").is_none());
    assert!(kept.get("transfer-encoding").is_none());
    assert!(kept.get("upgrade").is_none());
}

#[test]
fn forwardable_headers_also_drop_host() {
    let mut headers = Headers::new();
    headers.insert("Host", b"proxy.local");
    headers.insert("Accept", b"*/*");
    headers.insert("Keep-Alive", b"timeout=5");
    headers.insert("Proxy-Authorization", b"Basic abc");
    headers.insert("TE", b"trailers");
    headers.insert("Trailers", b"x");
    headers.insert("Proxy-Authenticate", b"Basic");
    headers.insert("Proxy-Connection", b"keep-alive");
    let kept = forwardable_headers(&headers);
    assert_eq!(kept.len(), 1);
    assert_eq!(kept.get("accept").unwrap().as_slice(), b"*/*");
    assert!(kept.get("host").is_none());
}

#[test]
fn relay_keeps_what_can_be_encoded() {
    let mut headers = Headers::new();
    headers.insert("content-type", b"text/plain");
    headers.insert("x-tab", b"a\tb");
    headers.insert("x-high", b"hello\xfa");
    let relayed = convert_reqwest_headers_to_warp(&headers);
    assert_eq!(relayed.len(), 3);
    assert_eq!(relayed.get("content-type").unwrap().as_slice(), b"text/plain");
    assert_eq!(relayed.get("x-tab").unwrap().as_slice(), b"a\tb");
    assert_eq!(relayed.get("x-high").unwrap().as_slice(), b"hello\xfa");
}

#[test]
fn relay_drops_headers_with_a_malformed_value() {
    let mut headers = Headers::new();
    headers.insert("x-good", b"ok");
    headers.insert("x-newline", b"a\nb");
    headers.insert("x-del", b"a\x7fb");
    headers.insert("x-nul", b"\x00");
    let relayed = convert_reqwest_headers_to_warp(&headers);
    assert_eq!(relayed.len(), 1);
    assert_eq!(relayed.get("x-good").unwrap().as_slice(), b"ok");
    assert!(relayed.get("x-newline").is_none());
    assert!(relayed.get("x-del").is_none());
    assert!(relayed.get("x-nul").is_none());
}

#[test]
fn relay_drops_headers_with_a_malformed_name() {
    let mut headers = Headers::new();
    headers.insert("bad name", b"1");
    headers.insert("", b"2");
    headers.insert("caf\u{e9}", b"3");
    headers.insert("x-fine", b"4");
    let relayed = convert_reqwest_headers_to_warp(&headers);
    assert_eq!(relayed.len(), 1);
    assert_eq!(relayed.get("x-fine").unwrap().as_slice(), b"4");
}
