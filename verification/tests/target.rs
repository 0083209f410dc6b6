use dsh_desktop::target::{harness_target, token_of_pairs};

fn pairs(v: &[(&str, &str)]) -> Vec<(String, String)> {
    v.iter().map(|(a, b)| (a.to_string(), b.to_string())).collect()
}

#[test]
fn token_is_read_from_the_query() {
    let t = harness_target("http://127.0.0.1:52311/?token=ab%20c&x=1").unwrap();
    assert_eq!(t.token, "ab c");
    assert_eq!(t.url.as_str(), "http://127.0.0.1:52311/?token=ab%20c&x=1");
}

#[test]
fn missing_token_is_empty() {
    let t = harness_target("http://127.0.0.1:52311/").unwrap();
    assert_eq!(t.token, "");
    let t = harness_target("http://127.0.0.1:52311/?tok=1").unwrap();
    assert_eq!(t.token, "");
}

#[test]
fn first_token_wins() {
    let t = harness_target("https://localhost/?token=one&token=two").unwrap();
    assert_eq!(t.token, "one");
}

#[test]
fn bad_urls_are_refused() {
    assert!(harness_target("not a url").is_err());
    assert!(harness_target("http://[::1").is_err());
}

#[test]
fn token_among_pairs() {
    assert_eq!(token_of_pairs(&pairs(&[("a", "1"), ("token", "t"), ("token", "u")])), "t");
    assert_eq!(token_of_pairs(&pairs(&[("a", "1")])), "");
    assert_eq!(token_of_pairs(&pairs(&[])), "");
}
