use dsh_desktop::readiness::{harness_url_of, readiness_of, spawn_failure_message, Readiness};

#[test]
fn readiness_line_gives_the_url() {
    assert_eq!(
        harness_url_of("dsh web: http://127.0.0.1:52311/?token=abc"),
        Some("http://127.0.0.1:52311/?token=abc".to_string())
    );
}

#[test]
fn label_may_follow_other_text() {
    assert_eq!(
        harness_url_of("[info] dsh web:   https://localhost:8080 ready"),
        Some("https://localhost:8080".to_string())
    );
}

#[test]
fn other_lines_give_nothing() {
    assert_eq!(harness_url_of("starting server"), None);
    assert_eq!(harness_url_of(""), None);
    assert_eq!(harness_url_of("dsh web:"), None);
    assert_eq!(harness_url_of("dsh web:    "), None);
    assert_eq!(harness_url_of("dsh web: ftp://127.0.0.1:1"), None);
    assert_eq!(harness_url_of("dsh web:http://127.0.0.1:1"), None);
    assert_eq!(harness_url_of("dsh web: localhost:1"), None);
}

#[test]
fn only_the_first_label_counts() {
    assert_eq!(harness_url_of("dsh web: later dsh web: http://x"), None);
}

#[test]
fn spawn_failure_is_tagged() {
    assert_eq!(
        spawn_failure_message("No such file or directory"),
        "__ERROR__ No such file or directory"
    );
}

#[test]
fn readiness_messages_are_told_apart() {
    let failed = readiness_of(spawn_failure_message("boom"));
    assert!(matches!(failed, Readiness::Failed(ref m) if m == "__ERROR__ boom"));
    let url = readiness_of("http://127.0.0.1:1/".to_string());
    assert!(matches!(url, Readiness::Url(ref u) if u == "http://127.0.0.1:1/"));
}

#[test]
fn a_harness_url_reads_back_as_a_url() {
    let url = harness_url_of("dsh web: http://127.0.0.1:4000/?token=t").unwrap();
    assert!(matches!(readiness_of(url), Readiness::Url(_)));
}
