use dsh_desktop::paths::{
    app_paths, harness_dir_name, is_stale_harness_dir, join_paths, prepend_bin_dirs,
    profile_paths, setup_paths, split_paths,
};

#[test]
fn app_paths_layout() {
    let p = app_paths("/App/Resources", "/Data", "0.1.3");
    assert_eq!(p.node_dir, "/App/Resources/staging/node/bin");
    assert_eq!(p.node_bin, "/App/Resources/staging/node/bin/node");
    assert_eq!(p.pnpm_dir, "/App/Resources/staging/pnpm/bin");
    assert_eq!(p.harness, "/Data/harness-0.1.3");
    assert_eq!(p.dsh_home, "/Data/dsh");
}

#[test]
fn setup_paths_layout() {
    let p = app_paths("/R", "/D/", "1.0.0");
    let s = setup_paths("/R", &p);
    assert_eq!(s.tarball, "/R/staging/harness.tar.gz");
    assert_eq!(s.extracted_marker, "/D/harness-1.0.0/.extracted");
    assert_eq!(s.check_script, "/R/resources/check-update.sh");
    assert_eq!(s.boot_log, "/D/dsh/server.log");
}

#[test]
fn profile_paths_layout() {
    let p = profile_paths("/D/dsh");
    assert_eq!(p.profile_dir, "/D/dsh/profiles/web");
    assert_eq!(p.manifest, "/D/dsh/profiles/web/package.json");
    assert_eq!(p.patch_file, "/D/dsh/profiles/web/cordis.patch.yml");
}

#[test]
fn harness_dir_names() {
    assert_eq!(harness_dir_name("0.1.3-alpha.2"), "harness-0.1.3-alpha.2");
}

#[test]
fn stale_harness_dirs() {
    assert!(is_stale_harness_dir("harness-0.1.2", "harness-0.1.3"));
    assert!(is_stale_harness_dir("harness", "harness-0.1.3"));
    assert!(!is_stale_harness_dir("harness-0.1.3", "harness-0.1.3"));
    assert!(!is_stale_harness_dir("dsh", "harness-0.1.3"));
    assert!(!is_stale_harness_dir("update-check.log", "harness-0.1.3"));
}

#[test]
fn search_path_entries() {
    assert_eq!(split_paths("/usr/bin:/bin"), vec!["/usr/bin", "/bin"]);
    assert_eq!(split_paths(""), vec![""]);
    assert_eq!(split_paths("a::b:"), vec!["a", "", "b", ""]);
    assert_eq!(
        join_paths(&vec!["a".to_string(), "".to_string(), "b".to_string()]),
        Some("a::b".to_string())
    );
    assert_eq!(join_paths(&vec!["a:b".to_string()]), None);
    assert_eq!(join_paths(&vec![]), Some(String::new()));
}

#[test]
fn bundled_dirs_come_first() {
    assert_eq!(
        prepend_bin_dirs("/R/pnpm/bin", "/R/node/bin", Some("/usr/bin:/bin")),
        "/R/pnpm/bin:/R/node/bin:/usr/bin:/bin"
    );
    assert_eq!(prepend_bin_dirs("/p", "/n", None), "/p:/n");
    assert_eq!(prepend_bin_dirs("/p", "/n", Some("")), "/p:/n:");
}

#[test]
fn a_dir_with_a_separator_gives_an_empty_path() {
    assert_eq!(prepend_bin_dirs("/odd:dir", "/n", Some("/bin")), "");
}

#[test]
fn split_then_join_gives_the_path_back() {
    for p in ["", ":", "/a:/b", "a::b:", "/usr/local/bin"] {
        assert_eq!(join_paths(&split_paths(p)), Some(p.to_string()));
    }
}

#[test]
fn a_base_with_a_trailing_separator_gets_no_second_one() {
    let p = app_paths("/R/", "/D/", "1");
    assert_eq!(p.harness, "/D/harness-1");
    assert_eq!(p.dsh_home, "/D/dsh");
    assert_eq!(p.node_bin, "/R/staging/node/bin/node");
}
