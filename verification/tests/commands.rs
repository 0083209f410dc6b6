use dsh_desktop::commands::{
    exec_mode_update, plugin_invocation, plugin_run_output, server_invocation,
};
use dsh_desktop::paths::app_paths;

fn pairs(v: &[(&str, &str)]) -> Vec<(String, String)> {
    v.iter().map(|(a, b)| (a.to_string(), b.to_string())).collect()
}

#[test]
fn server_command() {
    let p = app_paths("/R", "/D", "1.2.3");
    let inv = server_invocation(&p);
    assert_eq!(inv.program, "/R/staging/node/bin/node");
    assert_eq!(
        inv.args,
        vec!["--import", "tsx/esm", "apps/cli/src/bin.ts", "web", "--no-open", "--port", "0"]
    );
    assert_eq!(inv.current_dir, "/D/harness-1.2.3");
    assert_eq!(
        inv.env,
        pairs(&[("DSH_HOME", "/D/dsh"), ("DSH_DESKTOP", "1"), ("NO_COLOR", "1")])
    );
}

#[test]
fn plugin_command() {
    let p = app_paths("/R", "/D", "1.2.3");
    let args = vec!["add".to_string(), "some-plugin".to_string()];
    let inv = plugin_invocation(&p, Some("/usr/bin"), &args);
    assert_eq!(inv.program, "/R/staging/node/bin/node");
    assert_eq!(
        inv.args,
        vec![
            "--import",
            "tsx/esm",
            "/D/harness-1.2.3/apps/cli/src/bin.ts",
            "plugin",
            "--profile",
            "web",
            "add",
            "some-plugin"
        ]
    );
    assert_eq!(inv.current_dir, "/D/harness-1.2.3");
    assert_eq!(
        inv.env,
        pairs(&[
            ("DSH_HOME", "/D/dsh"),
            ("PATH", "/R/staging/pnpm/bin:/R/staging/node/bin:/usr/bin"),
            ("NO_COLOR", "1"),
        ])
    );
}

#[test]
fn plugin_output_is_combined() {
    let out = plugin_run_output(b"added 1 package\n", b"WARN deprecated\n", Some(0));
    assert_eq!(out.exit_code, 0);
    assert_eq!(out.output, "added 1 package\nWARN deprecated\n");
}

#[test]
fn plugin_output_without_exit_code() {
    let out = plugin_run_output(b"", b"killed", None);
    assert_eq!(out.exit_code, -1);
    assert_eq!(out.output, "killed");
}

#[test]
fn plugin_output_replaces_invalid_utf8() {
    let out = plugin_run_output(&[0x61, 0xff, 0x62], "中".as_bytes(), Some(1));
    assert_eq!(out.exit_code, 1);
    assert_eq!(out.output, "a\u{FFFD}b中");
}

#[test]
fn node_binary_mode() {
    assert_eq!(exec_mode_update(0o644), Some(0o755));
    assert_eq!(exec_mode_update(0o600), Some(0o755));
    assert_eq!(exec_mode_update(0o4600), Some(0o4755));
    assert_eq!(exec_mode_update(0o700), None);
    assert_eq!(exec_mode_update(0o755), None);
    assert_eq!(exec_mode_update(0o001), None);
}
