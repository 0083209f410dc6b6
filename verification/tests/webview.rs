use dsh_desktop::webview::{
    auth_handshake_js, handshake_offset_ms, handshake_wait_ms, menu_action, navigate_fallback_js, MenuAction,
};

fn expected_handshake(token: &str) -> String {
    format!(
        r#"(function () {{
  var body = (document.body && (document.body.innerText || document.body.textContent)) || '';
  if (body.indexOf('dsh web authentication required') === -1) return;
  fetch('/?token={token}', {{ credentials: 'include', redirect: 'follow' }})
    .catch(function () {{}})
    .then(function () {{ window.location.href = '/'; }});
}})();"#,
        token = token,
    )
}

#[test]
fn handshake_script_carries_the_token() {
    assert_eq!(auth_handshake_js("s3cr3t"), expected_handshake("s3cr3t"));
    assert_eq!(auth_handshake_js(""), expected_handshake(""));
}

#[test]
fn fallback_script_assigns_the_location() {
    assert_eq!(
        navigate_fallback_js("http://127.0.0.1:9/"),
        "window.location.href = 'http://127.0.0.1:9/';"
    );
}

#[test]
fn handshake_runs_at_its_offsets() {
    assert_eq!(handshake_offset_ms(0), Some(1200));
    assert_eq!(handshake_offset_ms(1), Some(2600));
    assert_eq!(handshake_offset_ms(2), Some(4200));
    assert_eq!(handshake_offset_ms(3), None);
    assert_eq!(handshake_offset_ms(100), None);
}

#[test]
fn handshake_waits_sum_to_the_offsets() {
    assert_eq!(handshake_wait_ms(0), Some(1200));
    assert_eq!(handshake_wait_ms(1), Some(1400));
    assert_eq!(handshake_wait_ms(2), Some(1600));
    assert_eq!(handshake_wait_ms(3), None);
    let mut elapsed = 0;
    let mut attempt = 0;
    while let Some(w) = handshake_wait_ms(attempt) {
        elapsed += w;
        assert_eq!(Some(elapsed), handshake_offset_ms(attempt));
        attempt += 1;
    }
    assert_eq!(attempt, 3);
}

#[test]
fn token_is_inserted_once() {
    let empty = auth_handshake_js("");
    assert_eq!(empty.matches("'/?token='").count(), 1);
    let with = auth_handshake_js("tok");
    assert_eq!(with, empty.replacen("'/?token='", "'/?token=tok'", 1));
    assert_eq!(with.len(), empty.len() + 3);
}

#[test]
fn menu_ids_map_to_actions() {
    assert!(matches!(menu_action("open-plugin-manager"), MenuAction::OpenPluginManager));
    assert!(matches!(menu_action("reload"), MenuAction::Reload));
    assert!(matches!(menu_action("quit"), MenuAction::Ignore));
    assert!(matches!(menu_action(""), MenuAction::Ignore));
}
