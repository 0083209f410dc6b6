//! What the shell runs in, and asks of, its webview windows: the browser
//! session handshake, the navigation fallback, the handshake retry schedule,
//! and the menu commands.

use vstd::prelude::*;
use vstd::string::*;
use crate::text::{concat, occurs_at, str_equals};

verus! {

/// The script up to the session token.
pub const AUTH_JS_HEAD: &'static str = "(function () {\n  var body = (document.body && (document.body.innerText || document.body.textContent)) || '';\n  if (body.indexOf('dsh web authentication required') === -1) return;\n  fetch('/?token=";

/// The script after the session token.
pub const AUTH_JS_TAIL: &'static str = "', { credentials: 'include', redirect: 'follow' })\n    .catch(function () {})\n    .then(function () { window.location.href = '/'; });\n})();";

/// JavaScript that performs the browser-session token exchange from the
/// page's own origin. It only acts when the server's "authentication
/// required" page is showing; a page that already loaded the UI is left
/// untouched. The same-origin `fetch` stores the HttpOnly session cookie (the
/// subresource path honors the 303 `Set-Cookie`, which a top-level navigation
/// does not in WKWebView); reloading the clean root then serves the real index.
pub fn auth_handshake_js(token: &str) -> (js: String)
    ensures
        js@ == auth_handshake_spec(token@),
{
    let mut js = concat(AUTH_JS_HEAD, token);
    js.append(AUTH_JS_TAIL);
    js
}

/// The handshake script for `token`.
pub open spec fn auth_handshake_spec(token: Seq<char>) -> Seq<char> {
    AUTH_JS_HEAD@ + token + AUTH_JS_TAIL@
}

/// The place of the token in the script: `'/?token=` before it, `'` after it.
pub open spec fn token_marker() -> Seq<char> {
    "'/?token='"@
}

/// The script with a token is the script without one, with the token put
/// once, verbatim, between `'/?token=` and `'`; that marker occurs in the
/// script without a token exactly once.
pub proof fn law_token_inserted_once(token: Seq<char>)
    ensures
        ({
            let e = auth_handshake_spec(Seq::empty());
            let p = AUTH_JS_HEAD@.len() - 9;
            &&& occurs_at(e, token_marker(), p)
            &&& forall|j: int| occurs_at(e, token_marker(), j) ==> j == p
            &&& auth_handshake_spec(token) == e.subrange(0, p) + "'/?token="@ + token + "'"@ + e.skip(
                p + 10,
            )
            &&& auth_handshake_spec(token).len() == e.len() + token.len()
        }),
{
    reveal_strlit("(function () {\n  var body = (document.body && (document.body.innerText || document.body.textContent)) || '';\n  if (body.indexOf('dsh web authentication required') === -1) return;\n  fetch('/?token=");
    reveal_strlit("', { credentials: 'include', redirect: 'follow' })\n    .catch(function () {})\n    .then(function () { window.location.href = '/'; });\n})();");
    reveal_strlit("'/?token='");
    reveal_strlit("'/?token=");
    reveal_strlit("'");
    let h = AUTH_JS_HEAD@;
    let t = AUTH_JS_TAIL@;
    let e = auth_handshake_spec(Seq::empty());
    let p = h.len() - 9;
    assert(e =~= h + t);
    assert(e.subrange(p, p + 10) =~= token_marker());
    assert forall|i: int| 0 <= i < h.len() && h[i] == '?' implies i == h.len() - 7 by {}
    assert forall|i: int| 0 <= i < t.len() implies t[i] != '?' by {}
    assert forall|j: int| occurs_at(e, token_marker(), j) implies j == p by {
        assert(e.subrange(j, j + 10)[2] == '?');
        assert(e[j + 2] == '?');
        if j + 2 < h.len() {
            assert(e[j + 2] == h[j + 2]);
        } else {
            assert(e[j + 2] == t[j + 2 - h.len()]);
        }
    }
    assert(h =~= e.subrange(0, p) + "'/?token="@);
    assert(t =~= "'"@ + e.skip(p + 10));
    assert(auth_handshake_spec(token) =~= e.subrange(0, p) + "'/?token="@ + token + "'"@ + e.skip(
        p + 10,
    ));
}

/// What the fallback script assigns before the URL.
pub const NAVIGATE_JS_HEAD: &'static str = "window.location.href = '";

/// What the fallback script puts after the URL.
pub const NAVIGATE_JS_TAIL: &'static str = "';";

/// The script that navigates the window to `url` when a native navigation
/// fails.
pub fn navigate_fallback_js(url: &str) -> (js: String)
    ensures
        js@ == NAVIGATE_JS_HEAD@ + url@ + NAVIGATE_JS_TAIL@,
{
    let mut js = concat(NAVIGATE_JS_HEAD, url);
    js.append(NAVIGATE_JS_TAIL);
    js
}

/// When the handshake attempt `attempt` (counting from 0) runs, in
/// milliseconds after the navigation: 1.2 s, 2.6 s and 4.2 s; repeated
/// evaluations make the handshake robust to load timing. `None` once the
/// attempts are over.
pub open spec fn handshake_offset_spec(attempt: nat) -> Option<u64> {
    if attempt == 0 {
        Some(1200)
    } else if attempt == 1 {
        Some(2600)
    } else if attempt == 2 {
        Some(4200)
    } else {
        None
    }
}

/// How long to wait before the handshake attempt `attempt`: from the
/// navigation for the first, from the attempt before for the others.
pub open spec fn handshake_wait_spec(attempt: nat) -> Option<u64> {
    match handshake_offset_spec(attempt) {
        None => None,
        Some(t) => if attempt == 0 {
            Some(t)
        } else {
            Some((t - handshake_offset_spec((attempt - 1) as nat)->0) as u64)
        },
    }
}

/// The time from the navigation to the attempt `attempt` when each wait is
/// slept in turn.
pub open spec fn handshake_elapsed(attempt: nat) -> int
    decreases attempt,
{
    let w = match handshake_wait_spec(attempt) {
        Some(w) => w as int,
        None => 0,
    };
    if attempt == 0 {
        w
    } else {
        handshake_elapsed((attempt - 1) as nat) + w
    }
}

/// When the handshake attempt `attempt` runs, in milliseconds after the
/// navigation, or `None` when no attempt is left.
pub fn handshake_offset_ms(attempt: usize) -> (d: Option<u64>)
    ensures
        d == handshake_offset_spec(attempt as nat),
{
    if attempt == 0 {
        Some(1200)
    } else if attempt == 1 {
        Some(2600)
    } else if attempt == 2 {
        Some(4200)
    } else {
        None
    }
}

/// How long to wait before the handshake attempt `attempt`, or `None` when
/// no attempt is left.
pub fn handshake_wait_ms(attempt: usize) -> (d: Option<u64>)
    ensures
        d == handshake_wait_spec(attempt as nat),
{
    match handshake_offset_ms(attempt) {
        None => None,
        Some(t) => if attempt == 0 {
            Some(t)
        } else {
            let before = handshake_offset_ms(attempt - 1);
            match before {
                Some(p) => Some(t - p),
                None => None,
            }
        },
    }
}

/// Sleeping the waits in turn runs each attempt at its offset from the
/// navigation; the attempts are bounded and each comes later than the one
/// before.
pub proof fn law_handshake_attempts_run_at_their_offsets(attempt: nat)
    ensures
        attempt < 3 ==> handshake_offset_spec(attempt) is Some && handshake_elapsed(attempt)
            == handshake_offset_spec(attempt)->0,
        attempt >= 3 ==> handshake_offset_spec(attempt) is None && handshake_wait_spec(attempt) is None,
        attempt < 2 ==> handshake_offset_spec(attempt)->0 < handshake_offset_spec(attempt + 1)->0,
        handshake_offset_spec(0) == Some(1200u64) && handshake_offset_spec(1) == Some(2600u64)
            && handshake_offset_spec(2) == Some(4200u64),
        handshake_wait_spec(0) == Some(1200u64) && handshake_wait_spec(1) == Some(1400u64)
            && handshake_wait_spec(2) == Some(1600u64),
{
    if attempt >= 1 && attempt < 3 {
        assert(handshake_elapsed(0) == 1200);
        assert(handshake_elapsed(1) == 2600);
        assert(handshake_elapsed(2) == 4200);
    }
}

/// The id of the menu item that opens the plugin manager.
pub const OPEN_PLUGIN_MANAGER_ID: &'static str = "open-plugin-manager";

/// The id of the menu item that reloads the main window.
pub const RELOAD_ID: &'static str = "reload";

/// What a menu event asks of the shell.
pub enum MenuAction {
    OpenPluginManager,
    Reload,
    Ignore,
}

/// The action of the menu item with id `id`.
pub fn menu_action(id: &str) -> (a: MenuAction)
    ensures
        id@ == OPEN_PLUGIN_MANAGER_ID@ ==> a is OpenPluginManager,
        id@ == RELOAD_ID@ ==> a is Reload,
        id@ != OPEN_PLUGIN_MANAGER_ID@ && id@ != RELOAD_ID@ ==> a is Ignore,
{
    proof {
        reveal_strlit("open-plugin-manager");
        reveal_strlit("reload");
        assert(OPEN_PLUGIN_MANAGER_ID@.len() != RELOAD_ID@.len());
    }
    if str_equals(id, OPEN_PLUGIN_MANAGER_ID) {
        MenuAction::OpenPluginManager
    } else if str_equals(id, RELOAD_ID) {
        MenuAction::Reload
    } else {
        MenuAction::Ignore
    }
}

} // verus!
