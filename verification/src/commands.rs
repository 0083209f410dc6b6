//! The commands the shell runs: the harness web server and the harness'
//! own `dsh plugin --profile web` command, what it reports back of the
//! latter, and the mode that makes the bundled Node binary executable.

use vstd::prelude::*;
use vstd::string::*;
use vstd::utf8::{decode_utf8, valid_utf8};
use crate::text::{pair_texts, texts};
use crate::paths::{joined_path, path_join, prepend_bin_dirs, search_path_spec, AppPaths};

verus! {

/// A program to run: its path, arguments, working directory and the
/// environment variables set on top of the inherited ones.
pub struct Invocation {
    pub program: String,
    pub args: Vec<String>,
    pub current_dir: String,
    pub env: Vec<(String, String)>,
}

fn push_text(v: &mut Vec<String>, s: &str)
    ensures
        texts(final(v)@) == texts(old(v)@).push(s@),
{
    let ghost before = texts(v@);
    v.push(String::from_str(s));
    assert(texts(v@) =~= before.push(s@));
}

fn push_pair(v: &mut Vec<(String, String)>, k: &str, x: &str)
    ensures
        pair_texts(final(v)@) == pair_texts(old(v)@).push((k@, x@)),
{
    let ghost before = pair_texts(v@);
    v.push((String::from_str(k), String::from_str(x)));
    assert(pair_texts(v@) =~= before.push((k@, x@)));
}

/// The harness web server: `dsh web` on a port the system picks, without
/// opening a browser, run by the bundled Node from the extracted harness.
pub fn server_invocation(paths: &AppPaths) -> (inv: Invocation)
    ensures
        inv.program@ == paths.node_bin@,
        texts(inv.args@) == seq![
            "--import"@,
            "tsx/esm"@,
            "apps/cli/src/bin.ts"@,
            "web"@,
            "--no-open"@,
            "--port"@,
            "0"@,
        ],
        inv.current_dir@ == paths.harness@,
        pair_texts(inv.env@) == seq![
            ("DSH_HOME"@, paths.dsh_home@),
            ("DSH_DESKTOP"@, "1"@),
            ("NO_COLOR"@, "1"@),
        ],
{
    let mut args: Vec<String> = Vec::new();
    push_text(&mut args, "--import");
    push_text(&mut args, "tsx/esm");
    push_text(&mut args, "apps/cli/src/bin.ts");
    push_text(&mut args, "web");
    push_text(&mut args, "--no-open");
    push_text(&mut args, "--port");
    push_text(&mut args, "0");
    let mut env: Vec<(String, String)> = Vec::new();
    push_pair(&mut env, "DSH_HOME", paths.dsh_home.as_str());
    push_pair(&mut env, "DSH_DESKTOP", "1");
    push_pair(&mut env, "NO_COLOR", "1");
    assert(texts(args@) =~= seq![
        "--import"@,
        "tsx/esm"@,
        "apps/cli/src/bin.ts"@,
        "web"@,
        "--no-open"@,
        "--port"@,
        "0"@,
    ]);
    assert(pair_texts(env@) =~= seq![
        ("DSH_HOME"@, paths.dsh_home@),
        ("DSH_DESKTOP"@, "1"@),
        ("NO_COLOR"@, "1"@),
    ]);
    Invocation {
        program: String::from_str(paths.node_bin.as_str()),
        args,
        current_dir: String::from_str(paths.harness.as_str()),
        env,
    }
}

/// The harness' CLI entry point under the extracted harness.
pub open spec fn cli_entry_spec(harness: Seq<char>) -> Seq<char> {
    joined_path(joined_path(joined_path(joined_path(harness, "apps"@), "cli"@), "src"@), "bin.ts"@)
}

/// The CLI entry point of the harness at `harness`.
fn cli_entry(harness: &str) -> (p: String)
    ensures
        p@ == cli_entry_spec(harness@),
{
    let apps = path_join(harness, "apps");
    let cli = path_join(apps.as_str(), "cli");
    let src = path_join(cli.as_str(), "src");
    path_join(src.as_str(), "bin.ts")
}

/// One `dsh plugin --profile web <args>` invocation (pnpm add/remove/update),
/// run by the bundled Node from the extracted harness, with the bundled pnpm
/// and Node first on `PATH`; `path_var` is the inherited `PATH`, if set.
pub fn plugin_invocation(paths: &AppPaths, path_var: Option<&str>, args: &Vec<String>) -> (inv: Invocation)
    ensures
        inv.program@ == paths.node_bin@,
        texts(inv.args@) == seq![
            "--import"@,
            "tsx/esm"@,
            cli_entry_spec(paths.harness@),
            "plugin"@,
            "--profile"@,
            "web"@,
        ] + texts(args@),
        inv.current_dir@ == paths.harness@,
        pair_texts(inv.env@) == seq![
            ("DSH_HOME"@, paths.dsh_home@),
            ("PATH"@, search_path_spec(paths.pnpm_dir@, paths.node_dir@, match path_var {
                Some(v) => Some(v@),
                None => None,
            })),
            ("NO_COLOR"@, "1"@),
        ],
{
    let path = prepend_bin_dirs(paths.pnpm_dir.as_str(), paths.node_dir.as_str(), path_var);
    let entry = cli_entry(paths.harness.as_str());
    let mut all: Vec<String> = Vec::new();
    push_text(&mut all, "--import");
    push_text(&mut all, "tsx/esm");
    push_text(&mut all, entry.as_str());
    push_text(&mut all, "plugin");
    push_text(&mut all, "--profile");
    push_text(&mut all, "web");
    let ghost head = texts(all@);
    assert(head =~= seq![
        "--import"@,
        "tsx/esm"@,
        cli_entry_spec(paths.harness@),
        "plugin"@,
        "--profile"@,
        "web"@,
    ]);
    let mut i: usize = 0;
    while i < args.len()
        invariant
            i <= args.len(),
            texts(all@) == head + texts(args@).take(i as int),
        decreases args.len() - i,
    {
        push_text(&mut all, args[i].as_str());
        assert(texts(args@).take(i + 1) =~= texts(args@).take(i as int).push(args@[i as int]@));
        assert(head + texts(args@).take(i + 1) =~= (head + texts(args@).take(i as int)).push(
            args@[i as int]@,
        ));
        i += 1;
    }
    assert(texts(args@).take(args.len() as int) =~= texts(args@));
    let mut env: Vec<(String, String)> = Vec::new();
    push_pair(&mut env, "DSH_HOME", paths.dsh_home.as_str());
    push_pair(&mut env, "PATH", path.as_str());
    push_pair(&mut env, "NO_COLOR", "1");
    assert(pair_texts(env@) =~= seq![
        ("DSH_HOME"@, paths.dsh_home@),
        ("PATH"@, path@),
        ("NO_COLOR"@, "1"@),
    ]);
    Invocation {
        program: String::from_str(paths.node_bin.as_str()),
        args: all,
        current_dir: String::from_str(paths.harness.as_str()),
        env,
    }
}

/// What `String::from_utf8_lossy` makes of a byte string.
pub uninterp spec fn lossy_utf8(bytes: Seq<u8>) -> Seq<char>;

/// `String::from_utf8_lossy`: the result is `lossy_utf8` of the bytes, and
/// valid UTF-8 is decoded as it stands, as its documentation says. What it
/// makes of invalid sequences (U+FFFD in their place) is not stated here.
#[verifier::external_body]
fn utf8_lossy(bytes: &[u8]) -> (s: String)
    ensures
        s@ == lossy_utf8(bytes@),
        valid_utf8(bytes@) ==> s@ == decode_utf8(bytes@),
{
    String::from_utf8_lossy(bytes).into_owned()
}

/// The outcome of one `dsh plugin` invocation that the plugin-manager window
/// shows: the exit code and the combined output.
pub struct PluginRunOutput {
    pub exit_code: i32,
    pub output: String,
}

/// The report of a finished `dsh plugin` invocation: its exit code, or -1
/// when it was ended by a signal, and its stdout followed by its stderr.
pub fn plugin_run_output(stdout: &[u8], stderr: &[u8], code: Option<i32>) -> (out: PluginRunOutput)
    ensures
        out.exit_code == match code {
            Some(c) => c,
            None => -1i32,
        },
        out.output@ == lossy_utf8(stdout@) + lossy_utf8(stderr@),
{
    let mut combined = utf8_lossy(stdout);
    let err = utf8_lossy(stderr);
    combined.append(err.as_str());
    let exit_code = match code {
        Some(c) => c,
        None => -1,
    };
    PluginRunOutput { exit_code, output: combined }
}

/// The mode that makes a file executable: `None` when some execute bit is
/// already set, else the mode with `rwxr-xr-x` added.
pub open spec fn exec_mode_update_spec(mode: u32) -> Option<u32> {
    if mode & 0o111 == 0 {
        Some(mode | 0o755)
    } else {
        None
    }
}

/// Resource copying can drop the exec bit; the mode to give the bundled Node
/// binary before spawning it, if it needs one.
pub fn exec_mode_update(mode: u32) -> (m: Option<u32>)
    ensures
        m == exec_mode_update_spec(mode),
{
    if mode & 0o111 == 0 {
        Some(mode | 0o755)
    } else {
        None
    }
}

/// An updated mode keeps every bit of the old one and can be executed by
/// everyone.
pub proof fn law_updated_mode_is_executable(mode: u32)
    ensures
        exec_mode_update_spec(mode) matches Some(m) ==> (m & 0o111) == 0o111 && (m & mode) == mode,
{
    let m = mode | 0o755;
    assert((m & 0o111) == 0o111 && (m & mode) == mode) by (bit_vector)
        requires
            m == mode | 0o755,
    ;
}


/// The CLI entry point is the harness path followed by `/apps/cli/src/bin.ts`
/// (no extra `/` when the harness path is empty or ends with one), for every
/// harness path, spaces and all.
pub proof fn law_cli_entry_is_under_the_harness(h: Seq<char>)
    ensures
        h.len() > 0 && h.last() != '/' ==> cli_entry_spec(h) == h + "/apps/cli/src/bin.ts"@,
        !(h.len() > 0 && h.last() != '/') ==> cli_entry_spec(h) == h + "apps/cli/src/bin.ts"@,
{
    reveal_strlit("apps");
    reveal_strlit("cli");
    reveal_strlit("src");
    reveal_strlit("bin.ts");
    reveal_strlit("/apps/cli/src/bin.ts");
    reveal_strlit("apps/cli/src/bin.ts");
    let sl = seq!['/'];
    let a = joined_path(h, "apps"@);
    let b = joined_path(a, "cli"@);
    let c = joined_path(b, "src"@);
    assert(a.len() > 0 && a.last() == 's');
    assert(b == a + sl + "cli"@);
    assert(b.last() == 'i');
    assert(c == b + sl + "src"@);
    assert(c.last() == 'c');
    assert(joined_path(c, "bin.ts"@) == c + sl + "bin.ts"@);
    if h.len() > 0 && h.last() != '/' {
        assert(a == h + sl + "apps"@);
        assert(cli_entry_spec(h) =~= h + "/apps/cli/src/bin.ts"@);
    } else {
        assert(a == h + "apps"@);
        assert(cli_entry_spec(h) =~= h + "apps/cli/src/bin.ts"@);
    }
}

/// The mode is left alone exactly when some execute bit is set; otherwise
/// the updated mode keeps every old bit and can be executed by everyone.
pub proof fn law_exec_mode_is_updated_only_when_needed(mode: u32)
    ensures
        (mode & 0o111) != 0 ==> exec_mode_update_spec(mode) is None,
        (mode & 0o111) == 0 ==> exec_mode_update_spec(mode) == Some(mode | 0o755),
        ((mode | 0o755) & 0o111) == 0o111 && ((mode | 0o755) & mode) == mode && ((mode | 0o755)
            & 0o755) == 0o755,
{
    let m = mode | 0o755;
    assert((m & 0o111) == 0o111 && (m & mode) == mode && (m & 0o755) == 0o755) by (bit_vector)
        requires
            m == mode | 0o755,
    ;
}
} // verus!
