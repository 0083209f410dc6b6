//! The app's file layout and the search path its commands run with.
//!
//! Paths are written as UTF-8 text; `std::path::Path::join` adjoins them.
//! The search path follows the Unix `PATH` conventions that
//! `std::env::split_paths` and `std::env::join_paths` document: entries are
//! separated by `:`, and an entry that holds `:` cannot be joined.

use vstd::prelude::*;
use vstd::string::*;
use crate::text::{chars_of, concat, starts_with, str_equals, str_starts_with};

verus! {

/// A path is absolute on Unix when it starts with `/`.
pub open spec fn is_absolute(p: Seq<char>) -> bool {
    p.len() > 0 && p[0] == '/'
}

/// What `std::path::Path::join` returns for a base path and a path to
/// adjoin: an absolute part replaces the base; a relative part follows the
/// base after a `/`, unless the base is empty or already ends with one, as in
/// `Path::new("/etc").join("passwd") == "/etc/passwd"`.
pub open spec fn joined_path(base: Seq<char>, part: Seq<char>) -> Seq<char> {
    if is_absolute(part) {
        part
    } else if base.len() > 0 && base.last() != '/' {
        base + seq!['/'] + part
    } else {
        base + part
    }
}

/// `std::path::Path::join` (through `Path::new` and `to_string_lossy`): an
/// absolute `part` replaces the base, and a relative one is adjoined to the
/// base with a separator between them, none added when the base is empty or
/// already ends with `/`, as `Path::join` and `PathBuf::push` document.
#[verifier::external_body]
pub(crate) fn path_join(base: &str, part: &str) -> (p: String)
    ensures
        p@ == joined_path(base@, part@),
{
    std::path::Path::new(base).join(part).to_string_lossy().into_owned()
}

/// The locations the shell owns under its bundle resources and app data.
pub struct AppPaths {
    /// The directory of the bundled Node binary.
    pub node_dir: String,
    /// The bundled Node binary.
    pub node_bin: String,
    /// The bin directory of the bundled pnpm.
    pub pnpm_dir: String,
    /// The extracted harness of this app version.
    pub harness: String,
    /// The app's `DSH_HOME`.
    pub dsh_home: String,
}

/// `base/a/b/c`, adjoined one part at a time.
pub open spec fn under3(base: Seq<char>, a: Seq<char>, b: Seq<char>, c: Seq<char>) -> Seq<char> {
    joined_path(joined_path(joined_path(base, a), b), c)
}

/// The name of the directory that holds the harness of app version `version`.
pub open spec fn harness_dir_name_spec(version: Seq<char>) -> Seq<char> {
    "harness-"@ + version
}

/// The name of the directory that holds the harness of app version `version`.
pub fn harness_dir_name(version: &str) -> (name: String)
    ensures
        name@ == harness_dir_name_spec(version@),
{
    concat("harness-", version)
}

/// App-data relative locations the shell owns: the bundled Node binary, the
/// bundled pnpm bin dir, the extracted harness, and the app's `DSH_HOME`.
pub fn app_paths(resource_dir: &str, data_dir: &str, version: &str) -> (p: AppPaths)
    ensures
        p.node_dir@ == under3(resource_dir@, "staging"@, "node"@, "bin"@),
        p.node_bin@ == joined_path(p.node_dir@, "node"@),
        p.pnpm_dir@ == under3(resource_dir@, "staging"@, "pnpm"@, "bin"@),
        p.harness@ == joined_path(data_dir@, harness_dir_name_spec(version@)),
        p.dsh_home@ == joined_path(data_dir@, "dsh"@),
{
    let staging = path_join(resource_dir, "staging");
    let node = path_join(staging.as_str(), "node");
    let node_dir = path_join(node.as_str(), "bin");
    let node_bin = path_join(node_dir.as_str(), "node");
    let pnpm = path_join(staging.as_str(), "pnpm");
    let pnpm_dir = path_join(pnpm.as_str(), "bin");
    let name = harness_dir_name(version);
    let harness = path_join(data_dir, name.as_str());
    let dsh_home = path_join(data_dir, "dsh");
    AppPaths { node_dir, node_bin, pnpm_dir, harness, dsh_home }
}

/// The locations the shell uses while it sets the harness up.
pub struct SetupPaths {
    /// The bundled harness tarball.
    pub tarball: String,
    /// The marker whose presence says the harness of this version is extracted.
    pub extracted_marker: String,
    /// The update-check script.
    pub check_script: String,
    /// The server's diagnostics log.
    pub boot_log: String,
}

/// The locations the shell uses while it sets the harness up.
pub fn setup_paths(resource_dir: &str, paths: &AppPaths) -> (s: SetupPaths)
    ensures
        s.tarball@ == joined_path(joined_path(resource_dir@, "staging"@), "harness.tar.gz"@),
        s.extracted_marker@ == joined_path(paths.harness@, ".extracted"@),
        s.check_script@ == joined_path(joined_path(resource_dir@, "resources"@), "check-update.sh"@),
        s.boot_log@ == joined_path(paths.dsh_home@, "server.log"@),
{
    let staging = path_join(resource_dir, "staging");
    let tarball = path_join(staging.as_str(), "harness.tar.gz");
    let extracted_marker = path_join(paths.harness.as_str(), ".extracted");
    let res = path_join(resource_dir, "resources");
    let check_script = path_join(res.as_str(), "check-update.sh");
    let boot_log = path_join(paths.dsh_home.as_str(), "server.log");
    SetupPaths { tarball, extracted_marker, check_script, boot_log }
}

/// The locations of the app's web profile.
pub struct ProfilePaths {
    /// The web profile directory.
    pub profile_dir: String,
    /// The profile's `package.json`.
    pub manifest: String,
    /// The profile's `cordis.patch.yml`.
    pub patch_file: String,
}

/// The locations of the web profile under `DSH_HOME`.
pub fn profile_paths(dsh_home: &str) -> (p: ProfilePaths)
    ensures
        p.profile_dir@ == joined_path(joined_path(dsh_home@, "profiles"@), "web"@),
        p.manifest@ == joined_path(p.profile_dir@, "package.json"@),
        p.patch_file@ == joined_path(p.profile_dir@, "cordis.patch.yml"@),
{
    let profiles = path_join(dsh_home, "profiles");
    let profile_dir = path_join(profiles.as_str(), "web");
    let manifest = path_join(profile_dir.as_str(), "package.json");
    let patch_file = path_join(profile_dir.as_str(), "cordis.patch.yml");
    ProfilePaths { profile_dir, manifest, patch_file }
}

/// An entry of the app data directory that holds the harness of another app
/// version, which the shell removes.
pub open spec fn is_stale_harness_dir_spec(name: Seq<char>, current: Seq<char>) -> bool {
    starts_with(name, "harness"@) && name != current
}

/// Whether the app data entry `name` is a stale harness copy, given the name
/// of the current version's directory.
pub fn is_stale_harness_dir(name: &str, current: &str) -> (b: bool)
    ensures
        b == is_stale_harness_dir_spec(name@, current@),
{
    str_starts_with(name, "harness") && !str_equals(name, current)
}

/// The cleanup never removes the harness of the running version.
pub proof fn law_current_harness_is_never_stale(version: Seq<char>)
    ensures
        !is_stale_harness_dir_spec(harness_dir_name_spec(version), harness_dir_name_spec(version)),
{
}

/// The separator of search path entries.
pub open spec fn sep() -> char {
    ':'
}

/// The entries of the search path `cur + rest`, where `cur` is the unfinished
/// entry read so far.
pub open spec fn split_from(cur: Seq<char>, rest: Seq<char>) -> Seq<Seq<char>>
    decreases rest.len(),
{
    if rest.len() == 0 {
        seq![cur]
    } else if rest[0] == sep() {
        seq![cur] + split_from(Seq::empty(), rest.drop_first())
    } else {
        split_from(cur.push(rest[0]), rest.drop_first())
    }
}

/// The entries of a search path, as `std::env::split_paths` yields them on
/// Unix: the pieces between the separators, empty ones included.
pub open spec fn split_paths_spec(s: Seq<char>) -> Seq<Seq<char>> {
    split_from(Seq::empty(), s)
}

/// The entries joined with the separator between them.
pub open spec fn join_with_sep(ls: Seq<Seq<char>>) -> Seq<char>
    decreases ls.len(),
{
    if ls.len() == 0 {
        Seq::empty()
    } else if ls.len() == 1 {
        ls[0]
    } else {
        ls[0] + seq![sep()] + join_with_sep(ls.drop_first())
    }
}

/// The entry holds no separator.
pub open spec fn no_sep(l: Seq<char>) -> bool {
    forall|i: int| 0 <= i < l.len() ==> l[i] != sep()
}

/// A search path of the entries, as `std::env::join_paths` forms it on Unix:
/// `None` when an entry holds the separator.
pub open spec fn join_paths_spec(ls: Seq<Seq<char>>) -> Option<Seq<char>> {
    if forall|i: int| 0 <= i < ls.len() ==> no_sep(#[trigger] ls[i]) {
        Some(join_with_sep(ls))
    } else {
        None
    }
}

/// The search path with the bundled pnpm and Node bin dirs first, then the
/// entries of the inherited `PATH`; empty when it cannot be formed.
pub open spec fn search_path_spec(pnpm_dir: Seq<char>, node_dir: Seq<char>, path_var: Option<Seq<char>>) -> Seq<char> {
    let inherited = match path_var {
        Some(v) => split_paths_spec(v),
        None => Seq::empty(),
    };
    match join_paths_spec(seq![pnpm_dir, node_dir] + inherited) {
        Some(p) => p,
        None => Seq::empty(),
    }
}

/// The entries of a search path.
pub fn split_paths(s: &str) -> (parts: Vec<String>)
    ensures
        parts@.map_values(|p: String| p@) == split_paths_spec(s@),
{
    let chars = chars_of(s);
    let n = chars.len();
    let mut parts: Vec<String> = Vec::new();
    let mut start: usize = 0;
    let mut i: usize = 0;
    assert(s@.skip(0) =~= s@);
    assert(s@.subrange(0, 0) =~= Seq::<char>::empty());
    while i < n
        invariant
            n == chars.len(),
            chars@ == s@,
            start <= i <= n,
            parts@.map_values(|p: String| p@) + split_from(
                s@.subrange(start as int, i as int),
                s@.skip(i as int),
            ) == split_paths_spec(s@),
        decreases n - i,
    {
        let ghost cur = s@.subrange(start as int, i as int);
        let ghost rest = s@.skip(i as int);
        assert(rest[0] == chars@[i as int]);
        assert(rest.drop_first() =~= s@.skip(i + 1));
        if chars[i] == ':' {
            let ghost before = parts@.map_values(|p: String| p@);
            let piece = String::from_str(s.substring_char(start, i));
            parts.push(piece);
            assert(parts@.map_values(|p: String| p@) =~= before.push(cur));
            start = i + 1;
            assert(s@.subrange(start as int, i + 1) =~= Seq::<char>::empty());
            assert(before + split_from(cur, rest) =~= parts@.map_values(|p: String| p@)
                + split_from(Seq::empty(), s@.skip(i + 1)));
        } else {
            assert(cur.push(chars@[i as int]) =~= s@.subrange(start as int, i + 1));
        }
        i += 1;
    }
    let ghost before = parts@.map_values(|p: String| p@);
    assert(s@.skip(n as int) =~= Seq::<char>::empty());
    parts.push(String::from_str(s.substring_char(start, n)));
    assert(parts@.map_values(|p: String| p@) =~= before + seq![s@.subrange(start as int, n as int)]);
    parts
}

/// Appending an entry to a joined search path.
proof fn lemma_join_push(ls: Seq<Seq<char>>, x: Seq<char>)
    requires
        ls.len() >= 1,
    ensures
        join_with_sep(ls.push(x)) == join_with_sep(ls) + seq![sep()] + x,
    decreases ls.len(),
{
    assert(ls.push(x)[0] == ls[0]);
    assert(ls.push(x).drop_first() =~= ls.drop_first().push(x));
    if ls.len() == 1 {
        assert(ls.drop_first() =~= Seq::<Seq<char>>::empty());
        assert(ls.push(x).drop_first() =~= seq![x]);
        assert(join_with_sep(seq![x]) == x);
        assert(join_with_sep(ls) == ls[0]);
    } else {
        lemma_join_push(ls.drop_first(), x);
        assert(ls[0] + seq![sep()] + (join_with_sep(ls.drop_first()) + seq![sep()] + x) =~= ls[0]
            + seq![sep()] + join_with_sep(ls.drop_first()) + seq![sep()] + x);
    }
}

/// Whether the entry holds the separator.
fn has_sep(s: &str) -> (b: bool)
    ensures
        b == !no_sep(s@),
{
    let chars = chars_of(s);
    let mut i: usize = 0;
    while i < chars.len()
        invariant
            chars@ == s@,
            i <= chars.len(),
            forall|j: int| 0 <= j < i ==> chars@[j] != sep(),
        decreases chars.len() - i,
    {
        if chars[i] == ':' {
            return true;
        }
        i += 1;
    }
    false
}

/// Joins the entries into a search path, or `None` when an entry holds the
/// separator.
pub fn join_paths(parts: &Vec<String>) -> (r: Option<String>)
    ensures
        r matches Some(p) ==> join_paths_spec(parts@.map_values(|p: String| p@)) == Some(p@),
        r is None ==> join_paths_spec(parts@.map_values(|p: String| p@)) is None,
{
    let ghost ls = parts@.map_values(|p: String| p@);
    let mut i: usize = 0;
    while i < parts.len()
        invariant
            ls == parts@.map_values(|p: String| p@),
            i <= parts.len(),
            forall|j: int| 0 <= j < i ==> no_sep(#[trigger] ls[j]),
        decreases parts.len() - i,
    {
        if has_sep(parts[i].as_str()) {
            assert(!no_sep(ls[i as int]));
            return None;
        }
        i += 1;
    }
    let mut out = String::new();
    let mut k: usize = 0;
    assert(ls.take(0) =~= Seq::<Seq<char>>::empty());
    while k < parts.len()
        invariant
            ls == parts@.map_values(|p: String| p@),
            k <= parts.len(),
            out@ == join_with_sep(ls.take(k as int)),
        decreases parts.len() - k,
    {
        proof {
            reveal_strlit(":");
        }
        if k > 0 {
            out.append(":");
            proof {
                lemma_join_push(ls.take(k as int), ls[k as int]);
            }
        } else {
            assert(ls.take(1) =~= seq![ls[0]]);
        }
        out.append(parts[k].as_str());
        assert(ls.take(k + 1) =~= ls.take(k as int).push(ls[k as int]));
        k += 1;
    }
    assert(ls.take(parts.len() as int) =~= ls);
    Some(out)
}

/// PATH with the bundled pnpm and Node bin dirs first, so `dsh plugin` finds
/// `pnpm` and plugin lifecycle scripts run on the bundled Node; `path_var`
/// is the inherited `PATH`, if set.
pub fn prepend_bin_dirs(pnpm_dir: &str, node_dir: &str, path_var: Option<&str>) -> (p: String)
    ensures
        p@ == search_path_spec(pnpm_dir@, node_dir@, match path_var {
            Some(v) => Some(v@),
            None => None,
        }),
{
    let mut dirs: Vec<String> = Vec::new();
    dirs.push(String::from_str(pnpm_dir));
    dirs.push(String::from_str(node_dir));
    let ghost head = dirs@.map_values(|p: String| p@);
    assert(head =~= seq![pnpm_dir@, node_dir@]);
    match path_var {
        Some(v) => {
            let inherited = split_paths(v);
            let mut i: usize = 0;
            while i < inherited.len()
                invariant
                    head == seq![pnpm_dir@, node_dir@],
                    i <= inherited.len(),
                    dirs@.map_values(|p: String| p@) == head + inherited@.map_values(|p: String| p@).take(i as int),
                decreases inherited.len() - i,
            {
                let ghost before = dirs@.map_values(|p: String| p@);
                dirs.push(String::from_str(inherited[i].as_str()));
                assert(dirs@.map_values(|p: String| p@) =~= before.push(inherited@[i as int]@));
                assert(inherited@.map_values(|p: String| p@).take(i + 1) =~= inherited@.map_values(|p: String| p@).take(i as int).push(inherited@[i as int]@));
                assert(head + inherited@.map_values(|p: String| p@).take(i + 1) =~= (head + inherited@.map_values(|p: String| p@).take(i as int)).push(inherited@[i as int]@));
                i += 1;
            }
            assert(inherited@.map_values(|p: String| p@).take(inherited.len() as int) =~= inherited@.map_values(|p: String| p@));
        },
        None => {
            assert(head + Seq::<Seq<char>>::empty() =~= head);
        },
    }
    match join_paths(&dirs) {
        Some(p) => p,
        None => String::new(),
    }
}

/// Splitting a search path and joining its entries again gives it back.
pub proof fn law_split_then_join_is_identity(s: Seq<char>)
    ensures
        join_paths_spec(split_paths_spec(s)) == Some(s),
{
    lemma_split_join(Seq::empty(), s);
}

proof fn lemma_split_join(cur: Seq<char>, rest: Seq<char>)
    requires
        no_sep(cur),
    ensures
        split_from(cur, rest).len() >= 1,
        join_with_sep(split_from(cur, rest)) == cur + rest,
        forall|i: int| 0 <= i < split_from(cur, rest).len() ==> no_sep(#[trigger] split_from(cur, rest)[i]),
    decreases rest.len(),
{
    let ls = split_from(cur, rest);
    if rest.len() == 0 {
        assert(cur + rest =~= cur);
        assert(ls == seq![cur]);
    } else if rest[0] == sep() {
        let t = split_from(Seq::empty(), rest.drop_first());
        lemma_split_join(Seq::empty(), rest.drop_first());
        assert(ls == seq![cur] + t);
        assert(ls[0] == cur);
        assert(ls.drop_first() =~= t);
        assert(cur + seq![sep()] + (Seq::<char>::empty() + rest.drop_first()) =~= cur + rest);
        assert forall|i: int| 0 <= i < ls.len() implies no_sep(#[trigger] ls[i]) by {
            if i > 0 {
                assert(ls[i] == t[i - 1]);
            }
        }
    } else {
        let c1 = cur.push(rest[0]);
        assert(no_sep(c1)) by {
            assert forall|i: int| 0 <= i < c1.len() implies c1[i] != sep() by {
                if i < cur.len() {
                    assert(c1[i] == cur[i]);
                }
            }
        }
        lemma_split_join(c1, rest.drop_first());
        assert(c1 + rest.drop_first() =~= cur + rest);
    }
}

/// When the bundled dirs hold no separator, the search path is
/// `pnpm_dir:node_dir`, followed by `:` and the inherited `PATH` unchanged
/// when one is set.
pub proof fn law_bundled_dirs_come_first(pnpm_dir: Seq<char>, node_dir: Seq<char>, path_var: Option<Seq<char>>)
    requires
        no_sep(pnpm_dir),
        no_sep(node_dir),
    ensures
        search_path_spec(pnpm_dir, node_dir, path_var) == match path_var {
            Some(v) => pnpm_dir + seq![sep()] + node_dir + seq![sep()] + v,
            None => pnpm_dir + seq![sep()] + node_dir,
        },
{
    let head = seq![pnpm_dir, node_dir];
    assert(head.drop_first() =~= seq![node_dir]);
    assert(join_with_sep(seq![node_dir]) == node_dir);
    match path_var {
        Some(v) => {
            let t = split_paths_spec(v);
            lemma_split_join(Seq::empty(), v);
            let all = head + t;
            assert forall|i: int| 0 <= i < all.len() implies no_sep(#[trigger] all[i]) by {
                if i >= 2 {
                    assert(all[i] == t[i - 2]);
                }
            }
            assert(all[0] == pnpm_dir);
            assert(all.drop_first() =~= seq![node_dir] + t);
            assert((seq![node_dir] + t)[0] == node_dir);
            assert((seq![node_dir] + t).drop_first() =~= t);
            assert(Seq::<char>::empty() + v =~= v);
            assert(join_with_sep(seq![node_dir] + t) == node_dir + seq![sep()] + join_with_sep(t));
            assert(join_with_sep(all) == pnpm_dir + seq![sep()] + join_with_sep(all.drop_first()));
            assert(join_paths_spec(all) == Some(join_with_sep(all)));
            assert(pnpm_dir + seq![sep()] + (node_dir + seq![sep()] + v) =~= pnpm_dir + seq![sep()]
                + node_dir + seq![sep()] + v);
        },
        None => {
            assert(head + Seq::<Seq<char>>::empty() =~= head);
            assert(join_with_sep(head) == pnpm_dir + seq![sep()] + join_with_sep(head.drop_first()));
            assert(no_sep(head[0]) && no_sep(head[1]));
            assert(join_paths_spec(head) == Some(join_with_sep(head)));
        },
    }
}


/// An app-data entry is a stale harness copy exactly when its name begins
/// with `harness` and is not the current version's directory name.
pub proof fn law_stale_harness_dirs_are_the_other_harness_dirs(name: Seq<char>, current: Seq<char>)
    ensures
        is_stale_harness_dir_spec(name, current) <==> (name.len() >= 7 && name.subrange(0, 7)
            == "harness"@ && name != current),
{
    reveal_strlit("harness");
}

/// With a base that is non-empty and does not end with `/`, the layout is the
/// base followed by the documented relative paths.
pub proof fn law_layout_texts(resources: Seq<char>, data: Seq<char>, version: Seq<char>, dsh_home: Seq<char>)
    requires
        resources.len() > 0 && resources.last() != '/',
        data.len() > 0 && data.last() != '/',
        dsh_home.len() > 0 && dsh_home.last() != '/',
    ensures
        under3(resources, "staging"@, "node"@, "bin"@) == resources + "/staging/node/bin"@,
        joined_path(under3(resources, "staging"@, "node"@, "bin"@), "node"@) == resources
            + "/staging/node/bin/node"@,
        under3(resources, "staging"@, "pnpm"@, "bin"@) == resources + "/staging/pnpm/bin"@,
        joined_path(data, harness_dir_name_spec(version)) == data + "/harness-"@ + version,
        joined_path(data, "dsh"@) == data + "/dsh"@,
        joined_path(joined_path(dsh_home, "profiles"@), "web"@) == dsh_home + "/profiles/web"@,
{
    reveal_strlit("staging");
    reveal_strlit("node");
    reveal_strlit("bin");
    reveal_strlit("pnpm");
    reveal_strlit("dsh");
    reveal_strlit("harness-");
    reveal_strlit("profiles");
    reveal_strlit("web");
    reveal_strlit("/staging/node/bin");
    reveal_strlit("/staging/node/bin/node");
    reveal_strlit("/staging/pnpm/bin");
    reveal_strlit("/harness-");
    reveal_strlit("/dsh");
    reveal_strlit("/profiles/web");
    let sl = seq!['/'];
    let st = joined_path(resources, "staging"@);
    assert(st == resources + sl + "staging"@);
    let nd = joined_path(st, "node"@);
    assert(nd == st + sl + "node"@);
    assert(joined_path(nd, "bin"@) == nd + sl + "bin"@);
    assert(under3(resources, "staging"@, "node"@, "bin"@) =~= resources + "/staging/node/bin"@);
    let nb = under3(resources, "staging"@, "node"@, "bin"@);
    assert(nb.last() == 'n');
    assert(joined_path(nb, "node"@) =~= resources + "/staging/node/bin/node"@);
    let pn = joined_path(st, "pnpm"@);
    assert(pn == st + sl + "pnpm"@);
    assert(joined_path(pn, "bin"@) == pn + sl + "bin"@);
    assert(under3(resources, "staging"@, "pnpm"@, "bin"@) =~= resources + "/staging/pnpm/bin"@);
    assert(harness_dir_name_spec(version)[0] == 'h');
    assert(joined_path(data, harness_dir_name_spec(version)) =~= data + "/harness-"@ + version);
    assert(joined_path(data, "dsh"@) =~= data + "/dsh"@);
    let pr = joined_path(dsh_home, "profiles"@);
    assert(pr == dsh_home + sl + "profiles"@);
    assert(joined_path(pr, "web"@) =~= dsh_home + "/profiles/web"@);
}

/// When a bundled dir holds the separator, no search path can be formed and
/// the commands run with an empty one.
pub proof fn law_search_path_is_empty_when_a_bundled_dir_holds_the_separator(
    pnpm_dir: Seq<char>,
    node_dir: Seq<char>,
    path_var: Option<Seq<char>>,
)
    requires
        pnpm_dir.contains(':') || node_dir.contains(':'),
    ensures
        search_path_spec(pnpm_dir, node_dir, path_var) == Seq::<char>::empty(),
{
    let inherited = match path_var {
        Some(v) => split_paths_spec(v),
        None => Seq::empty(),
    };
    let all = seq![pnpm_dir, node_dir] + inherited;
    assert(all[0] == pnpm_dir);
    assert(all[1] == node_dir);
    if pnpm_dir.contains(':') {
        let i = choose|i: int| 0 <= i < pnpm_dir.len() && pnpm_dir[i] == ':';
        assert(!no_sep(all[0]));
    } else {
        let i = choose|i: int| 0 <= i < node_dir.len() && node_dir[i] == ':';
        assert(!no_sep(all[1]));
    }
    assert(join_paths_spec(all) is None);
}

} // verus!
