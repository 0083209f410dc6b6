//! The plugin status of the app's web profile, read from the profile's
//! `package.json`: the installed dependency names and the active
//! `dsh.profile.bundles` layer list.

use vstd::prelude::*;
use vstd::string::*;
use crate::paths::{joined_path, profile_paths};
use crate::text::{str_equals, texts};

verus! {

/// A JSON value, parsed by `serde_json`.
#[verifier::external_type_specification]
#[verifier::external_body]
pub struct ExJsonValue(serde_json::Value);

/// Why `serde_json` refused a text.
#[verifier::external_type_specification]
#[verifier::external_body]
pub struct ExJsonError(serde_json::Error);

/// What the shell can see of a JSON value: numbers are told apart from the
/// other kinds only, and an object lists its members in the order its map
/// yields them.
pub enum JsonView {
    Null,
    Bool(bool),
    Number,
    Str(Seq<char>),
    Array(Seq<JsonView>),
    Object(Seq<(Seq<char>, JsonView)>),
}

/// A JSON value as the library holds it: numbers are told apart from the
/// other kinds only, and an object lists its members in order.
pub enum Json {
    Null,
    Bool(bool),
    Number,
    Str(String),
    Array(Vec<Json>),
    Object(Vec<(String, Json)>),
}

impl Json {
    /// What the value holds.
    pub open spec fn view_json(self) -> JsonView
        decreases self,
    {
        match self {
            Json::Null => JsonView::Null,
            Json::Bool(b) => JsonView::Bool(b),
            Json::Number => JsonView::Number,
            Json::Str(s) => JsonView::Str(s@),
            Json::Array(items) => JsonView::Array(json_items_view(items@)),
            Json::Object(members) => JsonView::Object(json_members_view(members@)),
        }
    }
}

/// What the items hold, in order.
pub open spec fn json_items_view(items: Seq<Json>) -> Seq<JsonView>
    decreases items,
{
    if items.len() == 0 {
        Seq::empty()
    } else {
        json_items_view(items.subrange(0, items.len() - 1)).push(items[items.len() - 1].view_json())
    }
}

/// What the members hold, in order.
pub open spec fn json_members_view(members: Seq<(String, Json)>) -> Seq<(Seq<char>, JsonView)>
    decreases members,
{
    if members.len() == 0 {
        Seq::empty()
    } else {
        json_members_view(members.subrange(0, members.len() - 1)).push(
            (members[members.len() - 1].0@, members[members.len() - 1].1.view_json()),
        )
    }
}


/// The items' views line up with the items.
pub proof fn lemma_items_view(items: Seq<Json>)
    ensures
        json_items_view(items).len() == items.len(),
        forall|i: int| 0 <= i < items.len() ==> #[trigger] json_items_view(items)[i]
            == items[i].view_json(),
    decreases items.len(),
{
    if items.len() > 0 {
        let d = items.subrange(0, items.len() - 1);
        lemma_items_view(d);
        assert forall|i: int| 0 <= i < items.len() implies #[trigger] json_items_view(items)[i]
            == items[i].view_json() by {
            if i < items.len() - 1 {
                assert(d[i] == items[i]);
            }
        }
    }
}

/// The members' views line up with the members.
pub proof fn lemma_members_view(members: Seq<(String, Json)>)
    ensures
        json_members_view(members).len() == members.len(),
        forall|i: int| 0 <= i < members.len() ==> #[trigger] json_members_view(members)[i] == (
        members[i].0@, members[i].1.view_json()),
    decreases members.len(),
{
    if members.len() > 0 {
        let d = members.subrange(0, members.len() - 1);
        lemma_members_view(d);
        assert forall|i: int| 0 <= i < members.len() implies #[trigger] json_members_view(
            members,
        )[i] == (members[i].0@, members[i].1.view_json()) by {
            if i < members.len() - 1 {
                assert(d[i] == members[i]);
            }
        }
    }
}

/// What a `serde_json::Value` holds.
pub uninterp spec fn json_view(v: serde_json::Value) -> JsonView;

/// The JSON value that a text holds, or `None` when it is not JSON.
pub uninterp spec fn json_of_text(text: Seq<char>) -> Option<JsonView>;

/// `serde_json::from_str` into a `serde_json::Value`: it succeeds exactly
/// when `json_of_text` names a value, and then holds that value. The JSON
/// grammar itself is not stated here.
#[verifier::external_body]
fn parse_json(text: &str) -> (r: Result<serde_json::Value, serde_json::Error>)
    ensures
        match r {
            Ok(v) => json_of_text(text@) == Some(json_view(v)),
            Err(_) => json_of_text(text@) is None,
        },
{
    serde_json::from_str::<serde_json::Value>(text)
}

/// A `serde_json::Value` copied, variant by variant, into a `Json`: a string
/// keeps its text, a number only its kind, an array its items in order, an
/// object its members in the order `Map::iter` yields them (the order of
/// `Map::keys`).
#[verifier::external_body]
fn json_of_value(v: &serde_json::Value) -> (j: Json)
    ensures
        j.view_json() == json_view(*v),
{
    match v {
        serde_json::Value::Null => Json::Null,
        serde_json::Value::Bool(b) => Json::Bool(*b),
        serde_json::Value::Number(_) => Json::Number,
        serde_json::Value::String(s) => Json::Str(s.clone()),
        serde_json::Value::Array(a) => Json::Array(a.iter().map(json_of_value).collect()),
        serde_json::Value::Object(m) => Json::Object(
            m.iter().map(|(k, x)| (k.clone(), json_of_value(x))).collect(),
        ),
    }
}

/// The value of the first member named `key`.
pub open spec fn json_lookup(members: Seq<(Seq<char>, JsonView)>, key: Seq<char>) -> Option<JsonView>
    decreases members.len(),
{
    if members.len() == 0 {
        None
    } else if members[0].0 == key {
        Some(members[0].1)
    } else {
        json_lookup(members.drop_first(), key)
    }
}

/// The member `key` of an object; `None` for any other value.
pub open spec fn json_member(v: JsonView, key: Seq<char>) -> Option<JsonView> {
    match v {
        JsonView::Object(members) => json_lookup(members, key),
        _ => None,
    }
}

impl Json {
    /// The member `key` of an object; `None` for a missing member or any
    /// other value.
    pub fn member(&self, key: &str) -> (r: Option<&Json>)
        ensures
            match json_member(self.view_json(), key@) {
                Some(x) => r matches Some(y) && y.view_json() == x,
                None => r is None,
            },
    {
        match self {
            Json::Object(members) => {
                let ghost mv = json_members_view(members@);
                proof {
                    lemma_members_view(members@);
                }
                let mut i: usize = 0;
                assert(mv.skip(0) =~= mv);
                while i < members.len()
                    invariant
                        mv == json_members_view(members@),
                        json_member(self.view_json(), key@) == json_lookup(mv, key@),
                        mv.len() == members@.len(),
                        forall|j: int| 0 <= j < members@.len() ==> #[trigger] mv[j] == (
                        members@[j].0@, members@[j].1.view_json()),
                        i <= members.len(),
                        json_lookup(mv.skip(i as int), key@) == json_lookup(mv, key@),
                    decreases members.len() - i,
                {
                    assert(mv.skip(i as int)[0] == mv[i as int]);
                    assert(mv.skip(i as int).drop_first() =~= mv.skip(i + 1));
                    if str_equals(members[i].0.as_str(), key) {
                        assert(mv[i as int].0 == key@);
                        return Some(&members[i].1);
                    }
                    i += 1;
                }
                assert(mv.skip(i as int) =~= Seq::<(Seq<char>, JsonView)>::empty());
                None
            },
            _ => None,
        }
    }
}

/// The texts of the string items of `items`, in order; other items are
/// skipped.
pub open spec fn string_items(items: Seq<JsonView>) -> Seq<Seq<char>>
    decreases items.len(),
{
    if items.len() == 0 {
        Seq::empty()
    } else {
        string_items(items.drop_last()) + match items.last() {
            JsonView::Str(s) => seq![s],
            _ => Seq::empty(),
        }
    }
}

/// The names of the dependencies of a manifest: the member names of its
/// `dependencies` object; none when it has no such object.
pub open spec fn dependencies_of(root: JsonView) -> Seq<Seq<char>> {
    match json_member(root, "dependencies"@) {
        Some(JsonView::Object(members)) => members.map_values(|m: (Seq<char>, JsonView)| m.0),
        _ => Seq::empty(),
    }
}

/// The `dsh.profile.bundles` value of a manifest, if it has one.
pub open spec fn bundles_value(root: JsonView) -> Option<JsonView> {
    match json_member(root, "dsh"@) {
        Some(dsh) => match json_member(dsh, "profile"@) {
            Some(profile) => json_member(profile, "bundles"@),
            None => None,
        },
        None => None,
    }
}

/// The active bundle layers of a manifest: the string items of its
/// `dsh.profile.bundles` array; none when it has no such array.
pub open spec fn bundles_of(root: JsonView) -> Seq<Seq<char>> {
    match bundles_value(root) {
        Some(JsonView::Array(items)) => string_items(items),
        _ => Seq::empty(),
    }
}

/// The dependency names of a manifest text; none when it is not JSON.
pub open spec fn manifest_dependencies(text: Seq<char>) -> Seq<Seq<char>> {
    match json_of_text(text) {
        Some(root) => dependencies_of(root),
        None => Seq::empty(),
    }
}

/// The bundle layers of a manifest text; none when it is not JSON.
pub open spec fn manifest_bundles(text: Seq<char>) -> Seq<Seq<char>> {
    match json_of_text(text) {
        Some(root) => bundles_of(root),
        None => Seq::empty(),
    }
}

/// Installed state of the app's web profile: the profile directory,
/// dependency names and the active `dsh.profile.bundles` layer list.
pub struct PluginStatus {
    pub profile_dir: String,
    pub dependencies: Vec<String>,
    pub bundles: Vec<String>,
}

/// The member names of an object.
fn member_names(members: &Vec<(String, Json)>) -> (names: Vec<String>)
    ensures
        texts(names@) == json_members_view(members@).map_values(|m: (Seq<char>, JsonView)| m.0),
{
    proof {
        lemma_members_view(members@);
    }
    let ghost want = json_members_view(members@).map_values(|m: (Seq<char>, JsonView)| m.0);
    let mut names: Vec<String> = Vec::new();
    let mut i: usize = 0;
    while i < members.len()
        invariant
            want == json_members_view(members@).map_values(|m: (Seq<char>, JsonView)| m.0),
            want.len() == members@.len(),
            forall|j: int| 0 <= j < members@.len() ==> #[trigger] want[j] == members@[j].0@,
            i <= members.len(),
            texts(names@) == want.take(i as int),
        decreases members.len() - i,
    {
        let ghost before = texts(names@);
        names.push(String::from_str(members[i].0.as_str()));
        assert(texts(names@) =~= before.push(members@[i as int].0@));
        assert(want.take(i + 1) =~= want.take(i as int).push(want[i as int]));
        i += 1;
    }
    assert(want.take(members.len() as int) =~= want);
    names
}

/// The string items of a JSON array.
fn strings_of(items: &Vec<Json>) -> (out: Vec<String>)
    ensures
        texts(out@) == string_items(json_items_view(items@)),
{
    proof {
        lemma_items_view(items@);
    }
    let ghost views = json_items_view(items@);
    let mut out: Vec<String> = Vec::new();
    let mut i: usize = 0;
    assert(views.take(0) =~= Seq::<JsonView>::empty());
    assert(texts(out@) =~= Seq::<Seq<char>>::empty());
    while i < items.len()
        invariant
            views == json_items_view(items@),
            views.len() == items@.len(),
            forall|j: int| 0 <= j < items@.len() ==> #[trigger] views[j] == items@[j].view_json(),
            i <= items.len(),
            texts(out@) == string_items(views.take(i as int)),
        decreases items.len() - i,
    {
        let ghost before = texts(out@);
        assert(views.take(i + 1).drop_last() =~= views.take(i as int));
        assert(views.take(i + 1).last() == items@[i as int].view_json());
        match &items[i] {
            Json::Str(s) => {
                out.push(String::from_str(s.as_str()));
                assert(texts(out@) =~= before + seq![s@]);
            },
            _ => {
                assert(before + Seq::<Seq<char>>::empty() =~= before);
            },
        }
        i += 1;
    }
    assert(views.take(items.len() as int) =~= views);
    out
}

/// The plugin status of the web profile under `dsh_home`, given its parsed
/// `package.json` (`None` when it could not be read or parsed).
pub fn manifest_status(dsh_home: &str, manifest: Option<&Json>) -> (st: PluginStatus)
    ensures
        st.profile_dir@ == joined_path(joined_path(dsh_home@, "profiles"@), "web"@),
        texts(st.dependencies@) == match manifest {
            Some(j) => dependencies_of(j.view_json()),
            None => Seq::empty(),
        },
        texts(st.bundles@) == match manifest {
            Some(j) => bundles_of(j.view_json()),
            None => Seq::empty(),
        },
{
    let profile = profile_paths(dsh_home);
    let mut dependencies: Vec<String> = Vec::new();
    let mut bundles: Vec<String> = Vec::new();
    assert(texts(dependencies@) =~= Seq::<Seq<char>>::empty());
    assert(texts(bundles@) =~= Seq::<Seq<char>>::empty());
    if let Some(root) = manifest {
        if let Some(Json::Object(members)) = root.member("dependencies") {
            dependencies = member_names(members);
        }
        if let Some(dsh) = root.member("dsh") {
            if let Some(prof) = dsh.member("profile") {
                if let Some(Json::Array(items)) = prof.member("bundles") {
                    bundles = strings_of(items);
                }
            }
        }
    }
    PluginStatus { profile_dir: profile.profile_dir, dependencies, bundles }
}

/// The plugin status of the web profile under `dsh_home`, given the text of
/// its `package.json` (`None` when it could not be read).
pub fn plugin_status(dsh_home: &str, manifest_text: Option<&str>) -> (st: PluginStatus)
    ensures
        st.profile_dir@ == joined_path(joined_path(dsh_home@, "profiles"@), "web"@),
        texts(st.dependencies@) == match manifest_text {
            Some(t) => manifest_dependencies(t@),
            None => Seq::empty(),
        },
        texts(st.bundles@) == match manifest_text {
            Some(t) => manifest_bundles(t@),
            None => Seq::empty(),
        },
{
    match manifest_text {
        Some(text) => match parse_json(text) {
            Ok(value) => {
                let json = json_of_value(&value);
                manifest_status(dsh_home, Some(&json))
            },
            Err(_) => manifest_status(dsh_home, None),
        },
        None => manifest_status(dsh_home, None),
    }
}


/// A member is looked up by its name: the value of the first member with
/// that name; nothing when no member has it or the value is no object.
pub proof fn law_member_is_the_first_with_its_name(
    members: Seq<(Seq<char>, JsonView)>,
    key: Seq<char>,
    i: int,
)
    ensures
        0 <= i < members.len() && members[i].0 == key && (forall|j: int|
            0 <= j < i ==> members[j].0 != key) ==> json_member(JsonView::Object(members), key)
            == Some(members[i].1),
        (forall|j: int| 0 <= j < members.len() ==> members[j].0 != key) ==> json_member(
            JsonView::Object(members),
            key,
        ) is None,
        json_member(JsonView::Array(Seq::empty()), key) is None,
        json_member(JsonView::Null, key) is None,
    decreases members.len(),
{
    if members.len() > 0 {
        let rest = members.drop_first();
        law_member_is_the_first_with_its_name(rest, key, i - 1);
        if 0 <= i < members.len() && members[i].0 == key && (forall|j: int|
            0 <= j < i ==> members[j].0 != key) {
            if i > 0 {
                assert(members[0].0 != key);
                assert(rest[i - 1] == members[i]);
                assert forall|j: int| 0 <= j < i - 1 implies rest[j].0 != key by {
                    assert(rest[j] == members[j + 1]);
                }
            }
        }
        if forall|j: int| 0 <= j < members.len() ==> members[j].0 != key {
            assert(members[0].0 != key);
            assert forall|j: int| 0 <= j < rest.len() implies rest[j].0 != key by {
                assert(rest[j] == members[j + 1]);
            }
        }
    }
}

/// The dependency names are the names of the members of the manifest's
/// `dependencies` object, all of them and in order, whatever else the
/// manifest holds; none when `dependencies` is missing or no object.
pub proof fn law_dependencies_are_the_dependency_member_names(root: JsonView)
    ensures
        match json_member(root, "dependencies"@) {
            Some(JsonView::Object(members)) => dependencies_of(root).len() == members.len()
                && forall|i: int|
                0 <= i < members.len() ==> dependencies_of(root)[i] == members[i].0,
            _ => dependencies_of(root).len() == 0,
        },
{
}

/// The dependency names depend on the `dependencies` member alone, and the
/// bundle layers on the `dsh` member alone.
pub proof fn law_status_parts_are_independent(r1: JsonView, r2: JsonView)
    ensures
        json_member(r1, "dependencies"@) == json_member(r2, "dependencies"@) ==> dependencies_of(r1)
            == dependencies_of(r2),
        json_member(r1, "dsh"@) == json_member(r2, "dsh"@) ==> bundles_of(r1) == bundles_of(r2),
{
}

/// The bundle layers are the string items of `dsh.profile.bundles` when it
/// is an array, and none when any step of that path is missing or it is no
/// array.
pub proof fn law_bundles_are_the_strings_of_the_bundles_array(
    root: JsonView,
    dsh: JsonView,
    profile: JsonView,
    items: Seq<JsonView>,
)
    ensures
        json_member(root, "dsh"@) == Some(dsh) && json_member(dsh, "profile"@) == Some(profile)
            && json_member(profile, "bundles"@) == Some(JsonView::Array(items)) ==> bundles_of(root)
            == string_items(items),
        json_member(root, "dsh"@) is None ==> bundles_of(root).len() == 0,
        json_member(root, "dsh"@) == Some(dsh) && json_member(dsh, "profile"@) is None
            ==> bundles_of(root).len() == 0,
        json_member(root, "dsh"@) == Some(dsh) && json_member(dsh, "profile"@) == Some(profile)
            && !(json_member(profile, "bundles"@) matches Some(JsonView::Array(_)))
            ==> bundles_of(root).len() == 0,
{
}

/// The string items are the texts of the string items, in order: an item
/// added at the end adds its text when it is a string, and nothing else.
pub proof fn law_string_items_keep_each_string(items: Seq<JsonView>, x: JsonView)
    ensures
        string_items(Seq::empty()).len() == 0,
        string_items(items.push(x)) == string_items(items) + match x {
            JsonView::Str(s) => seq![s],
            _ => Seq::empty(),
        },
{
    assert(items.push(x).drop_last() =~= items);
}

/// The status read from a manifest text is the status of the JSON value it
/// parses to, and empty when it is no JSON.
pub proof fn law_text_status_is_the_parsed_status(text: Seq<char>)
    ensures
        json_of_text(text) matches Some(root) ==> manifest_dependencies(text) == dependencies_of(root)
            && manifest_bundles(text) == bundles_of(root),
        json_of_text(text) is None ==> manifest_dependencies(text).len() == 0
            && manifest_bundles(text).len() == 0,
{
}

} // verus!
