//! The manifests that the generated crate has to be entered in: the
//! workspace's list of members and each project's table of dependencies.
//!
//! Manifests are read, changed and written by the `toml` crate. What this
//! module proves rests on what it states of that crate's functions; each of
//! them is marked as such below.

use crate::text::{chars_of, is_str, string_of};
use vstd::prelude::*;

verus! {

/// `toml::Value`: a TOML document or a value within one.
#[verifier::external_type_specification]
#[verifier::external_body]
pub struct ExValue(toml::Value);

/// `toml::map::Map`: the table of a TOML document.
#[verifier::external_type_specification]
#[verifier::external_body]
#[verifier::reject_recursive_types(K)]
#[verifier::reject_recursive_types(V)]
pub struct ExTable<K, V>(toml::map::Map<K, V>);

/// `toml::de::Error`: why a text is no TOML document.
#[verifier::external_type_specification]
#[verifier::external_body]
pub struct ExParseError(toml::de::Error);

/// `toml::ser::Error`: why a value cannot be written as a TOML document.
#[verifier::external_type_specification]
#[verifier::external_body]
pub struct ExWriteError(toml::ser::Error);

/// What a `toml::Value` holds. A table is ordered by its keys, so the map
/// from its keys to their values says all of it. A decimal number stands by
/// its bits, a date and time by the text it is written as.
pub enum TomlModel {
    Text(Seq<char>),
    Integer(i64),
    Decimal(u64),
    Boolean(bool),
    Datetime(Seq<char>),
    Array(Seq<TomlModel>),
    Table(Map<Seq<char>, TomlModel>),
}

/// What the value `v` holds.
pub uninterp spec fn document_of(v: toml::Value) -> TomlModel;

/// What the table `t` holds: its keys, and what the value under each holds.
pub uninterp spec fn entries_of(t: toml::map::Map<String, toml::Value>) -> Map<
    Seq<char>,
    TomlModel,
>;

/// What the TOML document written `content` holds, or `None` where
/// `content` is no TOML document.
pub uninterp spec fn parsed(content: Seq<char>) -> Option<TomlModel>;

/// The text that the `toml` crate writes for a document that holds `doc`,
/// or `None` where it cannot write one.
pub uninterp spec fn rendered(doc: TomlModel) -> Option<Seq<char>>;

/// What the values `items` hold, in order.
pub open spec fn documents(items: Seq<toml::Value>) -> Seq<TomlModel> {
    Seq::new(items.len(), |i: int| document_of(items[i]))
}

/// What a table without keys holds.
pub open spec fn no_entries() -> Map<Seq<char>, TomlModel> {
    Map::empty()
}

/// `doc` is a table with the key `key`.
pub open spec fn has_entry(doc: TomlModel, key: Seq<char>) -> bool {
    doc matches TomlModel::Table(m) && m.contains_key(key)
}

/// What the table `doc` holds under `key`.
pub open spec fn entry(doc: TomlModel, key: Seq<char>) -> TomlModel {
    doc->Table_0[key]
}

/// The table `doc` with `value` under `key`.
pub open spec fn with_entry(doc: TomlModel, key: Seq<char>, value: TomlModel) -> TomlModel {
    TomlModel::Table(doc->Table_0.insert(key, value))
}

/// `str::parse::<toml::Value>`, which is `toml::Value::from_str`: reads a
/// text as a TOML document. Whether it succeeds and what the document holds
/// depend on the text alone.
#[verifier::external_body]
fn parse_value(content: &str) -> (r: Result<toml::Value, toml::de::Error>)
    ensures
        match r {
            Ok(v) => parsed(content@) == Some(document_of(v)),
            Err(_) => parsed(content@) is None,
        },
{
    content.parse::<toml::Value>()
}

/// `toml::Value::get_mut` with a string: where the value is a table with
/// the key, the value under that key, and else nothing. What the caller
/// leaves in the value it was handed is what the table then holds under the
/// key; nothing else changes.
#[verifier::external_body]
fn entry_mut<'a>(v: &'a mut toml::Value, key: &str) -> (r: Option<&'a mut toml::Value>)
    ensures
        has_entry(document_of(*old(v)), key@) ==> r is Some && document_of(*r.unwrap()) == entry(
            document_of(*old(v)),
            key@,
        ) && document_of(*final(v)) == with_entry(
            document_of(*old(v)),
            key@,
            document_of(*final(r.unwrap())),
        ),
        !has_entry(document_of(*old(v)), key@) ==> r is None && *final(v) == *old(v),
{
    v.get_mut(key)
}

/// `toml::Value::as_array_mut`: where the value is an array, its items, and
/// else nothing. What the caller leaves in the items is what the array then
/// holds.
#[verifier::external_body]
fn array_mut<'a>(v: &'a mut toml::Value) -> (r: Option<&'a mut Vec<toml::Value>>)
    ensures
        document_of(*old(v)) is Array ==> r is Some && documents(r.unwrap()@) == document_of(
            *old(v),
        )->Array_0 && document_of(*final(v)) == TomlModel::Array(documents(final(r.unwrap())@)),
        !(document_of(*old(v)) is Array) ==> r is None && *final(v) == *old(v),
{
    v.as_array_mut()
}

/// `toml::Value::as_table_mut`: where the value is a table, that table, and
/// else nothing. What the caller leaves in the table is what the value then
/// holds.
#[verifier::external_body]
fn table_mut<'a>(v: &'a mut toml::Value) -> (r: Option<
    &'a mut toml::map::Map<String, toml::Value>,
>)
    ensures
        document_of(*old(v)) is Table ==> r is Some && entries_of(*r.unwrap()) == document_of(
            *old(v),
        )->Table_0 && document_of(*final(v)) == TomlModel::Table(entries_of(*final(r.unwrap()))),
        !(document_of(*old(v)) is Table) ==> r is None && *final(v) == *old(v),
{
    v.as_table_mut()
}

/// `toml::Value::as_str`: where the value is a string, that string, and
/// else nothing.
#[verifier::external_body]
fn text_of<'a>(v: &'a toml::Value) -> (r: Option<&'a str>)
    ensures
        match document_of(*v) {
            TomlModel::Text(t) => r is Some && r.unwrap()@ == t,
            _ => r is None,
        },
{
    v.as_str()
}

/// `toml::Value::String`: the value that is the string `s`.
#[verifier::external_body]
fn text_value(s: String) -> (r: toml::Value)
    ensures
        document_of(r) == TomlModel::Text(s@),
{
    toml::Value::String(s)
}

/// `toml::Value::Table`: the value that is the table `t`.
#[verifier::external_body]
fn table_value(t: toml::map::Map<String, toml::Value>) -> (r: toml::Value)
    ensures
        document_of(r) == TomlModel::Table(entries_of(t)),
{
    toml::Value::Table(t)
}

/// `toml::map::Map::new`: a table without keys.
#[verifier::external_body]
fn new_table() -> (r: toml::map::Map<String, toml::Value>)
    ensures
        entries_of(r) == no_entries(),
{
    toml::map::Map::new()
}

/// `toml::map::Map::contains_key`: whether the table has the key.
#[verifier::external_body]
fn has_key(t: &toml::map::Map<String, toml::Value>, key: &str) -> (r: bool)
    ensures
        r == entries_of(*t).contains_key(key@),
{
    t.contains_key(key)
}

/// `toml::map::Map::insert`: afterwards the table holds `value` under
/// `key`, and under every other key what it held before.
#[verifier::external_body]
fn put(t: &mut toml::map::Map<String, toml::Value>, key: String, value: toml::Value)
    ensures
        entries_of(*final(t)) == entries_of(*old(t)).insert(key@, document_of(value)),
{
    t.insert(key, value);
}

/// `toml::to_string_pretty`: writes a value as a TOML document. Whether it
/// succeeds and what it writes depend on what the value holds alone.
#[verifier::external_body]
fn render(v: &toml::Value) -> (r: Result<String, toml::ser::Error>)
    ensures
        match r {
            Ok(text) => rendered(document_of(*v)) == Some(text@),
            Err(_) => rendered(document_of(*v)) is None,
        },
{
    toml::to_string_pretty(v)
}

/// Why a manifest could not be brought up to date.
#[derive(Debug)]
pub enum ManifestError {
    /// The manifest is no TOML document.
    Unreadable(toml::de::Error),
    /// The changed manifest cannot be written as a TOML document.
    Unwritable(toml::ser::Error),
}

/// The name under which the generated crate is entered in manifests.
pub open spec fn crate_name() -> Seq<char> {
    "caller-utils"@
}

/// The path of the generated crate, seen from a project beside it.
pub open spec fn crate_path() -> Seq<char> {
    "../caller-utils"@
}

/// The members of the workspace that `doc` describes: the array under
/// `members` in the table under `workspace`.
pub open spec fn members_of(doc: TomlModel) -> Option<Seq<TomlModel>> {
    if has_entry(doc, "workspace"@) && has_entry(entry(doc, "workspace"@), "members"@) && entry(
        entry(doc, "workspace"@),
        "members"@,
    ) is Array {
        Some(entry(entry(doc, "workspace"@), "members"@)->Array_0)
    } else {
        None
    }
}

/// One of `items` is the string `name`.
pub open spec fn lists(items: Seq<TomlModel>, name: Seq<char>) -> bool {
    exists|i: int| 0 <= i < items.len() && #[trigger] items[i] == TomlModel::Text(name)
}

/// `doc` with the string `name` at the end of the workspace's members.
pub open spec fn with_member(doc: TomlModel, name: Seq<char>) -> TomlModel {
    let workspace = entry(doc, "workspace"@);
    let members = entry(workspace, "members"@)->Array_0;
    with_entry(
        doc,
        "workspace"@,
        with_entry(workspace, "members"@, TomlModel::Array(members.push(TomlModel::Text(name)))),
    )
}

/// The workspace manifest that holds `doc`, brought up to date: with the
/// generated crate among its members, or `None` where nothing is to change
/// because it has no list of members or the crate is on it already.
pub open spec fn updated_workspace(doc: TomlModel) -> Option<TomlModel> {
    match members_of(doc) {
        Some(items) => if lists(items, crate_name()) {
            None
        } else {
            Some(with_member(doc, crate_name()))
        },
        None => None,
    }
}

/// The dependencies of the project that `doc` describes: the table under
/// `dependencies`.
pub open spec fn dependencies_of(doc: TomlModel) -> Option<Map<Seq<char>, TomlModel>> {
    if has_entry(doc, "dependencies"@) && entry(doc, "dependencies"@) is Table {
        Some(entry(doc, "dependencies"@)->Table_0)
    } else {
        None
    }
}

/// What a manifest holds for a dependency found at `path`.
pub open spec fn path_dependency(path: Seq<char>) -> TomlModel {
    TomlModel::Table(no_entries().insert("path"@, TomlModel::Text(path)))
}

/// The project manifest that holds `doc`, brought up to date: with the
/// generated crate among its dependencies, by its path, or `None` where
/// nothing is to change because it has no table of dependencies or the
/// crate is in it already.
pub open spec fn updated_project(doc: TomlModel) -> Option<TomlModel> {
    match dependencies_of(doc) {
        Some(deps) => if deps.contains_key(crate_name()) {
            None
        } else {
            Some(
                with_entry(
                    doc,
                    "dependencies"@,
                    TomlModel::Table(deps.insert(crate_name(), path_dependency(crate_path()))),
                ),
            )
        },
        None => None,
    }
}

/// A workspace manifest that has been brought up to date needs no further
/// change: bringing it up to date once more leaves it as it is.
pub proof fn lemma_workspace_settles(doc: TomlModel)
    requires
        updated_workspace(doc) is Some,
    ensures
        updated_workspace(updated_workspace(doc).unwrap()) is None,
{
    let now = with_member(doc, crate_name());
    let members = entry(entry(doc, "workspace"@), "members"@)->Array_0;
    let listed = members.push(TomlModel::Text(crate_name()));
    assert(members_of(now) == Some(listed));
    assert(listed[members.len() as int] == TomlModel::Text(crate_name()));
}

/// A project manifest that has been brought up to date needs no further
/// change: bringing it up to date once more leaves it as it is.
pub proof fn lemma_project_settles(doc: TomlModel)
    requires
        updated_project(doc) is Some,
    ensures
        updated_project(updated_project(doc).unwrap()) is None,
{
}

/// Bringing a manifest up to date changes nothing but the one entry: a
/// workspace keeps every member it had, in order, and a project every
/// dependency.
pub proof fn lemma_update_keeps(doc: TomlModel)
    ensures
        updated_workspace(doc) matches Some(now) ==> members_of(now) == Some(
            members_of(doc).unwrap().push(TomlModel::Text(crate_name())),
        ),
        updated_project(doc) matches Some(now) ==> dependencies_of(now) == Some(
            dependencies_of(doc).unwrap().insert(crate_name(), path_dependency(crate_path())),
        ),
{
}

/// What bringing a manifest up to date comes to.
pub enum Update {
    /// The manifest is no TOML document.
    Unreadable,
    /// The manifest is to stay as it is.
    Unchanged,
    /// The manifest is to be written anew, with this text.
    Changed(Seq<char>),
    /// The changed manifest cannot be written as a TOML document.
    Unwritable,
}

/// What bringing up to date comes to for a manifest that holds `doc`, if
/// it is a document at all, and that is to hold `now`, if it is to change.
pub open spec fn update_of(doc: Option<TomlModel>, now: Option<TomlModel>) -> Update {
    if doc is None {
        Update::Unreadable
    } else {
        match now {
            None => Update::Unchanged,
            Some(changed) => match rendered(changed) {
                Some(text) => Update::Changed(text),
                None => Update::Unwritable,
            },
        }
    }
}

/// What bringing the workspace manifest written `content` up to date
/// comes to.
pub open spec fn workspace_update(content: Seq<char>) -> Update {
    update_of(
        parsed(content),
        match parsed(content) {
            Some(doc) => updated_workspace(doc),
            None => None,
        },
    )
}

/// What bringing the project manifest written `content` up to date comes
/// to.
pub open spec fn project_update(content: Seq<char>) -> Update {
    update_of(
        parsed(content),
        match parsed(content) {
            Some(doc) => updated_project(doc),
            None => None,
        },
    )
}

/// `r` reports `update`: the text to write where the manifest changes,
/// `None` where it stays, and the error where it cannot be read or
/// written.
pub open spec fn reports(r: Result<Option<String>, ManifestError>, update: Update) -> bool {
    match update {
        Update::Unreadable => r matches Err(ManifestError::Unreadable(_)),
        Update::Unchanged => r matches Ok(None),
        Update::Changed(text) => r matches Ok(Some(t)) && t@ == text,
        Update::Unwritable => r matches Err(ManifestError::Unwritable(_)),
    }
}

/// `text` is the string `name`.
pub open spec fn is_name(text: Option<String>, name: Seq<char>) -> bool {
    text matches Some(t) && t@ == name
}

/// A table with what it holds under one of its keys put under that key
/// again is the table it was.
pub proof fn lemma_same_entry(doc: TomlModel, key: Seq<char>)
    ensures
        has_entry(doc, key) ==> with_entry(doc, key, entry(doc, key)) == doc,
{
    if has_entry(doc, key) {
        assert(doc->Table_0.insert(key, doc->Table_0[key]) =~= doc->Table_0);
    }
}

/// Whether one of `texts` is the string `name`.
pub fn names_member(texts: &Vec<Option<String>>, name: &str) -> (r: bool)
    ensures
        r == exists|i: int| 0 <= i < texts@.len() && is_name(#[trigger] texts@[i], name@),
{
    let mut i: usize = 0;
    while i < texts.len()
        invariant
            i <= texts.len(),
            forall|k: int| 0 <= k < i ==> !is_name(#[trigger] texts@[k], name@),
        decreases texts.len() - i,
    {
        match &texts[i] {
            Some(t) => {
                if is_str(&chars_of(t.as_str()), name) {
                    return true;
                }
            },
            None => {},
        }
        i = i + 1;
    }
    false
}

/// The strings among `items`, each in its place, with `None` in the place
/// of every item that is no string.
pub fn member_texts(items: &Vec<toml::Value>) -> (r: Vec<Option<String>>)
    ensures
        r@.len() == items@.len(),
        forall|i: int|
            0 <= i < items@.len() ==> match document_of(#[trigger] items@[i]) {
                TomlModel::Text(t) => r@[i] matches Some(s) && s@ == t,
                _ => r@[i] is None,
            },
{
    let mut out: Vec<Option<String>> = Vec::new();
    let mut i: usize = 0;
    while i < items.len()
        invariant
            i <= items.len(),
            out@.len() == i,
            forall|k: int|
                0 <= k < i ==> match document_of(#[trigger] items@[k]) {
                    TomlModel::Text(t) => out@[k] matches Some(s) && s@ == t,
                    _ => out@[k] is None,
                },
        decreases items.len() - i,
    {
        match text_of(&items[i]) {
            Some(s) => {
                out.push(Some(string_of(&chars_of(s))));
            },
            None => {
                out.push(None);
            },
        }
        i = i + 1;
    }
    out
}

/// Enters the generated crate among the members of the workspace that `doc`
/// describes, unless it is there already or there is no list of members.
/// Says whether `doc` has changed.
pub fn add_workspace_member(doc: &mut toml::Value) -> (changed: bool)
    ensures
        match updated_workspace(document_of(*old(doc))) {
            Some(now) => changed && document_of(*final(doc)) == now,
            None => !changed && document_of(*final(doc)) == document_of(*old(doc)),
        },
{
    proof {
        lemma_same_entry(document_of(*doc), "workspace"@);
        lemma_same_entry(entry(document_of(*doc), "workspace"@), "members"@);
    }
    let mut changed = false;
    match entry_mut(doc, "workspace") {
        Some(workspace) => {
            match entry_mut(workspace, "members") {
                Some(members) => {
                    match array_mut(members) {
                        Some(items) => {
                            let texts = member_texts(items);
                            let listed = names_member(&texts, "caller-utils");
                            proof {
                                let held = documents(items@);
                                if listed {
                                    let i = choose|i: int|
                                        0 <= i < texts@.len() && is_name(
                                            #[trigger] texts@[i],
                                            "caller-utils"@,
                                        );
                                    assert(held[i] == TomlModel::Text("caller-utils"@));
                                } else {
                                    assert forall|i: int| 0 <= i < held.len() implies held[i]
                                        != TomlModel::Text("caller-utils"@) by {
                                        assert(held[i] == document_of(items@[i]));
                                        if held[i] == TomlModel::Text("caller-utils"@) {
                                            assert(is_name(texts@[i], "caller-utils"@));
                                        }
                                    }
                                }
                                assert(listed == lists(held, crate_name()));
                            }
                            if !listed {
                                let ghost old_items = items@;
                                let name = string_of(&chars_of("caller-utils"));
                                items.push(text_value(name));
                                assert(documents(items@) =~= documents(old_items).push(
                                    TomlModel::Text("caller-utils"@),
                                ));
                                changed = true;
                            }
                        },
                        None => {},
                    }
                },
                None => {},
            }
        },
        None => {},
    }
    changed
}

/// Enters the generated crate, by its path, among the dependencies of the
/// project that `doc` describes, unless it is there already or there is no
/// table of dependencies. Says whether `doc` has changed.
pub fn add_dependency(doc: &mut toml::Value) -> (changed: bool)
    ensures
        match updated_project(document_of(*old(doc))) {
            Some(now) => changed && document_of(*final(doc)) == now,
            None => !changed && document_of(*final(doc)) == document_of(*old(doc)),
        },
{
    proof {
        lemma_same_entry(document_of(*doc), "dependencies"@);
    }
    let mut changed = false;
    match entry_mut(doc, "dependencies") {
        Some(dependencies) => {
            match table_mut(dependencies) {
                Some(table) => {
                    if !has_key(table, "caller-utils") {
                        let mut by_path = new_table();
                        put(
                            &mut by_path,
                            string_of(&chars_of("path")),
                            text_value(string_of(&chars_of("../caller-utils"))),
                        );
                        put(table, string_of(&chars_of("caller-utils")), table_value(by_path));
                        changed = true;
                    }
                },
                None => {},
            }
        },
        None => {},
    }
    changed
}

/// Brings the workspace manifest written `content` up to date: returns the
/// text of the manifest with the generated crate among its members, or
/// `None` where the manifest is to stay as it is.
pub fn update_workspace_cargo_toml(content: &str) -> (r: Result<Option<String>, ManifestError>)
    ensures
        reports(r, workspace_update(content@)),
{
    let mut doc = match parse_value(content) {
        Ok(v) => v,
        Err(e) => {
            return Err(ManifestError::Unreadable(e));
        },
    };
    if add_workspace_member(&mut doc) {
        match render(&doc) {
            Ok(text) => Ok(Some(text)),
            Err(e) => Err(ManifestError::Unwritable(e)),
        }
    } else {
        Ok(None)
    }
}

/// Brings the project manifest written `content` up to date: returns the
/// text of the manifest with the generated crate among its dependencies, or
/// `None` where the manifest is to stay as it is.
pub fn add_caller_utils_dependency(content: &str) -> (r: Result<Option<String>, ManifestError>)
    ensures
        reports(r, project_update(content@)),
{
    let mut doc = match parse_value(content) {
        Ok(v) => v,
        Err(e) => {
            return Err(ManifestError::Unreadable(e));
        },
    };
    if add_dependency(&mut doc) {
        match render(&doc) {
            Ok(text) => Ok(Some(text)),
            Err(e) => Err(ManifestError::Unwritable(e)),
        }
    } else {
        Ok(None)
    }
}

} // verus!
