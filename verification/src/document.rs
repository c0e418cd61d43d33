//! The catalog file as an editable TOML document: what import reads of its
//! `profiles` entry and how it appends profile tables, leaving the rest of
//! the file, comments included, as it was.

use vstd::prelude::*;

use crate::catalog::{invalid_str, opt_view, runtime_key, Error, ErrorKind, Profile, ProfileView};

verus! {

#[verifier::external_type_specification]
#[verifier::external_body]
pub struct ExDocumentMut(toml_edit::DocumentMut);

#[verifier::external_type_specification]
#[verifier::external_body]
pub struct ExTable(toml_edit::Table);

/// What a value of a table holds, as far as import writes it.
pub enum TomlValue {
    /// A string.
    Str(Seq<char>),
    /// An array with this many elements.
    Array(nat),
    /// Anything else.
    Other,
}

/// A table: the text before its header (its decor prefix; `None` for the
/// default), and its values by key.
pub struct TableView {
    pub prefix: Option<Seq<char>>,
    pub entries: Map<Seq<char>, TomlValue>,
}

/// What a top-level entry of the document holds, as far as import reads it.
pub enum EntryView {
    /// An inline array with `len` elements and, if it has one, the text that
    /// follows it on its line (such as a comment).
    Array { len: nat, suffix: Option<Seq<char>> },
    /// An array of tables.
    Tables(Seq<TableView>),
    /// Anything else.
    Other,
}

/// The top-level entries of a document, by key; a key whose item is empty
/// (`Item::None`, which `Table::get` skips) is not among them.
pub uninterp spec fn document_entries(doc: toml_edit::DocumentMut) -> Map<Seq<char>, EntryView>;

/// The text of a document, as its `Display` writes it.
pub uninterp spec fn document_text(doc: toml_edit::DocumentMut) -> Seq<char>;

/// What parsing `source` as a TOML document gives: the document's entries,
/// or the error message.
pub uninterp spec fn toml_parse(source: Seq<char>) -> Result<Map<Seq<char>, EntryView>, Seq<char>>;

/// The values of a table, by key; as in `document_entries`, empty items are
/// left out.
pub uninterp spec fn table_entries(t: toml_edit::Table) -> Map<Seq<char>, TomlValue>;

/// The prefix of a table's decor: the text written before its header.
pub uninterp spec fn table_prefix(t: toml_edit::Table) -> Option<Seq<char>>;

/// No values at all.
pub open spec fn no_values() -> Map<Seq<char>, TomlValue> {
    Map::empty()
}

/// A table as plain values.
pub open spec fn table_view(t: toml_edit::Table) -> TableView {
    TableView { prefix: table_prefix(t), entries: table_entries(t) }
}

/// The kind of a top-level entry, as `entry_kind` reports it.
pub enum EntryKind {
    Missing,
    Array { len: usize, suffix: Option<String> },
    Tables,
    Other,
}

/// Parses `source` as an editable document.
///
/// Trusted: calls `DocumentMut::from_str` and, on failure, the error's
/// `Display`. Claims that the outcome, the parsed entries or the message,
/// depends only on `source`.
#[verifier::external_body]
pub fn parse_document(source: &str) -> (r: Result<toml_edit::DocumentMut, String>)
    ensures
        match r {
            Ok(d) => toml_parse(source@) == Ok::<Map<Seq<char>, EntryView>, Seq<char>>(
                document_entries(d),
            ),
            Err(m) => toml_parse(source@) == Err::<Map<Seq<char>, EntryView>, Seq<char>>(m@),
        },
{
    source.parse::<toml_edit::DocumentMut>().map_err(|error| error.to_string())
}

/// The kind of the document's entry `key`.
///
/// Trusted: calls `Table::get(key)`, `Item::as_array`, `Array::len`, the
/// array's `decor().suffix()` with `RawString::as_str`, and
/// `Item::is_array_of_tables`; the contract restates what they return in
/// terms of `document_entries`.
#[verifier::external_body]
pub fn entry_kind(doc: &toml_edit::DocumentMut, key: &str) -> (r: EntryKind)
    ensures
        match r {
            EntryKind::Missing => !document_entries(*doc).contains_key(key@),
            EntryKind::Array { len, suffix } => document_entries(*doc).contains_key(key@)
                && document_entries(*doc)[key@] == (EntryView::Array {
                len: len as nat,
                suffix: opt_view(suffix),
            }),
            EntryKind::Tables => document_entries(*doc).contains_key(key@) && document_entries(
                *doc,
            )[key@] is Tables,
            EntryKind::Other => document_entries(*doc).contains_key(key@) && document_entries(
                *doc,
            )[key@] is Other,
        },
{
    match doc.get(key) {
        None => EntryKind::Missing,
        Some(item) => match item.as_array() {
            Some(array) => EntryKind::Array {
                len: array.len(),
                suffix: array.decor().suffix().and_then(|s| s.as_str()).map(|s| s.to_owned()),
            },
            None if item.is_array_of_tables() => EntryKind::Tables,
            None => EntryKind::Other,
        },
    }
}

/// Sets the document's entry `key` to an empty array of tables.
///
/// Trusted: assigns `Item::ArrayOfTables(ArrayOfTables::new())` through
/// `IndexMut<&str>`, which replaces the value of an existing key in place or
/// inserts the key; no other entry changes.
#[verifier::external_body]
pub fn set_array_of_tables(doc: &mut toml_edit::DocumentMut, key: &str)
    ensures
        document_entries(*final(doc)) == document_entries(*old(doc)).insert(
            key@,
            EntryView::Tables(seq![]),
        ),
{
    doc[key] = toml_edit::Item::ArrayOfTables(toml_edit::ArrayOfTables::new());
}

/// A new, empty table.
///
/// Trusted: calls `Table::new`, which has no values and a default decor.
#[verifier::external_body]
pub fn table_new() -> (r: toml_edit::Table)
    ensures
        table_entries(r) == no_values(),
        table_prefix(r) is None,
{
    toml_edit::Table::new()
}

/// Sets the text written before the table's header.
///
/// Trusted: calls `Decor::set_prefix` on `Table::decor_mut`; the values stay.
#[verifier::external_body]
pub fn table_set_prefix(t: &mut toml_edit::Table, prefix: &str)
    ensures
        table_entries(*final(t)) == table_entries(*old(t)),
        table_prefix(*final(t)) == Some(prefix@),
{
    t.decor_mut().set_prefix(prefix);
}

/// Sets the table's value `key` to the string `v`.
///
/// Trusted: assigns `value(v)` through `IndexMut<&str>` for `Table`, which
/// replaces or inserts the key; other values and the decor stay.
#[verifier::external_body]
pub fn table_insert_str(t: &mut toml_edit::Table, key: &str, v: &str)
    ensures
        table_entries(*final(t)) == table_entries(*old(t)).insert(key@, TomlValue::Str(v@)),
        table_prefix(*final(t)) == table_prefix(*old(t)),
{
    t[key] = toml_edit::value(v);
}

/// Sets the table's value `key` to an empty array.
///
/// Trusted: assigns `value(Array::new())` through `IndexMut<&str>` for
/// `Table`; other values and the decor stay.
#[verifier::external_body]
pub fn table_insert_empty_array(t: &mut toml_edit::Table, key: &str)
    ensures
        table_entries(*final(t)) == table_entries(*old(t)).insert(key@, TomlValue::Array(0)),
        table_prefix(*final(t)) == table_prefix(*old(t)),
{
    t[key] = toml_edit::value(toml_edit::Array::new());
}

/// Appends table `t` to the document's array of tables `key`; `false`, and
/// no change, when that entry is not an array of tables.
///
/// Trusted: calls `Table::get_mut(key)`, `Item::as_array_of_tables_mut`, and
/// `ArrayOfTables::push`, which appends.
#[verifier::external_body]
pub fn push_table(doc: &mut toml_edit::DocumentMut, key: &str, t: toml_edit::Table) -> (r: bool)
    ensures
        match document_entries(*old(doc)).get(key@) {
            Some(EntryView::Tables(ts)) => r && document_entries(*final(doc)) == document_entries(
                *old(doc),
            ).insert(key@, EntryView::Tables(ts.push(table_view(t)))),
            _ => !r && document_entries(*final(doc)) == document_entries(*old(doc)),
        },
{
    match doc.get_mut(key) {
        Some(item) => match item.as_array_of_tables_mut() {
            Some(tables) => {
                tables.push(t);
                true
            },
            None => false,
        },
        None => false,
    }
}

/// The text of the document.
///
/// Trusted: calls `DocumentMut`'s `Display` through `to_string`.
#[verifier::external_body]
pub fn render(doc: &toml_edit::DocumentMut) -> (r: String)
    ensures
        r@ == document_text(*doc),
{
    doc.to_string()
}

/// The values of the `[[profiles]]` table that import writes for profile
/// `p`: `id`, `name`, `runtime`, `model` when the profile has one, and an
/// empty `args` array.
pub open spec fn profile_values(p: ProfileView) -> Map<Seq<char>, TomlValue> {
    let base = Map::<Seq<char>, TomlValue>::empty().insert("id"@, TomlValue::Str(p.id)).insert(
        "name"@,
        TomlValue::Str(p.name),
    ).insert("runtime"@, TomlValue::Str(runtime_key(p.runtime)));
    let with_model = match p.model {
        Some(m) => base.insert("model"@, TomlValue::Str(m)),
        None => base,
    };
    with_model.insert("args"@, TomlValue::Array(0))
}

/// The table that import writes for profile `p`, with the given prefix.
pub open spec fn profile_table(p: ProfileView, prefix: Option<Seq<char>>) -> TableView {
    TableView { prefix, entries: profile_values(p) }
}

/// Builds the `[[profiles]]` table for profile `p`.
pub fn build_profile_table(p: &Profile, prefix: Option<String>) -> (t: toml_edit::Table)
    ensures
        table_view(t) == profile_table(p@, opt_view(prefix)),
{
    let mut t = table_new();
    match &prefix {
        Some(text) => table_set_prefix(&mut t, text.as_str()),
        None => {},
    }
    table_insert_str(&mut t, "id", p.id.as_str());
    table_insert_str(&mut t, "name", p.name.as_str());
    table_insert_str(&mut t, "runtime", p.runtime.key());
    match &p.model {
        Some(m) => table_insert_str(&mut t, "model", m.as_str()),
        None => {},
    }
    table_insert_empty_array(&mut t, "args");
    assert(table_entries(t) =~= profile_values(p@));
    t
}

/// The `profiles` entry after appending profile `p` to entry `e`: a missing
/// entry or an empty inline array becomes an array of tables whose first
/// table carries the array's trailing text as its prefix, followed by a
/// line break. `None` when the entry cannot take tables.
pub open spec fn entry_after_append(e: Option<EntryView>, p: ProfileView) -> Option<EntryView> {
    match e {
        None => Some(EntryView::Tables(seq![profile_table(p, None)])),
        Some(EntryView::Array { len, suffix }) => if len == 0 {
            Some(
                EntryView::Tables(
                    seq![
                        profile_table(
                            p,
                            match suffix {
                                Some(c) => Some(c + "\n"@),
                                None => None,
                            },
                        ),
                    ],
                ),
            )
        } else {
            None
        },
        Some(EntryView::Tables(ts)) => Some(EntryView::Tables(ts.push(profile_table(p, None)))),
        Some(EntryView::Other) => None,
    }
}

/// The values `m` are profile `p`'s: its ID, name, runtime key, its model
/// when it has one, an empty `args` array, and nothing else.
pub open spec fn holds_profile(m: Map<Seq<char>, TomlValue>, p: ProfileView) -> bool {
    &&& m.contains_key("id"@) && m["id"@] == TomlValue::Str(p.id)
    &&& m.contains_key("name"@) && m["name"@] == TomlValue::Str(p.name)
    &&& m.contains_key("runtime"@) && m["runtime"@] == TomlValue::Str(runtime_key(p.runtime))
    &&& m.contains_key("args"@) && m["args"@] == TomlValue::Array(0)
    &&& match p.model {
        Some(x) => m.contains_key("model"@) && m["model"@] == TomlValue::Str(x),
        None => !m.contains_key("model"@),
    }
    &&& forall|k: Seq<char>|
        #[trigger] m.contains_key(k) ==> k == "id"@ || k == "name"@ || k == "runtime"@ || k
            == "args"@ || k == "model"@
}

/// The `profiles` entry `e` cannot take tables: it is an inline array that
/// is not empty, or a value that is neither an array nor tables.
pub open spec fn refuses_tables(e: Option<EntryView>) -> bool {
    match e {
        Some(EntryView::Other) => true,
        Some(EntryView::Array { len, suffix }) => len > 0,
        _ => false,
    }
}

/// The table written for a profile holds exactly that profile's values.
pub proof fn lemma_profile_table_holds(p: ProfileView, prefix: Option<Seq<char>>)
    ensures
        holds_profile(profile_table(p, prefix).entries, p),
        profile_table(p, prefix).prefix == prefix,
{
    reveal_strlit("id");
    reveal_strlit("name");
    reveal_strlit("runtime");
    reveal_strlit("args");
    reveal_strlit("model");
    let m = profile_values(p);
    assert("id"@[0] == 'i' && "name"@[0] == 'n' && "runtime"@[0] == 'r' && "args"@[0] == 'a'
        && "model"@[0] == 'm');
    assert("id"@ != "name"@ && "id"@ != "runtime"@ && "id"@ != "args"@ && "id"@ != "model"@);
    assert("name"@ != "runtime"@ && "name"@ != "args"@ && "name"@ != "model"@);
    assert("runtime"@ != "args"@ && "runtime"@ != "model"@ && "args"@ != "model"@);
    assert(m.contains_key("id"@) && m["id"@] == TomlValue::Str(p.id));
    assert(m.contains_key("name"@) && m["name"@] == TomlValue::Str(p.name));
    assert(m.contains_key("runtime"@) && m["runtime"@] == TomlValue::Str(runtime_key(p.runtime)));
    assert(m.contains_key("args"@) && m["args"@] == TomlValue::Array(0));
}

/// Appending a profile to the `profiles` entry `e` fails only when `e`
/// refuses tables. With no entry yet, or an empty inline array, the entry
/// becomes an array holding just the profile's table; an array of tables
/// keeps its tables and gets the profile's table last.
pub proof fn lemma_append_profile_entry(e: Option<EntryView>, p: ProfileView)
    ensures
        entry_after_append(e, p) is None <==> refuses_tables(e),
        e is None ==> (entry_after_append(e, p) matches Some(EntryView::Tables(ts)) && ts.len() == 1
            && ts[0].prefix is None && holds_profile(ts[0].entries, p)),
        e matches Some(EntryView::Array { len, suffix }) ==> (len == 0 ==> (entry_after_append(
            e,
            p,
        ) matches Some(EntryView::Tables(ts)) && ts.len() == 1 && holds_profile(
            ts[0].entries,
            p,
        ))),
        e matches Some(EntryView::Tables(ts)) ==> (entry_after_append(e, p) matches Some(
            EntryView::Tables(ts2),
        ) && ts2.len() == ts.len() + 1 && ts2.subrange(0, ts.len() as int) == ts
            && ts2[ts.len() as int].prefix is None && holds_profile(ts2[ts.len() as int].entries, p)),
{
    lemma_profile_table_holds(p, None);
    match e {
        Some(EntryView::Array { len, suffix }) => {
            lemma_profile_table_holds(
                p,
                match suffix {
                    Some(c) => Some(c + "\n"@),
                    None => None,
                },
            );
        },
        Some(EntryView::Tables(ts)) => {
            let ts2 = ts.push(profile_table(p, None));
            assert(ts2.subrange(0, ts.len() as int) =~= ts);
        },
        _ => {},
    }
}

/// Appends a `[[profiles]]` table for profile `p` to the document; on
/// failure the document's entries are as they were.
pub fn append_profile(doc: &mut toml_edit::DocumentMut, p: &Profile) -> (r: Result<(), Error>)
    ensures
        match entry_after_append(document_entries(*old(doc)).get("profiles"@), p@) {
            Some(e) => r is Ok && document_entries(*final(doc)) == document_entries(
                *old(doc),
            ).insert("profiles"@, e),
            None => r matches Err(err) && err.kind == ErrorKind::InvalidInput && err.message@
                == "profiles must use [[profiles]] tables"@ && document_entries(*final(doc))
                == document_entries(*old(doc)),
        },
{
    let ghost before = document_entries(*doc);
    let kind = entry_kind(doc, "profiles");
    let (reset, comment) = match kind {
        EntryKind::Missing => (true, None),
        EntryKind::Array { len, suffix } => if len == 0 {
            (true, suffix)
        } else {
            (false, None)
        },
        EntryKind::Tables => (false, None),
        EntryKind::Other => (false, None),
    };
    if reset {
        set_array_of_tables(doc, "profiles");
    }
    let prefix: Option<String> = match comment {
        Some(c) => {
            let mut t = c;
            t.append("\n");
            Some(t)
        },
        None => None,
    };
    let table = build_profile_table(p, prefix);
    let pushed = push_table(doc, "profiles", table);
    if !pushed {
        return Err(invalid_str("profiles must use [[profiles]] tables"));
    }
    proof {
        if reset {
            assert(document_entries(*doc) =~= before.insert(
                "profiles"@,
                entry_after_append(before.get("profiles"@), p@)->0,
            ));
        }
    }
    Ok(())
}

} // verus!
