//! The parts of `toml_edit` that Codex synchronization uses, each with what
//! it does to the document's contents.
//!
//! A document is seen as a map from keys to items; an item is a boolean, a
//! string, an array of strings, a (standard or inline) table of items, or
//! something else that synchronization never looks into. Formatting,
//! comments and key order are not part of this view.
use vstd::prelude::*;
use toml_edit::{Array, DocumentMut, Item, Table};
use crate::json::lookup;

verus! {

#[verifier::external_type_specification]
#[verifier::external_body]
pub struct ExDocumentMut(toml_edit::DocumentMut);

#[verifier::external_type_specification]
#[verifier::external_body]
pub struct ExItem(toml_edit::Item);

#[verifier::external_type_specification]
#[verifier::external_body]
pub struct ExTable(toml_edit::Table);

#[verifier::external_type_specification]
#[verifier::external_body]
pub struct ExArray(toml_edit::Array);

/// What a TOML item holds.
pub enum TomlItem {
    Bool(bool),
    Str(Seq<char>),
    /// An array of strings.
    Strs(Seq<Seq<char>>),
    /// A standard table (`[header]` or dotted).
    Table(Map<Seq<char>, TomlItem>),
    /// An inline table (`{ .. }`).
    Inline(Map<Seq<char>, TomlItem>),
    /// Any other value.
    Other,
}

/// The contents of a TOML text, when `toml_edit` accepts it.
pub uninterp spec fn toml_parsed(text: Seq<char>) -> Option<Map<Seq<char>, TomlItem>>;

/// The contents of a document's root table.
pub uninterp spec fn toml_root(doc: DocumentMut) -> Map<Seq<char>, TomlItem>;

/// What an item holds.
pub uninterp spec fn toml_item(item: Item) -> TomlItem;

/// The strings an array holds.
pub uninterp spec fn array_strs(a: Array) -> Seq<Seq<char>>;

/// The entries a table holds.
pub uninterp spec fn table_entries(t: Table) -> Map<Seq<char>, TomlItem>;

/// A table without entries.
pub open spec fn empty_table() -> Map<Seq<char>, TomlItem> {
    Map::empty()
}

/// The entries of a table or an inline table.
pub open spec fn entries_of(i: TomlItem) -> Option<Map<Seq<char>, TomlItem>> {
    match i {
        TomlItem::Table(m) => Some(m),
        TomlItem::Inline(m) => Some(m),
        _ => None,
    }
}

/// The entries under `key` when it holds a table or an inline table.
pub open spec fn table_like_at(root: Map<Seq<char>, TomlItem>, key: Seq<char>) -> Option<Map<Seq<char>, TomlItem>> {
    if root.contains_key(key) {
        entries_of(root[key])
    } else {
        None
    }
}

/// A table of the same kind as `i` with entries `m`.
pub open spec fn with_entries(i: TomlItem, m: Map<Seq<char>, TomlItem>) -> TomlItem {
    match i {
        TomlItem::Inline(_) => TomlItem::Inline(m),
        _ => TomlItem::Table(m),
    }
}

/// What an empty `Item::Table` becomes when inserted into `parent`: an
/// inline table inside an inline table, else a table.
pub open spec fn new_child(parent: TomlItem) -> TomlItem {
    match parent {
        TomlItem::Inline(_) => TomlItem::Inline(Map::empty()),
        _ => TomlItem::Table(Map::empty()),
    }
}

/// The standard table at `table.name`, when `table` is a standard table.
pub open spec fn sub_table(root: Map<Seq<char>, TomlItem>, table: Seq<char>, name: Seq<char>) -> Option<Map<Seq<char>, TomlItem>> {
    if root.contains_key(table) {
        match root[table] {
            TomlItem::Table(m) => if m.contains_key(name) {
                match m[name] {
                    TomlItem::Table(t) => Some(t),
                    _ => None,
                }
            } else {
                None
            },
            _ => None,
        }
    } else {
        None
    }
}

/// The root with the standard table at `table.name` replaced by `t`.
pub open spec fn with_sub_table(
    root: Map<Seq<char>, TomlItem>,
    table: Seq<char>,
    name: Seq<char>,
    t: Map<Seq<char>, TomlItem>,
) -> Map<Seq<char>, TomlItem> {
    match root[table] {
        TomlItem::Table(m) => root.insert(table, TomlItem::Table(m.insert(name, TomlItem::Table(t)))),
        _ => root,
    }
}

/// The boolean `flag` of a table-like item.
pub open spec fn flag_of(i: TomlItem, flag: Seq<char>) -> Option<bool> {
    match entries_of(i) {
        Some(m) => if m.contains_key(flag) {
            match m[flag] {
                TomlItem::Bool(b) => Some(b),
                _ => None,
            }
        } else {
            None
        },
        None => None,
    }
}

/// The view of a list of read flags.
pub open spec fn read_view(v: Seq<(String, Option<bool>)>) -> Seq<(Seq<char>, Option<bool>)> {
    v.map_values(|p: (String, Option<bool>)| (p.0@, p.1))
}

/// The entries read from a table: one per key, each with its flag.
pub open spec fn reads(v: Seq<(Seq<char>, Option<bool>)>, m: Map<Seq<char>, TomlItem>, flag: Seq<char>) -> bool {
    &&& crate::config::keys_unique(v)
    &&& forall|k: Seq<char>| m.contains_key(k) <==> crate::json::has_key(v, k)
    &&& forall|i: int| 0 <= i < v.len() ==> (#[trigger] v[i]).1 == flag_of(m[v[i].0], flag)
}

/// `str::parse::<toml_edit::DocumentMut>`: a document exactly when the text
/// is valid TOML, holding what the text holds.
#[verifier::external_body]
pub(crate) fn toml_parse(text: &str) -> (r: Option<DocumentMut>)
    ensures
        r is Some <==> toml_parsed(text@) is Some,
        r matches Some(d) ==> toml_parsed(text@) == Some(toml_root(d)),
{
    text.parse::<DocumentMut>().ok()
}

/// `DocumentMut::new`: an empty document.
#[verifier::external_body]
pub(crate) fn toml_new() -> (r: DocumentMut)
    ensures
        toml_root(r) == empty_table(),
{
    DocumentMut::new()
}

/// `Table::contains_key` on the document's root table.
#[verifier::external_body]
pub(crate) fn doc_contains(doc: &DocumentMut, key: &str) -> (r: bool)
    ensures
        r == toml_root(*doc).contains_key(key@),
{
    doc.contains_key(key)
}

/// `Table::insert` of a new empty `Item::Table` under `key` of the root table.
#[verifier::external_body]
pub(crate) fn doc_insert_table(doc: &mut DocumentMut, key: &str)
    ensures
        toml_root(*final(doc)) == toml_root(*old(doc)).insert(key@, TomlItem::Table(Map::empty())),
{
    doc.insert(key, Item::Table(Table::new()));
}

/// `Item::as_table_like` on the root entry `key`: whether it is present and
/// a table or an inline table.
#[verifier::external_body]
pub(crate) fn doc_is_table_like(doc: &DocumentMut, key: &str) -> (r: bool)
    ensures
        r == table_like_at(toml_root(*doc), key@) is Some,
{
    doc.get(key).and_then(|i| i.as_table_like()).is_some()
}

/// `TableLike::iter` over the table-like root entry `table`: each entry's
/// name with `Item::get(flag)` read by `Item::as_bool`; `None` when `table`
/// is missing or not table-like. What is read is stated for a standard
/// table only: an inline table's iterator also yields the empty placeholder
/// items that `toml_edit`'s indexing operators can leave in it.
#[verifier::external_body]
pub(crate) fn doc_flags(doc: &DocumentMut, table: &str, flag: &str) -> (r: Option<Vec<(String, Option<bool>)>>)
    ensures
        r is Some <==> table_like_at(toml_root(*doc), table@) is Some,
        r matches Some(v) ==> (toml_root(*doc)[table@] is Table ==> reads(
            read_view(v@),
            table_like_at(toml_root(*doc), table@)->Some_0,
            flag@,
        )),
{
    let t = doc.get(table)?.as_table_like()?;
    Some(t.iter().map(|(name, item)| (name.to_string(), item.get(flag).and_then(|v| v.as_bool()))).collect())
}

/// `TableLike::contains_key(name)` on the table-like root entry `table`.
#[verifier::external_body]
pub(crate) fn entry_contains(doc: &DocumentMut, table: &str, name: &str) -> (r: bool)
    ensures
        r == (table_like_at(toml_root(*doc), table@) matches Some(m) && m.contains_key(name@)),
{
    doc.get(table).and_then(|t| t.as_table_like()).is_some_and(|t| t.contains_key(name))
}

/// `TableLike::insert` of a new empty `Item::Table` under `name` of the
/// table-like root entry `table` (inside an inline table it becomes an
/// inline table).
#[verifier::external_body]
pub(crate) fn entry_insert_table(doc: &mut DocumentMut, table: &str, name: &str)
    ensures
        toml_root(*final(doc)) == match table_like_at(toml_root(*old(doc)), table@) {
            Some(m) => toml_root(*old(doc)).insert(
                table@,
                with_entries(toml_root(*old(doc))[table@], m.insert(name@, new_child(toml_root(*old(doc))[table@]))),
            ),
            None => toml_root(*old(doc)),
        },
{
    if let Some(t) = doc.get_mut(table).and_then(|t| t.as_table_like_mut()) {
        t.insert(name, Item::Table(Table::new()));
    }
}

/// `TableLike::get(name)` of the root entry `table`: whether it is an
/// `Item::Table` in a standard table.
#[verifier::external_body]
pub(crate) fn entry_is_table(doc: &DocumentMut, table: &str, name: &str) -> (r: bool)
    ensures
        r == sub_table(toml_root(*doc), table@, name@) is Some,
{
    matches!(doc.get(table).and_then(|t| t.as_table_like()).and_then(|t| t.get(name)), Some(Item::Table(_)))
}

/// `Table::remove(key)` in the `Item::Table` at `table.name`.
#[verifier::external_body]
pub(crate) fn entry_remove(doc: &mut DocumentMut, table: &str, name: &str, key: &str)
    ensures
        toml_root(*final(doc)) == match sub_table(toml_root(*old(doc)), table@, name@) {
            Some(t) => with_sub_table(toml_root(*old(doc)), table@, name@, t.remove(key@)),
            None => toml_root(*old(doc)),
        },
{
    if let Some(Item::Table(t)) = doc.get_mut(table).and_then(|t| t.as_table_like_mut()).and_then(|t| t.get_mut(name)) {
        t.remove(key);
    }
}

/// `Table::insert(key, item)` in the `Item::Table` at `table.name`.
#[verifier::external_body]
pub(crate) fn entry_insert(doc: &mut DocumentMut, table: &str, name: &str, key: &str, item: Item)
    ensures
        toml_root(*final(doc)) == match sub_table(toml_root(*old(doc)), table@, name@) {
            Some(t) => with_sub_table(toml_root(*old(doc)), table@, name@, t.insert(key@, toml_item(item))),
            None => toml_root(*old(doc)),
        },
{
    if let Some(Item::Table(t)) = doc.get_mut(table).and_then(|t| t.as_table_like_mut()).and_then(|t| t.get_mut(name)) {
        t.insert(key, item);
    }
}

/// `Item::Value` of a TOML string.
#[verifier::external_body]
pub(crate) fn item_str(s: &str) -> (r: Item)
    ensures
        toml_item(r) == TomlItem::Str(s@),
{
    Item::Value(s.into())
}

/// `Item::Value` of a TOML boolean.
#[verifier::external_body]
pub(crate) fn item_bool(b: bool) -> (r: Item)
    ensures
        toml_item(r) == TomlItem::Bool(b),
{
    Item::Value(b.into())
}

/// `Item::Value(Value::Array(..))` of an array of strings.
#[verifier::external_body]
pub(crate) fn item_array(a: Array) -> (r: Item)
    ensures
        toml_item(r) == TomlItem::Strs(array_strs(a)),
{
    Item::Value(toml_edit::Value::Array(a))
}

/// `Item::Table(..)`.
#[verifier::external_body]
pub(crate) fn item_table(t: Table) -> (r: Item)
    ensures
        toml_item(r) == TomlItem::Table(table_entries(t)),
{
    Item::Table(t)
}

/// `Array::new`.
#[verifier::external_body]
pub(crate) fn array_new() -> (r: Array)
    ensures
        array_strs(r) == Seq::<Seq<char>>::empty(),
{
    Array::new()
}

/// `Array::push` of a string.
#[verifier::external_body]
pub(crate) fn array_push(a: &mut Array, s: &str)
    ensures
        array_strs(*final(a)) == array_strs(*old(a)).push(s@),
{
    a.push(s);
}

/// `Table::new`.
#[verifier::external_body]
pub(crate) fn table_new() -> (r: Table)
    ensures
        table_entries(r) == empty_table(),
{
    Table::new()
}

/// `Table::insert(key, Item::Value(value))` of a string.
#[verifier::external_body]
pub(crate) fn table_insert_str(t: &mut Table, key: &str, value: &str)
    ensures
        table_entries(*final(t)) == table_entries(*old(t)).insert(key@, TomlItem::Str(value@)),
{
    t.insert(key, Item::Value(value.into()));
}

/// The state looked up in entries read from a table is the entry's flag.
pub proof fn lemma_reads_lookup(v: Seq<(Seq<char>, Option<bool>)>, m: Map<Seq<char>, TomlItem>, flag: Seq<char>, k: Seq<char>)
    requires
        reads(v, m, flag),
    ensures
        lookup(v, k) == if m.contains_key(k) { Some(flag_of(m[k], flag)) } else { None::<Option<bool>> },
{
    crate::json::lemma_lookup_found(v, k);
    if m.contains_key(k) {
        assert(crate::json::has_key(v, k));
        let i = choose|i: int| 0 <= i < v.len() && v[i].0 == k && lookup(v, k) == Some(v[i].1) && forall|t: int| 0 <= t < i ==> v[t].0 != k;
        assert(v[i].1 == flag_of(m[v[i].0], flag));
    }
}

} // verus!
