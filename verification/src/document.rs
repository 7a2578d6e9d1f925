//! TOML documents that are edited in place: what they hold, and the edits.

use vstd::prelude::*;

use crate::text::texts;

verus! {

/// What stands behind a key.
#[verifier::ext_equal]
pub enum TomlData {
    Integer(int),
    Text(Seq<char>),
    /// An array that holds texts alone.
    Texts(Seq<Seq<char>>),
    /// A value of another kind, as `toml_edit` writes it.
    Other(Seq<char>),
    /// A table or an array of tables that is no value: one with headers or with
    /// dotted keys, as `toml_edit` writes it.
    Nested(Seq<char>),
}

impl TomlData {
    pub open spec fn is_value(self) -> bool {
        !(self is Nested)
    }
}

/// A key of a table with what stands behind it, the comments in front of it and
/// the comment behind it on its line; and its layout: the white space and the
/// comments in front of the key, behind it, in front of the value and behind
/// that, and the value itself, as `toml_edit` writes them. What is no value has
/// no layout.
#[verifier::ext_equal]
pub struct TomlEntry {
    pub key: Seq<char>,
    pub before: Seq<Seq<char>>,
    pub after: Seq<Seq<char>>,
    pub margins: Seq<Seq<char>>,
    pub written: Seq<char>,
    pub data: TomlData,
}

/// A table: the comments in front of it and behind its header, the header with
/// the white space and the comments around it, as `toml_edit` writes them, and
/// its entries in order. Of an inline table the comments are those around it; a
/// table without a header has none.
#[verifier::ext_equal]
pub struct TomlTable {
    pub before: Seq<Seq<char>>,
    pub after: Seq<Seq<char>>,
    pub header: Seq<char>,
    pub entries: Seq<TomlEntry>,
}

/// A document: its tables, and the names of those directly in it, in the order
/// in which they first occur in the text.
///
/// The document itself is the table `None`; the comments at its end are those
/// behind it, and the text at its end stands for its header. `Some(name)` is a
/// table directly in the document, however it is written: with a header, inline
/// or with dotted keys. Tables further down and arrays of tables are entries of
/// the table they are in. Comments inside a value, an inline table among them,
/// are left out of the comments in front of entries and behind them.
#[verifier::ext_equal]
pub struct TomlDocument {
    pub tables: Map<Option<Seq<char>>, TomlTable>,
    pub order: Seq<Seq<char>>,
}

/// The document that `toml_edit::DocumentMut::from_str` reads from a text, or the
/// message with which it refuses the text.
pub uninterp spec fn toml_document(text: Seq<char>) -> Result<TomlDocument, Seq<char>>;

/// No key stands twice in a table.
pub open spec fn distinct_entries(entries: Seq<TomlEntry>) -> bool {
    forall|i: int, j: int|
        0 <= i < j < entries.len() ==> (#[trigger] entries[i]).key != (#[trigger] entries[j]).key
}

/// The place of a key among entries.
pub open spec fn key_at(entries: Seq<TomlEntry>, key: Seq<char>, i: int) -> bool {
    0 <= i < entries.len() && entries[i].key == key
}

/// A key occurs among entries.
pub open spec fn has_key(entries: Seq<TomlEntry>, key: Seq<char>) -> bool {
    exists|i: int| key_at(entries, key, i)
}

/// A key occurs among entries with a value.
pub open spec fn has_value(entries: Seq<TomlEntry>, key: Seq<char>) -> bool {
    exists|i: int| key_at(entries, key, i) && (#[trigger] entries[i]).data.is_value()
}

/// Entries that all hold values.
pub open spec fn values_only(entries: Seq<TomlEntry>) -> bool {
    forall|i: int| 0 <= i < entries.len() ==> (#[trigger] entries[i]).data.is_value()
}

/// A key occurs among entries with the given data.
pub open spec fn has_data(entries: Seq<TomlEntry>, key: Seq<char>, data: TomlData) -> bool {
    exists|i: int| key_at(entries, key, i) && (#[trigger] entries[i]).data == data
}

/// The tables of a document: the document itself is among them, no key stands
/// twice in a table, and none stands for both an entry and a table.
pub open spec fn are_tables(tables: Map<Option<Seq<char>>, TomlTable>) -> bool {
    &&& tables.contains_key(None)
    &&& forall|t: Option<Seq<char>>| #[trigger]
        tables.contains_key(t) ==> distinct_entries(tables[t].entries)
    &&& forall|name: Seq<char>|
        has_key(tables[None].entries, name) ==> !#[trigger] tables.contains_key(Some(name))
}

/// Names without one of them.
pub open spec fn without_name(names: Seq<Seq<char>>, name: Seq<char>) -> Seq<Seq<char>>
    decreases names.len(),
{
    if names.len() == 0 {
        Seq::empty()
    } else {
        let init = without_name(names.drop_last(), name);
        if names.last() == name {
            init
        } else {
            init.push(names.last())
        }
    }
}

/// Entries without those of a key.
pub open spec fn without(entries: Seq<TomlEntry>, key: Seq<char>) -> Seq<TomlEntry>
    decreases entries.len(),
{
    if entries.len() == 0 {
        Seq::empty()
    } else {
        let init = without(entries.drop_last(), key);
        if entries.last().key == key {
            init
        } else {
            init.push(entries.last())
        }
    }
}

/// Entries after a key was given new data. All others are as they were, in
/// their order. Where a value was there before, the entry keeps its place, its
/// comments and its margins.
pub open spec fn key_is_set(
    before: Seq<TomlEntry>,
    after: Seq<TomlEntry>,
    key: Seq<char>,
    data: TomlData,
) -> bool {
    &&& has_data(after, key, data)
    &&& without(after, key) == without(before, key)
    &&& forall|i: int|
        #![trigger before[i]]
        key_at(before, key, i) && before[i].data.is_value() ==> after == before.update(
            i,
            TomlEntry { data, written: after[i].written, ..before[i] },
        )
}

/// An entry without comments and without a layout.
pub open spec fn bare_entry(key: Seq<char>, data: TomlData) -> TomlEntry {
    TomlEntry {
        key,
        before: Seq::empty(),
        after: Seq::empty(),
        margins: Seq::empty(),
        written: Seq::empty(),
        data,
    }
}

/// What an entry holds, its layout left out.
pub open spec fn content(e: TomlEntry) -> TomlEntry {
    TomlEntry { margins: Seq::empty(), written: Seq::empty(), ..e }
}

/// The tables after a key of one of them was given new data. A new key comes last
/// in a table that holds values only, and without comments; the header of such a
/// table stays as it is.
pub open spec fn tables_with_key(
    before: Map<Option<Seq<char>>, TomlTable>,
    after: Map<Option<Seq<char>>, TomlTable>,
    table: Option<Seq<char>>,
    key: Seq<char>,
    data: TomlData,
) -> bool {
    &&& after.dom() == if table is None {
        before.dom().remove(Some(key))
    } else {
        before.dom()
    }
    &&& forall|t: Option<Seq<char>>|
        t != table && #[trigger] after.contains_key(t) ==> after[t] == before[t]
    &&& after[table].before == before[table].before
    &&& after[table].after == before[table].after
    &&& key_is_set(before[table].entries, after[table].entries, key, data)
    &&& values_only(before[table].entries) && !has_key(before[table].entries, key) && !(table is None
        && before.contains_key(Some(key))) ==> {
        let new = after[table].entries;
        &&& new.len() == before[table].entries.len() + 1
        &&& new.drop_last() == before[table].entries
        &&& content(new.last()) == bare_entry(key, data)
    }
    &&& table is None || values_only(before[table].entries) ==> after[table].header
        == before[table].header
}

/// The names of the tables after a key of one of them was given new data: a table
/// gives way to a value with its name at the top of the document. Where a table
/// holds no values, a header may come about that was not there.
pub open spec fn order_with_key(
    before: TomlDocument,
    after: TomlDocument,
    table: Option<Seq<char>>,
    key: Seq<char>,
) -> bool {
    &&& table is None ==> after.order == without_name(before.order, key)
    &&& table is Some && values_only(before.tables[table].entries) ==> after.order == before.order
}

/// A document after a table was added: an empty one without comments. The others
/// are as they were, in their order.
pub open spec fn table_is_added(before: TomlDocument, after: TomlDocument, name: Seq<char>) -> bool {
    let added = Some(name);
    &&& after.tables == before.tables.insert(
        added,
        TomlTable {
            before: Seq::empty(),
            after: Seq::empty(),
            header: after.tables[added].header,
            entries: Seq::empty(),
        },
    )
    &&& without_name(after.order, name) == before.order
}

/// A value to be written: a number, a text or a list of texts.
pub enum TomlValue {
    Integer(i64),
    Text(String),
    Texts(Vec<String>),
}

impl View for TomlValue {
    type V = TomlData;

    open spec fn view(&self) -> TomlData {
        match *self {
            TomlValue::Integer(n) => TomlData::Integer(n as int),
            TomlValue::Text(t) => TomlData::Text(t@),
            TomlValue::Texts(ts) => TomlData::Texts(texts(ts@)),
        }
    }
}

/// What stands in a document under a name.
#[derive(Clone, Copy, Debug, PartialEq, Eq, Structural)]
pub enum ItemKind {
    Absent,
    Table,
    Entry,
}

/// What stands in a document under a name.
pub open spec fn kind_in(tables: Map<Option<Seq<char>>, TomlTable>, name: Seq<char>) -> ItemKind {
    if tables.contains_key(Some(name)) {
        ItemKind::Table
    } else if has_key(tables[None].entries, name) {
        ItemKind::Entry
    } else {
        ItemKind::Absent
    }
}

/// The document that a text is.
pub open spec fn document_of(text: Seq<char>) -> TomlDocument {
    toml_document(text)->Ok_0
}

/// The tables of a text that is a document.
pub open spec fn tables_of(text: Seq<char>) -> Map<Option<Seq<char>>, TomlTable> {
    document_of(text).tables
}

/// A text is a document.
pub open spec fn is_document(text: Seq<char>) -> bool {
    toml_document(text) is Ok && are_tables(tables_of(text))
}

/// Reads a document: `toml_edit::DocumentMut::from_str`. What comes back is the
/// text of its error; where there is none, the text is a document.
#[verifier::external_body]
pub(crate) fn document_fault(text: &str) -> (r: Option<String>)
    ensures
        match r {
            Some(m) => toml_document(text@) == Err::<TomlDocument, Seq<char>>(m@),
            None => is_document(text@),
        },
{
    text.parse::<toml_edit::DocumentMut>().err().map(|e| e.to_string())
}

/// Looks a name up in a document: `toml_edit::Table::get` on the root table, and
/// `Item::is_table_like`.
#[verifier::external_body]
pub(crate) fn item_kind(text: &str, name: &str) -> (r: ItemKind)
    requires
        is_document(text@),
    ensures
        r == kind_in(tables_of(text@), name@),
{
    let doc = text.parse::<toml_edit::DocumentMut>().unwrap_or_default();
    match doc.get(name).map(|item| item.is_table_like()) {
        None => ItemKind::Absent,
        Some(true) => ItemKind::Table,
        Some(false) => ItemKind::Entry,
    }
}

/// Adds an empty table to a document: `toml_edit::Table::insert` of
/// `toml_edit::table()` on the root table, and the document's `to_string`. The
/// result reads as the same document with that table in addition; the other
/// tables come in the same order. Where the new one comes among them, and how its
/// header is spaced, is left open.
#[verifier::external_body]
pub(crate) fn add_table(text: &str, name: &str) -> (r: String)
    requires
        is_document(text@),
        kind_in(tables_of(text@), name@) == ItemKind::Absent,
    ensures
        is_document(r@),
        table_is_added(document_of(text@), document_of(r@), name@),
{
    let mut doc = text.parse::<toml_edit::DocumentMut>().unwrap_or_default();
    doc.insert(name, toml_edit::table());
    doc.to_string()
}

/// Takes a name out of a document: `toml_edit::Table::remove` on the root table,
/// and the document's `to_string`. The result reads as the same document without
/// the entry or the table of that name; the comments around it go with it.
#[verifier::external_body]
pub(crate) fn remove_item(text: &str, name: &str) -> (r: String)
    requires
        is_document(text@),
    ensures
        is_document(r@),
        tables_of(r@) == tables_of(text@).remove(Some(name@)).insert(
            None,
            TomlTable {
                entries: without(tables_of(text@)[None].entries, name@),
                ..tables_of(text@)[None]
            },
        ),
        document_of(r@).order == without_name(document_of(text@).order, name@),
{
    let mut doc = text.parse::<toml_edit::DocumentMut>().unwrap_or_default();
    doc.remove(name);
    doc.to_string()
}

/// The table that a path leads to: the document itself, or a table in it.
pub open spec fn table_in(path: Seq<String>) -> Option<Seq<char>> {
    if path.len() == 1 {
        None
    } else {
        Some(path[0]@)
    }
}

/// Puts a value behind a key of the document, or of a table in it: `IndexMut` of
/// `toml_edit::Item` along the path, a new `Item::Value` with the decor of the
/// value that was there, and the document's `to_string`.
///
/// The result reads as a document in which the key holds the value. The other
/// entries of its table are there as before, in their order and with their
/// layout, the comments around the table too, and the other tables are untouched;
/// at the top of the document the value takes the place of a table with its name.
/// Where the key held a value, its entry stays where it was, with the white space
/// and the comments around it. A new key comes last in its table and without
/// comments, where the table holds values only and the key takes no table's
/// place; where else it goes, and how it is spaced, is left open. The tables come
/// in the same order, and the header of the table is as before, where the table
/// holds values only or is the document itself.
#[verifier::external_body]
pub(crate) fn set_value(text: &str, path: &Vec<String>, value: &TomlValue) -> (r: String)
    requires
        is_document(text@),
        path@.len() == 1 || (path@.len() == 2 && tables_of(text@).contains_key(Some(path@[0]@))),
    ensures
        is_document(r@),
        tables_with_key(
            tables_of(text@),
            tables_of(r@),
            table_in(path@),
            path@.last()@,
            value@,
        ),
        order_with_key(document_of(text@), document_of(r@), table_in(path@), path@.last()@),
{
    let mut doc = text.parse::<toml_edit::DocumentMut>().unwrap_or_default();
    let item = path.iter().fold(doc.as_item_mut(), |item, key| &mut item[key.as_str()]);
    let mut new = match value {
        TomlValue::Integer(n) => toml_edit::Value::from(*n),
        TomlValue::Text(t) => toml_edit::Value::from(t),
        TomlValue::Texts(ts) => ts.iter().collect(),
    };
    *new.decor_mut() = item.as_value().map(|v| v.decor().clone()).unwrap_or_default();
    *item = toml_edit::Item::Value(new);
    doc.to_string()
}

/// An entry whose value is left open; its comments and margins show.
pub open spec fn opened(e: TomlEntry) -> TomlEntry {
    if e.data.is_value() {
        TomlEntry { data: TomlData::Integer(0), written: Seq::empty(), ..e }
    } else {
        e
    }
}

/// The entries whose key is kept, in order, with their comments; the values of
/// those that are edited are left open.
pub open spec fn outline(
    entries: Seq<TomlEntry>,
    kept: spec_fn(Seq<char>) -> bool,
    edited: spec_fn(Seq<char>) -> bool,
) -> Seq<TomlEntry>
    decreases entries.len(),
{
    if entries.len() == 0 {
        Seq::empty()
    } else {
        let init = outline(entries.drop_last(), kept, edited);
        let e = entries.last();
        if !kept(e.key) {
            init
        } else if edited(e.key) {
            init.push(opened(e))
        } else {
            init.push(e)
        }
    }
}

/// A key that is not kept leaves no trace in the outline.
pub(crate) proof fn outline_without(
    entries: Seq<TomlEntry>,
    key: Seq<char>,
    kept: spec_fn(Seq<char>) -> bool,
    edited: spec_fn(Seq<char>) -> bool,
)
    requires
        !kept(key),
    ensures
        outline(without(entries, key), kept, edited) == outline(entries, kept, edited),
    decreases entries.len(),
{
    if entries.len() > 0 {
        let init = entries.drop_last();
        outline_without(init, key, kept, edited);
        if entries.last().key != key {
            assert(without(entries, key).drop_last() =~= without(init, key));
        }
    }
}

/// A new value in the place of a value leaves the outline as it is, where the key
/// is edited.
pub(crate) proof fn outline_update(
    entries: Seq<TomlEntry>,
    i: int,
    data: TomlData,
    written: Seq<char>,
    kept: spec_fn(Seq<char>) -> bool,
    edited: spec_fn(Seq<char>) -> bool,
)
    requires
        0 <= i < entries.len(),
        entries[i].data.is_value(),
        data.is_value(),
        edited(entries[i].key),
    ensures
        outline(entries.update(i, TomlEntry { data, written, ..entries[i] }), kept, edited) == outline(
            entries,
            kept,
            edited,
        ),
    decreases entries.len(),
{
    let changed = entries.update(i, TomlEntry { data, written, ..entries[i] });
    let init = entries.drop_last();
    if i == entries.len() - 1 {
        assert(changed.drop_last() =~= init);
        assert(opened(changed.last()) == opened(entries.last()));
    } else {
        outline_update(init, i, data, written, kept, edited);
        assert(changed.drop_last() =~= init.update(i, TomlEntry { data, written, ..entries[i] }));
    }
}

/// The outline shows which of the keys that are kept have values.
pub(crate) proof fn outline_value(
    entries: Seq<TomlEntry>,
    key: Seq<char>,
    kept: spec_fn(Seq<char>) -> bool,
    edited: spec_fn(Seq<char>) -> bool,
)
    requires
        kept(key),
    ensures
        has_value(outline(entries, kept, edited), key) == has_value(entries, key),
    decreases entries.len(),
{
    let shown = outline(entries, kept, edited);
    if entries.len() > 0 {
        let init = entries.drop_last();
        let shown_init = outline(init, kept, edited);
        let e = entries.last();
        outline_value(init, key, kept, edited);
        if has_value(init, key) {
            let i = choose|i: int| key_at(init, key, i) && (#[trigger] init[i]).data.is_value();
            assert(key_at(entries, key, i) && entries[i].data.is_value());
            let j = choose|j: int|
                key_at(shown_init, key, j) && (#[trigger] shown_init[j]).data.is_value();
            assert(key_at(shown, key, j) && shown[j].data.is_value());
        } else if e.key == key && e.data.is_value() {
            assert(key_at(entries, key, entries.len() - 1) && entries[entries.len()
                - 1].data.is_value());
            assert(key_at(shown, key, shown.len() - 1) && shown[shown.len() - 1].data.is_value());
        } else {
            assert forall|j: int| #![trigger shown[j]]
                !(key_at(shown, key, j) && shown[j].data.is_value()) by {
                if key_at(shown, key, j) && shown[j].data.is_value() {
                    if j < shown_init.len() {
                        assert(shown[j] == shown_init[j]);
                        assert(key_at(shown_init, key, j) && shown_init[j].data.is_value());
                    }
                }
            }
            assert forall|i: int| #![trigger entries[i]]
                !(key_at(entries, key, i) && entries[i].data.is_value()) by {
                if key_at(entries, key, i) && entries[i].data.is_value() && i < init.len() {
                    assert(key_at(init, key, i) && init[i].data.is_value());
                }
            }
        }
    }
}

/// The outline shows the data of the keys that are kept and not edited.
pub(crate) proof fn outline_data(
    entries: Seq<TomlEntry>,
    key: Seq<char>,
    data: TomlData,
    kept: spec_fn(Seq<char>) -> bool,
    edited: spec_fn(Seq<char>) -> bool,
)
    requires
        kept(key),
        !edited(key),
    ensures
        has_data(outline(entries, kept, edited), key, data) == has_data(entries, key, data),
    decreases entries.len(),
{
    let shown = outline(entries, kept, edited);
    if entries.len() > 0 {
        let init = entries.drop_last();
        let shown_init = outline(init, kept, edited);
        let n = entries.len() - 1;
        outline_data(init, key, data, kept, edited);
        if has_data(entries, key, data) {
            let i = choose|i: int| key_at(entries, key, i) && (#[trigger] entries[i]).data == data;
            if i < n {
                assert(key_at(init, key, i) && init[i].data == data);
                let j = choose|j: int|
                    key_at(shown_init, key, j) && (#[trigger] shown_init[j]).data == data;
                assert(key_at(shown, key, j) && shown[j].data == data);
            } else {
                let j = shown.len() - 1;
                assert(key_at(shown, key, j) && shown[j].data == data);
            }
        }
        if has_data(shown, key, data) {
            let j = choose|j: int| key_at(shown, key, j) && (#[trigger] shown[j]).data == data;
            if j < shown_init.len() {
                assert(key_at(shown_init, key, j) && shown_init[j].data == data);
                let i = choose|i: int| key_at(init, key, i) && (#[trigger] init[i]).data == data;
                assert(key_at(entries, key, i) && entries[i].data == data);
            } else {
                assert(key_at(entries, key, n) && entries[n].data == data);
            }
        }
    } else {
        assert(shown =~= entries);
    }
}

/// An entry with the key of another, and with its comments and margins.
pub open spec fn is_laid_out_as(a: TomlEntry, b: TomlEntry) -> bool {
    a.key == b.key && a.before == b.before && a.after == b.after && a.margins == b.margins
}

/// Entries hold the key of an entry with its comments and margins.
pub open spec fn has_layout_of(entries: Seq<TomlEntry>, e: TomlEntry) -> bool {
    exists|i: int| 0 <= i < entries.len() && is_laid_out_as(#[trigger] entries[i], e)
}

/// The outline shows the comments and margins of the keys that are kept.
pub(crate) proof fn outline_layout(
    entries: Seq<TomlEntry>,
    e: TomlEntry,
    kept: spec_fn(Seq<char>) -> bool,
    edited: spec_fn(Seq<char>) -> bool,
)
    requires
        kept(e.key),
    ensures
        has_layout_of(outline(entries, kept, edited), e) == has_layout_of(entries, e),
    decreases entries.len(),
{
    let shown = outline(entries, kept, edited);
    if entries.len() > 0 {
        let init = entries.drop_last();
        let shown_init = outline(init, kept, edited);
        let n = entries.len() - 1;
        outline_layout(init, e, kept, edited);
        if has_layout_of(entries, e) {
            let i = choose|i: int| 0 <= i < entries.len() && is_laid_out_as(#[trigger] entries[i], e);
            if i < n {
                assert(is_laid_out_as(init[i], e));
                let j = choose|j: int|
                    0 <= j < shown_init.len() && is_laid_out_as(#[trigger] shown_init[j], e);
                assert(is_laid_out_as(shown[j], e));
            } else {
                assert(is_laid_out_as(shown[shown.len() - 1], e));
            }
        }
        if has_layout_of(shown, e) {
            let j = choose|j: int| 0 <= j < shown.len() && is_laid_out_as(#[trigger] shown[j], e);
            if j < shown_init.len() {
                assert(is_laid_out_as(shown_init[j], e));
                let i = choose|i: int|
                    0 <= i < init.len() && is_laid_out_as(#[trigger] init[i], e);
                assert(is_laid_out_as(entries[i], e));
            } else {
                assert(is_laid_out_as(entries[n], e));
            }
        }
    } else {
        assert(shown =~= entries);
    }
}

/// The outline shows the entries that are kept and not edited.
pub(crate) proof fn outline_entry(
    entries: Seq<TomlEntry>,
    e: TomlEntry,
    kept: spec_fn(Seq<char>) -> bool,
    edited: spec_fn(Seq<char>) -> bool,
)
    requires
        kept(e.key),
        !edited(e.key),
    ensures
        outline(entries, kept, edited).contains(e) == entries.contains(e),
    decreases entries.len(),
{
    let shown = outline(entries, kept, edited);
    if entries.len() > 0 {
        let init = entries.drop_last();
        let shown_init = outline(init, kept, edited);
        let n = entries.len() - 1;
        outline_entry(init, e, kept, edited);
        if entries.contains(e) {
            let i = choose|i: int| 0 <= i < entries.len() && entries[i] == e;
            if i < n {
                assert(init[i] == e);
                let j = choose|j: int| 0 <= j < shown_init.len() && shown_init[j] == e;
                assert(shown[j] == e);
            } else {
                assert(shown[shown.len() - 1] == e);
            }
        }
        if shown.contains(e) {
            let j = choose|j: int| 0 <= j < shown.len() && shown[j] == e;
            if j < shown_init.len() {
                assert(shown_init[j] == e);
                let i = choose|i: int| 0 <= i < init.len() && init[i] == e;
                assert(entries[i] == e);
            } else {
                assert(entries[n] == e);
            }
        }
    } else {
        assert(shown =~= entries);
    }
}

/// The names that are kept, in order.
pub open spec fn names_where(names: Seq<Seq<char>>, kept: spec_fn(Seq<char>) -> bool) -> Seq<
    Seq<char>,
>
    decreases names.len(),
{
    if names.len() == 0 {
        Seq::empty()
    } else {
        let init = names_where(names.drop_last(), kept);
        if kept(names.last()) {
            init.push(names.last())
        } else {
            init
        }
    }
}

/// A name that is not kept leaves no trace among those that are.
pub(crate) proof fn names_without(
    names: Seq<Seq<char>>,
    name: Seq<char>,
    kept: spec_fn(Seq<char>) -> bool,
)
    requires
        !kept(name),
    ensures
        names_where(without_name(names, name), kept) == names_where(names, kept),
    decreases names.len(),
{
    if names.len() > 0 {
        let init = names.drop_last();
        names_without(init, name, kept);
        if names.last() != name {
            assert(without_name(names, name).drop_last() =~= without_name(init, name));
        }
    }
}

/// Entries without a key hold what the entries hold behind the other keys.
pub(crate) proof fn without_keeps(entries: Seq<TomlEntry>, key: Seq<char>, other: Seq<char>)
    requires
        other != key,
    ensures
        has_key(without(entries, key), other) == has_key(entries, other),
        forall|data: TomlData|
            has_data(without(entries, key), other, data) == #[trigger] has_data(
                entries,
                other,
                data,
            ),
    decreases entries.len(),
{
    let rest = without(entries, key);
    if entries.len() > 0 {
        let init = entries.drop_last();
        let rest_init = without(init, key);
        without_keeps(init, key, other);
        let n = entries.len() - 1;
        assert forall|i: int| key_at(init, other, i) implies #[trigger] key_at(entries, other, i) by {}
        if has_key(entries, other) {
            let i = choose|i: int| key_at(entries, other, i);
            if i < n {
                assert(key_at(init, other, i));
                let j = choose|j: int| key_at(rest_init, other, j);
                assert(key_at(rest, other, j));
            } else {
                assert(key_at(rest, other, rest.len() - 1));
            }
        }
        if has_key(rest, other) {
            let j = choose|j: int| key_at(rest, other, j);
            if j < rest_init.len() {
                assert(key_at(rest_init, other, j));
                let i = choose|i: int| key_at(init, other, i);
                assert(key_at(entries, other, i));
            } else {
                assert(key_at(entries, other, n));
            }
        }
        assert forall|data: TomlData|
            has_data(rest, other, data) == #[trigger] has_data(entries, other, data) by {
            assert(has_data(rest_init, other, data) == has_data(init, other, data));
            if has_data(entries, other, data) {
                let i = choose|i: int|
                    key_at(entries, other, i) && (#[trigger] entries[i]).data == data;
                if i < n {
                    assert(key_at(init, other, i) && init[i].data == data);
                    let j = choose|j: int|
                        key_at(rest_init, other, j) && (#[trigger] rest_init[j]).data == data;
                    assert(key_at(rest, other, j) && rest[j].data == data);
                } else {
                    let j = rest.len() - 1;
                    assert(key_at(rest, other, j) && rest[j].data == data);
                }
            }
            if has_data(rest, other, data) {
                let j = choose|j: int| key_at(rest, other, j) && (#[trigger] rest[j]).data == data;
                if j < rest_init.len() {
                    assert(key_at(rest_init, other, j) && rest_init[j].data == data);
                    let i = choose|i: int|
                        key_at(init, other, i) && (#[trigger] init[i]).data == data;
                    assert(key_at(entries, other, i) && entries[i].data == data);
                } else {
                    assert(key_at(entries, other, n) && entries[n].data == data);
                }
            }
        }
    } else {
        assert(rest =~= entries);
    }
}

/// Entries that all hold values still do so without a key.
pub(crate) proof fn without_holds_values(entries: Seq<TomlEntry>, key: Seq<char>)
    requires
        values_only(entries),
    ensures
        values_only(without(entries, key)),
    decreases entries.len(),
{
    if entries.len() > 0 {
        assert(entries.last() == entries[entries.len() - 1]);
        without_holds_values(entries.drop_last(), key);
    }
}

/// A key that was taken out is not there.
pub(crate) proof fn without_lacks(entries: Seq<TomlEntry>, key: Seq<char>)
    ensures
        !has_key(without(entries, key), key),
    decreases entries.len(),
{
    if entries.len() > 0 {
        let init = entries.drop_last();
        without_lacks(init, key);
        let rest = without(entries, key);
        let rest_init = without(init, key);
        assert forall|i: int| !#[trigger] key_at(rest, key, i) by {
            if key_at(rest, key, i) && i < rest_init.len() {
                assert(key_at(rest_init, key, i));
            }
        }
    }
}

} // verus!
