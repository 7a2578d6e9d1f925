//! Edits of the configuration file that keep what the operator wrote around
//! the values.

use vstd::prelude::*;

use crate::config::{encryption_str, encryption_text, Config, Encryption, Env};
use crate::document::{
    add_table, are_tables, bare_entry, content, document_fault, document_of, has_data, has_key,
    has_layout_of, has_value, is_document, is_laid_out_as, item_kind, key_at, kind_in,
    names_where, names_without, outline, outline_data, outline_entry, outline_layout,
    outline_update, outline_value, outline_without, remove_item, set_value, table_is_added,
    tables_of, tables_with_key, toml_document, values_only, without, without_holds_values,
    without_keeps, without_lacks, ItemKind, TomlData, TomlDocument, TomlEntry, TomlTable,
    TomlValue,
};
use crate::text::{copy_texts, join3, texts};

verus! {

/// An edit of the configuration. The fields at the end are there to be refused.
#[derive(Clone, Debug)]
pub struct ConfigEdit {
    pub poll_interval_seconds: u64,
    pub cron_expression: Option<String>,
    pub sender: String,
    pub repos: Vec<String>,
    pub recipients: Vec<String>,
    pub smtp_host: String,
    pub smtp_port: u16,
    pub smtp_encryption: Encryption,
    pub smtp_username: String,
    pub smtp_password: Option<String>,
    pub admin_token: Option<String>,
    pub ui_bind_addr: Option<String>,
    pub ui_port: Option<u16>,
    pub trust_proxy_auth: Option<bool>,
    pub state_path: Option<String>,
}

/// A poll interval as the file can hold it. The file's numbers are signed: the
/// upper half of the range of 64 bits comes out negative, which no configuration
/// accepts.
pub open spec fn signed_seconds(interval: u64) -> int {
    if interval <= i64::MAX {
        interval as int
    } else {
        interval - 0x1_0000_0000_0000_0000
    }
}

/// The poll interval as the file can hold it.
fn interval_seconds(interval: u64) -> (r: i64)
    ensures
        r == signed_seconds(interval),
{
    if interval <= i64::MAX as u64 {
        interval as i64
    } else {
        -((u64::MAX - interval) as i64) - 1
    }
}

/// New data for a key of a table.
#[verifier::ext_equal]
pub struct ChangeView {
    pub table: Option<Seq<char>>,
    pub key: Seq<char>,
    pub data: TomlData,
}

pub open spec fn change(table: Option<Seq<char>>, key: Seq<char>, data: TomlData) -> ChangeView {
    ChangeView { table, key, data }
}

impl ConfigEdit {
    /// Whether the edit sets the password for the mail server: an empty one
    /// leaves it as it is.
    pub open spec fn sets_password(self) -> bool {
        self.smtp_password is Some && self.smtp_password->0@.len() > 0
    }

    /// The keys that the edit always sets.
    pub open spec fn fixed_changes(self) -> Seq<ChangeView> {
        let smtp = Some("smtp"@);
        seq![
            change(
                None,
                "poll_interval_seconds"@,
                TomlData::Integer(signed_seconds(self.poll_interval_seconds)),
            ),
            change(None, "sender"@, TomlData::Text(self.sender@)),
            change(None, "recipients"@, TomlData::Texts(texts(self.recipients@))),
            change(None, "repos"@, TomlData::Texts(texts(self.repos@))),
            change(smtp, "host"@, TomlData::Text(self.smtp_host@)),
            change(smtp, "port"@, TomlData::Integer(self.smtp_port as int)),
            change(
                smtp,
                "encryption"@,
                TomlData::Text(encryption_text(self.smtp_encryption)),
            ),
            change(smtp, "username"@, TomlData::Text(self.smtp_username@)),
        ]
    }

    pub open spec fn cron_change(self) -> Seq<ChangeView> {
        match self.cron_expression {
            Some(expr) => seq![change(None, "cron_expression"@, TomlData::Text(expr@))],
            None => Seq::empty(),
        }
    }

    pub open spec fn password_change(self) -> Seq<ChangeView> {
        if self.sets_password() {
            seq![change(Some("smtp"@), "password"@, TomlData::Text(self.smtp_password->0@))]
        } else {
            Seq::empty()
        }
    }

    pub open spec fn token_change(self) -> Seq<ChangeView> {
        match self.admin_token {
            Some(token) => seq![change(Some("ui"@), "admin_token"@, TomlData::Text(token@))],
            None => Seq::empty(),
        }
    }

    /// The keys that the edit sets.
    pub open spec fn changes(self) -> Seq<ChangeView> {
        self.fixed_changes() + self.cron_change() + self.password_change() + self.token_change()
    }

    /// Whether the edit sets a key.
    pub open spec fn sets(self, table: Option<Seq<char>>, key: Seq<char>) -> bool {
        exists|i: int|
            0 <= i < self.changes().len() && (#[trigger] self.changes()[i]).table == table
                && self.changes()[i].key == key
    }

    /// Whether the edit sets or removes a key.
    pub open spec fn touches(self, table: Option<Seq<char>>, key: Seq<char>) -> bool {
        self.sets(table, key) || (table is None && key == "cron_expression"@)
    }
}

/// The entries of a table that an edit keeps in place: those it does not touch,
/// and those it sets where a value was before.
pub open spec fn kept_in(
    tables: Map<Option<Seq<char>>, TomlTable>,
    edit: ConfigEdit,
    table: Option<Seq<char>>,
) -> spec_fn(Seq<char>) -> bool {
    |key: Seq<char>|
        !edit.touches(table, key) || (edit.sets(table, key) && has_value(
            tables[table].entries,
            key,
        ))
}

/// The keys of a table that an edit touches.
pub open spec fn edited_in(edit: ConfigEdit, table: Option<Seq<char>>) -> spec_fn(
    Seq<char>,
) -> bool {
    |key: Seq<char>| edit.touches(table, key)
}

/// A table that gives way to a value with its name.
pub open spec fn overwritten(edit: ConfigEdit, table: Option<Seq<char>>) -> bool {
    table is Some && edit.touches(None, table->0)
}

/// A table that an edit writes to.
pub open spec fn is_written(edit: ConfigEdit, table: Option<Seq<char>>) -> bool {
    table == Some("smtp"@) || (table == Some("ui"@) && edit.admin_token is Some)
}

/// Every table that an edit leaves keeps its comments, and its entries that the
/// edit keeps in place are there in the same order, with the white space and the
/// comments around them, and to the letter where the edit does not touch them. So
/// is its header, unless the edit writes to a table that holds more than values.
pub open spec fn same_outline(
    before: Map<Option<Seq<char>>, TomlTable>,
    after: Map<Option<Seq<char>>, TomlTable>,
    edit: ConfigEdit,
) -> bool {
    forall|t: Option<Seq<char>>| #[trigger]
        before.contains_key(t) && !overwritten(edit, t) ==> {
            &&& after.contains_key(t)
            &&& after[t].before == before[t].before
            &&& after[t].after == before[t].after
            &&& t is None || values_only(before[t].entries) || !is_written(edit, t)
                ==> after[t].header == before[t].header
            &&& outline(after[t].entries, kept_in(before, edit, t), edited_in(edit, t)) == outline(
                before[t].entries,
                kept_in(before, edit, t),
                edited_in(edit, t),
            )
        }
}

/// A change is there in the tables of a document.
pub open spec fn is_made(tables: Map<Option<Seq<char>>, TomlTable>, c: ChangeView) -> bool {
    tables.contains_key(c.table) && has_data(tables[c.table].entries, c.key, c.data)
}

/// What entries hold, their layout left out.
pub open spec fn contents(entries: Seq<TomlEntry>) -> Seq<TomlEntry> {
    entries.map_values(|e: TomlEntry| content(e))
}

/// Entries with data behind a key: where the key was, or at the end.
pub open spec fn with_data(entries: Seq<TomlEntry>, key: Seq<char>, data: TomlData) -> Seq<
    TomlEntry,
> {
    if has_key(entries, key) {
        let i = choose|i: int| key_at(entries, key, i);
        entries.update(i, TomlEntry { data, ..entries[i] })
    } else {
        entries.push(bare_entry(key, data))
    }
}

/// The entries of a table after changes, one by one.
pub open spec fn with_changes(
    entries: Seq<TomlEntry>,
    changes: Seq<ChangeView>,
    table: Option<Seq<char>>,
) -> Seq<TomlEntry>
    decreases changes.len(),
{
    if changes.len() == 0 {
        entries
    } else {
        let init = with_changes(entries, changes.drop_last(), table);
        let c = changes.last();
        if c.table == table {
            with_data(init, c.key, c.data)
        } else {
            init
        }
    }
}

/// The entries of a table, of which there are none where there is no such table.
pub open spec fn entries_in(
    tables: Map<Option<Seq<char>>, TomlTable>,
    table: Option<Seq<char>>,
) -> Seq<TomlEntry> {
    if tables.contains_key(table) {
        tables[table].entries
    } else {
        Seq::empty()
    }
}

/// What the entries hold that an edit starts from: without the schedule, where
/// the edit has none.
pub open spec fn kept_entries(
    tables: Map<Option<Seq<char>>, TomlTable>,
    edit: ConfigEdit,
    table: Option<Seq<char>>,
) -> Seq<TomlEntry> {
    if table is None && edit.cron_expression is None {
        without(contents(entries_in(tables, table)), "cron_expression"@)
    } else {
        contents(entries_in(tables, table))
    }
}

/// A table that holds values only. At the top of the document, moreover, no table
/// has a name that the edit touches.
pub open spec fn is_flat(
    tables: Map<Option<Seq<char>>, TomlTable>,
    edit: ConfigEdit,
    table: Option<Seq<char>>,
) -> bool {
    &&& values_only(entries_in(tables, table))
    &&& table is None ==> forall|name: Seq<char>| #[trigger]
        tables.contains_key(Some(name)) ==> !edit.touches(None, name)
}

/// A table after an edit was there before, or else the edit needs it, and it has
/// no comments.
pub open spec fn is_old_or_bare(
    before: Map<Option<Seq<char>>, TomlTable>,
    after: Map<Option<Seq<char>>, TomlTable>,
    edit: ConfigEdit,
    t: Option<Seq<char>>,
) -> bool {
    !before.contains_key(t) ==> {
        &&& t == Some("smtp"@) || (t == Some("ui"@) && edit.admin_token is Some)
        &&& after[t].before == Seq::<Seq<char>>::empty()
        &&& after[t].after == Seq::<Seq<char>>::empty()
    }
}

/// A document after an edit: what the edit does not touch is there as before,
/// every change is made, and nothing else is written. A table that the edit
/// needs is added without comments. In a flat table a key that was there keeps
/// its place, and a new one comes last.
pub open spec fn edited_from(
    before: Map<Option<Seq<char>>, TomlTable>,
    after: Map<Option<Seq<char>>, TomlTable>,
    edit: ConfigEdit,
) -> bool {
    &&& same_outline(before, after, edit)
    &&& forall|i: int|
        0 <= i < edit.changes().len() ==> is_made(after, #[trigger] edit.changes()[i])
    &&& edit.cron_expression is None ==> !has_key(after[None].entries, "cron_expression"@)
        && !after.contains_key(Some("cron_expression"@))
    &&& forall|t: Option<Seq<char>>| #[trigger]
        after.contains_key(t) ==> is_old_or_bare(before, after, edit, t)
    &&& forall|t: Option<Seq<char>>| #[trigger]
        after.contains_key(t) && is_flat(before, edit, t) ==> contents(after[t].entries)
            == with_changes(kept_entries(before, edit, t), edit.changes(), t)
}

/// The tables that an edit leaves come in the same order after it, where the
/// tables that it writes to hold values only.
pub open spec fn order_survives(
    before: TomlDocument,
    after: TomlDocument,
    edit: ConfigEdit,
) -> bool {
    is_flat(before.tables, edit, Some("smtp"@)) && (edit.admin_token is Some ==> is_flat(
        before.tables,
        edit,
        Some("ui"@),
    )) ==> names_where(after.order, stays_in(before.tables, edit)) == names_where(
        before.order,
        stays_in(before.tables, edit),
    )
}

/// The names of the tables that an edit leaves.
pub open spec fn stays_in(tables: Map<Option<Seq<char>>, TomlTable>, edit: ConfigEdit) -> spec_fn(
    Seq<char>,
) -> bool {
    |name: Seq<char>| tables.contains_key(Some(name)) && !overwritten(edit, Some(name))
}

/// A number that tells the keys of the configuration apart: the length of the
/// key and its first letter.
spec fn key_code(key: Seq<char>) -> int {
    1000 * key.len() + key[0] as int
}

/// The number of the key of each change.
spec fn change_code(edit: ConfigEdit, i: int) -> int {
    let cron = edit.cron_change().len();
    let password = edit.password_change().len();
    if i == 0 {
        21000 + 'p' as int
    } else if i == 1 {
        6000 + 's' as int
    } else if i == 2 {
        10000 + 'r' as int
    } else if i == 3 {
        5000 + 'r' as int
    } else if i == 4 {
        4000 + 'h' as int
    } else if i == 5 {
        4000 + 'p' as int
    } else if i == 6 {
        10000 + 'e' as int
    } else if i == 7 {
        8000 + 'u' as int
    } else if i < 8 + cron {
        15000 + 'c' as int
    } else if i < 8 + cron + password {
        8000 + 'p' as int
    } else {
        11000 + 'a' as int
    }
}

/// What holds of the list of changes of any edit: no key is set twice, no table
/// that is written to gives way to a value, and every value is plain.
proof fn changes_are_apart(edit: ConfigEdit)
    ensures
        forall|i: int, j: int|
            0 <= i < j < edit.changes().len() ==> (#[trigger] edit.changes()[i]).table != (
            #[trigger] edit.changes()[j]).table || edit.changes()[i].key != edit.changes()[j].key,
        forall|i: int|
            0 <= i < edit.changes().len() ==> {
                let c = #[trigger] edit.changes()[i];
                &&& c.data.is_value()
                &&& c.table is None || c.table == Some("smtp"@) || (c.table == Some("ui"@)
                    && edit.admin_token is Some)
                &&& c.table is None ==> c.key != "smtp"@ && c.key != "ui"@
                &&& c.table is None && edit.cron_expression is None ==> c.key
                    != "cron_expression"@
                &&& c.table is None ==> c.key != "state_path"@
                &&& c.table == Some("ui"@) ==> c.key == "admin_token"@
                &&& c.key == "password"@ ==> edit.sets_password()
            },
        "cron_expression"@ != "smtp"@,
        "cron_expression"@ != "ui"@,
        "smtp"@ != "ui"@,
{
    reveal_strlit("poll_interval_seconds");
    reveal_strlit("sender");
    reveal_strlit("recipients");
    reveal_strlit("repos");
    reveal_strlit("cron_expression");
    reveal_strlit("smtp");
    reveal_strlit("ui");
    reveal_strlit("host");
    reveal_strlit("port");
    reveal_strlit("encryption");
    reveal_strlit("username");
    reveal_strlit("password");
    reveal_strlit("admin_token");
    reveal_strlit("state_path");
    assert("poll_interval_seconds"@.len() == 21 && "poll_interval_seconds"@[0] == 'p');
    assert("sender"@.len() == 6 && "sender"@[0] == 's');
    assert("recipients"@.len() == 10 && "recipients"@[0] == 'r');
    assert("repos"@.len() == 5 && "repos"@[0] == 'r');
    assert("cron_expression"@.len() == 15 && "cron_expression"@[0] == 'c');
    assert("smtp"@.len() == 4 && "smtp"@[0] == 's');
    assert("ui"@.len() == 2 && "ui"@[0] == 'u');
    assert("host"@.len() == 4 && "host"@[0] == 'h');
    assert("port"@.len() == 4 && "port"@[0] == 'p');
    assert("encryption"@.len() == 10 && "encryption"@[0] == 'e');
    assert("username"@.len() == 8 && "username"@[0] == 'u');
    assert("password"@.len() == 8 && "password"@[0] == 'p');
    assert("admin_token"@.len() == 11 && "admin_token"@[0] == 'a');
    assert("state_path"@.len() == 10 && "state_path"@[0] == 's');
    let f = edit.fixed_changes();
    let c = edit.cron_change();
    let p = edit.password_change();
    let all = edit.changes();
    assert(all.len() == 8 + c.len() + p.len() + edit.token_change().len());
    assert forall|i: int| 0 <= i < all.len() implies {
        let c = #[trigger] all[i];
        &&& c.data.is_value()
        &&& c.table is None || c.table == Some("smtp"@) || (c.table == Some("ui"@)
            && edit.admin_token is Some)
        &&& c.table is None ==> c.key != "smtp"@ && c.key != "ui"@
        &&& c.table is None && edit.cron_expression is None ==> c.key != "cron_expression"@
        &&& c.table is None ==> c.key != "state_path"@
        &&& c.table == Some("ui"@) ==> c.key == "admin_token"@
        &&& c.key == "password"@ ==> edit.sets_password()
        &&& key_code(c.key) == change_code(edit, i)
    } by {
        if i < 8 {
            assert(all[i] == f[i]);
            assert(i == 0 || i == 1 || i == 2 || i == 3 || i == 4 || i == 5 || i == 6 || i == 7);
        } else if i < 8 + c.len() {
            assert(all[i] == c[0]);
        } else if i < 8 + c.len() + p.len() {
            assert(all[i] == p[0]);
        } else {
            assert(all[i] == edit.token_change()[0]);
        }
    }
    assert forall|i: int, j: int| 0 <= i < j < all.len() implies (#[trigger] all[i]).table != (
    #[trigger] all[j]).table || all[i].key != all[j].key by {
        assert(change_code(edit, i) != change_code(edit, j));
    }
}

/// Making one change of an edit leaves the outline as it is, and the other
/// changes in place.
proof fn change_step(
    first: Map<Option<Seq<char>>, TomlTable>,
    before: Map<Option<Seq<char>>, TomlTable>,
    after: Map<Option<Seq<char>>, TomlTable>,
    edit: ConfigEdit,
    i: int,
)
    requires
        0 <= i < edit.changes().len(),
        are_tables(before),
        before.contains_key(edit.changes()[i].table),
        same_outline(first, before, edit),
        forall|t: Option<Seq<char>>| #[trigger]
            before.contains_key(t) && is_flat(first, edit, t) ==> values_only(before[t].entries),
        tables_with_key(
            before,
            after,
            edit.changes()[i].table,
            edit.changes()[i].key,
            edit.changes()[i].data,
        ),
    ensures
        same_outline(first, after, edit),
        is_made(after, edit.changes()[i]),
        forall|j: int|
            0 <= j < edit.changes().len() && j != i && is_made(
                before,
                #[trigger] edit.changes()[j],
            ) ==> is_made(after, edit.changes()[j]),
        edit.cron_expression is None && !has_key(before[None].entries, "cron_expression"@)
            ==> !has_key(after[None].entries, "cron_expression"@),
{
    changes_are_apart(edit);
    let c = edit.changes()[i];
    assert(edit.sets(c.table, c.key));
    let old_entries = before[c.table].entries;
    let new_entries = after[c.table].entries;
    assert forall|t: Option<Seq<char>>| #[trigger]
        first.contains_key(t) && !overwritten(edit, t) implies {
        &&& after.contains_key(t)
        &&& after[t].before == first[t].before
        &&& after[t].after == first[t].after
        &&& t is None || values_only(first[t].entries) || !is_written(edit, t)
            ==> after[t].header == first[t].header
        &&& outline(after[t].entries, kept_in(first, edit, t), edited_in(edit, t)) == outline(
            first[t].entries,
            kept_in(first, edit, t),
            edited_in(edit, t),
        )
    } by {
        let kept = kept_in(first, edit, t);
        let edited = edited_in(edit, t);
        assert(before.contains_key(t));
        assert(after.dom().contains(t));
        if t == c.table {
            if kept(c.key) {
                outline_value(first[t].entries, c.key, kept, edited);
                outline_value(old_entries, c.key, kept, edited);
                let at = choose|at: int|
                    key_at(old_entries, c.key, at) && (#[trigger] old_entries[at]).data.is_value();
                outline_update(old_entries, at, c.data, new_entries[at].written, kept, edited);
            } else {
                outline_without(old_entries, c.key, kept, edited);
                outline_without(new_entries, c.key, kept, edited);
            }
        }
    }
    assert(after.dom().contains(c.table));
    assert forall|j: int|
        0 <= j < edit.changes().len() && j != i && is_made(
            before,
            #[trigger] edit.changes()[j],
        ) implies is_made(after, edit.changes()[j]) by {
        let d = edit.changes()[j];
        assert(c.table != d.table || c.key != d.key);
        assert(after.dom().contains(d.table));
        if d.table == c.table {
            without_keeps(old_entries, c.key, d.key);
            without_keeps(new_entries, c.key, d.key);
        }
    }
    if edit.cron_expression is None && !has_key(before[None].entries, "cron_expression"@) {
        assert(after.dom().contains(None));
        if c.table is None {
            without_keeps(old_entries, c.key, "cron_expression"@);
            without_keeps(new_entries, c.key, "cron_expression"@);
        }
    }
}

/// What entries hold has the keys of the entries.
pub(crate) proof fn contents_have_keys(entries: Seq<TomlEntry>, key: Seq<char>)
    ensures
        has_key(contents(entries), key) == has_key(entries, key),
{
    if has_key(entries, key) {
        let i = choose|i: int| key_at(entries, key, i);
        assert(key_at(contents(entries), key, i));
    }
    if has_key(contents(entries), key) {
        let i = choose|i: int| key_at(contents(entries), key, i);
        assert(key_at(entries, key, i));
    }
}

/// Without a key, entries hold what they hold without it.
proof fn contents_without(entries: Seq<TomlEntry>, key: Seq<char>)
    ensures
        contents(without(entries, key)) == without(contents(entries), key),
    decreases entries.len(),
{
    if entries.len() > 0 {
        contents_without(entries.drop_last(), key);
        assert(contents(entries).drop_last() =~= contents(entries.drop_last()));
        assert(contents(without(entries, key)) =~= without(contents(entries), key));
    } else {
        assert(contents(without(entries, key)) =~= without(contents(entries), key));
    }
}

/// Making one change of an edit sets the key where it was, or at the end, in a
/// flat table.
proof fn entries_step(
    first: Map<Option<Seq<char>>, TomlTable>,
    before: Map<Option<Seq<char>>, TomlTable>,
    after: Map<Option<Seq<char>>, TomlTable>,
    edit: ConfigEdit,
    i: int,
    t: Option<Seq<char>>,
)
    requires
        0 <= i < edit.changes().len(),
        before.contains_key(edit.changes()[i].table),
        tables_with_key(
            before,
            after,
            edit.changes()[i].table,
            edit.changes()[i].key,
            edit.changes()[i].data,
        ),
        is_flat(first, edit, t),
        after.contains_key(t),
        before.contains_key(t),
        forall|t: Option<Seq<char>>| #[trigger]
            before.contains_key(t) ==> first.contains_key(t) || t == Some("smtp"@) || t == Some(
                "ui"@,
            ),
        values_only(before[t].entries),
        contents(before[t].entries) == with_changes(
            kept_entries(first, edit, t),
            edit.changes().take(i),
            t,
        ),
    ensures
        values_only(after[t].entries),
        contents(after[t].entries) == with_changes(
            kept_entries(first, edit, t),
            edit.changes().take(i + 1),
            t,
        ),
{
    changes_are_apart(edit);
    let c = edit.changes()[i];
    let old_entries = before[t].entries;
    assert(edit.changes().take(i + 1).drop_last() =~= edit.changes().take(i));
    assert(edit.changes().take(i + 1).last() == c);
    if t == c.table {
        assert(edit.sets(c.table, c.key));
        let held = contents(old_entries);
        contents_have_keys(old_entries, c.key);
        if has_key(old_entries, c.key) {
            let at = choose|at: int| key_at(held, c.key, at);
            assert(key_at(old_entries, c.key, at) && old_entries[at].data.is_value());
            assert(contents(after[t].entries) =~= with_data(held, c.key, c.data));
        } else {
            if t is None {
                assert(!before.contains_key(Some(c.key)));
            }
            let new = after[t].entries;
            assert forall|j: int| 0 <= j < old_entries.len() implies #[trigger] new[j]
                == old_entries[j] by {
                assert(new.drop_last()[j] == old_entries[j]);
            }
            assert(contents(new) =~= with_data(held, c.key, c.data));
        }
    }
}

/// A change to be made: the path of a key, and its new value.
pub struct Change {
    pub path: Vec<String>,
    pub value: TomlValue,
}

impl View for Change {
    type V = ChangeView;

    open spec fn view(&self) -> ChangeView {
        ChangeView {
            table: if self.path@.len() == 1 {
                None
            } else {
                Some(self.path@[0]@)
            },
            key: self.path@.last()@,
            data: self.value@,
        }
    }
}

pub open spec fn change_views(v: Seq<Change>) -> Seq<ChangeView> {
    v.map_values(|c: Change| c@)
}

fn root_change(key: &str, value: TomlValue) -> (r: Change)
    ensures
        r.path@.len() == 1,
        r@ == change(None, key@, value@),
{
    let mut path: Vec<String> = Vec::new();
    path.push(key.to_string());
    Change { path, value }
}

fn table_change(table: &str, key: &str, value: TomlValue) -> (r: Change)
    ensures
        r.path@.len() == 2,
        r@ == change(Some(table@), key@, value@),
{
    let mut path: Vec<String> = Vec::new();
    path.push(table.to_string());
    path.push(key.to_string());
    Change { path, value }
}

/// Lists the changes of an edit.
pub fn list_changes(edit: &ConfigEdit) -> (r: Vec<Change>)
    ensures
        change_views(r@) == edit.changes(),
        forall|i: int| 0 <= i < r@.len() ==> 1 <= (#[trigger] r@[i]).path@.len() <= 2,
{
    let mut r: Vec<Change> = Vec::new();
    r.push(
        root_change(
            "poll_interval_seconds",
            TomlValue::Integer(interval_seconds(edit.poll_interval_seconds)),
        ),
    );
    r.push(root_change("sender", TomlValue::Text(edit.sender.clone())));
    r.push(root_change("recipients", TomlValue::Texts(copy_texts(&edit.recipients))));
    r.push(root_change("repos", TomlValue::Texts(copy_texts(&edit.repos))));
    r.push(table_change("smtp", "host", TomlValue::Text(edit.smtp_host.clone())));
    r.push(table_change("smtp", "port", TomlValue::Integer(edit.smtp_port as i64)));
    r.push(
        table_change(
            "smtp",
            "encryption",
            TomlValue::Text(encryption_str(edit.smtp_encryption).to_string()),
        ),
    );
    r.push(table_change("smtp", "username", TomlValue::Text(edit.smtp_username.clone())));
    assert(change_views(r@) =~= edit.fixed_changes());
    if let Some(expr) = &edit.cron_expression {
        r.push(root_change("cron_expression", TomlValue::Text(expr.clone())));
    }
    assert(change_views(r@) =~= edit.fixed_changes() + edit.cron_change());
    if let Some(password) = &edit.smtp_password {
        if !password.as_str().is_empty() {
            r.push(table_change("smtp", "password", TomlValue::Text(password.clone())));
        }
    }
    assert(change_views(r@) =~= edit.fixed_changes() + edit.cron_change()
        + edit.password_change());
    if let Some(token) = &edit.admin_token {
        r.push(table_change("ui", "admin_token", TomlValue::Text(token.clone())));
    }
    assert(change_views(r@) =~= edit.changes());
    r
}

/// Why a document cannot be edited.
pub enum EditError {
    /// The text is no document.
    Unparseable(String),
    /// Something other than a table stands under the name of a table.
    NotATable(String),
}

/// Sees to it that a document has a table.
fn with_table(text: String, name: &str) -> (r: Result<String, EditError>)
    requires
        is_document(text@),
    ensures
        match r {
            Ok(out) => {
                &&& kind_in(tables_of(text@), name@) != ItemKind::Entry
                &&& is_document(out@)
                &&& tables_of(out@).dom() == tables_of(text@).dom().insert(Some(name@))
                &&& if tables_of(text@).contains_key(Some(name@)) {
                    out@ == text@
                } else {
                    table_is_added(document_of(text@), document_of(out@), name@)
                }
            },
            Err(e) => kind_in(tables_of(text@), name@) == ItemKind::Entry && e is NotATable
                && e->NotATable_0@ == name@,
        },
{
    match item_kind(text.as_str(), name) {
        ItemKind::Table => {
            assert(tables_of(text@).dom().insert(Some(name@)) =~= tables_of(text@).dom());
            Ok(text)
        },
        ItemKind::Entry => Err(EditError::NotATable(name.to_string())),
        ItemKind::Absent => Ok(add_table(text.as_str(), name)),
    }
}

/// The name of a table that an edit writes to and that is something else in a
/// document.
pub open spec fn misused_name(
    tables: Map<Option<Seq<char>>, TomlTable>,
    edit: ConfigEdit,
) -> Option<Seq<char>> {
    if kind_in(tables, "smtp"@) == ItemKind::Entry {
        Some("smtp"@)
    } else if edit.admin_token is Some && kind_in(tables, "ui"@) == ItemKind::Entry {
        Some("ui"@)
    } else {
        None
    }
}

/// Edits a document: sets the keys of the edit, and leaves the rest of the text
/// as the operator wrote it.
pub fn edit_document(text: &str, edit: &ConfigEdit) -> (r: Result<String, EditError>)
    ensures
        match r {
            Ok(out) => {
                &&& is_document(text@)
                &&& is_document(out@)
                &&& misused_name(tables_of(text@), *edit) is None
                &&& edited_from(tables_of(text@), tables_of(out@), *edit)
                &&& order_survives(document_of(text@), document_of(out@), *edit)
            },
            Err(EditError::Unparseable(m)) => toml_document(text@) == Err::<
                TomlDocument,
                Seq<char>,
            >(m@),
            Err(EditError::NotATable(name)) => is_document(text@) && misused_name(
                tables_of(text@),
                *edit,
            ) == Some(name@),
        },
{
    if let Some(m) = document_fault(text) {
        return Err(EditError::Unparseable(m));
    }
    let ghost first = tables_of(text@);
    let ghost stays = stays_in(first, *edit);
    let ghost names = names_where(document_of(text@).order, stays);
    proof {
        changes_are_apart(*edit);
    }
    let mut out = match with_table(text.to_string(), "smtp") {
        Ok(t) => t,
        Err(e) => {
            return Err(e);
        },
    };
    proof {
        if !first.contains_key(Some("smtp"@)) {
            names_without(document_of(out@).order, "smtp"@, stays);
        }
    }
    if edit.admin_token.is_some() {
        proof {
            assert(tables_of(out@).dom().contains(None));
            assert(tables_of(out@)[None] == first[None]);
            assert(kind_in(tables_of(out@), "ui"@) == kind_in(first, "ui"@)) by {
                assert(tables_of(out@).dom().contains(Some("ui"@)) == first.dom().contains(
                    Some("ui"@),
                ));
            }
        }
        let ghost before = out@;
        out = match with_table(out, "ui") {
            Ok(t) => t,
            Err(e) => {
                return Err(e);
            },
        };
        proof {
            if !tables_of(before).contains_key(Some("ui"@)) {
                names_without(document_of(out@).order, "ui"@, stays);
            }
        }
    }
    assert(same_outline(first, tables_of(out@), *edit)) by {
        assert forall|t: Option<Seq<char>>| #[trigger] first.contains_key(t) implies tables_of(
            out@,
        ).dom().contains(t) && tables_of(out@)[t] == first[t] by {}
    }
    assert forall|t: Option<Seq<char>>| #[trigger]
        tables_of(out@).contains_key(t) implies is_old_or_bare(
        first,
        tables_of(out@),
        *edit,
        t,
    ) && tables_of(out@)[t].entries == entries_in(first, t) by {
        assert(tables_of(out@).dom().contains(t));
    }
    if edit.cron_expression.is_none() {
        let ghost before = tables_of(out@);
        let ghost order = document_of(out@).order;
        out = remove_item(out.as_str(), "cron_expression");
        proof {
            let after = tables_of(out@);
            let root = before[None].entries;
            names_without(order, "cron_expression"@, stays);
            contents_without(root, "cron_expression"@);
            without_lacks(root, "cron_expression"@);
            if is_flat(first, *edit, None) {
                without_holds_values(root, "cron_expression"@);
            }
            assert forall|t: Option<Seq<char>>| #[trigger]
                first.contains_key(t) && !overwritten(*edit, t) implies {
                &&& after.contains_key(t)
                &&& after[t].before == first[t].before
                &&& after[t].after == first[t].after
                &&& t is None || values_only(first[t].entries) || !is_written(*edit, t)
                    ==> after[t].header == first[t].header
                &&& outline(after[t].entries, kept_in(first, *edit, t), edited_in(*edit, t))
                    == outline(first[t].entries, kept_in(first, *edit, t), edited_in(*edit, t))
            } by {
                if t is None {
                    let kept = kept_in(first, *edit, t);
                    assert(!edit.sets(None, "cron_expression"@));
                    outline_without(root, "cron_expression"@, kept, edited_in(*edit, t));
                }
            }
        }
    }
    let changes = list_changes(edit);
    let mut i: usize = 0;
    while i < changes.len()
        invariant
            i <= changes@.len(),
            change_views(changes@) == edit.changes(),
            forall|j: int| 0 <= j < changes@.len() ==> 1 <= (#[trigger] changes@[j]).path@.len() <= 2,
            first == tables_of(text@),
            stays == stays_in(first, *edit),
            is_flat(first, *edit, Some("smtp"@)) && (edit.admin_token is Some ==> is_flat(
                first,
                *edit,
                Some("ui"@),
            )) ==> names_where(document_of(out@).order, stays) == names,
            is_document(out@),
            same_outline(first, tables_of(out@), *edit),
            tables_of(out@).contains_key(Some("smtp"@)),
            edit.admin_token is Some ==> tables_of(out@).contains_key(Some("ui"@)),
            forall|j: int|
                0 <= j < i ==> is_made(tables_of(out@), #[trigger] edit.changes()[j]),
            edit.cron_expression is None ==> !has_key(
                tables_of(out@)[None].entries,
                "cron_expression"@,
            ) && !tables_of(out@).contains_key(Some("cron_expression"@)),
            forall|t: Option<Seq<char>>| #[trigger]
                tables_of(out@).contains_key(t) ==> is_old_or_bare(
                    first,
                    tables_of(out@),
                    *edit,
                    t,
                ),
            forall|t: Option<Seq<char>>| #[trigger]
                tables_of(out@).contains_key(t) && is_flat(first, *edit, t) ==> values_only(
                    tables_of(out@)[t].entries,
                ) && contents(tables_of(out@)[t].entries) == with_changes(
                    kept_entries(first, *edit, t),
                    edit.changes().take(i as int),
                    t,
                ),
        decreases changes@.len() - i,
    {
        let ghost before = tables_of(out@);
        let ghost order = document_of(out@).order;
        proof {
            changes_are_apart(*edit);
            assert(edit.changes()[i as int] == changes@[i as int]@);
        }
        out = set_value(out.as_str(), &changes[i].path, &changes[i].value);
        proof {
            let after = tables_of(out@);
            let c = edit.changes()[i as int];
            assert(tables_with_key(before, after, c.table, c.key, c.data));
            change_step(first, before, after, *edit, i as int);
            if c.table is None {
                assert(edit.sets(None, c.key));
                names_without(order, c.key, stays);
            }
            assert forall|t: Option<Seq<char>>| #[trigger]
                after.contains_key(t) implies before.contains_key(t) && is_old_or_bare(
                first,
                after,
                *edit,
                t,
            ) by {
                assert(after.dom().contains(t));
            }
            assert forall|t: Option<Seq<char>>| #[trigger]
                after.contains_key(t) && is_flat(first, *edit, t) implies values_only(
                after[t].entries,
            ) && contents(after[t].entries) == with_changes(
                kept_entries(first, *edit, t),
                edit.changes().take(i + 1),
                t,
            ) by {
                entries_step(first, before, after, *edit, i as int, t);
            }
            assert(after.dom().contains(Some("smtp"@)));
            if edit.admin_token is Some {
                assert(after.dom().contains(Some("ui"@)));
            }
        }
        i = i + 1;
    }
    assert(edit.changes().take(i as int) =~= edit.changes());
    Ok(out)
}

/// Why an edit is not saved.
#[derive(Debug)]
pub enum SaveError {
    /// The file may not be written.
    Unwritable(String),
    /// The edit, or what it makes of the configuration, is refused.
    Invalid(String),
    /// The file could not be read or written for another reason.
    Io(String),
}

/// The reasons of `SaveError`, over texts.
#[verifier::ext_equal]
pub enum SaveFault {
    Unwritable(Seq<char>),
    Invalid(Seq<char>),
    Io(Seq<char>),
}

impl View for SaveError {
    type V = SaveFault;

    open spec fn view(&self) -> SaveFault {
        match *self {
            SaveError::Unwritable(m) => SaveFault::Unwritable(m@),
            SaveError::Invalid(m) => SaveFault::Invalid(m@),
            SaveError::Io(m) => SaveFault::Io(m@),
        }
    }
}

/// The HTTP status of an answer with a reason.
pub open spec fn fault_status(fault: SaveFault) -> u16 {
    match fault {
        SaveFault::Unwritable(_) => 409,
        SaveFault::Invalid(_) => 400,
        SaveFault::Io(_) => 500,
    }
}

/// What an answer with a reason says: of a refused configuration, only why it is
/// refused.
pub open spec fn fault_response(fault: SaveFault) -> Seq<char> {
    match fault {
        SaveFault::Unwritable(m) => "config file is not writable: "@ + m,
        SaveFault::Invalid(m) => m,
        SaveFault::Io(m) => m,
    }
}

impl SaveError {
    /// The message that states the reason.
    pub fn message(&self) -> (r: String)
        ensures
            r@ == (match self@ {
                SaveFault::Unwritable(m) => "config file is not writable: "@ + m,
                SaveFault::Invalid(m) => "invalid config: "@ + m,
                SaveFault::Io(m) => "config I/O error: "@ + m,
            }),
    {
        let (mut s, m) = match self {
            SaveError::Unwritable(m) => ("config file is not writable: ".to_string(), m),
            SaveError::Invalid(m) => ("invalid config: ".to_string(), m),
            SaveError::Io(m) => ("config I/O error: ".to_string(), m),
        };
        s.append(m.as_str());
        s
    }

    /// The HTTP status of an answer with this reason.
    pub fn status(&self) -> (r: u16)
        ensures
            r == fault_status(self@),
    {
        match self {
            SaveError::Unwritable(_) => 409,
            SaveError::Invalid(_) => 400,
            SaveError::Io(_) => 500,
        }
    }

    /// What an answer with this reason says: of a refused configuration, only
    /// why it is refused.
    pub fn response(&self) -> (r: String)
        ensures
            r@ == fault_response(self@),
    {
        match self {
            SaveError::Unwritable(_) => self.message(),
            SaveError::Invalid(m) => m.clone(),
            SaveError::Io(m) => m.clone(),
        }
    }
}

/// The kinds of failure of a file operation that are told apart.
#[derive(Clone, Copy, Debug, PartialEq, Eq, Structural)]
pub enum IoKind {
    PermissionDenied,
    ReadOnlyFilesystem,
    Other,
}

/// A failure of a file operation.
pub struct IoFailure {
    pub kind: IoKind,
    pub reason: String,
}

/// What a failed file operation means for a save.
pub open spec fn io_fault(failure: IoFailure, context: Seq<char>) -> SaveFault {
    let m = context + ": "@ + failure.reason@;
    if failure.kind == IoKind::Other {
        SaveFault::Io(m)
    } else {
        SaveFault::Unwritable(m)
    }
}

fn classify(failure: &IoFailure, context: &str) -> (r: SaveError)
    ensures
        r@ == io_fault(*failure, context@),
{
    let m = join3(context, ": ", failure.reason.as_str());
    match failure.kind {
        IoKind::PermissionDenied => SaveError::Unwritable(m),
        IoKind::ReadOnlyFilesystem => SaveError::Unwritable(m),
        IoKind::Other => SaveError::Io(m),
    }
}

impl ConfigEdit {
    /// The first field of an edit that may not be set.
    pub open spec fn read_only_field(self) -> Option<Seq<char>> {
        if self.state_path is Some {
            Some("state_path"@)
        } else if self.ui_bind_addr is Some {
            Some("ui.bind_addr"@)
        } else if self.ui_port is Some {
            Some("ui.port"@)
        } else if self.trust_proxy_auth is Some {
            Some("ui.trust_proxy_auth"@)
        } else {
            None
        }
    }
}

fn find_read_only(edit: &ConfigEdit) -> (r: Option<&'static str>)
    ensures
        match r {
            Some(name) => edit.read_only_field() == Some(name@),
            None => edit.read_only_field() is None,
        },
{
    if edit.state_path.is_some() {
        Some("state_path")
    } else if edit.ui_bind_addr.is_some() {
        Some("ui.bind_addr")
    } else if edit.ui_port.is_some() {
        Some("ui.port")
    } else if edit.trust_proxy_auth.is_some() {
        Some("ui.trust_proxy_auth")
    } else {
        None
    }
}

/// A save that waits for the file's contents.
pub struct PendingRead<'a> {
    path: String,
    edit: &'a ConfigEdit,
}

/// A save that waits for the edited text to be parsed.
pub struct PendingParse {
    path: String,
    text: String,
}

/// A save that waits for the edited text to be written to a file beside the
/// configuration. There is none without a valid configuration.
pub struct PendingWrite {
    path: String,
    text: String,
    config: Config,
}

/// A save that waits for the written file to take the place of the
/// configuration.
pub struct PendingRename {
    path: String,
    config: Config,
}

/// Starts to save an edit of the configuration file at a path.
pub fn apply<'a>(path: &str, edit: &'a ConfigEdit) -> (r: Result<PendingRead<'a>, SaveError>)
    ensures
        match r {
            Ok(p) => edit.read_only_field() is None && p.path() == path@ && p.edit() == *edit,
            Err(e) => edit.read_only_field() is Some && e@ == SaveFault::Invalid(
                edit.read_only_field()->0 + " is read-only and cannot be set through the UI"@,
            ),
        },
{
    match find_read_only(edit) {
        Some(name) => {
            let mut m = name.to_string();
            m.append(" is read-only and cannot be set through the UI");
            Err(SaveError::Invalid(m))
        },
        None => Ok(PendingRead { path: path.to_string(), edit }),
    }
}

impl<'a> PendingRead<'a> {
    pub closed spec fn path(self) -> Seq<char> {
        self.path@
    }

    pub closed spec fn edit(self) -> ConfigEdit {
        *self.edit
    }

    /// Takes in the contents of the file, and edits them.
    pub fn read(self, contents: Result<String, IoFailure>) -> (r: Result<PendingParse, SaveError>)
        ensures
            match contents {
                Err(failure) => r is Err && r->Err_0@ == io_fault(
                    failure,
                    "failed to read "@ + self.path(),
                ),
                Ok(text) => match r {
                    Ok(p) => {
                        &&& is_document(text@)
                        &&& is_document(p.text())
                        &&& misused_name(tables_of(text@), self.edit()) is None
                        &&& edited_from(tables_of(text@), tables_of(p.text()), self.edit())
                        &&& order_survives(document_of(text@), document_of(p.text()), self.edit())
                        &&& p.path() == self.path()
                    },
                    Err(e) => {
                        ||| toml_document(text@) is Err && e@ == SaveFault::Invalid(
                            "failed to parse "@ + self.path() + ": "@ + toml_document(text@)->Err_0,
                        )
                        ||| is_document(text@) && misused_name(
                            tables_of(text@),
                            self.edit(),
                        ) is Some && e@ == SaveFault::Invalid(
                            "failed to edit "@ + self.path() + ": "@ + misused_name(
                                tables_of(text@),
                                self.edit(),
                            )->0 + " is not a table"@,
                        )
                    },
                },
            },
    {
        match contents {
            Err(failure) => {
                let mut context = "failed to read ".to_string();
                context.append(self.path.as_str());
                Err(classify(&failure, context.as_str()))
            },
            Ok(text) => match edit_document(text.as_str(), self.edit) {
                Ok(edited) => Ok(PendingParse { path: self.path, text: edited }),
                Err(EditError::Unparseable(m)) => {
                    let mut s = join3("failed to parse ", self.path.as_str(), ": ");
                    s.append(m.as_str());
                    Err(SaveError::Invalid(s))
                },
                Err(EditError::NotATable(name)) => {
                    let mut s = join3("failed to edit ", self.path.as_str(), ": ");
                    s.append(name.as_str());
                    s.append(" is not a table");
                    Err(SaveError::Invalid(s))
                },
            },
        }
    }
}

impl PendingParse {
    pub closed spec fn path(self) -> Seq<char> {
        self.path@
    }

    pub closed spec fn text(self) -> Seq<char> {
        self.text@
    }

    /// The edited text, which is to be parsed.
    pub fn edited(&self) -> (r: &str)
        ensures
            r@ == self.text(),
    {
        self.text.as_str()
    }

    /// Takes in what the edited text parses to, and checks every rule of the
    /// configuration. Only a valid configuration goes on to be written.
    pub fn parsed(self, parsed: Result<Config, String>, env: &Env) -> (r: Result<
        PendingWrite,
        SaveError,
    >)
        ensures
            match (parsed, r) {
                (Err(m), Err(e)) => e@ == SaveFault::Invalid(
                    "edited config does not parse: "@ + m@,
                ),
                (Ok(cfg), Err(e)) => cfg.fault(*env) is Some && e@ == SaveFault::Invalid(
                    cfg.fault(*env)->0.message(),
                ),
                (Ok(cfg), Ok(w)) => {
                    &&& cfg.fault(*env) is None
                    &&& w.config().config_path@ == self.path()
                    &&& w.config().validated_from(
                        Config { config_path: w.config().config_path, ..cfg },
                    )
                    &&& w.path() == self.path()
                    &&& w.text() == self.text()
                },
                (Err(_), Ok(_)) => false,
            },
    {
        match parsed {
            Err(m) => {
                let mut s = "edited config does not parse: ".to_string();
                s.append(m.as_str());
                Err(SaveError::Invalid(s))
            },
            Ok(cfg) => {
                let mut config = cfg;
                config.config_path = self.path.clone();
                match config.validate(env) {
                    Ok(()) => Ok(PendingWrite { path: self.path, text: self.text, config }),
                    Err(e) => Err(SaveError::Invalid(e.message())),
                }
            },
        }
    }
}

impl PendingWrite {
    pub closed spec fn path(self) -> Seq<char> {
        self.path@
    }

    pub closed spec fn text(self) -> Seq<char> {
        self.text@
    }

    pub closed spec fn config(self) -> Config {
        self.config
    }

    /// The file that the text is to be written to.
    pub fn tmp(&self) -> (r: String)
        ensures
            r@ == self.path() + ".tmp"@,
    {
        let mut tmp = self.path.clone();
        tmp.append(".tmp");
        tmp
    }

    /// The text that is to be written.
    pub fn contents(&self) -> (r: &str)
        ensures
            r@ == self.text(),
    {
        self.text.as_str()
    }

    /// Takes in what came of writing.
    pub fn written(self, outcome: Result<(), IoFailure>) -> (r: Result<PendingRename, SaveError>)
        ensures
            match outcome {
                Ok(()) => r is Ok && r->Ok_0.path() == self.path() && r->Ok_0.config()
                    == self.config(),
                Err(failure) => r is Err && r->Err_0@ == io_fault(
                    failure,
                    "failed to write "@ + (self.path() + ".tmp"@),
                ),
            },
    {
        match outcome {
            Ok(()) => Ok(PendingRename { path: self.path, config: self.config }),
            Err(failure) => {
                let mut context = "failed to write ".to_string();
                context.append(self.tmp().as_str());
                Err(classify(&failure, context.as_str()))
            },
        }
    }
}

impl PendingRename {
    pub closed spec fn path(self) -> Seq<char> {
        self.path@
    }

    pub closed spec fn config(self) -> Config {
        self.config
    }

    /// The file that was written.
    pub fn tmp(&self) -> (r: String)
        ensures
            r@ == self.path() + ".tmp"@,
    {
        let mut tmp = self.path.clone();
        tmp.append(".tmp");
        tmp
    }

    /// The file whose place it takes.
    pub fn target(&self) -> (r: &str)
        ensures
            r@ == self.path(),
    {
        self.path.as_str()
    }

    /// Takes in what came of renaming. The configuration that is now in the
    /// file comes back.
    pub fn renamed(self, outcome: Result<(), IoFailure>) -> (r: Result<Config, SaveError>)
        ensures
            match outcome {
                Ok(()) => r is Ok && r->Ok_0 == self.config(),
                Err(failure) => r is Err && r->Err_0@ == io_fault(
                    failure,
                    "failed to rename "@ + (self.path() + ".tmp"@) + " -> "@ + self.path(),
                ),
            },
    {
        match outcome {
            Ok(()) => Ok(self.config),
            Err(failure) => {
                let mut context = join3("failed to rename ", self.tmp().as_str(), " -> ");
                context.append(self.path.as_str());
                Err(classify(&failure, context.as_str()))
            },
        }
    }
}

/// Changes add no keys but their own.
proof fn only_changes_add(
    entries: Seq<TomlEntry>,
    changes: Seq<ChangeView>,
    table: Option<Seq<char>>,
    key: Seq<char>,
)
    requires
        has_key(with_changes(entries, changes, table), key),
        !has_key(entries, key),
    ensures
        exists|i: int|
            0 <= i < changes.len() && (#[trigger] changes[i]).table == table && changes[i].key
                == key,
    decreases changes.len(),
{
    if changes.len() > 0 {
        let init = with_changes(entries, changes.drop_last(), table);
        let c = changes.last();
        if c.table == table && c.key == key {
            assert(changes[changes.len() - 1] == c);
        } else {
            let all = with_changes(entries, changes, table);
            let i = choose|i: int| key_at(all, key, i);
            assert(key_at(init, key, i));
            only_changes_add(entries, changes.drop_last(), table, key);
            let j = choose|j: int|
                0 <= j < changes.drop_last().len() && (#[trigger] changes.drop_last()[j]).table
                    == table && changes.drop_last()[j].key == key;
            assert(changes[j] == changes.drop_last()[j]);
        }
    }
}

/// A key that an edit does not touch is there after it exactly if it was there
/// before, and with the same data.
pub proof fn nothing_else_is_written(
    before: Map<Option<Seq<char>>, TomlTable>,
    after: Map<Option<Seq<char>>, TomlTable>,
    edit: ConfigEdit,
    table: Option<Seq<char>>,
    key: Seq<char>,
    data: TomlData,
)
    requires
        edited_from(before, after, edit),
        are_tables(after),
        !overwritten(edit, table),
        !edit.touches(table, key),
    ensures
        has_data(entries_in(after, table), key, data) == has_data(
            entries_in(before, table),
            key,
            data,
        ),
{
    if before.contains_key(table) {
        let kept = kept_in(before, edit, table);
        let edited = edited_in(edit, table);
        outline_data(before[table].entries, key, data, kept, edited);
        outline_data(after[table].entries, key, data, kept, edited);
    } else if after.contains_key(table) {
        let entries = after[table].entries;
        if has_data(entries, key, data) {
            let i = choose|i: int| key_at(entries, key, i) && (#[trigger] entries[i]).data == data;
            assert(has_key(entries, key));
            assert(table is Some);
            assert(is_flat(before, edit, table));
            contents_have_keys(entries, key);
            assert(contents(entries_in(before, table)) =~= Seq::<TomlEntry>::empty());
            only_changes_add(kept_entries(before, edit, table), edit.changes(), table, key);
            assert(edit.sets(table, key));
        }
    }
}

/// A table that gives way to a value with its name is gone after the edit.
pub proof fn overwritten_tables_are_gone(
    before: Map<Option<Seq<char>>, TomlTable>,
    after: Map<Option<Seq<char>>, TomlTable>,
    edit: ConfigEdit,
    name: Seq<char>,
)
    requires
        edited_from(before, after, edit),
        are_tables(after),
        overwritten(edit, Some(name)),
    ensures
        !after.contains_key(Some(name)),
{
    if edit.cron_expression is Some && name == "cron_expression"@ {
        assert(edit.changes()[8] == edit.cron_change()[0]);
        assert(edit.sets(None, name));
    }
    if edit.sets(None, name) {
        let i = choose|i: int|
            0 <= i < edit.changes().len() && (#[trigger] edit.changes()[i]).table is None
                && edit.changes()[i].key == name;
        assert(is_made(after, edit.changes()[i]));
        let entries = after[None].entries;
        let j = choose|j: int|
            key_at(entries, name, j) && (#[trigger] entries[j]).data == edit.changes()[i].data;
        assert(has_key(entries, name));
    }
}

/// The keys that are not for editing: the state path, and where and behind which
/// proxy the web interface listens.
pub open spec fn is_read_only(table: Option<Seq<char>>, key: Seq<char>) -> bool {
    ||| table is None && key == "state_path"@
    ||| table == Some("ui"@) && (key == "bind_addr"@ || key == "port"@ || key
        == "trust_proxy_auth"@)
}

/// A key that is not for editing is there after an edit exactly if it was there
/// before, and with the same data; nor does a table of that name come about.
pub proof fn read_only_keys_are_never_written(
    before: Map<Option<Seq<char>>, TomlTable>,
    after: Map<Option<Seq<char>>, TomlTable>,
    edit: ConfigEdit,
    table: Option<Seq<char>>,
    key: Seq<char>,
    data: TomlData,
)
    requires
        edited_from(before, after, edit),
        are_tables(after),
        is_read_only(table, key),
    ensures
        has_data(entries_in(after, table), key, data) == has_data(
            entries_in(before, table),
            key,
            data,
        ),
        after.contains_key(Some("state_path"@)) ==> before.contains_key(Some("state_path"@)),
{
    changes_are_apart(edit);
    reveal_strlit("state_path");
    reveal_strlit("cron_expression");
    reveal_strlit("bind_addr");
    reveal_strlit("port");
    reveal_strlit("trust_proxy_auth");
    reveal_strlit("admin_token");
    reveal_strlit("smtp");
    reveal_strlit("ui");
    assert("state_path"@.len() == 10 && "cron_expression"@.len() == 15);
    assert("bind_addr"@.len() == 9 && "port"@.len() == 4 && "trust_proxy_auth"@.len() == 16
        && "admin_token"@.len() == 11);
    assert("smtp"@.len() == 4 && "ui"@.len() == 2);
    nothing_else_is_written(before, after, edit, table, key, data);
}

/// An edit without a password, or with an empty one, leaves the password as it
/// is; one without a token leaves the token as it is. Otherwise what the edit
/// holds is there afterwards, the empty token too: it takes the token away.
pub proof fn secrets_change_only_on_request(
    before: Map<Option<Seq<char>>, TomlTable>,
    after: Map<Option<Seq<char>>, TomlTable>,
    edit: ConfigEdit,
    data: TomlData,
)
    requires
        edited_from(before, after, edit),
        are_tables(after),
    ensures
        edit.smtp_password is None || edit.smtp_password->0@.len() == 0 ==> has_data(
            entries_in(after, Some("smtp"@)),
            "password"@,
            data,
        ) == has_data(entries_in(before, Some("smtp"@)), "password"@, data),
        edit.smtp_password is Some && edit.smtp_password->0@.len() > 0 ==> has_data(
            entries_in(after, Some("smtp"@)),
            "password"@,
            TomlData::Text(edit.smtp_password->0@),
        ),
        edit.admin_token is None ==> has_data(
            entries_in(after, Some("ui"@)),
            "admin_token"@,
            data,
        ) == has_data(entries_in(before, Some("ui"@)), "admin_token"@, data),
        edit.admin_token is Some ==> has_data(
            entries_in(after, Some("ui"@)),
            "admin_token"@,
            TomlData::Text(edit.admin_token->0@),
        ),
{
    changes_are_apart(edit);
    let all = edit.changes();
    if edit.sets_password() {
        let i = 8 + edit.cron_change().len();
        assert(all[i as int] == edit.password_change()[0]);
        assert(is_made(after, all[i as int]));
    } else {
        nothing_else_is_written(before, after, edit, Some("smtp"@), "password"@, data);
    }
    if edit.admin_token is Some {
        assert(all[all.len() - 1] == edit.token_change()[0]);
        assert(is_made(after, all[all.len() - 1]));
    } else {
        nothing_else_is_written(before, after, edit, Some("ui"@), "admin_token"@, data);
    }
}

/// Changes leave the keys of entries where they are, with their comments, and add
/// others behind them.
proof fn changes_keep_places(
    entries: Seq<TomlEntry>,
    changes: Seq<ChangeView>,
    table: Option<Seq<char>>,
)
    ensures
        with_changes(entries, changes, table).len() >= entries.len(),
        forall|i: int|
            0 <= i < entries.len() ==> {
                let e = #[trigger] with_changes(entries, changes, table)[i];
                e.key == entries[i].key && e.before == entries[i].before && e.after
                    == entries[i].after
            },
        forall|i: int|
            entries.len() <= i < with_changes(entries, changes, table).len() ==> !has_key(
                entries,
                (#[trigger] with_changes(entries, changes, table)[i]).key,
            ),
    decreases changes.len(),
{
    if changes.len() > 0 {
        changes_keep_places(entries, changes.drop_last(), table);
        let init = with_changes(entries, changes.drop_last(), table);
        let c = changes.last();
        if has_key(entries, c.key) {
            let i = choose|i: int| key_at(entries, c.key, i);
            assert(init[i].key == c.key);
            assert(key_at(init, c.key, i));
        }
        if has_key(init, c.key) {
            let at = choose|at: int| key_at(init, c.key, at);
            assert(init.update(at, TomlEntry { data: c.data, ..init[at] })[at].key == init[at].key);
        }
    }
}

/// Key order survives: in a flat table the keys that an edit starts from keep
/// their places and their comments, and every key behind them is new.
pub proof fn new_keys_come_last(
    before: Map<Option<Seq<char>>, TomlTable>,
    after: Map<Option<Seq<char>>, TomlTable>,
    edit: ConfigEdit,
    table: Option<Seq<char>>,
    i: int,
)
    requires
        edited_from(before, after, edit),
        after.contains_key(table),
        is_flat(before, edit, table),
        0 <= i < after[table].entries.len(),
    ensures
        ({
            let kept = kept_entries(before, edit, table);
            let e = after[table].entries[i];
            if i < kept.len() {
                e.key == kept[i].key && e.before == kept[i].before && e.after == kept[i].after
            } else {
                !has_key(kept, e.key) && edit.sets(table, e.key)
            }
        }),
{
    let kept = kept_entries(before, edit, table);
    changes_keep_places(kept, edit.changes(), table);
    let all = with_changes(kept, edit.changes(), table);
    assert(all == contents(after[table].entries));
    assert(all[i] == content(after[table].entries[i]));
    if i >= kept.len() {
        assert(key_at(all, all[i].key, i));
        only_changes_add(kept, edit.changes(), table, all[i].key);
    }
}

/// An entry that an edit does not touch is there after it to the letter.
pub proof fn untouched_entries_survive(
    before: Map<Option<Seq<char>>, TomlTable>,
    after: Map<Option<Seq<char>>, TomlTable>,
    edit: ConfigEdit,
    table: Option<Seq<char>>,
    i: int,
)
    requires
        edited_from(before, after, edit),
        before.contains_key(table),
        !overwritten(edit, table),
        0 <= i < before[table].entries.len(),
        !edit.touches(table, before[table].entries[i].key),
    ensures
        after.contains_key(table),
        after[table].entries.contains(before[table].entries[i]),
{
    let kept = kept_in(before, edit, table);
    let edited = edited_in(edit, table);
    let e = before[table].entries[i];
    outline_entry(before[table].entries, e, kept, edited);
    outline_entry(after[table].entries, e, kept, edited);
}

/// The white space and the comments around an entry that an edit keeps in place
/// are there after it, and so are the comments around each table. Its header is
/// there to the letter, unless the edit writes to a table that holds more than
/// values.
pub proof fn layout_survives(
    before: Map<Option<Seq<char>>, TomlTable>,
    after: Map<Option<Seq<char>>, TomlTable>,
    edit: ConfigEdit,
    table: Option<Seq<char>>,
    i: int,
)
    requires
        edited_from(before, after, edit),
        before.contains_key(table),
        !overwritten(edit, table),
        0 <= i < before[table].entries.len(),
        !edit.touches(table, before[table].entries[i].key) || (edit.sets(
            table,
            before[table].entries[i].key,
        ) && has_value(before[table].entries, before[table].entries[i].key)),
    ensures
        after.contains_key(table),
        after[table].before == before[table].before,
        after[table].after == before[table].after,
        table is None || values_only(before[table].entries) || !is_written(edit, table)
            ==> after[table].header == before[table].header,
        has_layout_of(after[table].entries, before[table].entries[i]),
{
    let kept = kept_in(before, edit, table);
    let edited = edited_in(edit, table);
    let e = before[table].entries[i];
    assert(kept(e.key));
    assert(is_laid_out_as(before[table].entries[i], e));
    outline_layout(before[table].entries, e, kept, edited);
    outline_layout(after[table].entries, e, kept, edited);
}

} // verus!
