//! What file operations make of files, and how a file is replaced whole.

use vstd::prelude::*;

use crate::state::{loaded, PendingSave, StateStore};

verus! {

/// The text of each file, by its path.
pub type Files = Map<Seq<char>, Seq<char>>;

/// Files of which a path holds the same: the same text, or no file.
pub open spec fn same_at(before: Files, after: Files, path: Seq<char>) -> bool {
    &&& after.contains_key(path) == before.contains_key(path)
    &&& before.contains_key(path) ==> after[path] == before[path]
}

/// Files after a text was to be written to one of them. Where that failed, or is
/// still going on, the file may hold anything.
pub open spec fn after_write(
    before: Files,
    after: Files,
    path: Seq<char>,
    text: Seq<char>,
    done: bool,
) -> bool {
    &&& done ==> after.contains_key(path) && after[path] == text
    &&& forall|other: Seq<char>| other != path ==> #[trigger] same_at(before, after, other)
}

/// Files after one of them was to take the place of another. Where that failed,
/// nothing has changed.
pub open spec fn after_rename(
    before: Files,
    after: Files,
    from: Seq<char>,
    to: Seq<char>,
    done: bool,
) -> bool {
    if done {
        after == before.remove(from).insert(to, before[from])
    } else {
        after == before
    }
}

/// Files during and after a save, of the store or of the configuration: `text`
/// was to be written to the file `.tmp` beside `path`, and, once that was done,
/// this file was to take the place of `path`.
pub open spec fn after_save(
    before: Files,
    between: Files,
    after: Files,
    path: Seq<char>,
    text: Seq<char>,
    written: bool,
    renamed: bool,
) -> bool {
    &&& after_write(before, between, path + ".tmp"@, text, written)
    &&& if written {
        after_rename(between, after, path + ".tmp"@, path, renamed)
    } else {
        after == between && !renamed
    }
}

/// A save replaces a file whole or not at all: at no moment does the path hold
/// anything but the old text or the new one. Once the save is done, the file
/// beside it is gone; whatever happens, no other file changes.
pub proof fn saves_replace_files_whole(
    before: Files,
    between: Files,
    after: Files,
    path: Seq<char>,
    text: Seq<char>,
    written: bool,
    renamed: bool,
    other: Seq<char>,
)
    requires
        after_save(before, between, after, path, text, written, renamed),
    ensures
        same_at(before, between, path),
        renamed ==> after.contains_key(path) && after[path] == text && !after.contains_key(
            path + ".tmp"@,
        ),
        !renamed ==> same_at(before, after, path),
        other != path && other != path + ".tmp"@ ==> same_at(before, between, other) && same_at(
            before,
            after,
            other,
        ),
{
    reveal_strlit(".tmp");
    assert((path + ".tmp"@).len() == path.len() + 4);
    assert(same_at(before, between, path));
    if other != path && other != path + ".tmp"@ {
        assert(same_at(before, between, other));
    }
}

/// A store that was saved is there again when its file is loaded; a save that
/// failed leaves its file as it was.
pub proof fn saved_stores_come_back(
    store: StateStore,
    save: PendingSave,
    before: Files,
    between: Files,
    after: Files,
    written: bool,
    renamed: bool,
)
    requires
        save.is_save_of(store),
        after_save(before, between, after, save.path(), save.text(), written, renamed),
    ensures
        same_at(before, between, store.path()),
        renamed ==> after.contains_key(store.path()) && loaded(Some(after[store.path()]))
            == store@ && !after.contains_key(store.path() + ".tmp"@),
        !renamed ==> same_at(before, after, store.path()),
{
    saves_replace_files_whole(
        before,
        between,
        after,
        save.path(),
        save.text(),
        written,
        renamed,
        save.path(),
    );
}

} // verus!
