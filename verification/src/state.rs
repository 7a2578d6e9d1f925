//! The last tag seen of each repository, kept in a JSON file.

use vstd::prelude::*;

use crate::string_map::{distinct_keys, map_of, StringMap};
use crate::text::join3;

verus! {

/// The texts of a map of strings.
pub open spec fn text_map(m: Map<Seq<char>, String>) -> Map<Seq<char>, Seq<char>> {
    m.map_values(|v: String| v@)
}

/// The map that `serde_json::from_str` reads from a text as a
/// `HashMap<String, String>`, or nothing where it refuses the text.
pub uninterp spec fn json_string_map(text: Seq<char>) -> Option<Map<Seq<char>, Seq<char>>>;

/// Reads a JSON object with text members: `serde_json::from_str` to a
/// `HashMap<String, String>`, its entries listed in some order. The map is
/// named by `json_string_map`.
#[verifier::external_body]
fn parse_string_map(text: &str) -> (r: Option<Vec<(String, String)>>)
    ensures
        match r {
            Some(entries) => distinct_keys(entries@) && json_string_map(text@) == Some(
                text_map(map_of(entries@)),
            ),
            None => json_string_map(text@) is None,
        },
{
    let map = serde_json::from_str::<std::collections::HashMap<String, String>>(text).ok()?;
    Some(map.into_iter().collect())
}

/// Writes a JSON object with text members: `serde_json::to_string_pretty` of a
/// `HashMap<String, String>`, which does not fail on texts. The members come in
/// some order; reading the result back gives the same map.
#[verifier::external_body]
fn print_string_map(entries: &Vec<(String, String)>) -> (r: String)
    requires
        distinct_keys(entries@),
    ensures
        json_string_map(r@) == Some(text_map(map_of(entries@))),
{
    let map: std::collections::HashMap<&str, &str> = entries.iter().map(
        |e| (e.0.as_str(), e.1.as_str()),
    ).collect();
    serde_json::to_string_pretty(&map).unwrap_or_default()
}

/// What a store holds after its file was read: the map in the file, or nothing
/// where the file is missing, unreadable or corrupt.
pub open spec fn loaded(contents: Option<Seq<char>>) -> Map<Seq<char>, Seq<char>> {
    match contents {
        Some(text) => match json_string_map(text) {
            Some(m) => m,
            None => Map::empty(),
        },
        None => Map::empty(),
    }
}

/// The last tag seen of each repository.
pub struct StateStore {
    path: String,
    map: StringMap<String>,
}

impl View for StateStore {
    type V = Map<Seq<char>, Seq<char>>;

    closed spec fn view(&self) -> Map<Seq<char>, Seq<char>> {
        text_map(self.map@)
    }
}

/// A save that waits for its text to be written to a file beside the store's.
pub struct PendingSave {
    path: String,
    text: String,
}

/// A save that waits for the written file to take the place of the store's.
pub struct PendingSwap {
    path: String,
}

impl StateStore {
    /// The file that the store is kept in.
    pub closed spec fn path(self) -> Seq<char> {
        self.path@
    }

    /// A store with the given entries, a later one in place of an earlier one
    /// with the same repository; an empty store where there are none to be had.
    pub fn with_entries(path: &str, parsed: Option<Vec<(String, String)>>) -> (r: StateStore)
        ensures
            r.path() == path@,
            r@ == (match parsed {
                Some(entries) => text_map(map_of(entries@)),
                None => Map::empty(),
            }),
    {
        let mut store = StateStore { path: path.to_string(), map: StringMap::new() };
        assert(store@ =~= Map::empty());
        if let Some(entries) = parsed {
            let mut i: usize = 0;
            assert(map_of(entries@.take(0)) =~= store.map@);
            while i < entries.len()
                invariant
                    i <= entries@.len(),
                    store.path() == path@,
                    store.map@ == map_of(entries@.take(i as int)),
                decreases entries@.len() - i,
            {
                assert(entries@.take(i + 1).drop_last() =~= entries@.take(i as int));
                store.map.insert(entries[i].0.as_str(), entries[i].1.clone());
                i = i + 1;
            }
            assert(entries@.take(i as int) =~= entries@);
        }
        store
    }

    /// The store kept in a file, from the contents of that file where it could
    /// be read.
    pub fn load(path: &str, contents: Option<&str>) -> (r: StateStore)
        ensures
            r.path() == path@,
            r@ == loaded(
                match contents {
                    Some(text) => Some(text@),
                    None => None,
                },
            ),
    {
        let parsed = match contents {
            Some(text) => parse_string_map(text),
            None => None,
        };
        StateStore::with_entries(path, parsed)
    }

    /// The last tag seen of a repository.
    pub fn last_seen(&self, repo: &str) -> (r: Option<&str>)
        ensures
            match r {
                Some(tag) => self@.contains_key(repo@) && self@[repo@] == tag@,
                None => !self@.contains_key(repo@),
            },
    {
        match self.map.get(repo) {
            Some(tag) => Some(tag.as_str()),
            None => None,
        }
    }

    /// Notes a tag as the last one seen of a repository.
    pub fn set(&mut self, repo: &str, tag: &str)
        ensures
            final(self)@ == old(self)@.insert(repo@, tag@),
            final(self).path() == old(self).path(),
    {
        self.map.insert(repo, tag.to_string());
        assert(self@ =~= old(self)@.insert(repo@, tag@));
    }

    /// Starts to save the store.
    pub fn save(&self) -> (r: PendingSave)
        ensures
            r.is_save_of(*self),
    {
        PendingSave { path: self.path.clone(), text: print_string_map(self.map.entries()) }
    }
}

impl PendingSave {
    pub closed spec fn path(self) -> Seq<char> {
        self.path@
    }

    pub closed spec fn text(self) -> Seq<char> {
        self.text@
    }

    /// A save of a store: it goes to the store's file, and a load of its text
    /// gives the store back.
    pub open spec fn is_save_of(self, store: StateStore) -> bool {
        &&& self.path() == store.path()
        &&& loaded(Some(self.text())) == store@
    }

    /// The file that the text is to be written to.
    pub fn tmp(&self) -> (r: String)
        ensures
            r@ == self.path() + ".tmp"@,
    {
        let mut tmp = self.path.clone();
        tmp.append(".tmp");
        tmp
    }

    /// The text that is to be written.
    pub fn contents(&self) -> (r: &str)
        ensures
            r@ == self.text(),
    {
        self.text.as_str()
    }

    /// Takes in what came of writing.
    pub fn written(self, outcome: Result<(), String>) -> (r: Result<PendingSwap, String>)
        ensures
            match outcome {
                Ok(()) => r is Ok && r->Ok_0.path() == self.path(),
                Err(reason) => r is Err && r->Err_0@ == "failed to write state tmp file "@ + (
                self.path() + ".tmp"@) + ": "@ + reason@,
            },
    {
        match outcome {
            Ok(()) => Ok(PendingSwap { path: self.path }),
            Err(reason) => {
                let mut s = join3("failed to write state tmp file ", self.tmp().as_str(), ": ");
                s.append(reason.as_str());
                Err(s)
            },
        }
    }
}

impl PendingSwap {
    pub closed spec fn path(self) -> Seq<char> {
        self.path@
    }

    /// The file that was written.
    pub fn tmp(&self) -> (r: String)
        ensures
            r@ == self.path() + ".tmp"@,
    {
        let mut tmp = self.path.clone();
        tmp.append(".tmp");
        tmp
    }

    /// The file whose place it takes.
    pub fn target(&self) -> (r: &str)
        ensures
            r@ == self.path(),
    {
        self.path.as_str()
    }

    /// Takes in what came of renaming.
    pub fn renamed(self, outcome: Result<(), String>) -> (r: Result<(), String>)
        ensures
            match outcome {
                Ok(()) => r is Ok,
                Err(reason) => r is Err && r->Err_0@ == "failed to rename state tmp file "@ + (
                self.path() + ".tmp"@) + " -> "@ + self.path() + ": "@ + reason@,
            },
    {
        match outcome {
            Ok(()) => Ok(()),
            Err(reason) => {
                let mut s = join3("failed to rename state tmp file ", self.tmp().as_str(), " -> ");
                s.append(self.path.as_str());
                s.append(": ");
                s.append(reason.as_str());
                Err(s)
            },
        }
    }
}

} // verus!
