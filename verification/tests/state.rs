use gh_release_notify::state::StateStore;

#[test]
fn save_then_load_round_trips() {
    let p = "dir/state.json";
    let mut store = StateStore::load(p, None);
    store.set("fosrl/pangolin", "1.19.4");
    store.set("fosrl/newt", "1.13.0");
    let save = store.save();
    assert_eq!(save.tmp(), "dir/state.json.tmp");
    let text = save.contents().to_string();
    let swap = save.written(Ok(())).unwrap();
    assert_eq!(swap.tmp(), "dir/state.json.tmp");
    assert_eq!(swap.target(), "dir/state.json");
    swap.renamed(Ok(())).unwrap();

    let loaded = StateStore::load(p, Some(text.as_str()));
    assert_eq!(loaded.last_seen("fosrl/pangolin"), Some("1.19.4"));
    assert_eq!(loaded.last_seen("fosrl/newt"), Some("1.13.0"));
    assert_eq!(loaded.last_seen("other/repo"), None);
}

#[test]
fn load_missing_file_returns_empty() {
    let store = StateStore::load("does-not-exist.json", None);
    assert_eq!(store.last_seen("anything"), None);
}

#[test]
fn load_corrupt_file_starts_empty() {
    let store = StateStore::load("state.json", Some("{not valid json"));
    assert_eq!(store.last_seen("anything"), None);
    let store = StateStore::load("state.json", Some("{\"a\": 1}"));
    assert_eq!(store.last_seen("a"), None);
}

#[test]
fn set_overwrites_existing_tag() {
    let mut store = StateStore::load("ignored", None);
    store.set("a/b", "1.0");
    store.set("a/b", "2.0");
    assert_eq!(store.last_seen("a/b"), Some("2.0"));
}

#[test]
fn saved_text_is_readable_json() {
    let mut store = StateStore::load("s", None);
    store.set("a/b", "v\"1\\\n\u{1}ä😀");
    let save = store.save();
    assert_eq!(save.contents(), "{\n  \"a/b\": \"v\\\"1\\\\\\n\\u0001ä😀\"\n}");
    let loaded = StateStore::load("s", Some(save.contents()));
    assert_eq!(loaded.last_seen("a/b"), Some("v\"1\\\n\u{1}ä😀"));
    assert_eq!(StateStore::load("s", None).save().contents(), "{}");
}

#[test]
fn a_later_entry_replaces_an_earlier_one() {
    let entries = vec![
        ("a".to_string(), "1".to_string()),
        ("b".to_string(), "2".to_string()),
        ("a".to_string(), "3".to_string()),
    ];
    let store = StateStore::with_entries("s", Some(entries));
    assert_eq!(store.last_seen("a"), Some("3"));
    assert_eq!(store.last_seen("b"), Some("2"));
    assert_eq!(StateStore::with_entries("s", None).last_seen("a"), None);
}

#[test]
fn failures_name_both_files() {
    let store = StateStore::load("s.json", None);
    assert_eq!(
        store.save().written(Err("full".to_string())).err().unwrap(),
        "failed to write state tmp file s.json.tmp: full"
    );
    let swap = store.save().written(Ok(())).unwrap();
    assert_eq!(
        swap.renamed(Err("no".to_string())).unwrap_err(),
        "failed to rename state tmp file s.json.tmp -> s.json: no"
    );
}

/// Saves to files in memory, where each operation may fail, and a failed write
/// leaves half of the text behind.
fn save_to(files: &mut Vec<(String, String)>, store: &StateStore, write: bool, rename: bool) -> bool {
    let save = store.save();
    let tmp = save.tmp();
    let text = save.contents().to_string();
    let written = if write { text.clone() } else { text[..text.len() / 2].to_string() };
    files.retain(|f| f.0 != tmp);
    files.push((tmp.clone(), written));
    let outcome = if write { Ok(()) } else { Err("full".to_string()) };
    let swap = match save.written(outcome) {
        Ok(swap) => swap,
        Err(_) => return false,
    };
    if rename {
        files.retain(|f| f.0 != swap.target());
        for f in files.iter_mut() {
            if f.0 == tmp {
                f.0 = swap.target().to_string();
            }
        }
    }
    swap.renamed(if rename { Ok(()) } else { Err("no".to_string()) }).is_ok()
}

fn load_from(files: &[(String, String)]) -> StateStore {
    let text = files.iter().find(|f| f.0 == "s.json").map(|f| f.1.as_str());
    StateStore::load("s.json", text)
}

#[test]
fn a_save_replaces_the_file_whole_or_not_at_all() {
    let mut files = vec![("other".to_string(), "x".to_string())];
    let mut store = StateStore::load("s.json", None);
    store.set("a/b", "1");
    assert!(save_to(&mut files, &store, true, true));
    assert_eq!(files.len(), 2);
    store.set("a/b", "2");
    assert!(!save_to(&mut files, &store, false, false));
    assert_eq!(load_from(&files).last_seen("a/b"), Some("1"));
    assert!(!save_to(&mut files, &store, true, false));
    assert_eq!(load_from(&files).last_seen("a/b"), Some("1"));
    assert!(save_to(&mut files, &store, true, true));
    assert_eq!(load_from(&files).last_seen("a/b"), Some("2"));
    assert_eq!(files.len(), 2);
    assert!(files.contains(&("other".to_string(), "x".to_string())));
}
