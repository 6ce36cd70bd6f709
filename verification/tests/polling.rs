use crates_watcher::poll::{poll_apply, poll_one};
use crates_watcher::watch::WatchMap;

#[test]
fn poll_updates_a_changed_entry_and_reports_once() {
    let mut map = WatchMap::new();
    map.insert("foo", "1.0.0");
    let names = vec!["foo".to_string()];

    let first = poll_apply(&mut map, &names, &vec!["1.1.0".to_string()]);
    assert_eq!(first, "`foo` updated from version `1.0.0` to `1.1.0`!");
    assert_eq!(map.get("foo"), Some("1.1.0".to_string()));

    let second = poll_apply(&mut map, &names, &vec!["1.1.0".to_string()]);
    assert_eq!(second, "");
    assert_eq!(map.get("foo"), Some("1.1.0".to_string()));
}

#[test]
fn poll_one_ignores_a_name_that_is_not_watched() {
    let mut map = WatchMap::new();
    map.insert("foo", "1.0.0");
    let note = poll_one(&mut map, "bar", "9.9.9");
    assert!(note.is_none());
    assert_eq!(map.len(), 1);
    assert_eq!(map.get("foo"), Some("1.0.0".to_string()));
    assert_eq!(map.get("bar"), None);
}

#[test]
fn poll_reports_every_change_in_one_text() {
    let mut map = WatchMap::new();
    map.insert("alpha", "1.0.0");
    map.insert("beta", "2.0.0");
    let names = vec!["alpha".to_string(), "beta".to_string()];
    let latests = vec!["1.0.1".to_string(), "2.0.0".to_string()];
    let out = poll_apply(&mut map, &names, &latests);
    assert_eq!(out, "`alpha` updated from version `1.0.0` to `1.0.1`!");
    assert_eq!(map.get("alpha"), Some("1.0.1".to_string()));
    assert_eq!(map.get("beta"), Some("2.0.0".to_string()));

    let latests = vec!["1.0.2".to_string(), "2.1.0".to_string()];
    let out = poll_apply(&mut map, &names, &latests);
    assert_eq!(
        out,
        "`alpha` updated from version `1.0.1` to `1.0.2`!`beta` updated from version `2.0.0` to `2.1.0`!"
    );
}
