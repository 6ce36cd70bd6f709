use crates_watcher::command::{
    add_one, apply_add, apply_remove, handle_message, help_text, parse_command, remove_one,
    render_list, Command,
};
use crates_watcher::registry::{resolve, RegistryError};
use crates_watcher::text::{split_names, str_eq};
use crates_watcher::watch::WatchMap;

fn test_client() -> crates_io_api::SyncClient {
    crates_io_api::SyncClient::new(
        "crates-watcher tests (tests@example.org)",
        std::time::Duration::from_millis(1000),
    )
    .unwrap()
}

#[test]
fn resolve_hands_a_version_through_and_rejects_hollow_answers() {
    assert_eq!(
        resolve(Ok(Some("1.0.0".to_string()))),
        Ok("1.0.0".to_string())
    );
    assert_eq!(
        resolve(Ok(Some(String::new()))),
        Err(RegistryError::Other("empty version string".to_string()))
    );
    assert_eq!(
        resolve(Ok(None)),
        Err(RegistryError::Other("no published versions".to_string()))
    );
    assert_eq!(
        resolve(Err(RegistryError::NotFound)),
        Err(RegistryError::NotFound)
    );
    assert_eq!(
        resolve(Err(RegistryError::Other("timed out".to_string()))),
        Err(RegistryError::Other("timed out".to_string()))
    );
}

#[test]
fn str_eq_agrees_with_equality() {
    assert!(str_eq("abc", "abc"));
    assert!(!str_eq("abc", "abd"));
    assert!(str_eq("", ""));
    assert!(!str_eq("a", ""));
}

#[test]
fn split_names_drops_empty_tokens() {
    let names = split_names(" alpha  beta ");
    assert_eq!(names, vec!["alpha".to_string(), "beta".to_string()]);
    assert_eq!(split_names(""), Vec::<String>::new());
    assert_eq!(split_names("    "), Vec::<String>::new());
    assert_eq!(split_names("one"), vec!["one".to_string()]);
}

#[test]
fn parse_recognises_the_four_commands() {
    let (cmd, tail) = parse_command("!add alpha beta").unwrap();
    assert_eq!(cmd, Command::Add);
    assert_eq!(tail, " alpha beta");

    let (cmd, tail) = parse_command("!remove alpha").unwrap();
    assert_eq!(cmd, Command::Remove);
    assert_eq!(tail, " alpha");

    let (cmd, tail) = parse_command("!list").unwrap();
    assert_eq!(cmd, Command::List);
    assert_eq!(tail, "");

    let (cmd, tail) = parse_command("!help").unwrap();
    assert_eq!(cmd, Command::Help);
    assert_eq!(tail, "");
}

#[test]
fn parse_rejects_what_is_not_a_command() {
    assert!(parse_command("").is_none());
    assert!(parse_command("add alpha").is_none());
    assert!(parse_command("!").is_none());
    assert!(parse_command("! add alpha").is_none());
    assert!(parse_command("!addfoo").is_none());
    assert!(parse_command("!watch alpha").is_none());
}

#[test]
fn add_same_name_twice_keeps_one_entry() {
    let mut map = WatchMap::new();
    let res: Result<String, RegistryError> = Ok("1.2.3".to_string());
    let first = add_one(&mut map, "serde", &res);
    let second = add_one(&mut map, "serde", &res);
    assert_eq!(first, "Added `serde` version `1.2.3`\n");
    assert_eq!(second, first);
    assert_eq!(map.len(), 1);
    assert_eq!(map.get("serde"), Some("1.2.3".to_string()));
}

#[test]
fn add_overwrites_the_stored_version() {
    let mut map = WatchMap::new();
    add_one(&mut map, "serde", &Ok("1.0.0".to_string()));
    add_one(&mut map, "serde", &Ok("2.0.0".to_string()));
    assert_eq!(map.len(), 1);
    assert_eq!(map.get("serde"), Some("2.0.0".to_string()));
}

#[test]
fn add_reports_each_error_kind() {
    let mut map = WatchMap::new();
    let not_found = add_one(&mut map, "ghost", &Err(RegistryError::NotFound));
    assert_eq!(not_found, "Error: `ghost` not found\n");
    let other = add_one(
        &mut map,
        "flaky",
        &Err(RegistryError::Other("connection reset".to_string())),
    );
    assert_eq!(other, "Error: `flaky`, connection reset\n");
    assert_eq!(map.len(), 0);
}

#[test]
fn apply_add_with_no_names_reports_nothing_watched() {
    let mut map = WatchMap::new();
    let names: Vec<String> = Vec::new();
    let results: Vec<Result<String, RegistryError>> = Vec::new();
    let reply = apply_add(&mut map, &names, &results);
    assert_eq!(reply, "No crates being watched");
    assert_eq!(map.len(), 0);
}

#[test]
fn add_alpha_beta_scenario() {
    let mut map = WatchMap::new();
    let (cmd, tail) = parse_command("!add alpha beta").unwrap();
    assert_eq!(cmd, Command::Add);
    let names = split_names(&tail);
    assert_eq!(names, vec!["alpha".to_string(), "beta".to_string()]);
    let results = vec![
        Ok("0.1.0".to_string()),
        Err(RegistryError::NotFound),
    ];
    let reply = apply_add(&mut map, &names, &results);
    assert_eq!(
        reply,
        "Added `alpha` version `0.1.0`\nError: `beta` not found\n"
    );
    assert_eq!(map.len(), 1);
    assert_eq!(map.get("alpha"), Some("0.1.0".to_string()));
    assert_eq!(map.get("beta"), None);
}

#[test]
fn remove_unknown_name_leaves_map_unchanged() {
    let mut map = WatchMap::new();
    map.insert("kept", "1.0.0");
    let line = remove_one(&mut map, "ghost");
    assert_eq!(line, "Error: `ghost` being watched\n");
    assert_eq!(map.len(), 1);
    assert_eq!(map.get("kept"), Some("1.0.0".to_string()));
}

#[test]
fn remove_reports_the_prior_version() {
    let mut map = WatchMap::new();
    map.insert("serde", "1.2.3");
    let line = remove_one(&mut map, "serde");
    assert_eq!(line, "Removed `serde` (version `1.2.3`)\n");
    assert_eq!(map.len(), 0);
    assert_eq!(map.get("serde"), None);
}

#[test]
fn remove_same_name_twice_reports_an_error_the_second_time() {
    let mut map = WatchMap::new();
    map.insert("serde", "1.2.3");
    let names = vec!["serde".to_string(), "serde".to_string()];
    let reply = apply_remove(&mut map, &names);
    assert_eq!(
        reply,
        "Removed `serde` (version `1.2.3`)\nError: `serde` being watched\n"
    );
    assert_eq!(map.len(), 0);
}

#[test]
fn apply_remove_with_no_names_replies_with_an_empty_string() {
    let mut map = WatchMap::new();
    map.insert("kept", "1.0.0");
    let names: Vec<String> = Vec::new();
    let reply = apply_remove(&mut map, &names);
    assert_eq!(reply, "");
    assert_eq!(map.len(), 1);
}

#[test]
fn list_reflects_add_and_remove() {
    let mut map = WatchMap::new();
    add_one(&mut map, "foo", &Ok("1.2.3".to_string()));
    assert_eq!(render_list(&map), "`foo`:\t`1.2.3`\n");
    remove_one(&mut map, "foo");
    assert_eq!(render_list(&map), "No crates being watched");
}

#[test]
fn list_keeps_insertion_order_and_overwrites_in_place() {
    let mut map = WatchMap::new();
    map.insert("alpha", "1.0.0");
    map.insert("beta", "2.0.0");
    map.insert("alpha", "1.1.0");
    assert_eq!(
        render_list(&map),
        "`alpha`:\t`1.1.0`\n`beta`:\t`2.0.0`\n"
    );
}

#[test]
fn help_lists_the_four_commands() {
    let text = help_text();
    assert_eq!(
        text,
        "\n!add <crate>... - Add crates to be watched;\n!list - List watched crates.\n!remove <crate>... - Remove crates from watch list.\n!help - Show this dialog.\n"
    );
}

#[test]
fn message_from_another_room_is_ignored() {
    let client = test_client();
    let mut map = WatchMap::new();
    map.insert("foo", "1.0.0");
    let reply = handle_message(
        &mut map,
        &client,
        "!watched:example.org",
        "!other:example.org",
        "!remove foo",
    );
    assert!(reply.is_none());
    assert_eq!(map.len(), 1);
    assert_eq!(map.get("foo"), Some("1.0.0".to_string()));
}

#[test]
fn non_command_bodies_draw_no_reply() {
    let client = test_client();
    let mut map = WatchMap::new();
    let room = "!watched:example.org";
    assert!(handle_message(&mut map, &client, room, room, "hello there").is_none());
    assert!(handle_message(&mut map, &client, room, room, "!unknown x").is_none());
    assert_eq!(map.len(), 0);
}

#[test]
fn add_with_no_names_reports_nothing_watched() {
    let client = test_client();
    let mut map = WatchMap::new();
    let room = "!watched:example.org";
    let reply = handle_message(&mut map, &client, room, room, "!add").unwrap();
    assert_eq!(reply, "No crates being watched");
    let reply = handle_message(&mut map, &client, room, room, "!add    ").unwrap();
    assert_eq!(reply, "No crates being watched");
    assert_eq!(map.len(), 0);
}

#[test]
fn remove_and_list_flow_through_the_dispatcher() {
    let client = test_client();
    let mut map = WatchMap::new();
    map.insert("alpha", "0.1.0");
    let room = "!watched:example.org";
    let reply = handle_message(&mut map, &client, room, room, "!list").unwrap();
    assert_eq!(reply, "`alpha`:\t`0.1.0`\n");
    let reply = handle_message(&mut map, &client, room, room, "!remove alpha").unwrap();
    assert_eq!(reply, "Removed `alpha` (version `0.1.0`)\n");
    let reply = handle_message(&mut map, &client, room, room, "!list").unwrap();
    assert_eq!(reply, "No crates being watched");
    let reply = handle_message(&mut map, &client, room, room, "!help").unwrap();
    assert_eq!(reply, help_text());
}
