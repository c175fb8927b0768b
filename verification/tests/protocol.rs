use kv_cluster::protocol::{parse_command, respond, serve, Reply};
use kv_cluster::store::{handle_command, Command, Store};

fn put(key: &str, value: &str) -> Command {
    Command::Put(key.to_string(), value.to_string())
}

fn get(key: &str) -> Command {
    Command::Get(key.to_string())
}

fn del(key: &str) -> Command {
    Command::Del(key.to_string())
}

fn answer(store: &mut Store, line: &str) -> String {
    serve(line, store).response
}

#[test]
fn session_of_put_get_del_get_and_garbage() {
    let mut store = Store::new();
    assert_eq!(answer(&mut store, "PUT a 1\n"), "OK\n");
    assert_eq!(answer(&mut store, "GET a\n"), "OK 1\n");
    assert_eq!(answer(&mut store, "DEL a\n"), "OK\n");
    assert_eq!(answer(&mut store, "GET a\n"), "NOT FOUND\n");
    assert_eq!(answer(&mut store, "FOO\n"), "ERROR\n");
}

#[test]
fn last_write_wins() {
    let mut store = Store::new();
    assert_eq!(answer(&mut store, "PUT k v1\n"), "OK\n");
    assert_eq!(answer(&mut store, "PUT k v2\n"), "OK\n");
    assert_eq!(answer(&mut store, "GET k\n"), "OK v2\n");
}

#[test]
fn get_after_deletes_finds_nothing() {
    for times in 1..4 {
        let mut store = Store::new();
        assert_eq!(answer(&mut store, "PUT k v\n"), "OK\n");
        for _ in 0..times {
            assert_eq!(answer(&mut store, "DEL k\n"), "OK\n");
        }
        assert_eq!(answer(&mut store, "GET k\n"), "NOT FOUND\n");
    }
}

#[test]
fn delete_of_absent_key_is_ok() {
    let mut store = Store::new();
    assert_eq!(answer(&mut store, "DEL nothing\n"), "OK\n");
    assert_eq!(answer(&mut store, "GET nothing\n"), "NOT FOUND\n");
}

#[test]
fn put_twice_is_put_once() {
    let mut once = Store::new();
    handle_command(put("k", "v"), &mut once);
    let mut twice = Store::new();
    handle_command(put("k", "v"), &mut twice);
    handle_command(put("k", "v"), &mut twice);
    assert_eq!(once.read("k"), Some("v".to_string()));
    assert_eq!(twice.read("k"), Some("v".to_string()));
    assert_eq!(once.read("other"), None);
    assert_eq!(twice.read("other"), None);
}

#[test]
fn replayed_command_changes_nothing_more() {
    let mut store = Store::new();
    let reply = serve("PUT a 1\n", &mut store);
    let command = reply.replicate.expect("a put is replicated");
    handle_command(command, &mut store);
    assert_eq!(store.read("a"), Some("1".to_string()));
    let reply = serve("DEL a\n", &mut store);
    let command = reply.replicate.expect("a delete is replicated");
    handle_command(command, &mut store);
    assert_eq!(store.read("a"), None);
}

#[test]
fn get_command_leaves_store_alone() {
    let mut store = Store::new();
    store.write("a".to_string(), "1".to_string());
    handle_command(get("a"), &mut store);
    handle_command(get("b"), &mut store);
    assert_eq!(store.read("a"), Some("1".to_string()));
    assert_eq!(store.read("b"), None);
}

#[test]
fn store_read_write_delete() {
    let mut store = Store::new();
    assert_eq!(store.read("a"), None);
    store.write("a".to_string(), "1".to_string());
    store.write("b".to_string(), "2".to_string());
    assert_eq!(store.read("a"), Some("1".to_string()));
    assert_eq!(store.read("b"), Some("2".to_string()));
    store.write("a".to_string(), "3".to_string());
    assert_eq!(store.read("a"), Some("3".to_string()));
    store.delete("a");
    assert_eq!(store.read("a"), None);
    assert_eq!(store.read("b"), Some("2".to_string()));
    store.delete("a");
    assert_eq!(store.read("a"), None);
}

#[test]
fn parses_the_three_requests() {
    assert_eq!(parse_command("GET a\n"), Some(get("a")));
    assert_eq!(parse_command("PUT a 1\n"), Some(put("a", "1")));
    assert_eq!(parse_command("DEL a\n"), Some(del("a")));
    assert_eq!(parse_command("GET a"), Some(get("a")));
    assert_eq!(parse_command("PUT key value\r\n"), Some(put("key", "value")));
}

#[test]
fn parse_trims_white_space_at_both_ends() {
    assert_eq!(parse_command("  \t GET a \r\n"), Some(get("a")));
    assert_eq!(parse_command("\u{a0}DEL a\u{2003}\u{3000}\n"), Some(del("a")));
    assert_eq!(parse_command("\nPUT a 1\u{85}"), Some(put("a", "1")));
}

#[test]
fn parse_rejects_what_is_no_request() {
    for line in [
        "",
        "\n",
        "FOO\n",
        "GET\n",
        "PUT\n",
        "DEL\n",
        "GET a b\n",
        "PUT a\n",
        "PUT a 1 2\n",
        "DEL a b\n",
        "get a\n",
        "put a 1\n",
        "del a\n",
        "GETa\n",
        "GET\ta\n",
        "PUT a \n",
        "GOT a\n",
        "GE a\n",
        "GETT a\n",
    ] {
        assert_eq!(parse_command(line), None, "line {:?}", line);
    }
}

#[test]
fn every_single_space_separates() {
    assert_eq!(parse_command("GET  a\n"), None);
    assert_eq!(parse_command("PUT  a\n"), Some(put("", "a")));
    assert_eq!(parse_command("PUT a  1\n"), None);
    assert_eq!(parse_command("DEL a b\n"), None);
}

#[test]
fn keys_and_values_keep_inner_white_space_and_any_script() {
    assert_eq!(parse_command("PUT a\tb c\u{a0}d\n"), Some(put("a\tb", "c\u{a0}d")));
    assert_eq!(parse_command("PUT clé väl\n"), Some(put("clé", "väl")));
    assert_eq!(parse_command("GET 鍵\n"), Some(get("鍵")));
    let mut store = Store::new();
    assert_eq!(answer(&mut store, "PUT 鍵 値\n"), "OK\n");
    assert_eq!(answer(&mut store, "GET 鍵\n"), "OK 値\n");
}

#[test]
fn respond_says_what_to_replicate() {
    let mut store = Store::new();
    assert_eq!(
        respond(Some(put("a", "1")), &mut store),
        Reply { response: "OK\n".to_string(), replicate: Some(put("a", "1")) }
    );
    assert_eq!(
        respond(Some(get("a")), &mut store),
        Reply { response: "OK 1\n".to_string(), replicate: None }
    );
    assert_eq!(
        respond(Some(get("b")), &mut store),
        Reply { response: "NOT FOUND\n".to_string(), replicate: None }
    );
    assert_eq!(
        respond(Some(del("a")), &mut store),
        Reply { response: "OK\n".to_string(), replicate: Some(del("a")) }
    );
    assert_eq!(
        respond(None, &mut store),
        Reply { response: "ERROR\n".to_string(), replicate: None }
    );
    assert_eq!(store.read("a"), None);
}

#[test]
fn malformed_request_changes_nothing() {
    let mut store = Store::new();
    store.write("a".to_string(), "1".to_string());
    let reply = serve("PUT a\n", &mut store);
    assert_eq!(reply.response, "ERROR\n");
    assert_eq!(reply.replicate, None);
    assert_eq!(store.read("a"), Some("1".to_string()));
}

#[test]
fn empty_value_is_read_back_as_empty() {
    let mut store = Store::new();
    store.write("a".to_string(), String::new());
    assert_eq!(answer(&mut store, "GET a\n"), "OK \n");
}

#[test]
fn command_clone_is_equal() {
    for command in [put("a", "1"), get("a"), del("a")] {
        assert_eq!(command.clone(), command);
    }
}
