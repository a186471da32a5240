use triangular_db::commands::{process_request, run_command, Command, Loaded, Step};
use triangular_db::json::Json;

fn text(s: &str) -> String {
    s.to_string()
}

fn object(members: &[(&str, Json)]) -> Json {
    let mut keys = Vec::new();
    let mut values = Vec::new();
    for (k, v) in members {
        keys.push(text(k));
        values.push(copy(v));
    }
    Json::Object(keys, values)
}

fn copy(v: &Json) -> Json {
    v.duplicate()
}

fn users_schema() -> Json {
    object(&[(
        "users",
        object(&[("id", Json::Str(text(""))), ("email", Json::Str(text("")))]),
    )])
}

fn command(request: &str) -> Command {
    match process_request(request) {
        Ok(c) => c,
        Err(e) => panic!("request refused: {}", e),
    }
}

fn reply(step: Step) -> String {
    match step {
        Step::Reply(s) => s,
        Step::Write(_, s) => panic!("unexpected write with reply {}", s),
    }
}

fn written(step: Step) -> (Json, String) {
    match step {
        Step::Write(d, s) => (d, s),
        Step::Reply(s) => panic!("unexpected reply {}", s),
    }
}

#[test]
fn users_scenario_end_to_end() {
    let init = command("INIT users alice");
    let (doc, msg) = written(run_command(&init, Loaded::Parsed(users_schema()), Loaded::Absent, false));
    assert_eq!(msg, "INIT alice in Container 'users'");
    let expected = Json::Array(vec![object(&[
        ("id", Json::Str(text("alice"))),
        ("email", Json::Str(text(""))),
    ])]);
    assert_eq!(doc, expected);

    let set = command("SET users alice email a@x.com");
    let (doc, msg) = written(run_command(&set, Loaded::Parsed(users_schema()), Loaded::Parsed(doc), false));
    assert_eq!(msg, "SET email a@x.com");

    let get = command("GET users alice email");
    let got = reply(run_command(&get, Loaded::Parsed(users_schema()), Loaded::Parsed(doc.duplicate()), false));
    assert_eq!(got, "a@x.com");

    let list = command("LIST users");
    let got = reply(run_command(&list, Loaded::Parsed(users_schema()), Loaded::Parsed(doc.duplicate()), false));
    assert_eq!(got, "alice");

    let keys = command("LIST users alice");
    let got = reply(run_command(&keys, Loaded::Parsed(users_schema()), Loaded::Parsed(doc), false));
    assert_eq!(got, "email");
}

#[test]
fn get_on_missing_container_reports_container_error() {
    let get = command("GET missing_container m k");
    let got = reply(run_command(&get, Loaded::Parsed(users_schema()), Loaded::Absent, false));
    assert_eq!(got, "ERROR: Container does not exist");
    assert!(got.starts_with("ERROR:"));
    assert!(got.contains("Container"));
}

#[test]
fn set_on_unknown_module_reports_module_error() {
    let init = command("INIT users alice");
    let (doc, _) = written(run_command(&init, Loaded::Parsed(users_schema()), Loaded::Absent, false));
    let set = command("SET users bob email x");
    let got = reply(run_command(&set, Loaded::Parsed(users_schema()), Loaded::Parsed(doc), false));
    assert_eq!(got, "ERROR: Module not found");
}

#[test]
fn init_on_container_absent_from_schema() {
    let init = command("INIT orders o1");
    let got = reply(run_command(&init, Loaded::Parsed(users_schema()), Loaded::Absent, false));
    assert_eq!(got, "ERROR: Container not found in tree.json");
}

#[test]
fn init_reports_schema_read_and_parse_failures() {
    let init = command("INIT users alice");
    assert_eq!(reply(run_command(&init, Loaded::Absent, Loaded::Absent, false)), "ERROR: Failed to read tree.json");
    assert_eq!(reply(run_command(&init, Loaded::Unreadable, Loaded::Absent, false)), "ERROR: Failed to read tree.json");
    assert_eq!(reply(run_command(&init, Loaded::Unparsable, Loaded::Absent, false)), "ERROR: Failed to parse tree.json");
}

#[test]
fn init_on_unparsable_container_file_starts_fresh() {
    let init = command("INIT users bob");
    let (doc, _) = written(run_command(&init, Loaded::Parsed(users_schema()), Loaded::Unparsable, false));
    match doc {
        Json::Array(items) => assert_eq!(items.len(), 1),
        other => panic!("not an array: {:?}", other),
    }
}

#[test]
fn container_file_errors_for_reads() {
    let get = command("GET users alice email");
    assert_eq!(reply(run_command(&get, Loaded::Absent, Loaded::Unreadable, false)), "ERROR: Failed to read container file");
    assert_eq!(reply(run_command(&get, Loaded::Absent, Loaded::Unparsable, false)), "ERROR: Failed to parse container file");
    let list = command("LIST users");
    assert_eq!(reply(run_command(&list, Loaded::Absent, Loaded::Absent, false)), "ERROR: Container does not exist");
}

#[test]
fn repeated_inits_append_in_order() {
    let mut doc: Option<Json> = None;
    for name in ["a", "b", "c", "d"] {
        let init = command(&format!("INIT users {}", name));
        let file = match doc.take() {
            Some(d) => Loaded::Parsed(d),
            None => Loaded::Absent,
        };
        let (d, _) = written(run_command(&init, Loaded::Parsed(users_schema()), file, false));
        doc = Some(d);
    }
    let doc = doc.unwrap();
    match &doc {
        Json::Array(items) => assert_eq!(items.len(), 4),
        other => panic!("not an array: {:?}", other),
    }
    let list = command("LIST users");
    assert_eq!(reply(run_command(&list, Loaded::Absent, Loaded::Parsed(doc), false)), "a, b, c, d");
}

#[test]
fn set_then_get_returns_the_value() {
    let init = command("INIT users carol");
    let (doc, _) = written(run_command(&init, Loaded::Parsed(users_schema()), Loaded::Absent, false));
    let set = command("SET users carol phone 555");
    let (doc, msg) = written(run_command(&set, Loaded::Absent, Loaded::Parsed(doc), false));
    assert_eq!(msg, "SET phone 555");
    let get = command("get users carol phone");
    assert_eq!(reply(run_command(&get, Loaded::Absent, Loaded::Parsed(doc.duplicate()), false)), "555");
    let keys = command("LIST users carol");
    assert_eq!(reply(run_command(&keys, Loaded::Absent, Loaded::Parsed(doc), false)), "email, phone");
}

#[test]
fn set_of_undeclared_key_refused_when_enforced() {
    let init = command("INIT users dave");
    let (doc, _) = written(run_command(&init, Loaded::Parsed(users_schema()), Loaded::Absent, false));
    let set = command("SET users dave phone 1");
    let got = reply(run_command(&set, Loaded::Parsed(users_schema()), Loaded::Parsed(doc.duplicate()), true));
    assert_eq!(got, "ERROR: Key not declared for container");
    let set = command("SET users dave email d@x");
    let (_, msg) = written(run_command(&set, Loaded::Parsed(users_schema()), Loaded::Parsed(doc), true));
    assert_eq!(msg, "SET email d@x");
}

#[test]
fn get_of_missing_key_and_non_string_value() {
    let doc = Json::Array(vec![object(&[
        ("id", Json::Str(text("eve"))),
        ("age", Json::Number(text("31"))),
    ])]);
    let get = command("GET users eve age");
    assert_eq!(reply(run_command(&get, Loaded::Absent, Loaded::Parsed(doc.duplicate()), false)), "");
    let get = command("GET users eve name");
    assert_eq!(reply(run_command(&get, Loaded::Absent, Loaded::Parsed(doc), false)), "ERROR: Key not found");
}

#[test]
fn init_on_non_array_document_is_refused() {
    let init = command("INIT users alice");
    let doc = object(&[("id", Json::Str(text("x")))]);
    let got = reply(run_command(&init, Loaded::Parsed(users_schema()), Loaded::Parsed(doc), false));
    assert_eq!(got, "ERROR: Invalid container format");
}

#[test]
fn set_get_and_list_keys_on_non_array_document_are_refused() {
    let doc = object(&[("id", Json::Str(text("x")))]);
    let set = command("SET users x email e");
    assert_eq!(reply(run_command(&set, Loaded::Absent, Loaded::Parsed(doc.duplicate()), false)), "ERROR: Invalid container format");
    let get = command("GET users x id");
    assert_eq!(reply(run_command(&get, Loaded::Absent, Loaded::Parsed(doc.duplicate()), false)), "ERROR: Invalid container format");
    let keys = command("LIST users x");
    assert_eq!(reply(run_command(&keys, Loaded::Absent, Loaded::Parsed(doc), false)), "ERROR: Invalid container format");
}

#[test]
fn list_modules_on_non_array_document() {
    let list = command("LIST users");
    let doc = object(&[("id", Json::Str(text("x")))]);
    assert_eq!(reply(run_command(&list, Loaded::Absent, Loaded::Parsed(doc), false)), "ERROR: Invalid container format");
}

#[test]
fn list_keys_of_unknown_module() {
    let keys = command("LIST users nobody");
    let doc = Json::Array(vec![]);
    assert_eq!(reply(run_command(&keys, Loaded::Absent, Loaded::Parsed(doc), false)), "ERROR: Module not found");
}

#[test]
fn duplicate_ids_first_match_wins() {
    let doc = Json::Array(vec![
        object(&[("id", Json::Str(text("x"))), ("v", Json::Str(text("1")))]),
        object(&[("id", Json::Str(text("x"))), ("v", Json::Str(text("2")))]),
    ]);
    let get = command("GET c x v");
    assert_eq!(reply(run_command(&get, Loaded::Absent, Loaded::Parsed(doc.duplicate()), false)), "1");
    let set = command("SET c x v 9");
    let (doc, _) = written(run_command(&set, Loaded::Absent, Loaded::Parsed(doc), false));
    let expected = Json::Array(vec![
        object(&[("id", Json::Str(text("x"))), ("v", Json::Str(text("9")))]),
        object(&[("id", Json::Str(text("x"))), ("v", Json::Str(text("2")))]),
    ]);
    assert_eq!(doc, expected);
}
