use triangular_db::commands::{parse_command, process_request, Command};

fn err(request: &str) -> String {
    match process_request(request) {
        Ok(c) => panic!("accepted: {:?}", c),
        Err(e) => e,
    }
}

#[test]
fn empty_request_is_refused() {
    assert_eq!(err(""), "ERROR: Empty request");
    assert_eq!(err("   \t "), "ERROR: Empty request");
}

#[test]
fn unknown_command_is_refused() {
    assert_eq!(err("DELETE users alice"), "ERROR: Unknown command");
}

#[test]
fn arity_errors() {
    assert_eq!(err("INIT users"), "ERROR: INIT requires container and value");
    assert_eq!(err("SET users alice email"), "ERROR: SET requires container, module, key, and value");
    assert_eq!(err("GET users alice"), "ERROR: GET requires container, module, and key");
    assert_eq!(err("LIST"), "ERROR: LIST requires container");
    assert_eq!(err("LIST a b c"), "ERROR: LIST takes 1 or 2 arguments");
}

#[test]
fn keywords_are_case_insensitive_and_whitespace_collapses() {
    let c = process_request("  init   users\talice ").unwrap();
    assert_eq!(c, Command::Init { container: "users".to_string(), value: "alice".to_string() });
    let c = process_request("List users").unwrap();
    assert_eq!(c, Command::ListModules { container: "users".to_string() });
    let c = process_request("LIST users alice").unwrap();
    assert_eq!(c, Command::ListKeys { container: "users".to_string(), module: "alice".to_string() });
}

#[test]
fn extra_arguments_are_ignored() {
    let c = process_request("SET c m k v extra").unwrap();
    assert_eq!(
        c,
        Command::SetValue {
            container: "c".to_string(),
            module: "m".to_string(),
            key: "k".to_string(),
            value: "v".to_string(),
        }
    );
}

#[test]
fn parse_command_takes_upper_case_keyword() {
    let parts: Vec<String> = vec!["get".to_string(), "c".to_string(), "m".to_string(), "k".to_string()];
    let c = parse_command(&"GET".to_string(), &parts).unwrap();
    assert_eq!(c, Command::GetValue { container: "c".to_string(), module: "m".to_string(), key: "k".to_string() });
    assert_eq!(parse_command(&"get".to_string(), &parts).unwrap_err(), "ERROR: Unknown command");
}

#[test]
fn command_names_its_container() {
    let c = process_request("GET box m k").unwrap();
    assert_eq!(c.container(), "box");
}

#[test]
fn unicode_white_space_separates_words() {
    let c = process_request("GET\u{3000}box\u{00A0}m\u{2009}k").unwrap();
    assert_eq!(c, Command::GetValue { container: "box".to_string(), module: "m".to_string(), key: "k".to_string() });
}
