use vstd::prelude::*;

use crate::json::{Json, JsonV};
use crate::store::{
    error_text, get_field, get_result, init_record, init_result, join_list, joined, keys_result,
    list_keys, list_modules, member, modules_result, set_field, set_result, texts,
    StoreError,
};

verus! {

/// Whether `c` has Unicode's White_Space property, as `char::is_whitespace`
/// tests it.
pub open spec fn is_white_space(c: char) -> bool {
    let n = c as u32;
    (0x9 <= n <= 0xd) || n == 0x20 || n == 0x85 || n == 0xa0 || n == 0x1680 || (0x2000 <= n
        <= 0x200a) || n == 0x2028 || n == 0x2029 || n == 0x202f || n == 0x205f || n == 0x3000
}

/// The words of `s`: its maximal runs of characters that are not white
/// space, in order.
pub open spec fn words_of(s: Seq<char>) -> Seq<Seq<char>>
    decreases s.len(),
{
    if s.len() == 0 {
        Seq::empty()
    } else {
        let w = words_of(s.drop_last());
        let c = s.last();
        if is_white_space(c) {
            w
        } else if s.len() >= 2 && !is_white_space(s[s.len() - 2]) && w.len() > 0 {
            w.update(w.len() - 1, w.last().push(c))
        } else {
            w.push(seq![c])
        }
    }
}

/// What `str::to_uppercase` yields on a text.
pub uninterp spec fn upper_of(s: Seq<char>) -> Seq<char>;

/// Relies on str::split_whitespace: the substrings of `s` separated by
/// runs of characters for which `char::is_whitespace` holds, empty ones
/// left out, in order.
#[verifier::external_body]
fn split_words(s: &str) -> (r: Vec<String>)
    ensures
        texts(r@) == words_of(s@),
{
    s.split_whitespace().map(|w| w.to_string()).collect()
}

/// Relies on str::to_uppercase: the upper-case form of `s`, which depends
/// on the characters of `s` alone.
#[verifier::external_body]
fn to_upper(s: &String) -> (r: String)
    ensures
        r@ == upper_of(s@),
{
    s.to_uppercase()
}

/// A request of the text protocol.
#[derive(Debug, PartialEq)]
pub enum Command {
    Init { container: String, value: String },
    SetValue { container: String, module: String, key: String, value: String },
    GetValue { container: String, module: String, key: String },
    ListModules { container: String },
    ListKeys { container: String, module: String },
}

/// The mathematical value of a `Command`.
pub enum CommandV {
    Init { container: Seq<char>, value: Seq<char> },
    SetValue { container: Seq<char>, module: Seq<char>, key: Seq<char>, value: Seq<char> },
    GetValue { container: Seq<char>, module: Seq<char>, key: Seq<char> },
    ListModules { container: Seq<char> },
    ListKeys { container: Seq<char>, module: Seq<char> },
}

impl View for Command {
    type V = CommandV;

    open spec fn view(&self) -> CommandV {
        match self {
            Command::Init { container, value } => CommandV::Init {
                container: container@,
                value: value@,
            },
            Command::SetValue { container, module, key, value } => CommandV::SetValue {
                container: container@,
                module: module@,
                key: key@,
                value: value@,
            },
            Command::GetValue { container, module, key } => CommandV::GetValue {
                container: container@,
                module: module@,
                key: key@,
            },
            Command::ListModules { container } => CommandV::ListModules { container: container@ },
            Command::ListKeys { container, module } => CommandV::ListKeys {
                container: container@,
                module: module@,
            },
        }
    }
}

impl Command {
    /// The container that the command works on.
    pub fn container(&self) -> (r: &String)
        ensures
            r@ == container_of(self@),
    {
        match self {
            Command::Init { container, .. } => container,
            Command::SetValue { container, .. } => container,
            Command::GetValue { container, .. } => container,
            Command::ListModules { container } => container,
            Command::ListKeys { container, .. } => container,
        }
    }
}

/// The container that a command works on.
pub open spec fn container_of(c: CommandV) -> Seq<char> {
    match c {
        CommandV::Init { container, .. } => container,
        CommandV::SetValue { container, .. } => container,
        CommandV::GetValue { container, .. } => container,
        CommandV::ListModules { container } => container,
        CommandV::ListKeys { container, .. } => container,
    }
}

/// The command that the words `parts` of a request make, given `keyword`,
/// the upper-case form of its first word; or the error response.
pub open spec fn parsed(keyword: Seq<char>, parts: Seq<Seq<char>>) -> Result<CommandV, Seq<char>> {
    if keyword == "INIT"@ {
        if parts.len() < 3 {
            Err("ERROR: INIT requires container and value"@)
        } else {
            Ok(CommandV::Init { container: parts[1], value: parts[2] })
        }
    } else if keyword == "SET"@ {
        if parts.len() < 5 {
            Err("ERROR: SET requires container, module, key, and value"@)
        } else {
            Ok(
                CommandV::SetValue {
                    container: parts[1],
                    module: parts[2],
                    key: parts[3],
                    value: parts[4],
                },
            )
        }
    } else if keyword == "GET"@ {
        if parts.len() < 4 {
            Err("ERROR: GET requires container, module, and key"@)
        } else {
            Ok(CommandV::GetValue { container: parts[1], module: parts[2], key: parts[3] })
        }
    } else if keyword == "LIST"@ {
        if parts.len() < 2 {
            Err("ERROR: LIST requires container"@)
        } else if parts.len() == 2 {
            Ok(CommandV::ListModules { container: parts[1] })
        } else if parts.len() == 3 {
            Ok(CommandV::ListKeys { container: parts[1], module: parts[2] })
        } else {
            Err("ERROR: LIST takes 1 or 2 arguments"@)
        }
    } else {
        Err("ERROR: Unknown command"@)
    }
}

fn text_is(s: &String, lit: &str) -> (r: bool)
    ensures
        r == (s@ == lit@),
{
    let t = String::from_str(lit);
    *s == t
}

/// Builds the command from the words `parts` of a request and `keyword`,
/// the upper-case form of the first word.
pub fn parse_command(keyword: &String, parts: &Vec<String>) -> (r: Result<Command, String>)
    ensures
        match r {
            Ok(c) => parsed(keyword@, texts(parts@)) == Ok::<CommandV, Seq<char>>(c@),
            Err(e) => parsed(keyword@, texts(parts@)) == Err::<CommandV, Seq<char>>(e@),
        },
{
    let n = parts.len();
    if text_is(keyword, "INIT") {
        if n < 3 {
            Err(String::from_str("ERROR: INIT requires container and value"))
        } else {
            Ok(Command::Init { container: parts[1].clone(), value: parts[2].clone() })
        }
    } else if text_is(keyword, "SET") {
        if n < 5 {
            Err(String::from_str("ERROR: SET requires container, module, key, and value"))
        } else {
            Ok(
                Command::SetValue {
                    container: parts[1].clone(),
                    module: parts[2].clone(),
                    key: parts[3].clone(),
                    value: parts[4].clone(),
                },
            )
        }
    } else if text_is(keyword, "GET") {
        if n < 4 {
            Err(String::from_str("ERROR: GET requires container, module, and key"))
        } else {
            Ok(
                Command::GetValue {
                    container: parts[1].clone(),
                    module: parts[2].clone(),
                    key: parts[3].clone(),
                },
            )
        }
    } else if text_is(keyword, "LIST") {
        if n < 2 {
            Err(String::from_str("ERROR: LIST requires container"))
        } else if n == 2 {
            Ok(Command::ListModules { container: parts[1].clone() })
        } else if n == 3 {
            Ok(Command::ListKeys { container: parts[1].clone(), module: parts[2].clone() })
        } else {
            Err(String::from_str("ERROR: LIST takes 1 or 2 arguments"))
        }
    } else {
        Err(String::from_str("ERROR: Unknown command"))
    }
}

/// The result of reading a request: the command, or the error response.
pub open spec fn request_result(request: Seq<char>) -> Result<CommandV, Seq<char>> {
    let parts = words_of(request);
    if parts.len() == 0 {
        Err("ERROR: Empty request"@)
    } else {
        parsed(upper_of(parts[0]), parts)
    }
}

/// Splits a request into words and reads the command that they make; an
/// `Err` holds the response to send back instead.
pub fn process_request(request: &str) -> (r: Result<Command, String>)
    ensures
        match r {
            Ok(c) => request_result(request@) == Ok::<CommandV, Seq<char>>(c@),
            Err(e) => request_result(request@) == Err::<CommandV, Seq<char>>(e@),
        },
{
    let parts = split_words(request);
    if parts.len() == 0 {
        return Err(String::from_str("ERROR: Empty request"));
    }
    let keyword = to_upper(&parts[0]);
    assert(texts(parts@)[0] == parts@[0]@);
    parse_command(&keyword, &parts)
}

/// What reading a document from disk gave.
#[derive(Debug, PartialEq)]
pub enum Loaded {
    /// There is no such file.
    Absent,
    /// The file exists but could not be read.
    Unreadable,
    /// The file was read but is not valid JSON.
    Unparsable,
    /// The file's document.
    Parsed(Json),
}

/// What to do to answer a command: send a response, or first write a
/// container's new document and then send the response.
#[derive(Debug, PartialEq)]
pub enum Step {
    Reply(String),
    Write(Json, String),
}

/// The mathematical value of a `Step`.
pub enum StepV {
    Reply(Seq<char>),
    Write(JsonV, Seq<char>),
}

impl View for Step {
    type V = StepV;

    open spec fn view(&self) -> StepV {
        match self {
            Step::Reply(s) => StepV::Reply(s@),
            Step::Write(d, s) => StepV::Write(d@, s@),
        }
    }
}

/// The container document that `INIT` appends to: none when the file is
/// absent or unusable.
pub open spec fn current_doc(file: Loaded) -> Option<JsonV> {
    match file {
        Loaded::Parsed(d) => Some(d@),
        _ => None,
    }
}

/// The error for a container file that could not be had.
pub open spec fn file_error(file: Loaded) -> StoreError {
    match file {
        Loaded::Unreadable => StoreError::ContainerUnreadable,
        Loaded::Unparsable => StoreError::ContainerUnparsable,
        _ => StoreError::ContainerMissing,
    }
}

/// The template that `SET` checks keys against, when that is asked for and
/// the schema has one for the container.
pub open spec fn declared_template(schema: Loaded, container: Seq<char>, enforce: bool) -> Option<
    JsonV,
> {
    match schema {
        Loaded::Parsed(s) => if enforce {
            member(s@, container)
        } else {
            None
        },
        _ => None,
    }
}

/// The confirmation of `INIT`.
pub open spec fn init_reply(container: Seq<char>, value: Seq<char>) -> Seq<char> {
    "INIT "@ + value + " in Container '"@ + container + "'"@
}

/// The confirmation of `SET`.
pub open spec fn set_reply(key: Seq<char>, value: Seq<char>) -> Seq<char> {
    "SET "@ + key + " "@ + value
}

/// What answering `cmd` takes, given the schema document and the
/// container's document as read. With `enforce`, `SET` refuses keys that
/// the container's template does not declare.
pub open spec fn step_of(cmd: CommandV, schema: Loaded, file: Loaded, enforce: bool) -> StepV {
    match cmd {
        CommandV::Init { container, value } => match schema {
            Loaded::Parsed(s) => match init_result(s@, container, value, current_doc(file)) {
                Ok(d) => StepV::Write(d, init_reply(container, value)),
                Err(e) => StepV::Reply(error_text(e)),
            },
            Loaded::Unparsable => StepV::Reply(error_text(StoreError::SchemaUnparsable)),
            _ => StepV::Reply(error_text(StoreError::SchemaUnreadable)),
        },
        CommandV::SetValue { container, module, key, value } => match file {
            Loaded::Parsed(d) => match set_result(
                d@,
                module,
                key,
                value,
                declared_template(schema, container, enforce),
            ) {
                Ok(d2) => StepV::Write(d2, set_reply(key, value)),
                Err(e) => StepV::Reply(error_text(e)),
            },
            _ => StepV::Reply(error_text(file_error(file))),
        },
        CommandV::GetValue { container, module, key } => match file {
            Loaded::Parsed(d) => match get_result(d@, module, key) {
                Ok(v) => StepV::Reply(v),
                Err(e) => StepV::Reply(error_text(e)),
            },
            _ => StepV::Reply(error_text(file_error(file))),
        },
        CommandV::ListModules { container } => match file {
            Loaded::Parsed(d) => match modules_result(d@) {
                Ok(ids) => StepV::Reply(joined(ids, ", "@)),
                Err(e) => StepV::Reply(error_text(e)),
            },
            _ => StepV::Reply(error_text(file_error(file))),
        },
        CommandV::ListKeys { container, module } => match file {
            Loaded::Parsed(d) => match keys_result(d@, module) {
                Ok(names) => StepV::Reply(joined(names, ", "@)),
                Err(e) => StepV::Reply(error_text(e)),
            },
            _ => StepV::Reply(error_text(file_error(file))),
        },
    }
}

fn file_error_of(file: &Loaded) -> (r: StoreError)
    ensures
        r == file_error(*file),
{
    match file {
        Loaded::Unreadable => StoreError::ContainerUnreadable,
        Loaded::Unparsable => StoreError::ContainerUnparsable,
        _ => StoreError::ContainerMissing,
    }
}

/// Decides the answer to `cmd`, given the schema document and the
/// container's document as read from disk. With `enforce_declared`, `SET`
/// refuses keys that the container's template does not declare.
pub fn run_command(cmd: &Command, schema: Loaded, file: Loaded, enforce_declared: bool) -> (r:
    Step)
    ensures
        r@ == step_of(cmd@, schema, file, enforce_declared),
{
    match cmd {
        Command::Init { container, value } => match schema {
            Loaded::Parsed(s) => {
                let current = match file {
                    Loaded::Parsed(d) => Some(d),
                    _ => None,
                };
                match init_record(&s, container, value, current) {
                    Ok(d) => {
                        let mut reply = String::from_str("INIT ");
                        reply.append(value.as_str());
                        reply.append(" in Container '");
                        reply.append(container.as_str());
                        reply.append("'");
                        Step::Write(d, reply)
                    },
                    Err(e) => Step::Reply(e.message()),
                }
            },
            Loaded::Unparsable => Step::Reply(StoreError::SchemaUnparsable.message()),
            _ => Step::Reply(StoreError::SchemaUnreadable.message()),
        },
        Command::SetValue { container, module, key, value } => {
            let declared = match &schema {
                Loaded::Parsed(s) => if enforce_declared {
                    match crate::store::find_member(s, container) {
                        Some(i) => match s {
                            Json::Object(_, values) => Some(&values[i]),
                            _ => None,
                        },
                        None => None,
                    }
                } else {
                    None
                },
                _ => None,
            };
            let ghost expect = declared_template(schema, container@, enforce_declared);
            assert(match declared {
                Some(t) => expect == Some(t@),
                None => expect is None,
            });
            match file {
                Loaded::Parsed(d) => match set_field(d, module, key, value, declared) {
                    Ok(d2) => {
                        let mut reply = String::from_str("SET ");
                        reply.append(key.as_str());
                        reply.append(" ");
                        reply.append(value.as_str());
                        Step::Write(d2, reply)
                    },
                    Err(e) => Step::Reply(e.message()),
                },
                _ => Step::Reply(file_error_of(&file).message()),
            }
        },
        Command::GetValue { container, module, key } => match &file {
            Loaded::Parsed(d) => match get_field(d, module, key) {
                Ok(v) => Step::Reply(v),
                Err(e) => Step::Reply(e.message()),
            },
            _ => Step::Reply(file_error_of(&file).message()),
        },
        Command::ListModules { container } => match &file {
            Loaded::Parsed(d) => match list_modules(d) {
                Ok(ids) => Step::Reply(join_list(&ids)),
                Err(e) => Step::Reply(e.message()),
            },
            _ => Step::Reply(file_error_of(&file).message()),
        },
        Command::ListKeys { container, module } => match &file {
            Loaded::Parsed(d) => match list_keys(d, module) {
                Ok(names) => Step::Reply(join_list(&names)),
                Err(e) => Step::Reply(e.message()),
            },
            _ => Step::Reply(file_error_of(&file).message()),
        },
    }
}

} // verus!
