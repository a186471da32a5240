use vstd::prelude::*;

use crate::json::{
    id_key, instantiate, instantiated, is_id_key, lemma_instantiate_well_formed, well_formed, Json,
    JsonV,
};

verus! {

/// Index of the first occurrence of `key` in `keys`, or -1.
pub open spec fn index_of(keys: Seq<Seq<char>>, key: Seq<char>) -> int
    decreases keys.len(),
{
    if keys.len() == 0 {
        -1
    } else {
        let r = index_of(keys.drop_last(), key);
        if r >= 0 {
            r
        } else if keys.last() == key {
            keys.len() - 1
        } else {
            -1
        }
    }
}

/// The value of member `key` of `doc`, if `doc` is an object that has it.
pub open spec fn member(doc: JsonV, key: Seq<char>) -> Option<JsonV> {
    match doc {
        JsonV::Object(keys, values) => {
            let i = index_of(keys, key);
            if 0 <= i < values.len() {
                Some(values[i])
            } else {
                None
            }
        },
        _ => None,
    }
}

/// A record's identifier: its `id` member, when that is a string.
pub open spec fn record_id(rec: JsonV) -> Option<Seq<char>> {
    match member(rec, id_key()) {
        Some(JsonV::Str(s)) => Some(s),
        _ => None,
    }
}

/// Index of the first record identified by `module`, or -1.
pub open spec fn record_index(items: Seq<JsonV>, module: Seq<char>) -> int
    decreases items.len(),
{
    if items.len() == 0 {
        -1
    } else {
        let r = record_index(items.drop_last(), module);
        if r >= 0 {
            r
        } else if record_id(items.last()) == Some(module) {
            items.len() - 1
        } else {
            -1
        }
    }
}

pub proof fn lemma_index_of_bounds(keys: Seq<Seq<char>>, key: Seq<char>)
    ensures
        -1 <= index_of(keys, key) < keys.len(),
        index_of(keys, key) >= 0 ==> keys[index_of(keys, key)] == key,
        index_of(keys, key) >= 0 ==> forall|j: int|
            0 <= j < index_of(keys, key) ==> keys[j] != key,
        index_of(keys, key) < 0 ==> forall|j: int| 0 <= j < keys.len() ==> keys[j] != key,
    decreases keys.len(),
{
    if keys.len() > 0 {
        lemma_index_of_bounds(keys.drop_last(), key);
        assert forall|j: int| 0 <= j < keys.len() - 1 implies keys.drop_last()[j] == keys[j] by {}
    }
}

pub proof fn lemma_record_index_bounds(items: Seq<JsonV>, module: Seq<char>)
    ensures
        -1 <= record_index(items, module) < items.len(),
        record_index(items, module) >= 0 ==> record_id(items[record_index(items, module)])
            == Some(module),
        record_index(items, module) >= 0 ==> forall|j: int|
            0 <= j < record_index(items, module) ==> record_id(items[j]) != Some(module),
        record_index(items, module) < 0 ==> forall|j: int|
            0 <= j < items.len() ==> record_id(items[j]) != Some(module),
    decreases items.len(),
{
    if items.len() > 0 {
        lemma_record_index_bounds(items.drop_last(), module);
        assert forall|j: int| 0 <= j < items.len() - 1 implies items.drop_last()[j] == items[j] by {}
    }
}

/// Finds the first member named `key` among `keys`.
pub fn find_key(keys: &Vec<String>, key: &String) -> (r: Option<usize>)
    ensures
        match r {
            Some(i) => index_of(keys@.map_values(|k: String| k@), key@) == i,
            None => index_of(keys@.map_values(|k: String| k@), key@) == -1,
        },
{
    let ghost names = keys@.map_values(|k: String| k@);
    let mut i: usize = 0;
    while i < keys.len()
        invariant
            i <= keys.len(),
            names == keys@.map_values(|k: String| k@),
            index_of(names.take(i as int), key@) == -1,
        decreases keys.len() - i,
    {
        proof {
            assert(names.take(i + 1).drop_last() =~= names.take(i as int));
        }
        if keys[i] == *key {
            proof {
                lemma_index_of_bounds(names.take(i as int), key@);
                lemma_index_of_bounds(names, key@);
                assert(names[i as int] == key@);
                assert forall|j: int| 0 <= j < i implies names[j] != key@ by {
                    assert(names.take(i as int)[j] == names[j]);
                }
            }
            return Some(i);
        }
        i = i + 1;
    }
    proof {
        assert(names.take(i as int) =~= names);
    }
    None
}

/// Finds member `key` of `doc`: the index of its value when `doc` is an
/// object that has it.
pub fn find_member(doc: &Json, key: &String) -> (r: Option<usize>)
    ensures
        match r {
            Some(i) => doc is Object && i < doc->Object_1.len() && member(doc@, key@) == Some(
                doc->Object_1@[i as int]@,
            ) && i == index_of(doc@->Object_0, key@),
            None => member(doc@, key@) is None,
        },
{
    match doc {
        Json::Object(keys, values) => {
            proof {
                assert(keys@.map_values(|k: String| k@) =~= doc@->Object_0);
            }
            match find_key(keys, key) {
                Some(i) => {
                    if i < values.len() {
                        Some(i)
                    } else {
                        None
                    }
                },
                None => None,
            }
        },
        _ => None,
    }
}

/// The identifier of record `rec`, when it has a string one.
pub fn id_of(rec: &Json) -> (r: Option<&String>)
    ensures
        match r {
            Some(s) => record_id(rec@) == Some(s@),
            None => record_id(rec@) is None,
        },
{
    let id = String::from_str("id");
    proof {
        reveal_strlit("id");
        assert(id@ =~= id_key());
    }
    match find_member(rec, &id) {
        Some(i) => {
            match rec {
                Json::Object(_, values) => {
                    match &values[i] {
                        Json::Str(s) => Some(s),
                        _ => None,
                    }
                },
                _ => None,
            }
        },
        None => None,
    }
}

/// Finds the first record of `items` identified by `module`.
pub fn find_record(items: &Vec<Json>, module: &String) -> (r: Option<usize>)
    ensures
        match r {
            Some(i) => i < items@.len() && record_index(items@.map_values(|j: Json| j@), module@)
                == i,
            None => record_index(items@.map_values(|j: Json| j@), module@) == -1,
        },
{
    let ghost recs = items@.map_values(|j: Json| j@);
    let mut i: usize = 0;
    while i < items.len()
        invariant
            i <= items.len(),
            recs == items@.map_values(|j: Json| j@),
            record_index(recs.take(i as int), module@) == -1,
        decreases items.len() - i,
    {
        proof {
            assert(recs.take(i + 1).drop_last() =~= recs.take(i as int));
        }
        let found = match id_of(&items[i]) {
            Some(s) => *s == *module,
            None => false,
        };
        if found {
            proof {
                assert(recs[i as int] == items@[i as int]@);
                lemma_record_index_bounds(recs.take(i as int), module@);
                lemma_record_index_bounds(recs, module@);
                assert forall|j: int| 0 <= j < i implies record_id(recs[j]) != Some(module@) by {
                    assert(recs.take(i as int)[j] == recs[j]);
                }
            }
            return Some(i);
        }
        i = i + 1;
    }
    proof {
        assert(recs.take(i as int) =~= recs);
    }
    None
}

/// Why a store operation failed.
#[derive(PartialEq, Eq, Structural, Debug, Clone, Copy)]
pub enum StoreError {
    /// The schema document could not be read.
    SchemaUnreadable,
    /// The schema document is not valid JSON.
    SchemaUnparsable,
    /// The schema declares no container of that name.
    ContainerNotFound,
    /// The container has no record file.
    ContainerMissing,
    /// The container's record file could not be read.
    ContainerUnreadable,
    /// The container's record file is not valid JSON.
    ContainerUnparsable,
    /// No record of the container has that identifier.
    ModuleNotFound,
    /// The record has no member of that name.
    KeyNotFound,
    /// The container's template declares no member of that name.
    KeyNotDeclared,
    /// The container's record file does not hold an array.
    InvalidFormat,
    /// The updated document could not be serialized.
    FormatFailed,
    /// The updated document could not be written.
    WriteFailed,
}

/// The one-line response text of each error.
pub open spec fn error_text(e: StoreError) -> Seq<char> {
    match e {
        StoreError::SchemaUnreadable => "ERROR: Failed to read tree.json"@,
        StoreError::SchemaUnparsable => "ERROR: Failed to parse tree.json"@,
        StoreError::ContainerNotFound => "ERROR: Container not found in tree.json"@,
        StoreError::ContainerMissing => "ERROR: Container does not exist"@,
        StoreError::ContainerUnreadable => "ERROR: Failed to read container file"@,
        StoreError::ContainerUnparsable => "ERROR: Failed to parse container file"@,
        StoreError::ModuleNotFound => "ERROR: Module not found"@,
        StoreError::KeyNotFound => "ERROR: Key not found"@,
        StoreError::KeyNotDeclared => "ERROR: Key not declared for container"@,
        StoreError::InvalidFormat => "ERROR: Invalid container format"@,
        StoreError::FormatFailed => "ERROR: Failed to format data"@,
        StoreError::WriteFailed => "ERROR: Failed to write container file"@,
    }
}

impl StoreError {
    /// The response text of this error.
    pub fn message(&self) -> (r: String)
        ensures
            r@ == error_text(*self),
    {
        match self {
            StoreError::SchemaUnreadable => String::from_str("ERROR: Failed to read tree.json"),
            StoreError::SchemaUnparsable => String::from_str("ERROR: Failed to parse tree.json"),
            StoreError::ContainerNotFound => String::from_str(
                "ERROR: Container not found in tree.json",
            ),
            StoreError::ContainerMissing => String::from_str("ERROR: Container does not exist"),
            StoreError::ContainerUnreadable => String::from_str(
                "ERROR: Failed to read container file",
            ),
            StoreError::ContainerUnparsable => String::from_str(
                "ERROR: Failed to parse container file",
            ),
            StoreError::ModuleNotFound => String::from_str("ERROR: Module not found"),
            StoreError::KeyNotFound => String::from_str("ERROR: Key not found"),
            StoreError::KeyNotDeclared => String::from_str("ERROR: Key not declared for container"),
            StoreError::InvalidFormat => String::from_str("ERROR: Invalid container format"),
            StoreError::FormatFailed => String::from_str("ERROR: Failed to format data"),
            StoreError::WriteFailed => String::from_str("ERROR: Failed to write container file"),
        }
    }
}

/// The view of an optional document.
pub open spec fn opt_view(doc: Option<Json>) -> Option<JsonV> {
    match doc {
        Some(d) => Some(d@),
        None => None,
    }
}

/// A container's record array after appending `rec`. A missing document
/// starts as the empty array; a document that is not an array is refused.
pub open spec fn appended(current: Option<JsonV>, rec: JsonV) -> Result<JsonV, StoreError> {
    match current {
        Some(JsonV::Array(items)) => Ok(JsonV::Array(items.push(rec))),
        Some(_) => Err(StoreError::InvalidFormat),
        None => Ok(JsonV::Array(seq![rec])),
    }
}

/// Appends record `rec` to a container's document (`None` when the
/// container's file is absent or unusable).
pub fn append_record(current: Option<Json>, rec: Json) -> (r: Result<Json, StoreError>)
    ensures
        match r {
            Ok(d) => appended(opt_view(current), rec@) == Ok::<JsonV, StoreError>(d@),
            Err(e) => appended(opt_view(current), rec@) == Err::<JsonV, StoreError>(e),
        },
{
    match current {
        Some(Json::Array(items)) => {
            let ghost old_view = Json::Array(items)@;
            let mut items = items;
            items.push(rec);
            let r = Json::Array(items);
            assert(r@->Array_0 =~= old_view->Array_0.push(rec@));
            Ok(r)
        },
        Some(_) => Err(StoreError::InvalidFormat),
        None => {
            let mut items: Vec<Json> = Vec::new();
            items.push(rec);
            let r = Json::Array(items);
            assert(r@->Array_0 =~= seq![rec@]);
            Ok(r)
        },
    }
}

/// The document of container `container` after `INIT container value`,
/// given the schema and the container's current document.
pub open spec fn init_result(
    schema: JsonV,
    container: Seq<char>,
    value: Seq<char>,
    current: Option<JsonV>,
) -> Result<JsonV, StoreError> {
    match member(schema, container) {
        Some(t) => appended(current, instantiated(t, value)),
        None => Err(StoreError::ContainerNotFound),
    }
}

/// Creates a record of `container` identified by `value` from the
/// container's template in `schema`, and appends it to `current`.
pub fn init_record(schema: &Json, container: &String, value: &String, current: Option<Json>) -> (r:
    Result<Json, StoreError>)
    ensures
        match r {
            Ok(d) => init_result(schema@, container@, value@, opt_view(current)) == Ok::<
                JsonV,
                StoreError,
            >(d@),
            Err(e) => init_result(schema@, container@, value@, opt_view(current)) == Err::<
                JsonV,
                StoreError,
            >(e),
        },
        well_formed(schema@) && (current is Some ==> well_formed(current->Some_0@)) && r is Ok
            ==> well_formed(r->Ok_0@),
{
    proof {
        if well_formed(schema@) && (current is Some ==> well_formed(current->Some_0@)) {
            lemma_init_well_formed(schema@, container@, value@, opt_view(current));
        }
    }
    match find_member(schema, container) {
        Some(i) => {
            match schema {
                Json::Object(_, values) => {
                    let rec = instantiate(&values[i], value);
                    append_record(current, rec)
                },
                _ => Err(StoreError::ContainerNotFound),
            }
        },
        None => Err(StoreError::ContainerNotFound),
    }
}

/// Record `rec` with member `key` set to `v`: an existing member keeps its
/// place, a new one goes last.
pub open spec fn with_member(rec: JsonV, key: Seq<char>, v: JsonV) -> JsonV {
    match rec {
        JsonV::Object(keys, values) => {
            let i = index_of(keys, key);
            if 0 <= i < values.len() {
                JsonV::Object(keys, values.update(i, v))
            } else {
                JsonV::Object(keys.push(key), values.push(v))
            }
        },
        _ => rec,
    }
}

/// Whether a template allows member `key`: a template that is an object
/// declares its member names; any other template declares none to check.
pub open spec fn key_allowed(template: JsonV, key: Seq<char>) -> bool {
    match template {
        JsonV::Object(keys, _) => index_of(keys, key) >= 0,
        _ => true,
    }
}

/// The document after `SET container module key value`. With `declared`,
/// the key must be one that the container's template declares.
pub open spec fn set_result(
    doc: JsonV,
    module: Seq<char>,
    key: Seq<char>,
    value: Seq<char>,
    declared: Option<JsonV>,
) -> Result<JsonV, StoreError> {
    match doc {
        JsonV::Array(items) => {
            let i = record_index(items, module);
            if i < 0 {
                Err(StoreError::ModuleNotFound)
            } else if declared is Some && !key_allowed(declared->Some_0, key) {
                Err(StoreError::KeyNotDeclared)
            } else {
                Ok(JsonV::Array(items.update(i, with_member(items[i], key, JsonV::Str(value)))))
            }
        },
        _ => Err(StoreError::InvalidFormat),
    }
}

/// Sets member `key` of `rec` to `v`, in place when it exists.
pub fn put_member(rec: Json, key: &String, v: Json) -> (r: Json)
    ensures
        r@ == with_member(rec@, key@, v@),
{
    match rec {
        Json::Object(keys, values) => {
            let ghost before = Json::Object(keys, values)@;
            proof {
                assert(keys@.map_values(|k: String| k@) =~= before->Object_0);
            }
            let mut keys = keys;
            let mut values = values;
            match find_key(&keys, key) {
                Some(i) if i < values.len() => {
                    values.remove(i);
                    values.insert(i, v);
                    let r = Json::Object(keys, values);
                    assert(r@->Object_0 =~= before->Object_0);
                    assert(r@->Object_1 =~= before->Object_1.update(i as int, v@));
                    r
                },
                _ => {
                    keys.push(key.clone());
                    values.push(v);
                    let r = Json::Object(keys, values);
                    assert(r@->Object_0 =~= before->Object_0.push(key@));
                    assert(r@->Object_1 =~= before->Object_1.push(v@));
                    r
                },
            }
        },
        other => other,
    }
}

/// Sets member `key` of the first record identified by `module` to the
/// string `value`. With `declared` (the container's template), a key that
/// the template does not declare is refused.
pub fn set_field(
    doc: Json,
    module: &String,
    key: &String,
    value: &String,
    declared: Option<&Json>,
) -> (r: Result<Json, StoreError>)
    ensures
        match r {
            Ok(d) => set_result(
                doc@,
                module@,
                key@,
                value@,
                match declared {
                    Some(t) => Some(t@),
                    None => None,
                },
            ) == Ok::<JsonV, StoreError>(d@),
            Err(e) => set_result(
                doc@,
                module@,
                key@,
                value@,
                match declared {
                    Some(t) => Some(t@),
                    None => None,
                },
            ) == Err::<JsonV, StoreError>(e),
        },
        well_formed(doc@) && r is Ok ==> well_formed(r->Ok_0@),
{
    proof {
        if well_formed(doc@) {
            lemma_set_well_formed(
                doc@,
                module@,
                key@,
                value@,
                match declared {
                    Some(t) => Some(t@),
                    None => None,
                },
            );
        }
    }
    match doc {
        Json::Array(items) => {
            let ghost before = Json::Array(items)@;
            proof {
                assert(items@.map_values(|j: Json| j@) =~= before->Array_0);
            }
            match find_record(&items, module) {
                None => Err(StoreError::ModuleNotFound),
                Some(i) => {
                    if let Some(t) = declared {
                        if let Json::Object(tkeys, _) = t {
                            proof {
                                assert(tkeys@.map_values(|k: String| k@) =~= t@->Object_0);
                            }
                            if find_key(tkeys, key).is_none() {
                                return Err(StoreError::KeyNotDeclared);
                            }
                        }
                    }
                    let mut items = items;
                    let rec = items.remove(i);
                    let updated = put_member(rec, key, Json::Str(value.clone()));
                    items.insert(i, updated);
                    let r = Json::Array(items);
                    assert(r@->Array_0 =~= before->Array_0.update(
                        i as int,
                        with_member(before->Array_0[i as int], key@, JsonV::Str(value@)),
                    ));
                    Ok(r)
                },
            }
        },
        _ => Err(StoreError::InvalidFormat),
    }
}

/// The text that `GET` returns for a member's value: a string as it is,
/// anything else as the empty string.
pub open spec fn value_text(v: JsonV) -> Seq<char> {
    match v {
        JsonV::Str(s) => s,
        _ => Seq::empty(),
    }
}

/// The answer to `GET container module key` on the container's document.
pub open spec fn get_result(doc: JsonV, module: Seq<char>, key: Seq<char>) -> Result<
    Seq<char>,
    StoreError,
> {
    match doc {
        JsonV::Array(items) => {
            let i = record_index(items, module);
            if i < 0 {
                Err(StoreError::ModuleNotFound)
            } else {
                match member(items[i], key) {
                    Some(v) => Ok(value_text(v)),
                    None => Err(StoreError::KeyNotFound),
                }
            }
        },
        _ => Err(StoreError::InvalidFormat),
    }
}

/// Reads member `key` of the first record identified by `module`.
pub fn get_field(doc: &Json, module: &String, key: &String) -> (r: Result<String, StoreError>)
    ensures
        match r {
            Ok(s) => get_result(doc@, module@, key@) == Ok::<Seq<char>, StoreError>(s@),
            Err(e) => get_result(doc@, module@, key@) == Err::<Seq<char>, StoreError>(e),
        },
{
    match doc {
        Json::Array(items) => {
            proof {
                assert(items@.map_values(|j: Json| j@) =~= doc@->Array_0);
            }
            match find_record(items, module) {
                None => Err(StoreError::ModuleNotFound),
                Some(i) => {
                    let rec = &items[i];
                    assert(rec@ == doc@->Array_0[i as int]);
                    match find_member(rec, key) {
                        None => Err(StoreError::KeyNotFound),
                        Some(j) => {
                            match rec {
                                Json::Object(_, values) => {
                                    match &values[j] {
                                        Json::Str(s) => Ok(s.clone()),
                                        _ => Ok(String::new()),
                                    }
                                },
                                _ => Err(StoreError::KeyNotFound),
                            }
                        },
                    }
                },
            }
        },
        _ => Err(StoreError::InvalidFormat),
    }
}

/// The identifiers of the records in `items` that have one, in order.
pub open spec fn ids_of(items: Seq<JsonV>) -> Seq<Seq<char>>
    decreases items.len(),
{
    if items.len() == 0 {
        Seq::empty()
    } else {
        let r = ids_of(items.drop_last());
        match record_id(items.last()) {
            Some(s) => r.push(s),
            None => r,
        }
    }
}

/// The answer to `LIST container` on the container's document.
pub open spec fn modules_result(doc: JsonV) -> Result<Seq<Seq<char>>, StoreError> {
    match doc {
        JsonV::Array(items) => Ok(ids_of(items)),
        _ => Err(StoreError::InvalidFormat),
    }
}

/// The names of a vector of strings.
pub open spec fn texts(v: Seq<String>) -> Seq<Seq<char>> {
    v.map_values(|s: String| s@)
}

/// Lists the identifiers of a container's records, in file order.
pub fn list_modules(doc: &Json) -> (r: Result<Vec<String>, StoreError>)
    ensures
        match r {
            Ok(v) => modules_result(doc@) == Ok::<Seq<Seq<char>>, StoreError>(texts(v@)),
            Err(e) => modules_result(doc@) == Err::<Seq<Seq<char>>, StoreError>(e),
        },
{
    match doc {
        Json::Array(items) => {
            let ghost recs = doc@->Array_0;
            proof {
                assert(items@.map_values(|j: Json| j@) =~= recs);
            }
            let mut out: Vec<String> = Vec::new();
            let mut i: usize = 0;
            while i < items.len()
                invariant
                    i <= items.len(),
                    recs == items@.map_values(|j: Json| j@),
                    texts(out@) == ids_of(recs.take(i as int)),
                decreases items.len() - i,
            {
                proof {
                    assert(recs.take(i + 1).drop_last() =~= recs.take(i as int));
                    assert(recs[i as int] == items@[i as int]@);
                }
                match id_of(&items[i]) {
                    Some(s) => {
                        out.push(s.clone());
                        assert(texts(out@) =~= ids_of(recs.take(i + 1)));
                    },
                    None => {},
                }
                i = i + 1;
            }
            proof {
                assert(recs.take(i as int) =~= recs);
            }
            Ok(out)
        },
        _ => Err(StoreError::InvalidFormat),
    }
}

/// The member names of a record other than the identifier, in order.
pub open spec fn field_names(keys: Seq<Seq<char>>) -> Seq<Seq<char>>
    decreases keys.len(),
{
    if keys.len() == 0 {
        Seq::empty()
    } else if keys.last() == id_key() {
        field_names(keys.drop_last())
    } else {
        field_names(keys.drop_last()).push(keys.last())
    }
}

/// The answer to `LIST container module` on the container's document.
pub open spec fn keys_result(doc: JsonV, module: Seq<char>) -> Result<Seq<Seq<char>>, StoreError> {
    match doc {
        JsonV::Array(items) => {
            let i = record_index(items, module);
            if i < 0 {
                Err(StoreError::ModuleNotFound)
            } else {
                Ok(field_names(items[i]->Object_0))
            }
        },
        _ => Err(StoreError::InvalidFormat),
    }
}

/// Lists the member names of the first record identified by `module`,
/// leaving out the identifier member.
pub fn list_keys(doc: &Json, module: &String) -> (r: Result<Vec<String>, StoreError>)
    ensures
        match r {
            Ok(v) => keys_result(doc@, module@) == Ok::<Seq<Seq<char>>, StoreError>(texts(v@)),
            Err(e) => keys_result(doc@, module@) == Err::<Seq<Seq<char>>, StoreError>(e),
        },
{
    match doc {
        Json::Array(items) => {
            proof {
                assert(items@.map_values(|j: Json| j@) =~= doc@->Array_0);
            }
            match find_record(items, module) {
                None => Err(StoreError::ModuleNotFound),
                Some(i) => {
                    let rec = &items[i];
                    assert(rec@ == doc@->Array_0[i as int]);
                    proof {
                        lemma_record_index_bounds(doc@->Array_0, module@);
                    }
                    match rec {
                        Json::Object(keys, _) => {
                            let ghost names = rec@->Object_0;
                            let mut out: Vec<String> = Vec::new();
                            let mut k: usize = 0;
                            while k < keys.len()
                                invariant
                                    k <= keys.len(),
                                    names == Seq::new(keys.len() as nat, |n: int| keys[n]@),
                                    texts(out@) == field_names(names.take(k as int)),
                                decreases keys.len() - k,
                            {
                                proof {
                                    assert(names.take(k + 1).drop_last() =~= names.take(k as int));
                                }
                                if !is_id_key(&keys[k]) {
                                    out.push(keys[k].clone());
                                    assert(texts(out@) =~= field_names(names.take(k + 1)));
                                }
                                k = k + 1;
                            }
                            proof {
                                assert(names.take(k as int) =~= names);
                            }
                            Ok(out)
                        },
                        _ => Ok(Vec::new()),
                    }
                },
            }
        },
        _ => Err(StoreError::InvalidFormat),
    }
}

/// `parts` joined with `sep` between each two.
pub open spec fn joined(parts: Seq<Seq<char>>, sep: Seq<char>) -> Seq<char>
    decreases parts.len(),
{
    if parts.len() == 0 {
        Seq::empty()
    } else if parts.len() == 1 {
        parts[0]
    } else {
        joined(parts.drop_last(), sep) + sep + parts.last()
    }
}

/// Joins `parts` with `", "` between each two.
pub fn join_list(parts: &Vec<String>) -> (r: String)
    ensures
        r@ == joined(texts(parts@), ", "@),
{
    let mut out = String::new();
    let ghost all = texts(parts@);
    let mut i: usize = 0;
    while i < parts.len()
        invariant
            i <= parts.len(),
            all == texts(parts@),
            out@ == joined(all.take(i as int), ", "@),
        decreases parts.len() - i,
    {
        proof {
            assert(all.take(i + 1).drop_last() =~= all.take(i as int));
        }
        if i > 0 {
            out.append(", ");
        }
        out.append(parts[i].as_str());
        proof {
            if i == 0 {
                assert(out@ =~= all.take(1)[0]);
            } else {
                assert(out@ =~= joined(all.take(i as int), ", "@) + ", "@ + all.take(i + 1).last());
            }
        }
        i = i + 1;
    }
    proof {
        assert(all.take(i as int) =~= all);
    }
    out
}

proof fn lemma_index_of_push(keys: Seq<Seq<char>>, k: Seq<char>, key: Seq<char>)
    ensures
        index_of(keys.push(k), key) == (if index_of(keys, key) >= 0 {
            index_of(keys, key)
        } else if k == key {
            keys.len() as int
        } else {
            -1
        }),
{
    assert(keys.push(k).drop_last() =~= keys);
}

/// The first record identified by `module` is found at `i` once record `i`
/// is replaced by `rec`, which is identified by `module`, when `i` was the
/// first such record before.
proof fn lemma_record_index_update(items: Seq<JsonV>, module: Seq<char>, i: int, rec: JsonV)
    requires
        record_index(items, module) == i,
        0 <= i,
        record_id(rec) == Some(module),
    ensures
        record_index(items.update(i, rec), module) == i,
{
    let after = items.update(i, rec);
    lemma_record_index_bounds(items, module);
    lemma_record_index_bounds(after, module);
    let r = record_index(after, module);
    if r < 0 {
        assert(record_id(after[i]) == Some(module));
    } else if r < i {
        assert(after[r] == items[r]);
    } else if r > i {
        assert(record_id(after[i]) == Some(module));
    }
}

/// Setting a member and reading it back: the member holds the new value,
/// and a member other than the identifier leaves the identifier as it was.
proof fn lemma_with_member(rec: JsonV, key: Seq<char>, v: JsonV)
    requires
        rec is Object,
        rec->Object_0.len() == rec->Object_1.len(),
    ensures
        member(with_member(rec, key, v), key) == Some(v),
        key != id_key() ==> record_id(with_member(rec, key, v)) == record_id(rec),
{
    let keys = rec->Object_0;
    let values = rec->Object_1;
    lemma_index_of_bounds(keys, key);
    lemma_index_of_bounds(keys, id_key());
    lemma_index_of_push(keys, key, key);
    lemma_index_of_push(keys, key, id_key());
}

/// Setting a member of a well-formed record to a well-formed value keeps
/// the record well-formed: a new name is one the record did not have.
proof fn lemma_with_member_well_formed(rec: JsonV, key: Seq<char>, v: JsonV)
    requires
        well_formed(rec),
        rec is Object,
        well_formed(v),
    ensures
        well_formed(with_member(rec, key, v)),
{
    let keys = rec->Object_0;
    let values = rec->Object_1;
    lemma_index_of_bounds(keys, key);
    let r = with_member(rec, key, v);
    let i = index_of(keys, key);
    if 0 <= i < values.len() {
        assert forall|j: int| 0 <= j < values.len() implies well_formed(
            #[trigger] r->Object_1[j],
        ) by {
            if j != i {
                assert(well_formed(values[j]));
            }
        }
    } else {
        let ks = keys.push(key);
        assert forall|a: int, b: int| 0 <= a < b < ks.len() implies ks[a] != ks[b] by {
            if b == keys.len() {
                assert(keys[a] != key);
            } else {
                assert(ks[a] == keys[a] && ks[b] == keys[b]);
            }
        }
        assert forall|j: int| 0 <= j < values.len() + 1 implies well_formed(
            #[trigger] r->Object_1[j],
        ) by {
            if j < values.len() {
                assert(well_formed(values[j]));
            }
        }
    }
}

/// `SET` keeps a well-formed document well-formed.
pub proof fn lemma_set_well_formed(
    doc: JsonV,
    module: Seq<char>,
    key: Seq<char>,
    value: Seq<char>,
    declared: Option<JsonV>,
)
    requires
        well_formed(doc),
    ensures
        set_result(doc, module, key, value, declared) is Ok ==> well_formed(
            set_result(doc, module, key, value, declared)->Ok_0,
        ),
{
    if set_result(doc, module, key, value, declared) is Ok {
        let items = doc->Array_0;
        let i = record_index(items, module);
        lemma_record_index_bounds(items, module);
        assert(well_formed(items[i]));
        lemma_with_member_well_formed(items[i], key, JsonV::Str(value));
        let after = items.update(i, with_member(items[i], key, JsonV::Str(value)));
        assert forall|j: int| 0 <= j < after.len() implies well_formed(#[trigger] after[j]) by {
            if j != i {
                assert(well_formed(items[j]));
            }
        }
    }
}

/// `INIT` with a well-formed schema on a well-formed document (or none)
/// gives a well-formed document.
pub proof fn lemma_init_well_formed(
    schema: JsonV,
    container: Seq<char>,
    value: Seq<char>,
    current: Option<JsonV>,
)
    requires
        well_formed(schema),
        current is Some ==> well_formed(current->Some_0),
    ensures
        init_result(schema, container, value, current) is Ok ==> well_formed(
            init_result(schema, container, value, current)->Ok_0,
        ),
{
    if init_result(schema, container, value, current) is Ok {
        let keys = schema->Object_0;
        let values = schema->Object_1;
        lemma_index_of_bounds(keys, container);
        let t = values[index_of(keys, container)];
        assert(well_formed(t));
        lemma_instantiate_well_formed(t, value);
        let rec = instantiated(t, value);
        let items = match current {
            Some(d) => d->Array_0,
            None => Seq::empty(),
        };
        let after = items.push(rec);
        assert forall|j: int| 0 <= j < after.len() implies well_formed(#[trigger] after[j]) by {
            if j < items.len() {
                assert(well_formed(items[j]));
            }
        }
        assert(current is None ==> after =~= seq![rec]);
    }
}

/// Round trip: after `SET` succeeds on a container's document, `GET` of
/// the same record and key answers the value that was set. The one
/// exception is a `SET` of the identifier member to another identifier,
/// after which the record is no longer found under the old one.
pub proof fn lemma_set_then_get(
    doc: JsonV,
    module: Seq<char>,
    key: Seq<char>,
    value: Seq<char>,
    declared: Option<JsonV>,
)
    requires
        well_formed(doc),
        set_result(doc, module, key, value, declared) is Ok,
        key == id_key() ==> value == module,
    ensures
        get_result(set_result(doc, module, key, value, declared)->Ok_0, module, key) == Ok::<
            Seq<char>,
            StoreError,
        >(value),
{
    let items = doc->Array_0;
    let i = record_index(items, module);
    lemma_record_index_bounds(items, module);
    let rec = items[i];
    let updated = with_member(rec, key, JsonV::Str(value));
    assert(well_formed(rec));
    assert(rec is Object);
    lemma_with_member(rec, key, JsonV::Str(value));
    assert(record_id(updated) == Some(module));
    lemma_record_index_update(items, module, i, updated);
}

/// A container's document after `INIT` with each of `values` in turn,
/// starting from the records `items`.
pub open spec fn after_inits(
    schema: JsonV,
    container: Seq<char>,
    values: Seq<Seq<char>>,
    items: Seq<JsonV>,
) -> JsonV
    decreases values.len(),
{
    if values.len() == 0 {
        JsonV::Array(items)
    } else {
        match init_result(
            schema,
            container,
            values.last(),
            Some(after_inits(schema, container, values.drop_last(), items)),
        ) {
            Ok(d) => d,
            Err(_) => JsonV::Null,
        }
    }
}

/// Each `INIT` appends exactly one record: after `INIT` with each of
/// `values` in turn, the records are those there were, followed by one
/// record per call in the order of the calls, none lost or repeated. A
/// container without a file starts as the empty array.
pub proof fn lemma_inits_append_once_each(
    schema: JsonV,
    container: Seq<char>,
    values: Seq<Seq<char>>,
    items: Seq<JsonV>,
)
    requires
        member(schema, container) is Some,
    ensures
        after_inits(schema, container, values, items) == JsonV::Array(
            items + Seq::new(
                values.len(),
                |k: int| instantiated(member(schema, container)->Some_0, values[k]),
            ),
        ),
        after_inits(schema, container, values, items)->Array_0.len() == items.len()
            + values.len(),
        forall|v: Seq<char>|
            init_result(schema, container, v, None) == init_result(
                schema,
                container,
                v,
                Some(JsonV::Array(Seq::empty())),
            ),
    decreases values.len(),
{
    let t = member(schema, container)->Some_0;
    let made = Seq::new(values.len(), |k: int| instantiated(t, values[k]));
    if values.len() == 0 {
        assert(items + made =~= items);
    } else {
        lemma_inits_append_once_each(schema, container, values.drop_last(), items);
        let before = Seq::new(
            values.drop_last().len(),
            |k: int| instantiated(t, values.drop_last()[k]),
        );
        assert((items + before).push(instantiated(t, values.last())) =~= items + made);
    }
    assert forall|v: Seq<char>|
        init_result(schema, container, v, None) == init_result(
            schema,
            container,
            v,
            Some(JsonV::Array(Seq::empty())),
        ) by {
        assert(Seq::<JsonV>::empty().push(instantiated(t, v)) =~= seq![instantiated(t, v)]);
    }
}

/// Listing follows append order: after `INIT container value` on a
/// container whose template is an object with an identifier member,
/// `LIST container` answers the identifiers there were, then `value`.
pub proof fn lemma_list_after_init(
    schema: JsonV,
    container: Seq<char>,
    value: Seq<char>,
    items: Seq<JsonV>,
)
    requires
        member(schema, container) is Some,
        member(schema, container)->Some_0 is Object,
        0 <= index_of(member(schema, container)->Some_0->Object_0, id_key()) < member(
            schema,
            container,
        )->Some_0->Object_1.len(),
    ensures
        modules_result(init_result(schema, container, value, Some(JsonV::Array(items)))->Ok_0)
            == Ok::<Seq<Seq<char>>, StoreError>(ids_of(items).push(value)),
{
    let t = member(schema, container)->Some_0;
    let rec = instantiated(t, value);
    lemma_index_of_bounds(t->Object_0, id_key());
    assert(record_id(rec) == Some(value));
    assert(items.push(rec).drop_last() =~= items);
}

/// Listing follows append order over any number of calls: after `INIT`
/// with each of `values` in turn on a container whose template is an object
/// with an identifier member, `LIST container` answers the identifiers
/// there were, then `values` in the order of the calls.
pub proof fn lemma_list_after_inits(
    schema: JsonV,
    container: Seq<char>,
    values: Seq<Seq<char>>,
    items: Seq<JsonV>,
)
    requires
        member(schema, container) is Some,
        member(schema, container)->Some_0 is Object,
        0 <= index_of(member(schema, container)->Some_0->Object_0, id_key()) < member(
            schema,
            container,
        )->Some_0->Object_1.len(),
    ensures
        modules_result(after_inits(schema, container, values, items)) == Ok::<
            Seq<Seq<char>>,
            StoreError,
        >(ids_of(items) + values),
    decreases values.len(),
{
    if values.len() == 0 {
        assert(ids_of(items) + values =~= ids_of(items));
    } else {
        let rest = values.drop_last();
        lemma_list_after_inits(schema, container, rest, items);
        lemma_inits_append_once_each(schema, container, rest, items);
        let before = after_inits(schema, container, rest, items);
        let prior = before->Array_0;
        lemma_list_after_init(schema, container, values.last(), prior);
        assert(ids_of(prior) == ids_of(items) + rest);
        assert((ids_of(items) + rest).push(values.last()) =~= ids_of(items) + values);
    }
}

/// `LIST container module` never names the identifier member.
pub proof fn lemma_listed_keys_exclude_id(keys: Seq<Seq<char>>)
    ensures
        forall|i: int|
            0 <= i < field_names(keys).len() ==> #[trigger] field_names(keys)[i] != id_key(),
    decreases keys.len(),
{
    if keys.len() > 0 {
        let rest = field_names(keys.drop_last());
        lemma_listed_keys_exclude_id(keys.drop_last());
        assert forall|i: int| 0 <= i < field_names(keys).len() implies #[trigger] field_names(
            keys,
        )[i] != id_key() by {
            if keys.last() != id_key() && i == rest.len() {
            } else {
                assert(field_names(keys)[i] == rest[i]);
            }
        }
    }
}

} // verus!
