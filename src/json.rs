use vstd::prelude::*;

verus! {

/// A JSON document as the store holds it in memory. Numbers keep their
/// textual form. An object holds its member names and values in two
/// vectors of equal length, in member order.
#[derive(Debug, PartialEq)]
pub enum Json {
    Null,
    Bool(bool),
    Number(String),
    Str(String),
    Array(Vec<Json>),
    Object(Vec<String>, Vec<Json>),
}

/// The mathematical value of a `Json`.
pub enum JsonV {
    Null,
    Bool(bool),
    Number(Seq<char>),
    Str(Seq<char>),
    Array(Seq<JsonV>),
    Object(Seq<Seq<char>>, Seq<JsonV>),
}

impl View for Json {
    type V = JsonV;

    open spec fn view(&self) -> JsonV
        decreases self,
    {
        match self {
            Json::Null => JsonV::Null,
            Json::Bool(b) => JsonV::Bool(*b),
            Json::Number(n) => JsonV::Number(n@),
            Json::Str(s) => JsonV::Str(s@),
            Json::Array(items) => JsonV::Array(
                Seq::new(
                    items.len() as nat,
                    |i: int|
                        if 0 <= i < items.len() {
                            items[i].view()
                        } else {
                            JsonV::Null
                        },
                ),
            ),
            Json::Object(keys, values) => JsonV::Object(
                Seq::new(keys.len() as nat, |i: int| keys[i]@),
                Seq::new(
                    values.len() as nat,
                    |i: int|
                        if 0 <= i < values.len() {
                            values[i].view()
                        } else {
                            JsonV::Null
                        },
                ),
            ),
        }
    }
}


/// The reserved member name that marks where a record's identifier goes.
pub open spec fn id_key() -> Seq<char> {
    seq!['i', 'd']
}

/// Whether `key` is the identifier member's name.
pub fn is_id_key(key: &String) -> (r: bool)
    ensures
        r == (key@ == id_key()),
{
    let id = String::from_str("id");
    proof {
        reveal_strlit("id");
        assert(id@ =~= id_key());
    }
    *key == id
}

/// Whether member `i` of an object with names `keys` is the identifier.
pub open spec fn is_id_at(keys: Seq<Seq<char>>, i: int) -> bool {
    0 <= i < keys.len() && keys[i] == id_key()
}

/// A template with every identifier member's value set to the string `v`,
/// in every object at any depth; all else unchanged.
pub open spec fn instantiated(t: JsonV, v: Seq<char>) -> JsonV
    decreases t,
{
    match t {
        JsonV::Array(items) => JsonV::Array(
            Seq::new(
                items.len(),
                |i: int|
                    if 0 <= i < items.len() {
                        instantiated(items[i], v)
                    } else {
                        JsonV::Null
                    },
            ),
        ),
        JsonV::Object(keys, values) => JsonV::Object(
            keys,
            Seq::new(
                values.len(),
                |i: int|
                    if 0 <= i < values.len() {
                        if is_id_at(keys, i) {
                            JsonV::Str(v)
                        } else {
                            instantiated(values[i], v)
                        }
                    } else {
                        JsonV::Null
                    },
            ),
        ),
        _ => t,
    }
}

/// Whether no name occurs twice in `keys`.
pub open spec fn distinct(keys: Seq<Seq<char>>) -> bool {
    forall|i: int, j: int| 0 <= i < j < keys.len() ==> keys[i] != keys[j]
}

/// Whether every object in `j`, at any depth, has one value per member
/// name and no name twice, as a parsed JSON document has.
pub open spec fn well_formed(j: JsonV) -> bool
    decreases j,
{
    match j {
        JsonV::Array(items) => forall|i: int|
            0 <= i < items.len() ==> well_formed(#[trigger] items[i]),
        JsonV::Object(keys, values) => keys.len() == values.len() && distinct(keys) && forall|
            i: int,
        |
            0 <= i < values.len() ==> well_formed(#[trigger] values[i]),
        _ => true,
    }
}

/// Instantiating a well-formed template gives a well-formed record.
pub proof fn lemma_instantiate_well_formed(t: JsonV, v: Seq<char>)
    requires
        well_formed(t),
    ensures
        well_formed(instantiated(t, v)),
    decreases t,
{
    let r = instantiated(t, v);
    match t {
        JsonV::Array(items) => {
            assert forall|i: int| 0 <= i < items.len() implies well_formed(
                #[trigger] r->Array_0[i],
            ) by {
                lemma_instantiate_well_formed(items[i], v);
            }
        },
        JsonV::Object(keys, values) => {
            assert forall|i: int| 0 <= i < values.len() implies well_formed(
                #[trigger] r->Object_1[i],
            ) by {
                if !is_id_at(keys, i) {
                    lemma_instantiate_well_formed(values[i], v);
                }
            }
        },
        _ => {},
    }
}

/// Whether every identifier member of `j`, at any depth, holds the string `v`.
pub open spec fn markers_hold(j: JsonV, v: Seq<char>) -> bool
    decreases j,
{
    match j {
        JsonV::Array(items) => forall|i: int|
            0 <= i < items.len() ==> markers_hold(#[trigger] items[i], v),
        JsonV::Object(keys, values) => forall|i: int|
            0 <= i < values.len() ==> if is_id_at(keys, i) {
                #[trigger] values[i] == JsonV::Str(v)
            } else {
                markers_hold(values[i], v)
            },
        _ => true,
    }
}

/// Whether `r` is `t` but for the values of identifier members: the same
/// shape, the same member names, and the same scalars everywhere else.
pub open spec fn same_off_markers(t: JsonV, r: JsonV) -> bool
    decreases t,
{
    match t {
        JsonV::Array(items) => r is Array && r->Array_0.len() == items.len() && forall|i: int|
            0 <= i < items.len() ==> same_off_markers(#[trigger] items[i], r->Array_0[i]),
        JsonV::Object(keys, values) => r is Object && r->Object_0 == keys && r->Object_1.len()
            == values.len() && forall|i: int|
            0 <= i < values.len() && !is_id_at(keys, i) ==> same_off_markers(
                #[trigger] values[i],
                r->Object_1[i],
            ),
        _ => r == t,
    }
}

/// Template substitution: instantiating a template sets every identifier
/// member, at any depth, to the given value, and leaves the shape, the
/// member names and every other scalar as they are in the template.
pub proof fn lemma_instantiate_correct(t: JsonV, v: Seq<char>)
    ensures
        markers_hold(instantiated(t, v), v),
        same_off_markers(t, instantiated(t, v)),
    decreases t,
{
    let r = instantiated(t, v);
    match t {
        JsonV::Array(items) => {
            assert forall|i: int| 0 <= i < items.len() implies markers_hold(
                #[trigger] r->Array_0[i],
                v,
            ) && same_off_markers(items[i], r->Array_0[i]) by {
                lemma_instantiate_correct(items[i], v);
            }
        },
        JsonV::Object(keys, values) => {
            assert forall|i: int| 0 <= i < values.len() implies (if is_id_at(keys, i) {
                #[trigger] r->Object_1[i] == JsonV::Str(v)
            } else {
                markers_hold(r->Object_1[i], v) && same_off_markers(values[i], r->Object_1[i])
            }) by {
                if !is_id_at(keys, i) {
                    lemma_instantiate_correct(values[i], v);
                }
            }
        },
        _ => {},
    }
}

/// Copies a vector of member names.
pub fn copy_keys(keys: &Vec<String>) -> (r: Vec<String>)
    ensures
        r@.len() == keys@.len(),
        forall|j: int| 0 <= j < keys@.len() ==> (#[trigger] r@[j])@ == keys@[j]@,
{
    let mut out: Vec<String> = Vec::new();
    let mut i: usize = 0;
    while i < keys.len()
        invariant
            i <= keys.len(),
            out@.len() == i,
            forall|j: int| 0 <= j < i ==> (#[trigger] out@[j])@ == keys@[j]@,
        decreases keys.len() - i,
    {
        out.push(keys[i].clone());
        i = i + 1;
    }
    out
}

impl Json {
    /// A copy of this value.
    pub fn duplicate(&self) -> (r: Json)
        ensures
            r@ == self@,
        decreases self,
    {
        match self {
            Json::Null => Json::Null,
            Json::Bool(b) => Json::Bool(*b),
            Json::Number(n) => Json::Number(n.clone()),
            Json::Str(s) => Json::Str(s.clone()),
            Json::Array(items) => {
                let mut out: Vec<Json> = Vec::new();
                let mut i: usize = 0;
                proof {
                    assert forall|k: int| 0 <= k < items.len() implies decreases_to!(*self => items[k]) by {
                        assert(decreases_to!(*self => *items));
                        assert(decreases_to!(*items => items[k]));
                    }
                }
                while i < items.len()
                    invariant
                        *self == Json::Array(*items),
                        forall|k: int| 0 <= k < items.len() ==> decreases_to!(*self => items[k]),
                        i <= items.len(),
                        out@.len() == i,
                        forall|j: int| 0 <= j < i ==> (#[trigger] out@[j])@ == items@[j]@,
                    decreases items.len() - i,
                {
                    out.push(items[i].duplicate());
                    i = i + 1;
                }
                let r = Json::Array(out);
                assert(r@->Array_0 =~= self@->Array_0);
                r
            },
            Json::Object(keys, values) => {
                let mut out: Vec<Json> = Vec::new();
                let mut i: usize = 0;
                proof {
                    assert forall|k: int| 0 <= k < values.len() implies decreases_to!(*self => values[k]) by {
                        assert(decreases_to!(*self => *values));
                        assert(decreases_to!(*values => values[k]));
                    }
                }
                while i < values.len()
                    invariant
                        *self == Json::Object(*keys, *values),
                        forall|k: int| 0 <= k < values.len() ==> decreases_to!(*self => values[k]),
                        i <= values.len(),
                        out@.len() == i,
                        forall|j: int| 0 <= j < i ==> (#[trigger] out@[j])@ == values@[j]@,
                    decreases values.len() - i,
                {
                    out.push(values[i].duplicate());
                    i = i + 1;
                }
                let r = Json::Object(copy_keys(keys), out);
                assert(r@->Object_0 =~= self@->Object_0);
                assert(r@->Object_1 =~= self@->Object_1);
                r
            },
        }
    }
}

/// Builds one record from a container's template: every identifier member,
/// at any depth, takes the string `value`.
pub fn instantiate(template: &Json, value: &String) -> (r: Json)
    ensures
        r@ == instantiated(template@, value@),
        well_formed(template@) ==> well_formed(r@),
    decreases template,
{
    proof {
        if well_formed(template@) {
            lemma_instantiate_well_formed(template@, value@);
        }
    }
    match template {
        Json::Array(items) => {
            let mut out: Vec<Json> = Vec::new();
            let mut i: usize = 0;
            proof {
                assert forall|k: int| 0 <= k < items.len() implies decreases_to!(*template => items[k]) by {
                    assert(decreases_to!(*template => *items));
                    assert(decreases_to!(*items => items[k]));
                }
            }
            while i < items.len()
                invariant
                    *template == Json::Array(*items),
                    forall|k: int| 0 <= k < items.len() ==> decreases_to!(*template => items[k]),
                    i <= items.len(),
                    out@.len() == i,
                    forall|j: int|
                        0 <= j < i ==> (#[trigger] out@[j])@ == instantiated(items@[j]@, value@),
                decreases items.len() - i,
            {
                out.push(instantiate(&items[i], value));
                i = i + 1;
            }
            let r = Json::Array(out);
            assert(r@->Array_0 =~= instantiated(template@, value@)->Array_0);
            r
        },
        Json::Object(keys, values) => {
            let mut out: Vec<Json> = Vec::new();
            let mut i: usize = 0;
            proof {
                assert forall|k: int| 0 <= k < values.len() implies decreases_to!(*template => values[k]) by {
                    assert(decreases_to!(*template => *values));
                    assert(decreases_to!(*values => values[k]));
                }
            }
            while i < values.len()
                invariant
                    *template == Json::Object(*keys, *values),
                    forall|k: int| 0 <= k < values.len() ==> decreases_to!(*template => values[k]),
                    i <= values.len(),
                    out@.len() == i,
                    forall|j: int|
                        0 <= j < i ==> (#[trigger] out@[j])@ == (if is_id_at(template@->Object_0, j) {
                            JsonV::Str(value@)
                        } else {
                            instantiated(values@[j]@, value@)
                        }),
                decreases values.len() - i,
            {
                if i < keys.len() && is_id_key(&keys[i]) {
                    out.push(Json::Str(value.clone()));
                } else {
                    out.push(instantiate(&values[i], value));
                }
                i = i + 1;
            }
            let r = Json::Object(copy_keys(keys), out);
            assert(r@->Object_0 =~= template@->Object_0);
            assert(r@->Object_1 =~= instantiated(template@, value@)->Object_1);
            r
        },
        _ => template.duplicate(),
    }
}

} // verus!
