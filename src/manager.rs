use vstd::prelude::*;

use crate::json::{Json, JsonV};
use crate::store::{index_of, texts, StoreError};

verus! {

/// Relies on num_cpus::get: the number of CPUs available to this process.
/// Nothing is promised of the count; callers treat zero as one.
#[verifier::external_body]
fn available_cpus() -> (r: usize) {
    num_cpus::get()
}

/// The containers that a schema declares: the member names of its root
/// object, in order (none when the root is not an object).
pub open spec fn container_names(schema: JsonV) -> Seq<Seq<char>> {
    match schema {
        JsonV::Object(keys, _) => keys,
        _ => Seq::empty(),
    }
}

/// The names among `names` that are not in `existing`, in order.
pub open spec fn to_create(names: Seq<Seq<char>>, existing: Seq<Seq<char>>) -> Seq<Seq<char>>
    decreases names.len(),
{
    if names.len() == 0 {
        Seq::empty()
    } else if existing.contains(names.last()) {
        to_create(names.drop_last(), existing)
    } else {
        to_create(names.drop_last(), existing).push(names.last())
    }
}

/// Whether `name` is among `names`.
pub fn contains_name(names: &Vec<String>, name: &String) -> (r: bool)
    ensures
        r == texts(names@).contains(name@),
{
    let mut i: usize = 0;
    while i < names.len()
        invariant
            i <= names.len(),
            forall|j: int| 0 <= j < i ==> names@[j]@ != name@,
        decreases names.len() - i,
    {
        if names[i] == *name {
            assert(texts(names@)[i as int] == name@);
            return true;
        }
        i = i + 1;
    }
    proof {
        if texts(names@).contains(name@) {
            let j = choose|j: int| 0 <= j < texts(names@).len() && texts(names@)[j] == name@;
            assert(names@[j]@ == name@);
        }
    }
    false
}

/// What discovery decides: the containers whose record file must be
/// created, or an error when the schema's root is not an object.
pub open spec fn discovery_result(schema: JsonV, existing: Seq<Seq<char>>) -> Result<
    Seq<Seq<char>>,
    StoreError,
> {
    match schema {
        JsonV::Object(keys, _) => Ok(to_create(keys, existing)),
        _ => Err(StoreError::SchemaUnparsable),
    }
}

/// The containers of `schema` whose record file must be created, given
/// the containers whose file already exists. A container that has a file
/// is never listed, so discovery never overwrites a file. A schema whose
/// root is not an object is refused.
pub fn initialize_containers(schema: &Json, existing: &Vec<String>) -> (r: Result<
    Vec<String>,
    StoreError,
>)
    ensures
        match r {
            Ok(v) => discovery_result(schema@, texts(existing@)) == Ok::<
                Seq<Seq<char>>,
                StoreError,
            >(texts(v@)),
            Err(e) => discovery_result(schema@, texts(existing@)) == Err::<
                Seq<Seq<char>>,
                StoreError,
            >(e),
        },
{
    let mut out: Vec<String> = Vec::new();
    match schema {
        Json::Object(keys, _) => {
            let ghost names = schema@->Object_0;
            let mut i: usize = 0;
            while i < keys.len()
                invariant
                    i <= keys.len(),
                    names == Seq::new(keys.len() as nat, |n: int| keys[n]@),
                    texts(out@) == to_create(names.take(i as int), texts(existing@)),
                decreases keys.len() - i,
            {
                proof {
                    assert(names.take(i + 1).drop_last() =~= names.take(i as int));
                }
                if !contains_name(existing, &keys[i]) {
                    out.push(keys[i].clone());
                    assert(texts(out@) =~= to_create(names.take(i + 1), texts(existing@)));
                }
                i = i + 1;
            }
            proof {
                assert(names.take(i as int) =~= names);
            }
            Ok(out)
        },
        _ => Err(StoreError::SchemaUnparsable),
    }
}

/// The registry of per-container locks. Each container name that has been
/// asked for owns one lock slot, for the life of the registry; slots are
/// numbered in the order the names were first asked for.
///
/// The registry holds the names in a vector, searched in order, rather than
/// a hash map: the contracts then state exactly which slot a name gets, and
/// the locks themselves, which Verus cannot reason about, stay with the
/// caller, one per slot.
pub struct ContainerManager {
    container_locks: Vec<String>,
    thread_pool_size: usize,
}

impl ContainerManager {
    /// The container names that own a lock slot, by slot number.
    pub closed spec fn lock_names(&self) -> Seq<Seq<char>> {
        texts(self.container_locks@)
    }

    /// The number of workers that discovery may use.
    pub closed spec fn pool_size(&self) -> nat {
        if self.thread_pool_size == 0 {
            1
        } else {
            self.thread_pool_size as nat
        }
    }

    /// A registry with no lock slots, sized to the available CPUs.
    pub fn new() -> (r: ContainerManager)
        ensures
            r.lock_names() == Seq::<Seq<char>>::empty(),
            r.pool_size() >= 1,
    {
        ContainerManager::with_pool_size(available_cpus())
    }

    /// A registry with no lock slots and a pool of `n` workers, or of one
    /// when `n` is zero.
    pub fn with_pool_size(n: usize) -> (r: ContainerManager)
        ensures
            r.lock_names() == Seq::<Seq<char>>::empty(),
            r.pool_size() == (if n == 0 {
                1
            } else {
                n as nat
            }),
    {
        let r = ContainerManager {
            container_locks: Vec::new(),
            thread_pool_size: if n == 0 {
                1
            } else {
                n
            },
        };
        assert(r.lock_names() =~= Seq::<Seq<char>>::empty());
        r
    }

    /// The lock slot of container `container_name`, created on first request.
    /// Existing slots never move, so one name always gets one slot and two
    /// names never share one.
    pub fn get_container_lock(&mut self, container_name: &String) -> (r: usize)
        ensures
            final(self).pool_size() == old(self).pool_size(),
            old(self).lock_names().contains(container_name@) ==> final(self).lock_names()
                == old(self).lock_names(),
            !old(self).lock_names().contains(container_name@) ==> final(self).lock_names()
                == old(self).lock_names().push(container_name@),
            r == index_of(final(self).lock_names(), container_name@),
            r < final(self).lock_names().len(),
            final(self).lock_names()[r as int] == container_name@,
    {
        let mut i: usize = 0;
        let ghost names = self.lock_names();
        while i < self.container_locks.len()
            invariant
                i <= self.container_locks.len(),
                names == texts(self.container_locks@),
                index_of(names.take(i as int), container_name@) == -1,
            decreases self.container_locks.len() - i,
        {
            proof {
                assert(names.take(i + 1).drop_last() =~= names.take(i as int));
            }
            if self.container_locks[i] == *container_name {
                proof {
                    assert(names[i as int] == container_name@);
                    index_of_first(names, container_name@, i as int);
                }
                return i;
            }
            i = i + 1;
        }
        proof {
            assert(names.take(i as int) =~= names);
            crate::store::lemma_index_of_bounds(names, container_name@);
        }
        self.container_locks.push(container_name.clone());
        proof {
            let after = self.lock_names();
            assert(after =~= names.push(container_name@));
            assert(after.drop_last() =~= names);
            crate::store::lemma_index_of_bounds(after, container_name@);
        }
        i
    }

    /// How many container names each discovery worker takes: the names
    /// shared evenly over the pool, rounded up, and at least one.
    pub fn chunk_len(&self, count: usize) -> (r: usize)
        ensures
            r >= 1,
            r as int * self.pool_size() >= count,
            r > 1 ==> (r as int - 1) * self.pool_size() < count,
    {
        let p = if self.thread_pool_size == 0 {
            1
        } else {
            self.thread_pool_size
        };
        let q = count / p;
        proof {
            assert(q * p + count % p == count) by (nonlinear_arith)
                requires
                    p > 0,
                    q == count / p,
            ;
            assert(q * p <= count) by (nonlinear_arith)
                requires
                    p > 0,
                    q == count / p,
            ;
            assert(p == 1 ==> count % p == 0) by (nonlinear_arith)
                requires
                    p > 0,
            ;
            assert(p > 1 ==> q < count || count == 0) by (nonlinear_arith)
                requires
                    p > 0,
                    q == count / p,
            ;
        }
        let r = if count % p == 0 {
            q
        } else {
            q + 1
        };
        proof {
            assert(p as int == self.pool_size());
            assert(r * p >= count && (r > 0 ==> (r - 1) * p < count)) by (nonlinear_arith)
                requires
                    p > 0,
                    q * p + count % p == count,
                    0 <= count % p < p,
                    count % p == 0 ==> r == q,
                    count % p != 0 ==> r == q + 1,
            ;
            assert(r == 0 ==> count == 0 && 1 * p >= count) by (nonlinear_arith)
                requires
                    p > 0,
                    r * p >= count,
            ;
        }
        if r == 0 {
            1
        } else {
            r
        }
    }
}

proof fn lemma_to_create_contains(names: Seq<Seq<char>>, existing: Seq<Seq<char>>, x: Seq<char>)
    ensures
        to_create(names, existing).contains(x) <==> (names.contains(x) && !existing.contains(x)),
    decreases names.len(),
{
    if names.len() > 0 {
        let rest = names.drop_last();
        lemma_to_create_contains(rest, existing, x);
        let r = to_create(rest, existing);
        if names.contains(x) && !existing.contains(x) {
            let j = choose|j: int| 0 <= j < names.len() && names[j] == x;
            if j < names.len() - 1 {
                assert(rest[j] == x);
                if !existing.contains(names.last()) {
                    let k = choose|k: int| 0 <= k < r.len() && r[k] == x;
                    assert(r.push(names.last())[k] == x);
                }
            } else {
                assert(r.push(names.last())[r.len() as int] == x);
            }
        }
        if to_create(names, existing).contains(x) {
            if !existing.contains(names.last()) && x == names.last() {
                assert(names[names.len() - 1] == x);
            } else {
                if !existing.contains(names.last()) {
                    let k = choose|k: int| 0 <= k < r.len() + 1 && r.push(names.last())[k] == x;
                    assert(r.contains(x)) by {
                        assert(r[k] == x);
                    }
                }
                let j = choose|j: int| 0 <= j < rest.len() && rest[j] == x;
                assert(names[j] == x);
            }
        }
    }
}

proof fn lemma_to_create_none(names: Seq<Seq<char>>, existing: Seq<Seq<char>>)
    requires
        forall|i: int| 0 <= i < names.len() ==> existing.contains(#[trigger] names[i]),
    ensures
        to_create(names, existing) == Seq::<Seq<char>>::empty(),
    decreases names.len(),
{
    if names.len() > 0 {
        assert(existing.contains(names[names.len() - 1]));
        let rest = names.drop_last();
        assert forall|i: int| 0 <= i < rest.len() implies existing.contains(#[trigger] rest[i]) by {
            assert(rest[i] == names[i]);
        }
        lemma_to_create_none(rest, existing);
    }
}

/// Discovery is idempotent: it never lists a container whose file exists,
/// so no existing file is overwritten or truncated; and once the files it
/// lists are created, running it again lists nothing. (On a schema whose
/// root is an object; any other schema is refused with no file listed.)
pub proof fn lemma_discovery_idempotent(schema: JsonV, existing: Seq<Seq<char>>)
    ensures
        schema is Object ==> discovery_result(schema, existing) is Ok,
        !(schema is Object) ==> discovery_result(schema, existing) == Err::<
            Seq<Seq<char>>,
            StoreError,
        >(StoreError::SchemaUnparsable),
        discovery_result(schema, existing) is Ok ==> forall|i: int|
            0 <= i < discovery_result(schema, existing)->Ok_0.len() ==> !existing.contains(
                #[trigger] discovery_result(schema, existing)->Ok_0[i],
            ),
        discovery_result(schema, existing) is Ok ==> discovery_result(
            schema,
            existing + discovery_result(schema, existing)->Ok_0,
        ) == Ok::<Seq<Seq<char>>, StoreError>(Seq::<Seq<char>>::empty()),
{
    let names = container_names(schema);
    let created = to_create(names, existing);
    let after = existing + created;
    assert forall|i: int| 0 <= i < created.len() implies !existing.contains(
        #[trigger] created[i],
    ) by {
        lemma_to_create_contains(names, existing, created[i]);
        assert(created.contains(created[i]));
    }
    assert forall|i: int| 0 <= i < names.len() implies after.contains(#[trigger] names[i]) by {
        let x = names[i];
        assert(names.contains(x));
        lemma_to_create_contains(names, existing, x);
        if existing.contains(x) {
            let j = choose|j: int| 0 <= j < existing.len() && existing[j] == x;
            assert(after[j] == x);
        } else {
            let k = choose|k: int| 0 <= k < created.len() && created[k] == x;
            assert(after[existing.len() + k] == x);
        }
    }
    lemma_to_create_none(names, after);
}

/// A name first met at index `i` of `names` is found there.
proof fn index_of_first(names: Seq<Seq<char>>, key: Seq<char>, i: int)
    requires
        0 <= i < names.len(),
        names[i] == key,
        index_of(names.take(i), key) == -1,
    ensures
        index_of(names, key) == i,
        names.contains(key),
{
    crate::store::lemma_index_of_bounds(names.take(i), key);
    crate::store::lemma_index_of_bounds(names, key);
    assert forall|j: int| 0 <= j < i implies names[j] != key by {
        assert(names.take(i)[j] == names[j]);
    }
}

} // verus!
