use vstd::prelude::*;

verus! {

/// A JSON value. Numbers are kept as their decimal text, so that no value is
/// rounded on the way through.
#[derive(Debug)]
pub enum Json {
    Null,
    Bool(bool),
    Number(String),
    Str(String),
    Array(Vec<Json>),
    Object(Vec<(String, Json)>),
}

/// The mathematical value of a `Json`.
pub enum JsonV {
    Null,
    Bool(bool),
    Number(Seq<char>),
    Str(Seq<char>),
    Array(Seq<JsonV>),
    Object(Seq<(Seq<char>, JsonV)>),
}

/// The mathematical value of a `Json` tree.
pub open spec fn json_view(j: Json) -> JsonV
    decreases j,
{
    match j {
        Json::Null => JsonV::Null,
        Json::Bool(b) => JsonV::Bool(b),
        Json::Number(n) => JsonV::Number(n@),
        Json::Str(s) => JsonV::Str(s@),
        Json::Array(items) => JsonV::Array(
            Seq::new(
                items@.len(),
                |i: int|
                    if 0 <= i < items@.len() {
                        json_view(items@[i])
                    } else {
                        JsonV::Null
                    },
            ),
        ),
        Json::Object(fields) => JsonV::Object(
            Seq::new(
                fields@.len(),
                |i: int|
                    if 0 <= i < fields@.len() {
                        (fields@[i].0@, json_view(fields@[i].1))
                    } else {
                        (Seq::empty(), JsonV::Null)
                    },
            ),
        ),
    }
}

impl View for Json {
    type V = JsonV;

    open spec fn view(&self) -> JsonV {
        json_view(*self)
    }
}

impl Json {
    /// A copy of the value.
    #[verifier::loop_isolation(false)]
    pub fn deep_clone(&self) -> (r: Json)
        ensures
            r@ == self@,
        decreases self,
    {
        match self {
            Json::Null => Json::Null,
            Json::Bool(b) => Json::Bool(*b),
            Json::Number(n) => Json::Number(n.clone()),
            Json::Str(s) => Json::Str(s.clone()),
            Json::Array(items) => {
                let mut out: Vec<Json> = Vec::new();
                let mut i: usize = 0;
                while i < items.len()
                    invariant
                        i <= items@.len(),
                        out@.len() == i,
                        forall|k: int| 0 <= k < i ==> (#[trigger] out@[k])@ == items@[k]@,
                    decreases items@.len() - i,
                {
                    proof {
                        vstd::std_specs::vec::axiom_vec_index_decreases(*items, i as int);
                        assert(decreases_to!(*items => items@[i as int]));
                        assert(decreases_to!(*self => *items));
                        assert(decreases_to!(*self => items@[i as int]));
                    }
                    let c = items[i].deep_clone();
                    out.push(c);
                    i = i + 1;
                }
                let r = Json::Array(out);
                assert(r@ == self@) by {
                    if let JsonV::Array(a) = r@ {
                        if let JsonV::Array(b) = self@ {
                            assert(a =~= b);
                        }
                    }
                }
                r
            },
            Json::Object(fields) => {
                let mut out: Vec<(String, Json)> = Vec::new();
                let mut i: usize = 0;
                while i < fields.len()
                    invariant
                        i <= fields@.len(),
                        out@.len() == i,
                        forall|k: int|
                            0 <= k < i ==> (#[trigger] out@[k]).0@ == fields@[k].0@ && out@[k].1@
                                == fields@[k].1@,
                    decreases fields@.len() - i,
                {
                    let k = fields[i].0.clone();
                    proof {
                        vstd::std_specs::vec::axiom_vec_index_decreases(*fields, i as int);
                        assert(decreases_to!(*fields => fields@[i as int]));
                        assert(decreases_to!(*self => *fields));
                        assert(decreases_to!(*self => fields@[i as int].1));
                    }
                    let c = fields[i].1.deep_clone();
                    out.push((k, c));
                    i = i + 1;
                }
                let r = Json::Object(out);
                assert(r@ == self@) by {
                    if let JsonV::Object(a) = r@ {
                        if let JsonV::Object(b) = self@ {
                            assert forall|k: int| 0 <= k < a.len() implies a[k] == b[k] by {
                                assert(a[k] == (out@[k].0@, out@[k].1@));
                                assert(b[k] == (fields@[k].0@, fields@[k].1@));
                            }
                            assert(a =~= b);
                        }
                    }
                }
                r
            },
        }
    }
}

/// The index of the first field named `k`, if there is one.
pub open spec fn first_index(keys: Seq<Seq<char>>, k: Seq<char>) -> Option<int>
    decreases keys.len(),
{
    if keys.len() == 0 {
        None
    } else if keys[0] == k {
        Some(0)
    } else {
        match first_index(keys.drop_first(), k) {
            Some(i) => Some(i + 1),
            None => None,
        }
    }
}

/// The keys of an object's fields, in order.
pub open spec fn keys_of(fields: Seq<(Seq<char>, JsonV)>) -> Seq<Seq<char>> {
    fields.map_values(|f: (Seq<char>, JsonV)| f.0)
}

/// The value of the first field named `k` (JSON objects read from text hold
/// each key once).
pub open spec fn field_v(fields: Seq<(Seq<char>, JsonV)>, k: Seq<char>) -> Option<JsonV> {
    match first_index(keys_of(fields), k) {
        Some(i) => Some(fields[i].1),
        None => None,
    }
}

/// The member `k` of `j`, where `j` is an object that has one.
pub open spec fn member_v(j: JsonV, k: Seq<char>) -> Option<JsonV> {
    match j {
        JsonV::Object(fields) => field_v(fields, k),
        _ => None,
    }
}

pub proof fn lemma_first_index_bounds(keys: Seq<Seq<char>>, k: Seq<char>)
    ensures
        match first_index(keys, k) {
            Some(i) => 0 <= i < keys.len() && keys[i] == k && forall|j: int|
                0 <= j < i ==> keys[j] != k,
            None => forall|j: int| 0 <= j < keys.len() ==> keys[j] != k,
        },
    decreases keys.len(),
{
    if keys.len() > 0 {
        lemma_first_index_bounds(keys.drop_first(), k);
        if keys[0] != k {
            match first_index(keys.drop_first(), k) {
                Some(i) => {
                    assert forall|j: int| 0 <= j < i + 1 implies keys[j] != k by {
                        if j > 0 {
                            assert(keys[j] == keys.drop_first()[j - 1]);
                        }
                    }
                },
                None => {
                    assert forall|j: int| 0 <= j < keys.len() implies keys[j] != k by {
                        if j > 0 {
                            assert(keys[j] == keys.drop_first()[j - 1]);
                        }
                    }
                },
            }
        }
    }
}

pub proof fn lemma_first_index_at(keys: Seq<Seq<char>>, k: Seq<char>, i: int)
    requires
        0 <= i < keys.len(),
        keys[i] == k,
        forall|j: int| 0 <= j < i ==> keys[j] != k,
    ensures
        first_index(keys, k) == Some(i),
    decreases keys.len(),
{
    if i > 0 {
        assert forall|j: int| 0 <= j < i - 1 implies keys.drop_first()[j] != k by {
            assert(keys.drop_first()[j] == keys[j + 1]);
        }
        lemma_first_index_at(keys.drop_first(), k, i - 1);
    }
}

pub proof fn lemma_first_index_none(keys: Seq<Seq<char>>, k: Seq<char>)
    requires
        forall|j: int| 0 <= j < keys.len() ==> keys[j] != k,
    ensures
        first_index(keys, k) == None::<int>,
    decreases keys.len(),
{
    if keys.len() > 0 {
        assert forall|j: int| 0 <= j < keys.len() - 1 implies keys.drop_first()[j] != k by {
            assert(keys.drop_first()[j] == keys[j + 1]);
        }
        lemma_first_index_none(keys.drop_first(), k);
    }
}

/// Whether two strings hold the same characters.
pub fn str_eq(a: &str, b: &str) -> (r: bool)
    ensures
        r == (a@ == b@),
{
    let n = a.unicode_len();
    if n != b.unicode_len() {
        return false;
    }
    let mut i: usize = 0;
    while i < n
        invariant
            n == a@.len(),
            n == b@.len(),
            i <= n,
            forall|j: int| 0 <= j < i ==> a@[j] == b@[j],
        decreases n - i,
    {
        if a.get_char(i) != b.get_char(i) {
            return false;
        }
        i = i + 1;
    }
    assert(a@ =~= b@);
    true
}

/// The position of the first field named `key`.
pub fn find_field(fields: &Vec<(String, Json)>, key: &str) -> (r: Option<usize>)
    ensures
        match r {
            Some(i) => first_index(keys_of(view_fields(fields@)), key@) == Some(i as int),
            None => first_index(keys_of(view_fields(fields@)), key@) == None::<int>,
        },
{
    let ghost keys = keys_of(view_fields(fields@));
    let mut i: usize = 0;
    while i < fields.len()
        invariant
            i <= fields@.len(),
            keys == keys_of(view_fields(fields@)),
            keys.len() == fields@.len(),
            forall|j: int| 0 <= j < i ==> keys[j] != key@,
        decreases fields@.len() - i,
    {
        assert(keys[i as int] == fields@[i as int].0@);
        if str_eq(fields[i].0.as_str(), key) {
            proof {
                lemma_first_index_at(keys, key@, i as int);
            }
            return Some(i);
        }
        i = i + 1;
    }
    proof {
        lemma_first_index_none(keys, key@);
    }
    None
}

/// The mathematical value of a list of object fields.
pub open spec fn view_fields(fields: Seq<(String, Json)>) -> Seq<(Seq<char>, JsonV)> {
    fields.map_values(|f: (String, Json)| (f.0@, f.1@))
}

pub proof fn lemma_object_view(fields: Vec<(String, Json)>)
    ensures
        Json::Object(fields)@ == JsonV::Object(view_fields(fields@)),
{
    if let JsonV::Object(a) = Json::Object(fields)@ {
        assert(a =~= view_fields(fields@));
    }
}

pub proof fn lemma_array_view(items: Vec<Json>)
    ensures
        Json::Array(items)@ == JsonV::Array(items@.map_values(|x: Json| x@)),
{
    if let JsonV::Array(a) = Json::Array(items)@ {
        assert(a =~= items@.map_values(|x: Json| x@));
    }
}

/// The member named `key` of an object's fields.
pub fn get_field<'a>(fields: &'a Vec<(String, Json)>, key: &str) -> (r: Option<&'a Json>)
    ensures
        match r {
            Some(v) => field_v(view_fields(fields@), key@) == Some(v@),
            None => field_v(view_fields(fields@), key@) == None::<JsonV>,
        },
{
    match find_field(fields, key) {
        Some(i) => {
            proof {
                lemma_first_index_bounds(keys_of(view_fields(fields@)), key@);
            }
            Some(&fields[i].1)
        },
        None => None,
    }
}

/// The member named `key` of `j`, where `j` is an object.
pub fn get_member<'a>(j: &'a Json, key: &str) -> (r: Option<&'a Json>)
    ensures
        match r {
            Some(v) => member_v(j@, key@) == Some(v@),
            None => member_v(j@, key@) == None::<JsonV>,
        },
{
    match j {
        Json::Object(fields) => {
            proof {
                lemma_object_view(*fields);
            }
            get_field(fields, key)
        },
        _ => None,
    }
}

/// A copy of an object's fields.
pub fn clone_fields(fields: &Vec<(String, Json)>) -> (r: Vec<(String, Json)>)
    ensures
        view_fields(r@) == view_fields(fields@),
{
    let mut out: Vec<(String, Json)> = Vec::new();
    let mut i: usize = 0;
    while i < fields.len()
        invariant
            i <= fields@.len(),
            out@.len() == i,
            forall|k: int|
                0 <= k < i ==> (#[trigger] out@[k]).0@ == fields@[k].0@ && out@[k].1@ == fields@[k].1@,
        decreases fields@.len() - i,
    {
        out.push((fields[i].0.clone(), fields[i].1.deep_clone()));
        i = i + 1;
    }
    assert(view_fields(out@) =~= view_fields(fields@));
    out
}

/// The sum of a list of numbers.
pub open spec fn sum_nat(s: Seq<nat>) -> nat
    decreases s.len(),
{
    if s.len() == 0 {
        0
    } else {
        sum_nat(s.drop_last()) + s.last()
    }
}

/// The sizes of the values directly inside `j`.
pub open spec fn child_sizes(j: JsonV) -> Seq<nat>
    decreases j, 0nat,
{
    match j {
        JsonV::Array(xs) => Seq::new(
            xs.len(),
            |i: int|
                if 0 <= i < xs.len() {
                    size_v(xs[i])
                } else {
                    0
                },
        ),
        JsonV::Object(fs) => Seq::new(
            fs.len(),
            |i: int|
                if 0 <= i < fs.len() {
                    size_v(fs[i].1)
                } else {
                    0
                },
        ),
        _ => Seq::empty(),
    }
}

/// The number of values in a JSON tree, itself included.
pub open spec fn size_v(j: JsonV) -> nat
    decreases j, 1nat,
{
    1 + sum_nat(child_sizes(j))
}

/// The largest count that `node_count` reports.
pub const SIZE_CAP: u64 = 0xFFFF_FFFF;

pub open spec fn capped(n: nat) -> nat {
    if n > SIZE_CAP {
        SIZE_CAP as nat
    } else {
        n
    }
}

proof fn lemma_capped_add(a: nat, b: nat)
    ensures
        capped(a + b) == capped(capped(a) + capped(b)),
{
}

/// The number of values in a JSON tree, up to `SIZE_CAP`.
#[verifier::loop_isolation(false)]
pub fn node_count(j: &Json) -> (r: u64)
    ensures
        r == capped(size_v(j@)),
    decreases j,
{
    match j {
        Json::Array(items) => {
            let ghost xs = items@.map_values(|x: Json| x@);
            proof {
                lemma_array_view(*items);
            }
            let ghost sizes = child_sizes(j@);
            assert(sizes.len() == items@.len());
            let mut acc: u64 = 1;
            let mut i: usize = 0;
            assert(sizes.subrange(0, 0) =~= Seq::<nat>::empty());
            while i < items.len()
                invariant
                    i <= items@.len(),
                    acc == capped(1 + sum_nat(sizes.subrange(0, i as int))),
                decreases items@.len() - i,
            {
                proof {
                    vstd::std_specs::vec::axiom_vec_index_decreases(*items, i as int);
                    assert(decreases_to!(*items => items@[i as int]));
                }
                let c = node_count(&items[i]);
                proof {
                    let pre = sizes.subrange(0, i + 1);
                    assert(pre.drop_last() =~= sizes.subrange(0, i as int));
                    assert(xs[i as int] == items@[i as int]@);
                    assert(pre.last() == size_v(items@[i as int]@));
                    lemma_capped_add(1 + sum_nat(sizes.subrange(0, i as int)), size_v(items@[i as int]@));
                }
                acc = if acc + c > SIZE_CAP { SIZE_CAP } else { acc + c };
                i = i + 1;
            }
            assert(sizes.subrange(0, i as int) =~= sizes);
            acc
        },
        Json::Object(fields) => {
            let ghost fs = view_fields(fields@);
            proof {
                lemma_object_view(*fields);
            }
            let ghost sizes = child_sizes(j@);
            assert(sizes.len() == fields@.len());
            let mut acc: u64 = 1;
            let mut i: usize = 0;
            assert(sizes.subrange(0, 0) =~= Seq::<nat>::empty());
            while i < fields.len()
                invariant
                    i <= fields@.len(),
                    acc == capped(1 + sum_nat(sizes.subrange(0, i as int))),
                decreases fields@.len() - i,
            {
                proof {
                    vstd::std_specs::vec::axiom_vec_index_decreases(*fields, i as int);
                    assert(decreases_to!(*fields => fields@[i as int]));
                }
                let c = node_count(&fields[i].1);
                proof {
                    let pre = sizes.subrange(0, i + 1);
                    assert(pre.drop_last() =~= sizes.subrange(0, i as int));
                    assert(fs[i as int].1 == fields@[i as int].1@);
                    assert(pre.last() == size_v(fields@[i as int].1@));
                    lemma_capped_add(1 + sum_nat(sizes.subrange(0, i as int)), size_v(fields@[i as int].1@));
                }
                acc = if acc + c > SIZE_CAP { SIZE_CAP } else { acc + c };
                i = i + 1;
            }
            assert(sizes.subrange(0, i as int) =~= sizes);
            acc
        },
        _ => {
            assert(child_sizes(j@).len() == 0);
            1
        },
    }
}

} // verus!
