use vstd::prelude::*;

use crate::text::{all_digits, digits_value, decimal, lemma_decimal_roundtrip, decimal_string};

verus! {

/// The mathematical value of a JSON document. A number is held as the text
/// that writes it (`serde_json` writes a non-negative integer as plain digits,
/// a negative one with a leading `-`, and any other number with a `.` or an exponent).
#[verifier::ext_equal]
pub enum Json {
    Null,
    Bool(bool),
    Number(Seq<char>),
    Str(Seq<char>),
    Array(Seq<Json>),
    Object(Seq<(Seq<char>, Json)>),
}

/// A JSON value. An object is a list of entries; a key that occurs more than
/// once is read, replaced and removed at its first occurrence. An object whose
/// keys are distinct (`distinct_keys`) stays so under `entries_put` and
/// `entries_take`.
#[derive(Debug, PartialEq)]
pub enum JsonValue {
    Null,
    Bool(bool),
    Number(String),
    String(String),
    Array(Vec<JsonValue>),
    Object(Vec<(String, JsonValue)>),
}

impl JsonValue {
    pub open spec fn model(self) -> Json
        decreases self,
    {
        match self {
            JsonValue::Null => Json::Null,
            JsonValue::Bool(b) => Json::Bool(b),
            JsonValue::Number(n) => Json::Number(n@),
            JsonValue::String(s) => Json::Str(s@),
            JsonValue::Array(items) => Json::Array(
                Seq::new(
                    items@.len(),
                    |i: int|
                        if 0 <= i < items@.len() {
                            items@[i].model()
                        } else {
                            Json::Null
                        },
                ),
            ),
            JsonValue::Object(entries) => Json::Object(
                Seq::new(
                    entries@.len(),
                    |i: int|
                        if 0 <= i < entries@.len() {
                            (entries@[i].0@, entries@[i].1.model())
                        } else {
                            (Seq::empty(), Json::Null)
                        },
                ),
            ),
        }
    }
}

impl View for JsonValue {
    type V = Json;

    open spec fn view(&self) -> Json {
        self.model()
    }
}

/// The model of a list of values.
pub open spec fn items_model(items: Seq<JsonValue>) -> Seq<Json> {
    Seq::new(items.len(), |i: int| items[i]@)
}

/// The model of a list of object entries.
pub open spec fn entries_model(entries: Seq<(String, JsonValue)>) -> Seq<(Seq<char>, Json)> {
    Seq::new(entries.len(), |i: int| (entries[i].0@, entries[i].1@))
}

/// An array's model is the list of its items' models.
pub proof fn lemma_array_model(items: Vec<JsonValue>)
    ensures
        JsonValue::Array(items)@ == Json::Array(items_model(items@)),
{
    let m = JsonValue::Array(items)@;
    assert(m->Array_0 =~= items_model(items@));
}

/// An object's model is the list of its entries' models.
pub proof fn lemma_object_model(entries: Vec<(String, JsonValue)>)
    ensures
        JsonValue::Object(entries)@ == Json::Object(entries_model(entries@)),
{
    let m = JsonValue::Object(entries)@;
    assert(m->Object_0 =~= entries_model(entries@));
}

// ---------------------------------------------------------------------------
// Objects as lists of entries
// ---------------------------------------------------------------------------

/// `i` is the first index whose key is `key`.
pub open spec fn is_key_index(entries: Seq<(Seq<char>, Json)>, key: Seq<char>, i: int) -> bool {
    &&& 0 <= i < entries.len()
    &&& entries[i].0 == key
    &&& forall|j: int| 0 <= j < i ==> #[trigger] entries[j].0 != key
}

/// Some entry has the key `key`.
pub open spec fn has_key(entries: Seq<(Seq<char>, Json)>, key: Seq<char>) -> bool {
    exists|i: int| 0 <= i < entries.len() && #[trigger] entries[i].0 == key
}

/// The first index whose key is `key`.
pub open spec fn key_index(entries: Seq<(Seq<char>, Json)>, key: Seq<char>) -> int {
    choose|i: int| is_key_index(entries, key, i)
}

/// The value of the first entry with key `key`.
pub open spec fn entries_get(entries: Seq<(Seq<char>, Json)>, key: Seq<char>) -> Option<Json> {
    if has_key(entries, key) {
        Some(entries[key_index(entries, key)].1)
    } else {
        None
    }
}

/// The entries with `key` bound to `value`: the first entry with that key gets the new value,
/// or, where there is none, the entry is added at the end.
pub open spec fn entries_insert(entries: Seq<(Seq<char>, Json)>, key: Seq<char>, value: Json) -> Seq<
    (Seq<char>, Json),
> {
    if has_key(entries, key) {
        entries.update(key_index(entries, key), (key, value))
    } else {
        entries.push((key, value))
    }
}

/// The entries without the first entry whose key is `key`.
pub open spec fn entries_remove(entries: Seq<(Seq<char>, Json)>, key: Seq<char>) -> Seq<
    (Seq<char>, Json),
> {
    if has_key(entries, key) {
        entries.remove(key_index(entries, key))
    } else {
        entries
    }
}

/// Where a key occurs, a first index with it exists.
pub proof fn lemma_key_index(entries: Seq<(Seq<char>, Json)>, key: Seq<char>)
    requires
        has_key(entries, key),
    ensures
        is_key_index(entries, key, key_index(entries, key)),
{
    let i = choose|i: int| 0 <= i < entries.len() && #[trigger] entries[i].0 == key;
    lemma_least_key_index(entries, key, i);
}

proof fn lemma_least_key_index(entries: Seq<(Seq<char>, Json)>, key: Seq<char>, i: int)
    requires
        0 <= i < entries.len(),
        entries[i].0 == key,
    ensures
        exists|k: int| is_key_index(entries, key, k),
    decreases i,
{
    if forall|j: int| 0 <= j < i ==> #[trigger] entries[j].0 != key {
        assert(is_key_index(entries, key, i));
    } else {
        let j = choose|j: int| 0 <= j < i && #[trigger] entries[j].0 == key;
        lemma_least_key_index(entries, key, j);
    }
}

proof fn lemma_key_index_unique(entries: Seq<(Seq<char>, Json)>, key: Seq<char>, i: int)
    requires
        is_key_index(entries, key, i),
    ensures
        key_index(entries, key) == i,
{
    let k = key_index(entries, key);
    assert(is_key_index(entries, key, k));
    if k < i {
        assert(entries[k].0 != key);
    } else if i < k {
        assert(entries[i].0 != key);
    }
}

impl Json {
    /// The value under `key`, where `self` is an object (`Value::get` with a `&str` index).
    pub open spec fn get(self, key: Seq<char>) -> Option<Json> {
        match self {
            Json::Object(entries) => entries_get(entries, key),
            _ => None,
        }
    }

    /// `Value::as_u64`: a number written with digits alone, that fits in a `u64`.
    pub open spec fn as_u64(self) -> Option<nat> {
        match self {
            Json::Number(t) => if t.len() > 0 && all_digits(t) && digits_value(t) <= u64::MAX {
                Some(digits_value(t))
            } else {
                None
            },
            _ => None,
        }
    }

    /// `Value::as_str`.
    pub open spec fn as_str(self) -> Option<Seq<char>> {
        match self {
            Json::Str(s) => Some(s),
            _ => None,
        }
    }

    /// The number `n`, as `Value::Number(n.into())` makes it.
    pub open spec fn from_u64(n: nat) -> Json {
        Json::Number(decimal(n))
    }
}

/// A number made from a `u64` reads back as that `u64`.
pub proof fn lemma_from_u64_as_u64(n: u64)
    ensures
        Json::from_u64(n as nat).as_u64() == Some(n as nat),
{
    lemma_decimal_roundtrip(n as nat);
}

/// Whether two strings are equal: `<str as PartialEq>::eq`.
#[verifier::external_body]
pub(crate) fn str_eq(a: &str, b: &str) -> (r: bool)
    ensures
        r == (a@ == b@),
{
    a == b
}

/// The first index of an entry with key `key`.
pub fn find_key(entries: &Vec<(String, JsonValue)>, key: &str) -> (r: Option<usize>)
    ensures
        match r {
            Some(i) => is_key_index(entries_model(entries@), key@, i as int) && key_index(
                entries_model(entries@),
                key@,
            ) == i,
            None => !has_key(entries_model(entries@), key@),
        },
{
    let ghost m = entries_model(entries@);
    let mut i: usize = 0;
    while i < entries.len()
        invariant
            i <= entries@.len(),
            m == entries_model(entries@),
            forall|j: int| 0 <= j < i ==> #[trigger] m[j].0 != key@,
        decreases entries@.len() - i,
    {
        if str_eq(entries[i].0.as_str(), key) {
            assert(is_key_index(m, key@, i as int));
            proof {
                lemma_key_index_unique(m, key@, i as int);
            }
            return Some(i);
        }
        i += 1;
    }
    assert forall|j: int| 0 <= j < m.len() implies #[trigger] m[j].0 != key@ by {}
    None
}

/// The value under `key` in the entries.
pub fn entries_lookup<'a>(entries: &'a Vec<(String, JsonValue)>, key: &str) -> (r: Option<
    &'a JsonValue,
>)
    ensures
        match r {
            Some(v) => entries_get(entries_model(entries@), key@) == Some(v@),
            None => entries_get(entries_model(entries@), key@) is None,
        },
{
    match find_key(entries, key) {
        Some(i) => Some(&entries[i].1),
        None => None,
    }
}

/// Binds `key` to `value` in the entries, as `Map::insert` does.
pub fn entries_put(entries: &mut Vec<(String, JsonValue)>, key: String, value: JsonValue)
    ensures
        entries_model(final(entries)@) == entries_insert(
            entries_model(old(entries)@),
            key@,
            value@,
        ),
        distinct_keys(entries_model(old(entries)@)) ==> distinct_keys(entries_model(final(entries)@)),
{
    let ghost m = entries_model(entries@);
    let ghost kv = key@;
    let ghost vv = value@;
    proof {
        if distinct_keys(m) {
            lemma_insert_distinct(m, kv, vv);
        }
    }
    match find_key(entries, key.as_str()) {
        Some(i) => {
            entries.set(i, (key, value));
            assert(entries_model(entries@) =~= m.update(i as int, (kv, vv)));
        },
        None => {
            entries.push((key, value));
            assert(entries_model(entries@) =~= m.push((kv, vv)));
        },
    }
}

/// Removes the first entry with key `key`, as `Map::remove` does, and gives its value.
pub fn entries_take(entries: &mut Vec<(String, JsonValue)>, key: &str) -> (r: Option<JsonValue>)
    ensures
        entries_model(final(entries)@) == entries_remove(entries_model(old(entries)@), key@),
        match r {
            Some(v) => entries_get(entries_model(old(entries)@), key@) == Some(v@),
            None => entries_get(entries_model(old(entries)@), key@) is None,
        },
        distinct_keys(entries_model(old(entries)@)) ==> distinct_keys(entries_model(final(entries)@))
            && !has_key(entries_model(final(entries)@), key@),
{
    let ghost m = entries_model(entries@);
    proof {
        if distinct_keys(m) {
            lemma_remove_gone(m, key@);
        }
    }
    match find_key(entries, key) {
        Some(i) => {
            let (_k, v) = entries.remove(i);
            assert(entries_model(entries@) =~= m.remove(i as int));
            Some(v)
        },
        None => None,
    }
}

impl JsonValue {
    /// The value under `key`, where `self` is an object: `Value::get`.
    pub fn get<'a>(&'a self, key: &str) -> (r: Option<&'a JsonValue>)
        ensures
            match r {
                Some(v) => self@.get(key@) == Some(v@),
                None => self@.get(key@) is None,
            },
    {
        match self {
            JsonValue::Object(entries) => {
                proof {
                    lemma_object_model(*entries);
                }
                entries_lookup(entries, key)
            },
            _ => None,
        }
    }

    /// `Value::as_u64`.
    pub fn as_u64(&self) -> (r: Option<u64>)
        ensures
            match r {
                Some(n) => self@.as_u64() == Some(n as nat),
                None => self@.as_u64() is None,
            },
    {
        match self {
            JsonValue::Number(t) => {
                let cs = crate::text::chars_of(t.as_str());
                if cs.len() == 0 || cs[0] == '+' {
                    assert(cs@.len() > 0 ==> !crate::text::is_digit(cs@[0]));
                    None
                } else {
                    crate::text::parse_u64(cs.as_slice())
                }
            },
            _ => None,
        }
    }

    /// `Value::as_str`.
    pub fn as_str(&self) -> (r: Option<&String>)
        ensures
            match r {
                Some(s) => self@.as_str() == Some(s@),
                None => self@.as_str() is None,
            },
    {
        match self {
            JsonValue::String(s) => Some(s),
            _ => None,
        }
    }

    /// The number `n`: `Value::Number(n.into())`.
    pub fn from_u64(n: u64) -> (r: JsonValue)
        ensures
            r@ == Json::from_u64(n as nat),
    {
        JsonValue::Number(decimal_string(n))
    }

    /// A string value holding a copy of `s`.
    pub fn from_str(s: &str) -> (r: JsonValue)
        ensures
            r@ == Json::Str(s@),
    {
        JsonValue::String(s.to_owned())
    }

    /// A copy of this value.
    #[verifier::loop_isolation(false)]
    pub fn deep_clone(&self) -> (r: JsonValue)
        ensures
            r@ == self@,
        decreases self,
    {
        match self {
            JsonValue::Null => JsonValue::Null,
            JsonValue::Bool(b) => JsonValue::Bool(*b),
            JsonValue::Number(n) => JsonValue::Number(n.clone()),
            JsonValue::String(s) => JsonValue::String(s.clone()),
            JsonValue::Array(items) => {
                let mut out: Vec<JsonValue> = Vec::new();
                let mut i: usize = 0;
                while i < items.len()
                    invariant
                        i <= items@.len(),
                        out@.len() == i,
                        forall|k: int| 0 <= k < i ==> #[trigger] out@[k]@ == items@[k]@,
                    decreases items@.len() - i,
                {
                    assert(decreases_to!(self => items@[i as int])) by {
                        assert(decreases_to!(*self => (*self)->Array_0));
                        assert(decreases_to!((*self)->Array_0 => (*self)->Array_0@));
                        assert(decreases_to!((*self)->Array_0@ => (*self)->Array_0@[i as int]));
                    }
                    out.push(items[i].deep_clone());
                    i += 1;
                }
                proof {
                    lemma_array_model(*items);
                    lemma_array_model(out);
                    assert(items_model(out@) =~= items_model(items@));
                }
                JsonValue::Array(out)
            },
            JsonValue::Object(entries) => {
                let mut out: Vec<(String, JsonValue)> = Vec::new();
                let mut i: usize = 0;
                while i < entries.len()
                    invariant
                        i <= entries@.len(),
                        out@.len() == i,
                        forall|k: int| 0 <= k < i ==> (#[trigger] out@[k]).0@ == entries@[k].0@,
                        forall|k: int| 0 <= k < i ==> (#[trigger] out@[k]).1@ == entries@[k].1@,
                    decreases entries@.len() - i,
                {
                    assert(decreases_to!(self => entries@[i as int].1)) by {
                        assert(decreases_to!(*self => (*self)->Object_0));
                        assert(decreases_to!((*self)->Object_0 => (*self)->Object_0@));
                        assert(decreases_to!((*self)->Object_0@ => (*self)->Object_0@[i as int]));
                        assert(decreases_to!((*self)->Object_0@[i as int] => (*self)->Object_0@[i as int].1));
                    }
                    let v = entries[i].1.deep_clone();
                    out.push((entries[i].0.clone(), v));
                    i += 1;
                }
                proof {
                    lemma_object_model(*entries);
                    lemma_object_model(out);
                    assert(entries_model(out@) =~= entries_model(entries@));
                }
                JsonValue::Object(out)
            },
        }
    }
}



// ---------------------------------------------------------------------------
// Laws of objects
// ---------------------------------------------------------------------------

/// No key occurs twice.
pub open spec fn distinct_keys(entries: Seq<(Seq<char>, Json)>) -> bool {
    forall|i: int, j: int| 0 <= i < j < entries.len() ==> entries[i].0 != entries[j].0
}

/// A value read back under the key it was just bound to is that value.
pub proof fn lemma_get_insert_same(entries: Seq<(Seq<char>, Json)>, key: Seq<char>, value: Json)
    ensures
        entries_get(entries_insert(entries, key, value), key) == Some(value),
{
    let after = entries_insert(entries, key, value);
    if has_key(entries, key) {
        lemma_key_index(entries, key);
        let i = key_index(entries, key);
        assert(after[i].0 == key);
        assert(is_key_index(after, key, i));
        lemma_key_index_unique(after, key, i);
    } else {
        let i = entries.len() as int;
        assert(after[i].0 == key);
        assert forall|j: int| 0 <= j < i implies #[trigger] after[j].0 != key by {
            assert(after[j] == entries[j]);
        }
        assert(is_key_index(after, key, i));
        lemma_key_index_unique(after, key, i);
    }
}

/// Binding one key leaves what the other keys read.
pub proof fn lemma_get_insert_other(
    entries: Seq<(Seq<char>, Json)>,
    key: Seq<char>,
    value: Json,
    other: Seq<char>,
)
    requires
        other != key,
    ensures
        entries_get(entries_insert(entries, key, value), other) == entries_get(entries, other),
        has_key(entries_insert(entries, key, value), other) == has_key(entries, other),
{
    let after = entries_insert(entries, key, value);
    if has_key(entries, key) {
        lemma_key_index(entries, key);
        let k = key_index(entries, key);
        assert(after.len() == entries.len());
        assert forall|j: int| 0 <= j < after.len() implies ((#[trigger] after[j]).0 == other
            <==> entries[j].0 == other) by {
            if j != k {
                assert(after[j] == entries[j]);
            }
        }
    } else {
        assert(after.len() == entries.len() + 1);
        assert forall|j: int| 0 <= j < after.len() implies ((#[trigger] after[j]).0 == other
            <==> (j < entries.len() && entries[j].0 == other)) by {
            if j < entries.len() {
                assert(after[j] == entries[j]);
            } else {
                assert(after[j].0 == key);
            }
        }
    }
    if has_key(entries, other) {
        lemma_key_index(entries, other);
        let i = key_index(entries, other);
        assert(after[i].0 == other);
        assert(is_key_index(after, other, i));
        lemma_key_index_unique(after, other, i);
    } else {
        if has_key(after, other) {
            let j = choose|j: int| 0 <= j < after.len() && #[trigger] after[j].0 == other;
            assert(entries[j].0 == other);
        }
    }
}

/// Removing one key leaves what the other keys read, where no key occurs twice.
pub proof fn lemma_get_remove_other(entries: Seq<(Seq<char>, Json)>, key: Seq<char>, other: Seq<char>)
    requires
        other != key,
    ensures
        has_key(entries_remove(entries, key), other) == has_key(entries, other),
        entries_get(entries_remove(entries, key), other) == entries_get(entries, other),
{
    let after = entries_remove(entries, key);
    if has_key(entries, key) {
        lemma_key_index(entries, key);
        let k = key_index(entries, key);
        if has_key(entries, other) {
            lemma_key_index(entries, other);
            let i = key_index(entries, other);
            let ia = if i < k {
                i
            } else {
                i - 1
            };
            assert(after[ia] == entries[i]);
            assert forall|j: int| 0 <= j < ia implies #[trigger] after[j].0 != other by {
                if j < k {
                    assert(after[j] == entries[j]);
                } else {
                    assert(after[j] == entries[j + 1]);
                }
            }
            assert(is_key_index(after, other, ia));
            lemma_key_index_unique(after, other, ia);
        } else {
            if has_key(after, other) {
                let j = choose|j: int| 0 <= j < after.len() && #[trigger] after[j].0 == other;
                if j < k {
                    assert(entries[j].0 == other);
                } else {
                    assert(entries[j + 1].0 == other);
                }
            }
        }
    }
}

/// After the removal of a key, no entry has it, where no key occurred twice.
pub proof fn lemma_remove_gone(entries: Seq<(Seq<char>, Json)>, key: Seq<char>)
    requires
        distinct_keys(entries),
    ensures
        !has_key(entries_remove(entries, key), key),
        distinct_keys(entries_remove(entries, key)),
{
    let after = entries_remove(entries, key);
    if has_key(entries, key) {
        lemma_key_index(entries, key);
        let k = key_index(entries, key);
        assert forall|j: int| 0 <= j < after.len() implies #[trigger] after[j].0 != key by {
            if j < k {
                assert(after[j] == entries[j]);
            } else {
                assert(after[j] == entries[j + 1]);
            }
        }
        assert forall|i: int, j: int| 0 <= i < j < after.len() implies after[i].0 != after[j].0 by {
            let oi = if i < k {
                i
            } else {
                i + 1
            };
            let oj = if j < k {
                j
            } else {
                j + 1
            };
            assert(after[i] == entries[oi]);
            assert(after[j] == entries[oj]);
        }
    }
}

/// Binding a key keeps keys distinct.
pub proof fn lemma_insert_distinct(entries: Seq<(Seq<char>, Json)>, key: Seq<char>, value: Json)
    requires
        distinct_keys(entries),
    ensures
        distinct_keys(entries_insert(entries, key, value)),
{
    let after = entries_insert(entries, key, value);
    if has_key(entries, key) {
        lemma_key_index(entries, key);
        let k = key_index(entries, key);
        assert forall|i: int, j: int| 0 <= i < j < after.len() implies after[i].0 != after[j].0 by {
            assert(after[i].0 == entries[i].0);
            assert(after[j].0 == entries[j].0);
        }
    } else {
        assert forall|i: int, j: int| 0 <= i < j < after.len() implies after[i].0 != after[j].0 by {
            if j == entries.len() {
                assert(after[i] == entries[i]);
            } else {
                assert(after[i] == entries[i]);
                assert(after[j] == entries[j]);
            }
        }
    }
}

} // verus!
