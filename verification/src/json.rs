//! JSON values as the library holds them, and the object lookup that the
//! message codec is built on.
use crate::text::str_eq;
use vstd::prelude::*;

verus! {

/// A JSON number, held as `serde_json` holds it: a non-negative integer, a
/// negative integer, or a finite double (by the bits of its IEEE 754 form).
#[derive(Clone, Copy, Debug, PartialEq, Eq)]
pub enum JsonNumber {
    /// An integer from `0` to `u64::MAX`.
    PosInt(u64),
    /// An integer below `0`.
    NegInt(i64),
    /// Any other number, by `f64::to_bits`.
    Float(u64),
}

/// A JSON value. An object keeps its members in order; where a key occurs
/// twice, the later member is the one that counts, as when `serde_json`
/// reads such an object.
#[derive(Debug, PartialEq)]
pub enum JsonValue {
    Null,
    Bool(bool),
    Number(JsonNumber),
    String(String),
    Array(Vec<JsonValue>),
    Object(Vec<(String, JsonValue)>),
}

/// A JSON value as mathematics sees it: strings by their characters, arrays
/// and objects by the sequences of what they hold.
pub enum JsonShape {
    Null,
    Bool(bool),
    Number(JsonNumber),
    String(Seq<char>),
    Array(Seq<JsonShape>),
    Object(Seq<(Seq<char>, JsonShape)>),
}

/// The shape of a value: two values with the same shape hold the same JSON.
pub open spec fn shape(v: JsonValue) -> JsonShape
    decreases v,
{
    match v {
        JsonValue::Null => JsonShape::Null,
        JsonValue::Bool(b) => JsonShape::Bool(b),
        JsonValue::Number(n) => JsonShape::Number(n),
        JsonValue::String(s) => JsonShape::String(s@),
        JsonValue::Array(items) => JsonShape::Array(
            Seq::new(
                items@.len(),
                |i: int|
                    if 0 <= i < items@.len() {
                        shape(items@[i])
                    } else {
                        JsonShape::Null
                    },
            ),
        ),
        JsonValue::Object(entries) => JsonShape::Object(
            Seq::new(
                entries@.len(),
                |i: int|
                    if 0 <= i < entries@.len() {
                        (entries@[i].0@, shape(entries@[i].1))
                    } else {
                        (Seq::empty(), JsonShape::Null)
                    },
            ),
        ),
    }
}

/// Why a JSON value is not an LSP message (or a part of one).
#[derive(Clone, Debug, PartialEq)]
pub enum DecodeError {
    /// A message, or the `error` member of a response, is not an object.
    NotAnObject(JsonValue),
    /// `id` is neither an integer nor a string.
    InvalidId(JsonValue),
    /// `method` is not a string.
    MethodNotString(JsonValue),
    /// The object has neither `id` nor `method`.
    NeitherIdNorMethod,
    /// The `error` object has no `code`.
    MissingCode,
    /// `code` is not a number.
    CodeNotNumber(JsonValue),
    /// `code` is a number but no `i64`.
    CodeNotInteger(JsonNumber),
    /// The `error` object has no `message`.
    MissingMessage,
    /// `message` is not a string.
    MessageNotString(JsonValue),
}

/// The value of the member `key` of an object with these members: the last
/// one with that key.
pub open spec fn lookup(entries: Seq<(String, JsonValue)>, key: Seq<char>) -> Option<JsonValue>
    decreases entries.len(),
{
    if entries.len() == 0 {
        None
    } else {
        match lookup(entries.drop_first(), key) {
            Some(v) => Some(v),
            None => if entries[0].0@ == key {
                Some(entries[0].1)
            } else {
                None
            },
        }
    }
}

/// No two of these members have the same key.
pub open spec fn distinct_keys(entries: Seq<(String, JsonValue)>) -> bool {
    forall|i: int, j: int|
        0 <= i < j < entries.len() ==> #[trigger] entries[i].0@ != #[trigger] entries[j].0@
}

/// Where keys are distinct, looking up a key gives the value of the member
/// with that key, and nothing where no member has it.
pub proof fn lemma_lookup_distinct(entries: Seq<(String, JsonValue)>, key: Seq<char>)
    requires
        distinct_keys(entries),
    ensures
        forall|i: int|
            0 <= i < entries.len() && entries[i].0@ == key ==> lookup(entries, key) == Some(
                #[trigger] entries[i].1,
            ),
        (forall|i: int| 0 <= i < entries.len() ==> #[trigger] entries[i].0@ != key) ==> lookup(
            entries,
            key,
        ) is None,
    decreases entries.len(),
{
    if entries.len() > 0 {
        let tail = entries.drop_first();
        assert(distinct_keys(tail)) by {
            assert forall|i: int, j: int| 0 <= i < j < tail.len() implies #[trigger] tail[i].0@
                != #[trigger] tail[j].0@ by {
                assert(entries[i + 1].0@ != entries[j + 1].0@);
            }
        }
        lemma_lookup_distinct(tail, key);
        if entries[0].0@ == key {
            assert forall|i: int| 0 <= i < tail.len() implies #[trigger] tail[i].0@ != key by {
                assert(entries[0].0@ != entries[i + 1].0@);
            }
        }
        assert forall|i: int|
            0 <= i < entries.len() && entries[i].0@ == key implies lookup(entries, key) == Some(
                #[trigger] entries[i].1,
            ) by {
            if i > 0 {
                assert(tail[i - 1] == entries[i]);
            }
        }
        if forall|i: int| 0 <= i < entries.len() ==> #[trigger] entries[i].0@ != key {
            assert forall|i: int| 0 <= i < tail.len() implies #[trigger] tail[i].0@ != key by {
                assert(tail[i] == entries[i + 1]);
            }
        }
    }
}

/// Where the members of two objects have distinct keys and the one holds
/// the same members as the other in some order, every lookup agrees.
pub proof fn lemma_lookup_permutation(
    a: Seq<(String, JsonValue)>,
    b: Seq<(String, JsonValue)>,
    key: Seq<char>,
)
    requires
        distinct_keys(a),
        distinct_keys(b),
        a.to_multiset() == b.to_multiset(),
    ensures
        lookup(a, key) == lookup(b, key),
{
    a.to_multiset_ensures();
    b.to_multiset_ensures();
    lemma_lookup_distinct(a, key);
    lemma_lookup_distinct(b, key);
    if exists|i: int| 0 <= i < a.len() && a[i].0@ == key {
        let i = choose|i: int| 0 <= i < a.len() && a[i].0@ == key;
        assert(a.contains(a[i]));
        assert(a.to_multiset().count(a[i]) > 0);
        assert(b.to_multiset().count(a[i]) > 0);
        assert(b.contains(a[i]));
        let j = choose|j: int| 0 <= j < b.len() && b[j] == a[i];
        assert(lookup(b, key) == Some(b[j].1));
    } else if exists|j: int| 0 <= j < b.len() && b[j].0@ == key {
        let j = choose|j: int| 0 <= j < b.len() && b[j].0@ == key;
        assert(b.contains(b[j]));
        assert(b.to_multiset().count(b[j]) > 0);
        assert(a.to_multiset().count(b[j]) > 0);
        assert(a.contains(b[j]));
        let i = choose|i: int| 0 <= i < a.len() && a[i] == b[j];
        assert(a[i].0@ == key);
    } else {
        assert forall|i: int| 0 <= i < a.len() implies #[trigger] a[i].0@ != key by {}
        assert forall|j: int| 0 <= j < b.len() implies #[trigger] b[j].0@ != key by {}
    }
}

/// A member added at the end is what its key looks up (a later member
/// overrides an earlier one with the same key, as in `serde_json`), and it
/// changes no other key's lookup.
pub proof fn lemma_lookup_push(
    entries: Seq<(String, JsonValue)>,
    e: (String, JsonValue),
    key: Seq<char>,
)
    ensures
        lookup(entries.push(e), key) == (if e.0@ == key {
            Some(e.1)
        } else {
            lookup(entries, key)
        }),
    decreases entries.len(),
{
    let p = entries.push(e);
    if entries.len() == 0 {
        assert(p.drop_first() =~= Seq::<(String, JsonValue)>::empty());
        assert(p[0] == e);
        assert(lookup(p.drop_first(), key) is None);
        assert(lookup(entries, key) is None);
    } else {
        let t = entries.drop_first();
        assert(p.drop_first() =~= t.push(e));
        assert(p[0] == entries[0]);
        lemma_lookup_push(t, e, key);
        assert(lookup(p, key) == match lookup(t.push(e), key) {
            Some(v) => Some(v),
            None => if entries[0].0@ == key {
                Some(entries[0].1)
            } else {
                None
            },
        });
    }
}

/// The JSON number written for an `i64` reads back as that `i64`, and it
/// is a non-negative integer exactly where the `i64` is not negative.
pub proof fn lemma_i64_number(i: i64)
    ensures
        number_as_i64(i64_number(i)) == Some(i),
        i64_number(i) is PosInt <==> i >= 0,
        i64_number(i) is NegInt <==> i < 0,
{
}

/// A member with a key other than `key` in front does not change the lookup.
pub proof fn lemma_lookup_skip_front(entries: Seq<(String, JsonValue)>, key: Seq<char>)
    requires
        entries.len() > 0,
        entries[0].0@ != key,
    ensures
        lookup(entries, key) == lookup(entries.drop_first(), key),
{
}

/// `i64` view of a number, as `serde_json::Number::as_i64` gives it.
pub open spec fn number_as_i64(n: JsonNumber) -> Option<i64> {
    match n {
        JsonNumber::PosInt(u) => if u <= i64::MAX {
            Some(u as i64)
        } else {
            None
        },
        JsonNumber::NegInt(i) => Some(i),
        JsonNumber::Float(_) => None,
    }
}

/// The JSON number of an `i64`, as `serde_json` writes it.
pub open spec fn i64_number(i: i64) -> JsonNumber {
    if i < 0 {
        JsonNumber::NegInt(i)
    } else {
        JsonNumber::PosInt(i as u64)
    }
}

impl JsonNumber {
    /// The number as an `i64`, where it is an integer in that range.
    pub fn as_i64(&self) -> (r: Option<i64>)
        ensures
            r == number_as_i64(*self),
    {
        match *self {
            JsonNumber::PosInt(u) => if u <= 9223372036854775807u64 {
                Some(u as i64)
            } else {
                None
            },
            JsonNumber::NegInt(i) => Some(i),
            JsonNumber::Float(_) => None,
        }
    }

    /// The number that stands for `i`.
    pub fn from_i64(i: i64) -> (n: JsonNumber)
        ensures
            n == i64_number(i),
    {
        if i < 0 {
            JsonNumber::NegInt(i)
        } else {
            JsonNumber::PosInt(i as u64)
        }
    }
}

impl Clone for JsonValue {
    /// A copy of the value, member by member.
    fn clone(&self) -> (r: Self)
        ensures
            shape(r) == shape(*self),
        decreases self,
    {
        match self {
            JsonValue::Null => JsonValue::Null,
            JsonValue::Bool(b) => JsonValue::Bool(*b),
            JsonValue::Number(n) => JsonValue::Number(*n),
            JsonValue::String(s) => JsonValue::String(s.clone()),
            JsonValue::Array(items) => {
                let mut out: Vec<JsonValue> = Vec::new();
                let mut i: usize = 0;
                while i < items.len()
                    invariant
                        0 <= i <= items@.len(),
                        *self == JsonValue::Array(*items),
                        out@.len() == i,
                        forall|j: int| 0 <= j < i ==> #[trigger] shape(out@[j]) == shape(items@[j]),
                    decreases items@.len() - i,
                {
                    proof {
                        assert(decreases_to!(*self => (*self)->Array_0));
                        assert(decreases_to!(*items => items[i as int]));
                        assert(decreases_to!(*self => items[i as int]));
                    }
                    out.push(items[i].clone());
                    i = i + 1;
                }
                let r = JsonValue::Array(out);
                assert(shape(r)->Array_0.len() == shape(*self)->Array_0.len());
                assert forall|j: int| 0 <= j < out@.len() implies shape(r)->Array_0[j]
                    == shape(*self)->Array_0[j] by {
                    assert(shape(out@[j]) == shape(items@[j]));
                }
                assert(shape(r)->Array_0 =~= shape(*self)->Array_0);
                r
            },
            JsonValue::Object(entries) => {
                let mut out: Vec<(String, JsonValue)> = Vec::new();
                let mut i: usize = 0;
                while i < entries.len()
                    invariant
                        0 <= i <= entries@.len(),
                        *self == JsonValue::Object(*entries),
                        out@.len() == i,
                        forall|j: int|
                            0 <= j < i ==> #[trigger] out@[j].0@ == entries@[j].0@ && shape(out@[j].1)
                                == shape(entries@[j].1),
                    decreases entries@.len() - i,
                {
                    proof {
                        assert(decreases_to!(*self => (*self)->Object_0));
                        assert(decreases_to!(*entries => entries[i as int]));
                        assert(decreases_to!(entries[i as int] => entries[i as int].1));
                        assert(decreases_to!(*self => entries[i as int].1));
                    }
                    let entry = &entries[i];
                    out.push((entry.0.clone(), entry.1.clone()));
                    i = i + 1;
                }
                let r = JsonValue::Object(out);
                assert(shape(r)->Object_0 =~= shape(*self)->Object_0);
                r
            },
        }
    }
}

impl JsonValue {
    /// Whether the value is `null`.
    pub fn is_null(&self) -> (r: bool)
        ensures
            r == (*self is Null),
    {
        match self {
            JsonValue::Null => true,
            _ => false,
        }
    }
}

/// Takes the members of an object apart: for each of `keys`, in order, the
/// value of that member (the last one with that key), or `None`.
pub fn pick_members(entries: Vec<(String, JsonValue)>, keys: &[&str]) -> (picked: Vec<
    Option<JsonValue>,
>)
    requires
        forall|i: int, j: int| 0 <= i < j < keys@.len() ==> keys@[i]@ != keys@[j]@,
    ensures
        picked@.len() == keys@.len(),
        forall|j: int| 0 <= j < keys@.len() ==> #[trigger] picked@[j] == lookup(entries@, keys@[j]@),
{
    let ghost all = entries@;
    let mut picked: Vec<Option<JsonValue>> = Vec::new();
    let mut j: usize = 0;
    assert(all.skip(all.len() as int) =~= Seq::<(String, JsonValue)>::empty());
    while j < keys.len()
        invariant
            0 <= j <= keys@.len(),
            picked@.len() == j,
            forall|i: int| 0 <= i < j ==> #[trigger] picked@[i] == None::<JsonValue>,
        decreases keys@.len() - j,
    {
        picked.push(None);
        j = j + 1;
    }
    let mut rest = entries;
    while rest.len() > 0
        invariant
            rest@.len() <= all.len(),
            rest@ == all.take(rest@.len() as int),
            picked@.len() == keys@.len(),
            forall|i: int, j: int| 0 <= i < j < keys@.len() ==> keys@[i]@ != keys@[j]@,
            forall|j: int|
                0 <= j < keys@.len() ==> #[trigger] picked@[j] == lookup(
                    all.skip(rest@.len() as int),
                    keys@[j]@,
                ),
        decreases rest@.len(),
    {
        let ghost n = rest@.len() as int;
        let ghost before = picked@;
        let (key, value) = rest.pop().unwrap();
        let ghost suffix = all.skip(n - 1);
        assert(suffix.drop_first() =~= all.skip(n));
        assert(suffix[0] == (key, value));
        let mut t: usize = 0;
        while t < keys.len() && !str_eq(key.as_str(), keys[t])
            invariant
                0 <= t <= keys@.len(),
                forall|i: int| 0 <= i < t ==> keys@[i]@ != key@,
            decreases keys@.len() - t,
        {
            t = t + 1;
        }
        if t < keys.len() {
            assert(keys@[t as int]@ == key@);
            let vacant = match &picked[t] {
                Some(_) => false,
                None => true,
            };
            if vacant {
                picked[t] = Some(value);
            }
            assert forall|j: int| 0 <= j < keys@.len() implies #[trigger] picked@[j] == lookup(
                suffix,
                keys@[j]@,
            ) by {
                if j != t {
                    assert(keys@[j]@ != keys@[t as int]@);
                }
            }
        } else {
            assert forall|j: int| 0 <= j < keys@.len() implies #[trigger] picked@[j] == lookup(
                suffix,
                keys@[j]@,
            ) by {
                assert(keys@[j]@ != key@);
            }
        }
        assert(rest@ =~= all.take(rest@.len() as int));
    }
    assert(all.skip(0) =~= all);
    picked
}

} // verus!
