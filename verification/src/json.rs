//! A JSON document model holding what the API logic reads and writes of
//! request and record payloads: objects as ordered fields, numbers by the
//! three kinds that JSON parsers keep apart.
use vstd::prelude::*;
use crate::text::{to_chars, chars_eq, trim_non_empty, trim_non_empty_spec, text_lt, text_lt_exec, lemma_text_lt_total, lemma_text_lt_transitive, lemma_text_lt_irreflexive, lemma_text_lt_asymmetric};
use crate::error::{ApiError, bad_request, own};

verus! {

/// A JSON number: a non-negative integer, a negative integer, or any other
/// number, kept as its decimal text.
#[derive(Debug)]
pub enum JsonNumber {
    PosInt(u64),
    NegInt(i64),
    Float(String),
}

#[derive(Debug)]
pub enum JsonValue {
    Null,
    Bool(bool),
    Number(JsonNumber),
    Str(String),
    Array(Vec<JsonValue>),
    Object(Vec<JsonField>),
}

#[derive(Debug)]
pub struct JsonField {
    pub key: String,
    pub value: JsonValue,
}

/// The keys of an object's fields, in order.
pub open spec fn keys_of(fs: Seq<JsonField>) -> Seq<Seq<char>> {
    fs.map_values(|f: JsonField| f.key@)
}

/// No key occurs twice among the fields (what every parsed JSON object
/// satisfies).
pub open spec fn keys_unique(fs: Seq<JsonField>) -> bool {
    forall|i: int, j: int|
        0 <= i < fs.len() && 0 <= j < fs.len() && i != j ==> fs[i].key@ != fs[j].key@
}

/// `i` is the first position of `key` among the fields.
pub open spec fn key_pos(fs: Seq<JsonField>, key: Seq<char>, i: int) -> bool {
    &&& 0 <= i < fs.len()
    &&& fs[i].key@ == key
    &&& forall|k: int| 0 <= k < i ==> fs[k].key@ != key
}

/// The value of the first field named `key`.
pub open spec fn obj_get(fs: Seq<JsonField>, key: Seq<char>) -> Option<JsonValue> {
    if exists|i: int| key_pos(fs, key, i) {
        Some(fs[choose|i: int| key_pos(fs, key, i)].value)
    } else {
        None
    }
}

/// `value.get(key)`: the field of an object, nothing for other values.
pub open spec fn get(v: JsonValue, key: Seq<char>) -> Option<JsonValue> {
    match v {
        JsonValue::Object(fs) => obj_get(fs@, key),
        _ => None,
    }
}

/// `value.as_str()`.
pub open spec fn as_str(v: JsonValue) -> Option<Seq<char>> {
    match v {
        JsonValue::Str(s) => Some(s@),
        _ => None,
    }
}

/// `value.as_u64()`.
pub open spec fn as_u64(v: JsonValue) -> Option<u64> {
    match v {
        JsonValue::Number(JsonNumber::PosInt(u)) => Some(u),
        _ => None,
    }
}

/// `value.get(key).and_then(as_str)`.
pub open spec fn str_field(v: JsonValue, key: Seq<char>) -> Option<Seq<char>> {
    match get(v, key) {
        Some(x) => as_str(x),
        None => None,
    }
}

pub proof fn lemma_key_pos_unique(fs: Seq<JsonField>, key: Seq<char>, i: int, j: int)
    requires
        key_pos(fs, key, i),
        key_pos(fs, key, j),
    ensures
        i == j,
{
}

/// The position of the first field named `key`.
pub fn find_key(fs: &Vec<JsonField>, key: &[char]) -> (r: Option<usize>)
    ensures
        match r {
            Some(i) => key_pos(fs@, key@, i as int),
            None => forall|i: int| 0 <= i < fs@.len() ==> fs@[i].key@ != key@,
        },
{
    let mut i: usize = 0;
    while i < fs.len()
        invariant
            i <= fs@.len(),
            forall|k: int| 0 <= k < i ==> fs@[k].key@ != key@,
        decreases fs.len() - i,
    {
        let k = to_chars(fs[i].key.as_str());
        if chars_eq(k.as_slice(), key) {
            return Some(i);
        }
        i = i + 1;
    }
    None
}

/// `value.get(key)`.
pub fn get_field<'a>(v: &'a JsonValue, key: &str) -> (r: Option<&'a JsonValue>)
    ensures
        match r {
            Some(x) => get(*v, key@) == Some(*x),
            None => get(*v, key@) is None,
        },
{
    match v {
        JsonValue::Object(fs) => {
            let k = to_chars(key);
            match find_key(fs, k.as_slice()) {
                Some(i) => {
                    proof {
                        let c = choose|j: int| key_pos(fs@, key@, j);
                        lemma_key_pos_unique(fs@, key@, i as int, c);
                    }
                    Some(&fs[i].value)
                },
                None => None,
            }
        },
        _ => None,
    }
}

/// `value.as_str()`, as characters.
pub fn as_str_chars(v: &JsonValue) -> (r: Option<Vec<char>>)
    ensures
        match r {
            Some(c) => as_str(*v) == Some(c@),
            None => as_str(*v) is None,
        },
{
    match v {
        JsonValue::Str(s) => Some(to_chars(s.as_str())),
        _ => None,
    }
}

/// `value.get(key).and_then(Value::as_str)`, as an owned string.
pub fn str_field_of(v: &JsonValue, key: &str) -> (r: Option<String>)
    ensures
        match r {
            Some(s) => str_field(*v, key@) == Some(s@),
            None => str_field(*v, key@) is None,
        },
{
    match get_field(v, key) {
        Some(JsonValue::Str(s)) => Some(s.clone()),
        _ => None,
    }
}

/// `value.as_u64()`.
pub fn as_u64_of(v: &JsonValue) -> (r: Option<u64>)
    ensures
        r == as_u64(*v),
{
    match v {
        JsonValue::Number(JsonNumber::PosInt(u)) => Some(*u),
        _ => None,
    }
}

/// Fields after `insert(key, value)`: the first field named `key` gets the
/// new value, or a field is appended where there is none.
pub open spec fn inserted(fs: Seq<JsonField>, key: Seq<char>, value: JsonValue, r: Seq<JsonField>) -> bool {
    &&& obj_get(r, key) == Some(value)
    &&& forall|k: Seq<char>| k != key ==> obj_get(r, k) == obj_get(fs, k)
    &&& keys_unique(fs) ==> keys_unique(r)
}

proof fn lemma_obj_get_some(fs: Seq<JsonField>, key: Seq<char>, i: int)
    requires
        key_pos(fs, key, i),
    ensures
        obj_get(fs, key) == Some(fs[i].value),
{
    let c = choose|j: int| key_pos(fs, key, j);
    lemma_key_pos_unique(fs, key, i, c);
}

proof fn lemma_obj_get_none(fs: Seq<JsonField>, key: Seq<char>)
    requires
        forall|i: int| 0 <= i < fs.len() ==> fs[i].key@ != key,
    ensures
        obj_get(fs, key) is None,
{
}

/// Replacing the value at a position keeps every other key's lookup.
proof fn lemma_obj_get_update(fs: Seq<JsonField>, i: int, f: JsonField, k: Seq<char>)
    requires
        0 <= i < fs.len(),
        f.key@ == fs[i].key@,
        k != f.key@,
    ensures
        obj_get(fs.update(i, f), k) == obj_get(fs, k),
{
    let r = fs.update(i, f);
    if exists|j: int| key_pos(fs, k, j) {
        let j = choose|j: int| key_pos(fs, k, j);
        assert(key_pos(r, k, j));
        lemma_obj_get_some(r, k, j);
        lemma_obj_get_some(fs, k, j);
    } else {
        assert forall|j: int| 0 <= j < r.len() implies r[j].key@ != k by {
            if r[j].key@ == k {
                assert forall|m: int| 0 <= m < j implies fs[m].key@ != k by {
                    if fs[m].key@ == k {
                        // the first position of k in fs would exist
                        let mut p: int = m;
                        assert(fs[p].key@ == k);
                        lemma_first_position(fs, k, p);
                    }
                }
                assert(key_pos(fs, k, j));
            }
        }
        lemma_obj_get_none(r, k);
    }
}

/// A key that occurs at all has a first position.
proof fn lemma_first_position(fs: Seq<JsonField>, k: Seq<char>, p: int)
    requires
        0 <= p < fs.len(),
        fs[p].key@ == k,
    ensures
        exists|j: int| key_pos(fs, k, j),
    decreases p,
{
    if forall|m: int| 0 <= m < p ==> fs[m].key@ != k {
        assert(key_pos(fs, k, p));
    } else {
        let m = choose|m: int| 0 <= m < p && fs[m].key@ != k == false;
        lemma_first_position(fs, k, m);
    }
}

/// Appending a field with a fresh key keeps every other key's lookup.
proof fn lemma_obj_get_push(fs: Seq<JsonField>, f: JsonField, k: Seq<char>)
    requires
        forall|i: int| 0 <= i < fs.len() ==> fs[i].key@ != f.key@,
    ensures
        k != f.key@ ==> obj_get(fs.push(f), k) == obj_get(fs, k),
        obj_get(fs.push(f), f.key@) == Some(f.value),
{
    let r = fs.push(f);
    assert(key_pos(r, f.key@, fs.len() as int));
    lemma_obj_get_some(r, f.key@, fs.len() as int);
    if k != f.key@ {
        if exists|j: int| key_pos(fs, k, j) {
            let j = choose|j: int| key_pos(fs, k, j);
            assert(key_pos(r, k, j));
            lemma_obj_get_some(r, k, j);
            lemma_obj_get_some(fs, k, j);
        } else {
            assert forall|j: int| 0 <= j < r.len() implies r[j].key@ != k by {
                if j < fs.len() && r[j].key@ == k {
                    lemma_first_position(fs, k, j);
                }
            }
            lemma_obj_get_none(r, k);
        }
    }
}

/// `map.insert(key, value)` on an object's fields.
pub fn insert_field(fs: &mut Vec<JsonField>, key: &str, value: JsonValue)
    ensures
        inserted(old(fs)@, key@, value, final(fs)@),
{
    let k = to_chars(key);
    match find_key(fs, k.as_slice()) {
        Some(i) => {
            let ghost before = fs@;
            let kk = fs[i].key.clone();
            let f = JsonField { key: kk, value };
            fs.set(i, f);
            proof {
                assert(fs@ == before.update(i as int, f));
                assert(key_pos(fs@, key@, i as int));
                lemma_obj_get_some(fs@, key@, i as int);
                assert forall|kx: Seq<char>| kx != key@ implies obj_get(fs@, kx) == obj_get(
                    before,
                    kx,
                ) by {
                    lemma_obj_get_update(before, i as int, f, kx);
                }
                assert(keys_unique(before) ==> keys_unique(fs@)) by {
                    assert forall|a: int, b: int|
                        0 <= a < fs@.len() && 0 <= b < fs@.len() && a != b && keys_unique(
                            before,
                        ) implies fs@[a].key@ != fs@[b].key@ by {
                        assert(fs@[a].key@ == before[a].key@);
                        assert(fs@[b].key@ == before[b].key@);
                    }
                }
            }
        },
        None => {
            let ghost before = fs@;
            let f = JsonField { key: own(key), value };
            fs.push(f);
            proof {
                assert(fs@ == before.push(f));
                assert forall|kx: Seq<char>| kx != key@ implies obj_get(fs@, kx) == obj_get(
                    before,
                    kx,
                ) by {
                    lemma_obj_get_push(before, f, kx);
                }
                lemma_obj_get_push(before, f, key@);
                assert(keys_unique(before) ==> keys_unique(fs@)) by {
                    assert forall|a: int, b: int|
                        0 <= a < fs@.len() && 0 <= b < fs@.len() && a != b && keys_unique(
                            before,
                        ) implies fs@[a].key@ != fs@[b].key@ by {
                        if a < before.len() && b < before.len() {
                            assert(fs@[a] == before[a]);
                            assert(fs@[b] == before[b]);
                        } else if a < before.len() {
                            assert(fs@[a] == before[a]);
                        } else {
                            assert(fs@[b] == before[b]);
                        }
                    }
                }
            }
        },
    }
}

/// A string value.
pub fn json_str(s: &str) -> (r: JsonValue)
    ensures
        as_str(r) == Some(s@),
{
    JsonValue::Str(own(s))
}

/// An object of the two given fields (distinct keys).
pub fn object_of_two(k1: &str, v1: JsonValue, k2: &str, v2: JsonValue) -> (r: JsonValue)
    requires
        k1@ != k2@,
    ensures
        r is Object,
        get(r, k1@) == Some(v1),
        get(r, k2@) == Some(v2),
        forall|k: Seq<char>| k != k1@ && k != k2@ ==> get(r, k) is None,
        keys_unique(r->Object_0@),
{
    let mut fs: Vec<JsonField> = Vec::new();
    insert_field(&mut fs, k1, v1);
    insert_field(&mut fs, k2, v2);
    JsonValue::Object(fs)
}

/// `inject_trace_id_into_input`: an object input gets the field `_trace`;
/// any other input is wrapped as `{"input": input, "_trace": trace_id}`.
pub fn inject_trace_id_into_input(input: JsonValue, trace_id: &str) -> (r: JsonValue)
    ensures
        r is Object,
        str_field(r, "_trace"@) == Some(trace_id@),
        input is Object ==> forall|k: Seq<char>| k != "_trace"@ ==> get(r, k) == get(input, k),
        input is Object ==> (keys_unique(input->Object_0@) ==> keys_unique(r->Object_0@)),
        !(input is Object) ==> get(r, "input"@) == Some(input),
        !(input is Object) ==> forall|k: Seq<char>|
            k != "_trace"@ && k != "input"@ ==> get(r, k) is None,
{
    proof {
        reveal_strlit("_trace");
        reveal_strlit("input");
        assert("input"@[0] != "_trace"@[0]);
    }
    match input {
        JsonValue::Object(mut map) => {
            insert_field(&mut map, "_trace", json_str(trace_id));
            JsonValue::Object(map)
        },
        other => object_of_two("input", other, "_trace", json_str(trace_id)),
    }
}

/// `run.input_json.get("_trace").and_then(Value::as_str)`: the trace id a
/// run's input carries.
pub fn trace_id_of(input: &JsonValue) -> (r: Option<String>)
    ensures
        match r {
            Some(s) => str_field(*input, "_trace"@) == Some(s@),
            None => str_field(*input, "_trace"@) is None,
        },
{
    str_field_of(input, "_trace")
}

/// The object that `merge_json_objects_for_api` builds: every field of
/// `overlay` (when it is an object) over the fields of `primary`.
pub open spec fn merged_lookup(p: Seq<JsonField>, o: JsonValue, k: Seq<char>) -> Option<JsonValue> {
    match o {
        JsonValue::Object(ofs) => if obj_get(ofs@, k) is Some {
            obj_get(ofs@, k)
        } else {
            obj_get(p, k)
        },
        _ => obj_get(p, k),
    }
}

/// `merge_json_objects_for_api`: an object `primary` gets every field of an
/// object `overlay` (the overlay winning); any other `primary` is wrapped as
/// `{"input": primary, "_trigger": overlay}`.
pub fn merge_json_objects_for_api(primary: JsonValue, overlay: JsonValue) -> (r: JsonValue)
    requires
        overlay is Object ==> keys_unique(overlay->Object_0@),
    ensures
        r is Object,
        primary is Object ==> forall|k: Seq<char>|
            get(r, k) == merged_lookup(primary->Object_0@, overlay, k),
        !(primary is Object) ==> get(r, "input"@) == Some(primary) && get(r, "_trigger"@) == Some(
            overlay,
        ),
        !(primary is Object) ==> forall|k: Seq<char>|
            k != "input"@ && k != "_trigger"@ ==> get(r, k) is None,
{
    proof {
        reveal_strlit("input");
        reveal_strlit("_trigger");
        assert("input"@[0] != "_trigger"@[0]);
    }
    match primary {
        JsonValue::Object(map) => {
            let ghost p = map@;
            let mut merged = map;
            match overlay {
                JsonValue::Object(ofs) => {
                    let ghost o = ofs@;
                    let mut rest = ofs;
                    let _n = rest.len();
                    let mut i: usize = 0;
                    while rest.len() > 0
                        invariant
                            i <= o.len(),
                            i + rest@.len() == o.len(),
                            o.len() <= usize::MAX,
                            rest@ == o.skip(i as int),
                            keys_unique(o),
                            forall|k: Seq<char>|
                                obj_get(merged@, k) == if (exists|j: int|
                                    0 <= j < i && #[trigger] o[j].key@ == k) {
                                    obj_get(o, k)
                                } else {
                                    obj_get(p, k)
                                },
                        decreases rest.len(),
                    {
                        let f = rest.remove(0);
                        proof {
                            assert(f == o[i as int]);
                            assert(rest@ =~= o.skip(i + 1));
                        }
                        let ghost before = merged@;
                        proof {
                            assert(key_pos(o, f.key@, i as int));
                            lemma_obj_get_some(o, f.key@, i as int);
                        }
                        insert_field(&mut merged, f.key.as_str(), f.value);
                        proof {
                            assert forall|k: Seq<char>|
                                obj_get(merged@, k) == if (exists|j: int|
                                    0 <= j < i + 1 && #[trigger] o[j].key@ == k) {
                                    obj_get(o, k)
                                } else {
                                    obj_get(p, k)
                                } by {
                                if k == o[i as int].key@ {
                                } else {
                                    if exists|j: int| 0 <= j < i + 1 && #[trigger] o[j].key@ == k {
                                        let j = choose|j: int|
                                            0 <= j < i + 1 && #[trigger] o[j].key@ == k;
                                        assert(j < i);
                                    }
                                }
                            }
                        }
                        i = i + 1;
                    }
                    proof {
                        assert forall|k: Seq<char>|
                            obj_get(merged@, k) == (if obj_get(o, k) is Some {
                                obj_get(o, k)
                            } else {
                                obj_get(p, k)
                            }) by {
                            if exists|j: int| 0 <= j < o.len() && #[trigger] o[j].key@ == k {
                                let j = choose|j: int| 0 <= j < o.len() && #[trigger] o[j].key@ == k;
                                lemma_first_position(o, k, j);
                            } else {
                                lemma_obj_get_none(o, k);
                            }
                        }
                    }
                    JsonValue::Object(merged)
                },
                _ => JsonValue::Object(merged),
            }
        },
        other => object_of_two("input", other, "_trigger", overlay),
    }
}

/// `normalize_requested_capabilities_payload`: absent or `null` becomes an
/// empty array; an array is kept; anything else is refused.
pub fn normalize_requested_capabilities_payload(payload: Option<JsonValue>) -> (r: Result<
    JsonValue,
    ApiError,
>)
    ensures
        match payload {
            None => r matches Ok(JsonValue::Array(v)) && v@.len() == 0,
            Some(JsonValue::Null) => r matches Ok(JsonValue::Array(v)) && v@.len() == 0,
            Some(JsonValue::Array(a)) => r == Ok::<JsonValue, ApiError>(JsonValue::Array(a)),
            Some(_) => r matches Err(e) && e@ == bad_request(
                "requested_capabilities must be an array"@,
            ),
        },
{
    match payload {
        None => Ok(JsonValue::Array(Vec::new())),
        Some(JsonValue::Null) => Ok(JsonValue::Array(Vec::new())),
        Some(JsonValue::Array(a)) => Ok(JsonValue::Array(a)),
        Some(_) => Err(ApiError::bad_request("requested_capabilities must be an array")),
    }
}

/// `normalize_materialization_input_payload`: absent or `null` becomes an
/// empty object; anything else is kept.
pub fn normalize_materialization_input_payload(payload: Option<JsonValue>) -> (r: JsonValue)
    ensures
        match payload {
            None => r matches JsonValue::Object(fs) && fs@.len() == 0,
            Some(JsonValue::Null) => r matches JsonValue::Object(fs) && fs@.len() == 0,
            Some(v) => r == v,
        },
{
    match payload {
        None => JsonValue::Object(Vec::new()),
        Some(JsonValue::Null) => JsonValue::Object(Vec::new()),
        Some(v) => v,
    }
}

/// The first of `keys` under which `payload` holds a string.
pub open spec fn first_str_field(payload: JsonValue, keys: Seq<Seq<char>>) -> Option<Seq<char>>
    decreases keys.len(),
{
    if keys.len() == 0 {
        None
    } else if str_field(payload, keys[0]) is Some {
        str_field(payload, keys[0])
    } else {
        first_str_field(payload, keys.drop_first())
    }
}

proof fn lemma_first_str_field_skip(payload: JsonValue, keys: Seq<Seq<char>>, i: int)
    requires
        0 <= i < keys.len(),
        forall|k: int| 0 <= k < i ==> str_field(payload, keys[k]) is None,
    ensures
        first_str_field(payload, keys) == first_str_field(payload, keys.skip(i)),
    decreases i,
{
    if i > 0 {
        lemma_first_str_field_skip(payload, keys.drop_first(), i - 1);
        assert(keys.drop_first().skip(i - 1) =~= keys.skip(i));
    } else {
        assert(keys.skip(0) =~= keys);
    }
}

/// `payload_string_field`: the string under the first of `keys` that holds
/// one, trimmed, or nothing where that string is blank.
pub fn payload_string_field(payload: &JsonValue, keys: &[&str]) -> (r: Option<String>)
    ensures
        match first_str_field(*payload, keys@.map_values(|k: &str| k@)) {
            None => r is None,
            Some(s) => match r {
                None => trim_non_empty_spec(s) is None,
                Some(t) => trim_non_empty_spec(s) == Some(t@),
            },
        },
{
    let ghost ks = keys@.map_values(|k: &str| k@);
    let mut i: usize = 0;
    while i < keys.len()
        invariant
            i <= keys@.len(),
            ks == keys@.map_values(|k: &str| k@),
            forall|k: int| 0 <= k < i ==> str_field(*payload, ks[k]) is None,
        decreases keys.len() - i,
    {
        match str_field_of(payload, keys[i]) {
            Some(s) => {
                proof {
                    lemma_first_str_field_skip(*payload, ks, i as int);
                }
                return trim_non_empty(Some(s.as_str()));
            },
            None => {},
        }
        i = i + 1;
    }
    proof {
        assert forall|j: int| 0 <= j <= ks.len() implies first_str_field(*payload, ks.skip(j))
            is None by {
            lemma_tail_none(*payload, ks, j);
        }
        assert(ks.skip(0) =~= ks);
    }
    None
}

proof fn lemma_tail_none(payload: JsonValue, ks: Seq<Seq<char>>, j: int)
    requires
        0 <= j <= ks.len(),
        forall|k: int| 0 <= k < ks.len() ==> str_field(payload, ks[k]) is None,
    ensures
        first_str_field(payload, ks.skip(j)) is None,
    decreases ks.len() - j,
{
    if j < ks.len() {
        lemma_tail_none(payload, ks, j + 1);
        assert(ks.skip(j).drop_first() =~= ks.skip(j + 1));
    }
}


/// `ord` lists the fields of an object in key order, fields with equal
/// keys keeping their order (what a stable sort by key gives).
pub open spec fn is_key_order(fs: Seq<JsonField>, ord: Seq<int>) -> bool {
    &&& ord.len() == fs.len()
    &&& forall|p: int| 0 <= p < ord.len() ==> 0 <= #[trigger] ord[p] < fs.len()
    &&& forall|p: int, q: int| 0 <= p < q < ord.len() ==> ord[p] != ord[q]
    &&& forall|p: int, q: int|
        0 <= p < q < ord.len() ==> key_before(fs, #[trigger] ord[p], #[trigger] ord[q])
}

/// Field `a` goes before field `b`: a smaller key, or the same key and
/// earlier.
pub open spec fn key_before(fs: Seq<JsonField>, a: int, b: int) -> bool {
    text_lt(fs[a].key@, fs[b].key@) || (fs[a].key@ == fs[b].key@ && a < b)
}

/// `c` is `v` in canonical form: every object's fields ordered by key
/// (stably), and every value inside canonical in turn.
pub open spec fn canonical_of(v: JsonValue, c: JsonValue) -> bool
    decreases v,
{
    match v {
        JsonValue::Array(items) => match c {
            JsonValue::Array(out) => out@.len() == items@.len() && forall|i: int|
                0 <= i < items@.len() ==> canonical_of(#[trigger] items@[i], out@[i]),
            _ => false,
        },
        JsonValue::Object(fs) => match c {
            JsonValue::Object(out) => exists|ord: Seq<int>|
                {
                    &&& is_key_order(fs@, ord)
                    &&& out@.len() == fs@.len()
                    &&& forall|p: int|
                        0 <= p < ord.len() ==> 0 <= #[trigger] ord[p] < fs@.len() && out@[p].key@
                            == fs@[ord[p]].key@ && canonical_of(fs@[ord[p]].value, out@[p].value)
                },
            _ => false,
        },
        _ => c == v,
    }
}

/// `payload_uuid_field`: the payload string field that parses as a UUID.
pub fn payload_uuid_field(payload: &JsonValue, keys: &[&str]) -> (r: Option<u128>)
    ensures
        r == match first_str_field(*payload, keys@.map_values(|k: &str| k@)) {
            Some(s) => match trim_non_empty_spec(s) {
                Some(t) => crate::ids::uuid_parse(t),
                None => None,
            },
            None => None,
        },
{
    match payload_string_field(payload, keys) {
        Some(s) => crate::ids::parse_uuid(s.as_str()),
        None => None,
    }
}

/// Some position of `perm` holds `h`.
pub open spec fn takes_value(perm: Seq<int>, h: int) -> bool {
    exists|q: int| 0 <= q < perm.len() && perm[q] == h
}

/// Where the fields of an object hold distinct keys, their order does not
/// matter to the canonical form: an object whose fields are a reordering
/// of another's has the same canonical forms.
pub proof fn law_field_order_does_not_change_canonical_form(
    v1: JsonValue,
    v2: JsonValue,
    perm: Seq<int>,
    c: JsonValue,
)
    requires
        v1 is Object,
        v2 is Object,
        keys_unique(v1->Object_0@),
        v2->Object_0@.len() == v1->Object_0@.len(),
        perm.len() == v1->Object_0@.len(),
        forall|p: int| 0 <= p < perm.len() ==> 0 <= #[trigger] perm[p] < perm.len(),
        forall|h: int| 0 <= h < perm.len() ==> #[trigger] takes_value(perm, h),
        forall|p: int| 0 <= p < perm.len() ==> v2->Object_0@[p] == #[trigger] v1->Object_0@[perm[p]],
        canonical_of(v1, c),
    ensures
        canonical_of(v2, c),
{
    let f1 = v1->Object_0@;
    let f2 = v2->Object_0@;
    let n = f1.len();
    let out = c->Object_0@;
    let ord1 = choose|ord: Seq<int>|
        {
            &&& is_key_order(f1, ord)
            &&& out.len() == f1.len()
            &&& forall|p: int|
                0 <= p < ord.len() ==> 0 <= #[trigger] ord[p] < f1.len() && out[p].key@
                    == f1[ord[p]].key@ && canonical_of(f1[ord[p]].value, out[p].value)
        };
    let ord2 = Seq::new(n, |p: int| choose|q: int| 0 <= q < n && perm[q] == ord1[p]);
    assert forall|p: int| 0 <= p < n implies 0 <= #[trigger] ord2[p] < n && perm[ord2[p]] == ord1[p] by {
        assert(0 <= ord1[p] < n);
        assert(takes_value(perm, ord1[p]));
    }
    assert forall|p: int| 0 <= p < n implies #[trigger] f2[ord2[p]] == f1[ord1[p]] by {
        assert(0 <= ord2[p] < n && perm[ord2[p]] == ord1[p]);
        assert(f2[ord2[p]] == f1[perm[ord2[p]]]);
    }
    assert(is_key_order(f2, ord2)) by {
        assert forall|p: int, q: int| 0 <= p < q < n implies ord2[p] != ord2[q] by {
            assert(ord1[p] != ord1[q]);
            assert(perm[ord2[p]] == ord1[p] && perm[ord2[q]] == ord1[q]);
        }
        assert forall|p: int, q: int| 0 <= p < q < n implies key_before(f2, #[trigger] ord2[p], #[trigger] ord2[q]) by {
            assert(key_before(f1, ord1[p], ord1[q]));
            assert(ord1[p] != ord1[q]);
            assert(f1[ord1[p]].key@ != f1[ord1[q]].key@);
            assert(f2[ord2[p]] == f1[ord1[p]]);
            assert(f2[ord2[q]] == f1[ord1[q]]);
        }
    }
    assert forall|p: int| 0 <= p < ord2.len() implies 0 <= #[trigger] ord2[p] < f2.len() && out[p].key@
        == f2[ord2[p]].key@ && canonical_of(f2[ord2[p]].value, out[p].value) by {
        assert(f2[ord2[p]] == f1[ord1[p]]);
    }
}

/// Canonical form is a fixed point: a value already in canonical form is its
/// own canonical form, so canonicalizing twice changes nothing more.
pub proof fn law_canonical_form_is_stable(v: JsonValue, c: JsonValue)
    requires
        canonical_of(v, c),
    ensures
        canonical_of(c, c),
    decreases v,
{
    match v {
        JsonValue::Array(items) => {
            let out = c->Array_0;
            assert forall|i: int| 0 <= i < out@.len() implies canonical_of(
                #[trigger] out@[i],
                out@[i],
            ) by {
                assert(decreases_to!(v => v->Array_0));
                assert(decreases_to!(items => items@));
                assert(decreases_to!(items@ => items@[i]));
                law_canonical_form_is_stable(items@[i], out@[i]);
            }
        },
        JsonValue::Object(fs) => {
            let out = c->Object_0@;
            let ord = choose|ord: Seq<int>|
                {
                    &&& is_key_order(fs@, ord)
                    &&& out.len() == fs@.len()
                    &&& forall|p: int|
                        0 <= p < ord.len() ==> 0 <= #[trigger] ord[p] < fs@.len() && out[p].key@
                            == fs@[ord[p]].key@ && canonical_of(fs@[ord[p]].value, out[p].value)
                };
            let id = Seq::new(out.len(), |p: int| p);
            assert forall|p: int, q: int| 0 <= p < q < id.len() implies key_before(
                out,
                #[trigger] id[p],
                #[trigger] id[q],
            ) by {
                assert(key_before(fs@, ord[p], ord[q]));
            }
            assert(is_key_order(out, id));
            assert forall|p: int| 0 <= p < id.len() implies 0 <= #[trigger] id[p] < out.len()
                && out[p].key@ == out[id[p]].key@ && canonical_of(out[id[p]].value, out[p].value) by {
                let k = ord[p];
                assert(0 <= k < fs@.len());
                assert(canonical_of(fs@[k].value, out[p].value));
                assert(decreases_to!(v => v->Object_0));
                assert(decreases_to!(fs => fs@));
                assert(decreases_to!(fs@ => fs@[k]));
                assert(decreases_to!(fs@[k] => fs@[k].value));
                law_canonical_form_is_stable(fs@[k].value, out[p].value);
            }
        },
        _ => {},
    }
}

/// Two documents say the same: the same kind at every depth, equal texts,
/// numbers and flags, arrays item by item, objects field by field in order.
pub open spec fn json_same(a: JsonValue, b: JsonValue) -> bool
    decreases a,
{
    match a {
        JsonValue::Null => b is Null,
        JsonValue::Bool(x) => b matches JsonValue::Bool(y) && x == y,
        JsonValue::Number(x) => b matches JsonValue::Number(y) && match (x, y) {
            (JsonNumber::PosInt(p), JsonNumber::PosInt(q)) => p == q,
            (JsonNumber::NegInt(p), JsonNumber::NegInt(q)) => p == q,
            (JsonNumber::Float(p), JsonNumber::Float(q)) => p@ == q@,
            _ => false,
        },
        JsonValue::Str(x) => b matches JsonValue::Str(y) && x@ == y@,
        JsonValue::Array(xs) => b matches JsonValue::Array(ys) && xs@.len() == ys@.len() && forall|i: int|
            0 <= i < xs@.len() ==> json_same(#[trigger] xs@[i], ys@[i]),
        JsonValue::Object(fs) => b matches JsonValue::Object(gs) && fs@.len() == gs@.len() && forall|i: int|
            0 <= i < fs@.len() ==> (#[trigger] fs@[i]).key@ == gs@[i].key@ && json_same(
                fs@[i].value,
                gs@[i].value,
            ),
    }
}

/// A key order lists every field position exactly once.
proof fn lemma_key_order_covers(fs: Seq<JsonField>, ord: Seq<int>, k: int)
    requires
        is_key_order(fs, ord),
        0 <= k < fs.len(),
    ensures
        ord.contains(k),
{
    assert(ord.no_duplicates()) by {
        assert forall|p: int, q: int| 0 <= p < ord.len() && 0 <= q < ord.len() && p != q implies ord[p]
            != ord[q] by {
            if p < q {
            } else {
                assert(ord[q] != ord[p]);
            }
        }
    }
    ord.unique_seq_to_set();
    vstd::set_lib::lemma_int_range(0, fs.len() as int);
    let r = vstd::set_lib::set_int_range(0, fs.len() as int);
    assert(ord.to_set().subset_of(r)) by {
        assert forall|x: int| ord.to_set().contains(x) implies r.contains(x) by {
            let p = choose|p: int| 0 <= p < ord.len() && ord[p] == x;
            assert(0 <= ord[p] < fs.len());
        }
    }
    vstd::set_lib::lemma_subset_equality(ord.to_set(), r);
    assert(r.contains(k));
    assert(ord.to_set().contains(k));
}

proof fn lemma_key_before_irreflexive(fs: Seq<JsonField>, a: int)
    ensures
        !key_before(fs, a, a),
{
    lemma_text_lt_irreflexive(fs[a].key@);
}

proof fn lemma_key_before_asymmetric(fs: Seq<JsonField>, a: int, b: int)
    requires
        key_before(fs, a, b),
    ensures
        !key_before(fs, b, a),
{
    if text_lt(fs[a].key@, fs[b].key@) {
        lemma_text_lt_asymmetric(fs[a].key@, fs[b].key@);
        if fs[b].key@ == fs[a].key@ {
            lemma_text_lt_irreflexive(fs[a].key@);
        }
    } else {
        lemma_text_lt_irreflexive(fs[a].key@);
    }
}

/// A list of positions sorted strictly by `key_before`, each in range.
pub open spec fn key_sorted(fs: Seq<JsonField>, o: Seq<int>) -> bool {
    &&& forall|p: int| 0 <= p < o.len() ==> 0 <= #[trigger] o[p] < fs.len()
    &&& forall|p: int, q: int| 0 <= p < q < o.len() ==> key_before(fs, #[trigger] o[p], #[trigger] o[q])
}

proof fn lemma_key_sorted_unique(fs: Seq<JsonField>, a: Seq<int>, b: Seq<int>)
    requires
        key_sorted(fs, a),
        key_sorted(fs, b),
        forall|x: int| a.contains(x) <==> b.contains(x),
    ensures
        a == b,
    decreases a.len() + b.len(),
{
    if a.len() == 0 {
        if b.len() > 0 {
            assert(b.contains(b[0]));
        }
        assert(a =~= b);
    } else if b.len() == 0 {
        assert(a.contains(a[0]));
    } else {
        assert(a.contains(a[0]) && b.contains(b[0]));
        let i = choose|i: int| 0 <= i < b.len() && b[i] == a[0];
        let j = choose|j: int| 0 <= j < a.len() && a[j] == b[0];
        if a[0] != b[0] {
            assert(i > 0 && j > 0);
            assert(key_before(fs, b[0], b[i]));
            assert(key_before(fs, a[0], a[j]));
            lemma_key_before_asymmetric(fs, b[0], a[0]);
        }
        let a1 = a.drop_first();
        let b1 = b.drop_first();
        assert(key_sorted(fs, a1)) by {
            assert forall|x: int, y: int| 0 <= x < y < a1.len() implies key_before(fs, #[trigger] a1[x], #[trigger] a1[y]) by {
                assert(a1[x] == a[x + 1] && a1[y] == a[y + 1]);
            }
        }
        assert(key_sorted(fs, b1)) by {
            assert forall|x: int, y: int| 0 <= x < y < b1.len() implies key_before(fs, #[trigger] b1[x], #[trigger] b1[y]) by {
                assert(b1[x] == b[x + 1] && b1[y] == b[y + 1]);
            }
        }
        assert forall|t: int| a1.contains(t) <==> b1.contains(t) by {
            if a1.contains(t) {
                let k = choose|k: int| 0 <= k < a1.len() && a1[k] == t;
                assert(a[k + 1] == t);
                assert(key_before(fs, a[0], a[k + 1]));
                if t == a[0] {
                    lemma_key_before_irreflexive(fs, t);
                }
                assert(b.contains(t));
                let m = choose|m: int| 0 <= m < b.len() && b[m] == t;
                assert(m != 0);
                assert(b1[m - 1] == t);
            }
            if b1.contains(t) {
                let k = choose|k: int| 0 <= k < b1.len() && b1[k] == t;
                assert(b[k + 1] == t);
                assert(key_before(fs, b[0], b[k + 1]));
                if t == b[0] {
                    lemma_key_before_irreflexive(fs, t);
                }
                assert(a.contains(t));
                let m = choose|m: int| 0 <= m < a.len() && a[m] == t;
                assert(m != 0);
                assert(a1[m - 1] == t);
            }
        }
        lemma_key_sorted_unique(fs, a1, b1);
        assert(a =~= seq![a[0]] + a1);
        assert(b =~= seq![b[0]] + b1);
    }
}

/// The canonical form is unique: two canonical forms of one document say
/// the same, so canonicalizing a canonical form (or canonicalizing twice)
/// gives the same document back.
pub proof fn law_canonical_form_is_unique(v: JsonValue, c1: JsonValue, c2: JsonValue)
    requires
        canonical_of(v, c1),
        canonical_of(v, c2),
    ensures
        json_same(c1, c2),
    decreases v,
{
    match v {
        JsonValue::Array(items) => {
            let o1 = c1->Array_0;
            let o2 = c2->Array_0;
            assert forall|i: int| 0 <= i < o1@.len() implies json_same(#[trigger] o1@[i], o2@[i]) by {
                assert(decreases_to!(v => v->Array_0));
                assert(decreases_to!(items => items@));
                assert(decreases_to!(items@ => items@[i]));
                law_canonical_form_is_unique(items@[i], o1@[i], o2@[i]);
            }
        },
        JsonValue::Object(fs) => {
            let out1 = c1->Object_0@;
            let out2 = c2->Object_0@;
            let ord1 = choose|ord: Seq<int>|
                {
                    &&& is_key_order(fs@, ord)
                    &&& out1.len() == fs@.len()
                    &&& forall|p: int|
                        0 <= p < ord.len() ==> 0 <= #[trigger] ord[p] < fs@.len() && out1[p].key@
                            == fs@[ord[p]].key@ && canonical_of(fs@[ord[p]].value, out1[p].value)
                };
            let ord2 = choose|ord: Seq<int>|
                {
                    &&& is_key_order(fs@, ord)
                    &&& out2.len() == fs@.len()
                    &&& forall|p: int|
                        0 <= p < ord.len() ==> 0 <= #[trigger] ord[p] < fs@.len() && out2[p].key@
                            == fs@[ord[p]].key@ && canonical_of(fs@[ord[p]].value, out2[p].value)
                };
            assert forall|x: int| ord1.contains(x) <==> ord2.contains(x) by {
                if ord1.contains(x) {
                    let p = choose|p: int| 0 <= p < ord1.len() && ord1[p] == x;
                    assert(0 <= ord1[p] < fs@.len());
                    lemma_key_order_covers(fs@, ord2, x);
                }
                if ord2.contains(x) {
                    let p = choose|p: int| 0 <= p < ord2.len() && ord2[p] == x;
                    assert(0 <= ord2[p] < fs@.len());
                    lemma_key_order_covers(fs@, ord1, x);
                }
            }
            lemma_key_sorted_unique(fs@, ord1, ord2);
            assert forall|p: int| 0 <= p < out1.len() implies (#[trigger] out1[p]).key@ == out2[p].key@
                && json_same(out1[p].value, out2[p].value) by {
                let k = ord1[p];
                assert(0 <= k < fs@.len());
                assert(decreases_to!(v => v->Object_0));
                assert(decreases_to!(fs => fs@));
                assert(decreases_to!(fs@ => fs@[k]));
                assert(decreases_to!(fs@[k] => fs@[k].value));
                law_canonical_form_is_unique(fs@[k].value, out1[p].value, out2[p].value);
            }
        },
        JsonValue::Null => {},
        JsonValue::Bool(_) => {},
        JsonValue::Number(n) => {
            match n {
                JsonNumber::Float(_) => {},
                _ => {},
            }
        },
        JsonValue::Str(_) => {},
    }
}

fn key_before_exec(a: &JsonField, b: &JsonField, ia: usize, ib: usize) -> (r: bool)
    ensures
        r == (text_lt(a.key@, b.key@) || (a.key@ == b.key@ && ia < ib)),
{
    let ka = to_chars(a.key.as_str());
    let kb = to_chars(b.key.as_str());
    text_lt_exec(ka.as_slice(), kb.as_slice()) || (chars_eq(ka.as_slice(), kb.as_slice()) && ia < ib)
}

proof fn lemma_key_before_total(fs: Seq<JsonField>, a: int, b: int)
    requires
        a != b,
    ensures
        key_before(fs, a, b) || key_before(fs, b, a),
{
    if fs[a].key@ != fs[b].key@ {
        lemma_text_lt_total(fs[a].key@, fs[b].key@);
    }
}

proof fn lemma_key_before_transitive(fs: Seq<JsonField>, a: int, b: int, c: int)
    requires
        key_before(fs, a, b),
        key_before(fs, b, c),
    ensures
        key_before(fs, a, c),
{
    if text_lt(fs[a].key@, fs[b].key@) && text_lt(fs[b].key@, fs[c].key@) {
        lemma_text_lt_transitive(fs[a].key@, fs[b].key@, fs[c].key@);
    }
}

pub open spec fn origins(v: Seq<usize>) -> Seq<int> {
    v.map_values(|u: usize| u as int)
}

/// Puts each value of a document in canonical form, ordering the fields of
/// every object by key (for a stable semantic digest).
pub fn canonicalize_json_for_semantic_dedupe(value: &JsonValue) -> (r: JsonValue)
    ensures
        canonical_of(*value, r),
    decreases value,
{
    match value {
        JsonValue::Array(items) => {
            let mut out: Vec<JsonValue> = Vec::new();
            let mut i: usize = 0;
            while i < items.len()
                invariant
                    i <= items@.len(),
                    *value == JsonValue::Array(*items),
                    out@.len() == i,
                    forall|k: int| 0 <= k < i ==> canonical_of(#[trigger] items@[k], out@[k]),
                decreases items.len() - i,
            {
                proof {
                    assert(decreases_to!(*value => (*value)->Array_0));
                    assert(decreases_to!(*items => items@));
                    assert(decreases_to!(items@ => items@[i as int]));
                    assert(decreases_to!(*value => items@[i as int]));
                }
                let c = canonicalize_json_for_semantic_dedupe(&items[i]);
                out.push(c);
                i = i + 1;
            }
            JsonValue::Array(out)
        },
        JsonValue::Object(fs) => {
            let mut vals: Vec<JsonField> = Vec::new();
            let mut origin: Vec<usize> = Vec::new();
            let mut i: usize = 0;
            while i < fs.len()
                invariant
                    i <= fs@.len(),
                    *value == JsonValue::Object(*fs),
                    vals@.len() == i,
                    origin@.len() == i,
                    forall|k: int|
                        0 <= k < i ==> origin@[k] == k && (#[trigger] vals@[k]).key@ == fs@[k].key@
                            && canonical_of(fs@[k].value, vals@[k].value),
                decreases fs.len() - i,
            {
                proof {
                    assert(decreases_to!(*value => (*value)->Object_0));
                    assert(decreases_to!(*fs => fs@));
                    assert(decreases_to!(fs@ => fs@[i as int]));
                    assert(decreases_to!(fs@[i as int] => fs@[i as int].value));
                    assert(decreases_to!(*value => fs@[i as int].value));
                }
                let c = canonicalize_json_for_semantic_dedupe(&fs[i].value);
                vals.push(JsonField { key: fs[i].key.clone(), value: c });
                origin.push(i);
                i = i + 1;
            }
            let n = vals.len();
            proof {
                assert forall|p: int| 0 <= p < n implies (#[trigger] origin@[p]) < n by {
                    assert(vals@[p].key@ == fs@[p].key@);
                }
                assert forall|p: int, q: int| 0 <= p < q < n implies origin@[p] != origin@[q] by {
                    assert(vals@[p].key@ == fs@[p].key@);
                    assert(vals@[q].key@ == fs@[q].key@);
                }
            }
            let mut i: usize = 1;
            while i < n
                invariant
                    n == fs@.len(),
                    vals@.len() == n,
                    origin@.len() == n,
                    forall|p: int| 0 <= p < n ==> (#[trigger] origin@[p]) < n,
                    forall|p: int, q: int| 0 <= p < q < n ==> origin@[p] != origin@[q],
                    forall|p: int|
                        0 <= p < n ==> (#[trigger] vals@[p]).key@ == fs@[origin@[p] as int].key@
                            && canonical_of(fs@[origin@[p] as int].value, vals@[p].value),
                    forall|p: int, q: int|
                        0 <= p < q < i && q < n ==> key_before(
                            fs@,
                            #[trigger] origin@[p] as int,
                            #[trigger] origin@[q] as int,
                        ),
                decreases n - i,
            {
                let mut j: usize = i;
                while j > 0 && key_before_exec(&vals[j], &vals[j - 1], origin[j], origin[j - 1])
                    invariant
                        n == fs@.len(),
                        i < n,
                        j <= i,
                        vals@.len() == n,
                        origin@.len() == n,
                        forall|p: int| 0 <= p < n ==> (#[trigger] origin@[p]) < n,
                        forall|p: int, q: int| 0 <= p < q < n ==> origin@[p] != origin@[q],
                        forall|p: int|
                            0 <= p < n ==> (#[trigger] vals@[p]).key@ == fs@[origin@[p] as int].key@
                                && canonical_of(fs@[origin@[p] as int].value, vals@[p].value),
                        forall|p: int, q: int|
                            0 <= p < q <= i && p != j && q != j ==> key_before(
                                fs@,
                                #[trigger] origin@[p] as int,
                                #[trigger] origin@[q] as int,
                            ),
                        forall|q: int|
                            j < q <= i ==> key_before(
                                fs@,
                                origin@[j as int] as int,
                                #[trigger] origin@[q] as int,
                            ),
                    decreases j,
                {
                    let ghost before = vals@;
                    let x = vals.remove(j);
                    vals.insert(j - 1, x);
                    proof {
                        assert(vals@ =~= before.update(j - 1, before[j as int]).update(
                            j as int,
                            before[j - 1],
                        ));
                    }
                    let a = origin[j];
                    let b = origin[j - 1];
                    origin.set(j, b);
                    origin.set(j - 1, a);
                    j = j - 1;
                }
                proof {
                    if j > 0 {
                        let x = origin@[j as int] as int;
                        let y = origin@[j - 1] as int;
                        lemma_key_before_total(fs@, x, y);
                        assert forall|p: int| 0 <= p < j implies key_before(fs@, #[trigger] origin@[p] as int, x) by {
                            if p < j - 1 {
                                lemma_key_before_transitive(fs@, origin@[p] as int, y, x);
                            }
                        }
                    }
                    assert forall|p: int, q: int|
                        0 <= p < q < i + 1 && q < n implies key_before(
                            fs@,
                            #[trigger] origin@[p] as int,
                            #[trigger] origin@[q] as int,
                        ) by {
                        if q == j {
                            assert(p < j);
                        }
                    }
                }
                i = i + 1;
            }
            let ghost ord = origins(origin@);
            proof {
                assert(is_key_order(fs@, ord));
            }
            JsonValue::Object(vals)
        },
        JsonValue::Null => JsonValue::Null,
        JsonValue::Bool(b) => JsonValue::Bool(*b),
        JsonValue::Str(s) => JsonValue::Str(s.clone()),
        JsonValue::Number(JsonNumber::PosInt(u)) => JsonValue::Number(JsonNumber::PosInt(*u)),
        JsonValue::Number(JsonNumber::NegInt(x)) => JsonValue::Number(JsonNumber::NegInt(*x)),
        JsonValue::Number(JsonNumber::Float(t)) => JsonValue::Number(JsonNumber::Float(t.clone())),
    }
}
} // verus!
