//! JSON values: looking up, changing and copying them.

use vstd::prelude::*;

use crate::text;
use crate::text::text_eq;

verus! {

/// A JSON value. A number that is no integer is held by the bits of its double.
pub enum Json {
    Null,
    Bool(bool),
    Unsigned(u64),
    Signed(i64),
    Float(u64),
    Str(String),
    Arr(Vec<Json>),
    Obj(Vec<(String, Json)>),
}

/// What a JSON value says.
pub enum JsonValue {
    Null,
    Bool(bool),
    Unsigned(u64),
    Signed(i64),
    Float(u64),
    Str(Seq<char>),
    Arr(Seq<JsonValue>),
    Obj(Seq<(Seq<char>, JsonValue)>),
}

impl Json {
    /// What the value says.
    pub open spec fn view(&self) -> JsonValue
        decreases *self,
    {
        match *self {
            Json::Null => JsonValue::Null,
            Json::Bool(b) => JsonValue::Bool(b),
            Json::Unsigned(n) => JsonValue::Unsigned(n),
            Json::Signed(n) => JsonValue::Signed(n),
            Json::Float(bits) => JsonValue::Float(bits),
            Json::Str(s) => JsonValue::Str(s@),
            Json::Arr(v) => JsonValue::Arr(
                Seq::new(
                    v@.len(),
                    |i: int|
                        if 0 <= i < v@.len() {
                            v[i].view()
                        } else {
                            JsonValue::Null
                        },
                ),
            ),
            Json::Obj(v) => JsonValue::Obj(
                Seq::new(
                    v@.len(),
                    |i: int|
                        if 0 <= i < v@.len() {
                            (v[i].0@, v[i].1.view())
                        } else {
                            (seq![], JsonValue::Null)
                        },
                ),
            ),
        }
    }
}

// ---------------------------------------------------------------------------
// Looking up
// ---------------------------------------------------------------------------

/// The first place, at or after `from`, of a key among some fields.
pub open spec fn key_at(fields: Seq<(Seq<char>, JsonValue)>, key: Seq<char>, from: int) -> Option<
    int,
>
    decreases fields.len() - from,
{
    if from < 0 || from >= fields.len() {
        None
    } else if fields[from].0 == key {
        Some(from)
    } else {
        key_at(fields, key, from + 1)
    }
}

/// The value of a key among some fields.
pub open spec fn field_of(fields: Seq<(Seq<char>, JsonValue)>, key: Seq<char>) -> Option<JsonValue> {
    match key_at(fields, key, 0) {
        Some(i) => Some(fields[i].1),
        None => None,
    }
}

/// Some fields once a key has a value, in the place of the value that it had.
pub open spec fn with_field(
    fields: Seq<(Seq<char>, JsonValue)>,
    key: Seq<char>,
    value: JsonValue,
) -> Seq<(Seq<char>, JsonValue)> {
    match key_at(fields, key, 0) {
        Some(i) => fields.update(i, (key, value)),
        None => fields.push((key, value)),
    }
}

impl JsonValue {
    /// The value of a key, if this is an object that has it.
    pub open spec fn get(self, key: Seq<char>) -> Option<JsonValue> {
        match self {
            JsonValue::Obj(fields) => field_of(fields, key),
            _ => None,
        }
    }

    /// The element at a place, if this is an array that has it.
    pub open spec fn at(self, i: int) -> Option<JsonValue> {
        match self {
            JsonValue::Arr(v) => if 0 <= i < v.len() {
                Some(v[i])
            } else {
                None
            },
            _ => None,
        }
    }

    /// The text, if this is one.
    pub open spec fn text(self) -> Option<Seq<char>> {
        match self {
            JsonValue::Str(s) => Some(s),
            _ => None,
        }
    }

    /// The truth value, if this is one.
    pub open spec fn truth(self) -> Option<bool> {
        match self {
            JsonValue::Bool(b) => Some(b),
            _ => None,
        }
    }

    /// The number, if this is an integer that is not negative.
    pub open spec fn unsigned(self) -> Option<u64> {
        match self {
            JsonValue::Unsigned(n) => Some(n),
            _ => None,
        }
    }

    /// The elements, if this is an array.
    pub open spec fn elements(self) -> Option<Seq<JsonValue>> {
        match self {
            JsonValue::Arr(v) => Some(v),
            _ => None,
        }
    }

    /// The fields, if this is an object.
    pub open spec fn fields(self) -> Option<Seq<(Seq<char>, JsonValue)>> {
        match self {
            JsonValue::Obj(v) => Some(v),
            _ => None,
        }
    }
}

/// The text of a key's value, if there is one.
pub open spec fn text_at(v: JsonValue, key: Seq<char>) -> Option<Seq<char>> {
    match v.get(key) {
        Some(x) => x.text(),
        None => None,
    }
}

/// The number of a key's value, if it is an integer that is not negative.
pub open spec fn unsigned_at(v: JsonValue, key: Seq<char>) -> Option<u64> {
    match v.get(key) {
        Some(x) => x.unsigned(),
        None => None,
    }
}

/// The truth value of a key's value, if it is one.
pub open spec fn truth_at(v: JsonValue, key: Seq<char>) -> Option<bool> {
    match v.get(key) {
        Some(x) => x.truth(),
        None => None,
    }
}

/// The elements of a key's value, if it is an array.
pub open spec fn elements_at(v: JsonValue, key: Seq<char>) -> Option<Seq<JsonValue>> {
    match v.get(key) {
        Some(x) => x.elements(),
        None => None,
    }
}

/// What some values say.
pub open spec fn values_of(v: Seq<Json>) -> Seq<JsonValue> {
    v.map_values(|j: Json| j@)
}

/// What some fields say.
pub open spec fn fields_of(v: Seq<(String, Json)>) -> Seq<(Seq<char>, JsonValue)> {
    v.map_values(|f: (String, Json)| (f.0@, f.1@))
}

/// An array says what its elements say.
pub proof fn lemma_array_view(v: Vec<Json>)
    ensures
        Json::Arr(v)@ == JsonValue::Arr(values_of(v@)),
{
    assert(Json::Arr(v)@->Arr_0 =~= values_of(v@));
}

/// An object says what its fields say.
pub proof fn lemma_object_view(v: Vec<(String, Json)>)
    ensures
        Json::Obj(v)@ == JsonValue::Obj(fields_of(v@)),
{
    assert(Json::Obj(v)@->Obj_0 =~= fields_of(v@));
}

/// Where a key is found, and that it is nowhere where it is not found.
pub proof fn lemma_key_at(fields: Seq<(Seq<char>, JsonValue)>, key: Seq<char>, from: int)
    requires
        0 <= from,
    ensures
        match key_at(fields, key, from) {
            Some(i) => from <= i < fields.len() && fields[i].0 == key && forall|j: int|
                from <= j < i ==> (#[trigger] fields[j]).0 != key,
            None => forall|j: int| from <= j < fields.len() ==> (#[trigger] fields[j]).0 != key,
        },
    decreases fields.len() - from,
{
    if from < fields.len() && fields[from].0 != key {
        lemma_key_at(fields, key, from + 1);
    }
}

/// A key that has been given a value has it, and no other key's value has changed.
pub proof fn law_fields_keep_what_they_are_given(
    fields: Seq<(Seq<char>, JsonValue)>,
    key: Seq<char>,
    value: JsonValue,
    other: Seq<char>,
)
    ensures
        field_of(with_field(fields, key, value), key) == Some(value),
        other != key ==> field_of(with_field(fields, key, value), other) == field_of(fields, other),
{
    let after = with_field(fields, key, value);
    lemma_key_at(fields, key, 0);
    lemma_key_at(after, key, 0);
    lemma_key_at(fields, other, 0);
    lemma_key_at(after, other, 0);
    match key_at(fields, key, 0) {
        Some(i) => {
            assert(after[i].0 == key);
            assert(forall|j: int| 0 <= j < after.len() && j != i ==> after[j] == fields[j]);
        },
        None => {
            assert(after[fields.len() as int].0 == key);
            assert(forall|j: int| 0 <= j < fields.len() ==> after[j] == fields[j]);
        },
    }
    if other != key {
        match key_at(after, other, 0) {
            Some(k) => {
                assert(fields[k] == after[k]);
                let j = key_at(fields, other, 0)->0;
                assert(after[j].0 == fields[j].0);
            },
            None => {
                if key_at(fields, other, 0) is Some {
                    let j = key_at(fields, other, 0)->0;
                    assert(after[j].0 == fields[j].0);
                }
            },
        }
    }
}

/// Finds a key among some fields.
pub fn find_key(fields: &Vec<(String, Json)>, key: &str) -> (r: Option<usize>)
    ensures
        match r {
            Some(i) => i < fields@.len() && key_at(fields_of(fields@), key@, 0) == Some(i as int),
            None => key_at(fields_of(fields@), key@, 0) is None,
        },
{
    let ghost all = fields_of(fields@);
    let mut i: usize = 0;
    while i < fields.len()
        invariant
            i <= fields@.len(),
            all == fields_of(fields@),
            key_at(all, key@, 0) == key_at(all, key@, i as int),
        decreases fields@.len() - i,
    {
        if text_eq(fields[i].0.as_str(), key) {
            return Some(i);
        }
        i = i + 1;
    }
    None
}

/// Gives a key a value, in the place of the value that it had.
pub fn set_field(fields: &mut Vec<(String, Json)>, key: &str, value: Json)
    ensures
        fields_of(final(fields)@) == with_field(fields_of(old(fields)@), key@, value@),
{
    let ghost before = fields_of(fields@);
    match find_key(fields, key) {
        Some(i) => {
            let name = key.to_string();
            fields.set(i, (name, value));
            proof {
                assert(fields_of(fields@) =~= before.update(i as int, (key@, value@)));
            }
        },
        None => {
            let name = key.to_string();
            fields.push((name, value));
            proof {
                assert(fields_of(fields@) =~= before.push((key@, value@)));
            }
        },
    }
}

impl Json {
    /// The value under a key, where this is an object that has one.
    pub fn get(&self, key: &str) -> (r: Option<&Json>)
        ensures
            match r {
                Some(v) => self@.get(key@) == Some(v@),
                None => self@.get(key@) is None,
            },
    {
        match self {
            Json::Obj(fields) => {
                proof {
                    lemma_object_view(*fields);
                }
                match find_key(fields, key) {
                    Some(i) => Some(&fields[i].1),
                    None => None,
                }
            },
            _ => None,
        }
    }

    /// The element at a place, if this is an array that has it.
    pub fn at(&self, i: usize) -> (r: Option<&Json>)
        ensures
            match r {
                Some(v) => self@.at(i as int) == Some(v@),
                None => self@.at(i as int) is None,
            },
    {
        match self {
            Json::Arr(v) => {
                proof {
                    lemma_array_view(*v);
                }
                if i < v.len() {
                    Some(&v[i])
                } else {
                    None
                }
            },
            _ => None,
        }
    }

    /// The text, if this is one.
    pub fn as_str(&self) -> (r: Option<&String>)
        ensures
            match r {
                Some(s) => self@.text() == Some(s@),
                None => self@.text() is None,
            },
    {
        match self {
            Json::Str(s) => Some(s),
            _ => None,
        }
    }

    /// The truth value, if this is one.
    pub fn as_bool(&self) -> (r: Option<bool>)
        ensures
            r == self@.truth(),
    {
        match self {
            Json::Bool(b) => Some(*b),
            _ => None,
        }
    }

    /// The number, if this is an integer that is not negative.
    pub fn as_u64(&self) -> (r: Option<u64>)
        ensures
            r == self@.unsigned(),
    {
        match self {
            Json::Unsigned(n) => Some(*n),
            _ => None,
        }
    }

    /// The elements, if this is an array.
    pub fn as_array(&self) -> (r: Option<&Vec<Json>>)
        ensures
            match r {
                Some(v) => self@.elements() == Some(values_of(v@)),
                None => self@.elements() is None,
            },
    {
        match self {
            Json::Arr(v) => {
                proof {
                    lemma_array_view(*v);
                }
                Some(v)
            },
            _ => None,
        }
    }

    /// The fields, if this is an object.
    pub fn as_object(&self) -> (r: Option<&Vec<(String, Json)>>)
        ensures
            match r {
                Some(v) => self@.fields() == Some(fields_of(v@)),
                None => self@.fields() is None,
            },
    {
        match self {
            Json::Obj(v) => {
                proof {
                    lemma_object_view(*v);
                }
                Some(v)
            },
            _ => None,
        }
    }

    /// The text of a key's value, if there is one.
    pub fn text_at(&self, key: &str) -> (r: Option<&String>)
        ensures
            match r {
                Some(s) => text_at(self@, key@) == Some(s@),
                None => text_at(self@, key@) is None,
            },
    {
        match self.get(key) {
            Some(v) => v.as_str(),
            None => None,
        }
    }

    /// The elements of a key's value, if it is an array.
    pub fn elements_at(&self, key: &str) -> (r: Option<&Vec<Json>>)
        ensures
            match r {
                Some(v) => elements_at(self@, key@) == Some(values_of(v@)),
                None => elements_at(self@, key@) is None,
            },
    {
        match self.get(key) {
            Some(v) => v.as_array(),
            None => None,
        }
    }

    /// The number of a key's value, if it is an integer that is not negative.
    pub fn unsigned_at(&self, key: &str) -> (r: Option<u64>)
        ensures
            r == unsigned_at(self@, key@),
    {
        match self.get(key) {
            Some(v) => v.as_u64(),
            None => None,
        }
    }

    /// The truth value of a key's value, if it is one.
    pub fn truth_at(&self, key: &str) -> (r: Option<bool>)
        ensures
            r == truth_at(self@, key@),
    {
        match self.get(key) {
            Some(v) => v.as_bool(),
            None => None,
        }
    }

    /// A copy that says the same.
    pub fn copy(&self) -> (r: Json)
        ensures
            r@ == self@,
        decreases *self,
    {
        match self {
            Json::Null => Json::Null,
            Json::Bool(b) => Json::Bool(*b),
            Json::Unsigned(n) => Json::Unsigned(*n),
            Json::Signed(n) => Json::Signed(*n),
            Json::Float(bits) => Json::Float(*bits),
            Json::Str(s) => Json::Str(s.clone()),
            Json::Arr(v) => {
                let mut out: Vec<Json> = Vec::new();
                let mut i: usize = 0;
                while i < v.len()
                    invariant
                        *self == Json::Arr(*v),
                        i <= v@.len(),
                        out@.len() == i,
                        forall|j: int| 0 <= j < i ==> (#[trigger] out@[j])@ == v@[j]@,
                    decreases v@.len() - i,
                {
                    proof {
                        assert(decreases_to!(*self => self->Arr_0));
                        assert(decreases_to!(self->Arr_0 => self->Arr_0[i as int]));
                    }
                    out.push(v[i].copy());
                    i = i + 1;
                }
                proof {
                    lemma_array_view(*v);
                    lemma_array_view(out);
                    assert(values_of(out@) =~= values_of(v@));
                }
                Json::Arr(out)
            },
            Json::Obj(v) => {
                let mut out: Vec<(String, Json)> = Vec::new();
                let mut i: usize = 0;
                while i < v.len()
                    invariant
                        *self == Json::Obj(*v),
                        i <= v@.len(),
                        out@.len() == i,
                        forall|j: int|
                            0 <= j < i ==> (#[trigger] out@[j]).0@ == v@[j].0@ && out@[j].1@
                                == v@[j].1@,
                    decreases v@.len() - i,
                {
                    proof {
                        assert(decreases_to!(*self => self->Obj_0));
                        assert(decreases_to!(self->Obj_0 => self->Obj_0[i as int]));
                        assert(decreases_to!(self->Obj_0[i as int] => self->Obj_0[i as int].1));
                    }
                    out.push((v[i].0.clone(), v[i].1.copy()));
                    i = i + 1;
                }
                proof {
                    lemma_object_view(*v);
                    lemma_object_view(out);
                    assert(fields_of(out@) =~= fields_of(v@));
                }
                Json::Obj(out)
            },
        }
    }
}

} // verus!
