//! JSON trees: the value type that events and usage counters are held in,
//! and the few operations on objects that the stream engine needs.

use vstd::prelude::*;

verus! {

/// A JSON value as a mathematical tree: the view of a `Json`.
///
/// An object is the sequence of its fields in the order in which they are
/// held. An integer that fits 64 signed bits is an `Int`; any other number is
/// held by its text.
#[verifier::ext_equal]
pub enum JsonValue {
    Null,
    Bool(bool),
    Int(int),
    Number(Seq<char>),
    String(Seq<char>),
    Array(Seq<JsonValue>),
    Object(Seq<(Seq<char>, JsonValue)>),
}

/// The first position at or after `from` of a field named `key`, or
/// `fields.len()` if there is none.
pub open spec fn find_key(fields: Seq<(Seq<char>, JsonValue)>, key: Seq<char>, from: int) -> int
    decreases fields.len() - from,
{
    if from < 0 || from >= fields.len() {
        fields.len() as int
    } else if fields[from].0 == key {
        from
    } else {
        find_key(fields, key, from + 1)
    }
}

/// The first field named `key` at or after `from` is named `key`, and no
/// field between `from` and it is.
pub proof fn lemma_find_key(fields: Seq<(Seq<char>, JsonValue)>, key: Seq<char>, from: int)
    requires
        0 <= from <= fields.len(),
    ensures
        from <= find_key(fields, key, from) <= fields.len(),
        find_key(fields, key, from) < fields.len() ==> fields[find_key(fields, key, from)].0 == key,
        forall|j: int| from <= j < find_key(fields, key, from) ==> fields[j].0 != key,
    decreases fields.len() - from,
{
    if from < fields.len() && fields[from].0 != key {
        lemma_find_key(fields, key, from + 1);
    }
}

/// The first field named `key` is at `at` if it is there and not before.
pub proof fn lemma_find_key_is(
    fields: Seq<(Seq<char>, JsonValue)>,
    key: Seq<char>,
    from: int,
    at: int,
)
    requires
        0 <= from <= at <= fields.len(),
        at < fields.len() ==> fields[at].0 == key,
        forall|j: int| from <= j < at ==> fields[j].0 != key,
    ensures
        find_key(fields, key, from) == at,
    decreases at - from,
{
    if from < at {
        lemma_find_key_is(fields, key, from + 1, at);
    }
}

impl JsonValue {
    /// The fields of an object; none for any other value.
    pub open spec fn fields(self) -> Seq<(Seq<char>, JsonValue)> {
        match self {
            JsonValue::Object(fields) => fields,
            _ => Seq::empty(),
        }
    }

    /// The value of the first field named `key`, if `self` is an object that has one.
    pub open spec fn field(self, key: Seq<char>) -> Option<JsonValue> {
        let at = find_key(self.fields(), key, 0);
        if at < self.fields().len() {
            Some(self.fields()[at].1)
        } else {
            None
        }
    }

    /// `self` with the field `key` set to `value`: replaced where it stands, or
    /// added at the end. A value that is no object counts as the empty object.
    pub open spec fn with_field(self, key: Seq<char>, value: JsonValue) -> JsonValue {
        let at = find_key(self.fields(), key, 0);
        if at < self.fields().len() {
            JsonValue::Object(self.fields().update(at, (key, value)))
        } else {
            JsonValue::Object(self.fields().push((key, value)))
        }
    }

    /// `self` without its first field named `key`. A value that is no object,
    /// or has no such field, stays as it is.
    pub open spec fn without_field(self, key: Seq<char>) -> JsonValue {
        let at = find_key(self.fields(), key, 0);
        if at < self.fields().len() {
            JsonValue::Object(self.fields().remove(at))
        } else {
            self
        }
    }
}

/// A JSON value.
///
/// An object holds its fields in a vector; a field is found by the first
/// entry of its name. `Int` holds an integer of 64 signed bits, `Number` the
/// text of any other number.
pub enum Json {
    Null,
    Bool(bool),
    Int(i64),
    Number(String),
    String(String),
    Array(Vec<Json>),
    Object(Vec<(String, Json)>),
}

impl View for Json {
    type V = JsonValue;

    open spec fn view(&self) -> JsonValue
        decreases self,
    {
        match self {
            Json::Null => JsonValue::Null,
            Json::Bool(b) => JsonValue::Bool(*b),
            Json::Int(n) => JsonValue::Int(*n as int),
            Json::Number(text) => JsonValue::Number(text@),
            Json::String(text) => JsonValue::String(text@),
            Json::Array(items) => JsonValue::Array(
                Seq::new(
                    items@.len(),
                    |i: int|
                        if 0 <= i < items@.len() {
                            items@[i].view()
                        } else {
                            JsonValue::Null
                        },
                ),
            ),
            Json::Object(fields) => JsonValue::Object(
                Seq::new(
                    fields@.len(),
                    |i: int|
                        if 0 <= i < fields@.len() {
                            (fields@[i].0@, fields@[i].1.view())
                        } else {
                            (Seq::empty(), JsonValue::Null)
                        },
                ),
            ),
        }
    }
}

/// The views of `items`, one by one.
pub open spec fn items_view(items: Seq<Json>) -> Seq<JsonValue> {
    Seq::new(items.len(), |i: int| items[i]@)
}

/// The views of `fields`, one by one.
pub open spec fn fields_view(fields: Seq<(String, Json)>) -> Seq<(Seq<char>, JsonValue)> {
    Seq::new(fields.len(), |i: int| (fields[i].0@, fields[i].1@))
}

/// The view of an array is the array of the views of its items.
pub proof fn lemma_view_array(items: Vec<Json>)
    ensures
        Json::Array(items)@ == JsonValue::Array(items_view(items@)),
{
    assert(Json::Array(items)@->Array_0 =~= items_view(items@));
}

/// The view of an object is the sequence of the views of its fields.
pub proof fn lemma_view_object(fields: Vec<(String, Json)>)
    ensures
        Json::Object(fields)@ == JsonValue::Object(fields_view(fields@)),
{
    reveal_with_fuel(<Json as View>::view, 2);
    assert(Json::Object(fields)@->Object_0 =~= fields_view(fields@));
}

/// The position of the first field named `key`, or `fields.len()`.
pub fn position(fields: &Vec<(String, Json)>, key: &String) -> (at: usize)
    ensures
        at == find_key(fields_view(fields@), key@, 0),
{
    let ghost fv = fields_view(fields@);
    let mut i: usize = 0;
    while i < fields.len()
        invariant
            i <= fields@.len(),
            fv == fields_view(fields@),
            forall|j: int| 0 <= j < i ==> fv[j].0 != key@,
        decreases fields@.len() - i,
    {
        if fields[i].0 == *key {
            proof {
                lemma_find_key_is(fv, key@, 0, i as int);
            }
            return i;
        }
        i += 1;
    }
    proof {
        lemma_find_key_is(fv, key@, 0, i as int);
    }
    i
}

impl Clone for Json {
    fn clone(&self) -> (r: Self)
        ensures
            r@ == self@,
        decreases self,
    {
        match self {
            Json::Null => Json::Null,
            Json::Bool(b) => Json::Bool(*b),
            Json::Int(n) => Json::Int(*n),
            Json::Number(text) => Json::Number(text.clone()),
            Json::String(text) => Json::String(text.clone()),
            Json::Array(items) => {
                let mut out: Vec<Json> = Vec::new();
                let mut i: usize = 0;
                while i < items.len()
                    invariant
                        i <= items@.len(),
                        out@.len() == i,
                        *self == Json::Array(*items),
                        forall|j: int| 0 <= j < i ==> out@[j]@ == items@[j]@,
                    decreases items@.len() - i,
                {
                    proof {
                        assert(decreases_to!(self => self->Array_0));
                        vstd::std_specs::vec::axiom_vec_index_decreases(*items, i as int);
                    }
                    let item = items[i].clone();
                    out.push(item);
                    i += 1;
                }
                proof {
                    lemma_view_array(*items);
                    lemma_view_array(out);
                    assert(items_view(out@) =~= items_view(items@));
                }
                Json::Array(out)
            },
            Json::Object(fields) => {
                let mut out: Vec<(String, Json)> = Vec::new();
                let mut i: usize = 0;
                while i < fields.len()
                    invariant
                        i <= fields@.len(),
                        out@.len() == i,
                        *self == Json::Object(*fields),
                        forall|j: int|
                            0 <= j < i ==> out@[j].0@ == fields@[j].0@ && out@[j].1@
                                == fields@[j].1@,
                    decreases fields@.len() - i,
                {
                    proof {
                        assert(decreases_to!(self => self->Object_0));
                        vstd::std_specs::vec::axiom_vec_index_decreases(*fields, i as int);
                        assert(decreases_to!(fields[i as int] => fields[i as int].1));
                    }
                    let name = fields[i].0.clone();
                    let value = fields[i].1.clone();
                    out.push((name, value));
                    i += 1;
                }
                proof {
                    lemma_view_object(*fields);
                    lemma_view_object(out);
                    assert(fields_view(out@) =~= fields_view(fields@));
                }
                Json::Object(out)
            },
        }
    }
}

impl Json {
    /// The fields of an object, taken out of it; none for any other value.
    pub fn into_fields(self) -> (r: Vec<(String, Json)>)
        ensures
            fields_view(r@) == self@.fields(),
    {
        match self {
            Json::Object(fields) => {
                proof {
                    lemma_view_object(fields);
                }
                fields
            },
            _ => {
                let r: Vec<(String, Json)> = Vec::new();
                assert(fields_view(r@) =~= self@.fields());
                r
            },
        }
    }

    /// The value of the field `key`, if `self` is an object that has it.
    pub fn field(&self, key: &str) -> (r: Option<&Json>)
        ensures
            match r {
                Some(value) => self@.field(key@) == Some(value@),
                None => self@.field(key@) is None,
            },
    {
        match self {
            Json::Object(fields) => {
                proof {
                    lemma_view_object(*fields);
                }
                let name = key.to_owned();
                let at = position(fields, &name);
                if at < fields.len() {
                    Some(&fields[at].1)
                } else {
                    None
                }
            },
            _ => None,
        }
    }

    /// Sets the field `key` to `value`: see `JsonValue::with_field`.
    pub fn set_field(&mut self, key: &str, value: Json)
        ensures
            final(self)@ == old(self)@.with_field(key@, value@),
    {
        let mut taken = Json::Null;
        core::mem::swap(self, &mut taken);
        let mut fields = taken.into_fields();
        let name = key.to_owned();
        let at = position(&fields, &name);
        if at < fields.len() {
            fields.set(at, (name, value));
        } else {
            fields.push((name, value));
        }
        proof {
            lemma_view_object(fields);
            assert(fields_view(fields@) =~= old(self)@.with_field(key@, value@).fields());
        }
        *self = Json::Object(fields);
    }

    /// Removes the field `key`: see `JsonValue::without_field`.
    pub fn remove_field(&mut self, key: &str)
        ensures
            final(self)@ == old(self)@.without_field(key@),
    {
        let name = key.to_owned();
        let found = match &*self {
            Json::Object(fields) => {
                proof {
                    lemma_view_object(*fields);
                }
                position(fields, &name) < fields.len()
            },
            _ => false,
        };
        if found {
            let mut taken = Json::Null;
            core::mem::swap(self, &mut taken);
            let mut fields = taken.into_fields();
            let at = position(&fields, &name);
            let _ = fields.remove(at);
            proof {
                lemma_view_object(fields);
                assert(fields_view(fields@) =~= old(self)@.without_field(key@).fields());
            }
            *self = Json::Object(fields);
        }
    }
}

} // verus!
