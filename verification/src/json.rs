//! JSON values and their mathematical model.

use vstd::prelude::*;

verus! {

/// A JSON document held by value.
///
/// The fields of an object are kept in the order in which the object is
/// walked; a well-formed object names each field once.
#[derive(Debug, PartialEq, Eq)]
pub enum Json {
    Null,
    Bool(bool),
    Number(serde_json::Number),
    String(String),
    Array(Vec<Json>),
    Object(Vec<(String, Json)>),
}

/// The mathematical content of a [`Json`]: strings are sequences of
/// characters, arrays and objects are sequences of their members.
pub enum JsonView {
    Null,
    Bool(bool),
    Number(serde_json::Number),
    String(Seq<char>),
    Array(Seq<JsonView>),
    Object(Seq<(Seq<char>, JsonView)>),
}

/// The value of the first field called `name`, if there is one.
pub open spec fn find_field(fields: Seq<(Seq<char>, JsonView)>, name: Seq<char>) -> Option<
    JsonView,
>
    decreases fields.len(),
{
    if fields.len() == 0 {
        None
    } else if fields[0].0 == name {
        Some(fields[0].1)
    } else {
        find_field(fields.drop_first(), name)
    }
}

/// The values of `fields`, in the order of the fields.
pub open spec fn field_values(fields: Seq<(Seq<char>, JsonView)>) -> Seq<JsonView> {
    Seq::new(fields.len(), |i: int| fields[i].1)
}

impl JsonView {
    /// Null, booleans, numbers and strings have no members.
    pub open spec fn is_scalar(self) -> bool {
        !(self is Array) && !(self is Object)
    }

    /// The field `name` of an object; `None` when the field is absent or the
    /// value is not an object.
    pub open spec fn get_key(self, name: Seq<char>) -> Option<JsonView> {
        match self {
            JsonView::Object(fields) => find_field(fields, name),
            _ => None,
        }
    }

    /// The element at position `n` of an array; `None` when `n` is out of
    /// range or the value is not an array.
    pub open spec fn get_index(self, n: int) -> Option<JsonView> {
        match self {
            JsonView::Array(items) => if 0 <= n < items.len() {
                Some(items[n])
            } else {
                None
            },
            _ => None,
        }
    }

    /// What a fan-out walks: the elements of an array, or the field values of
    /// an object in field order. A scalar has none.
    pub open spec fn members(self) -> Option<Seq<JsonView>> {
        match self {
            JsonView::Array(items) => Some(items),
            JsonView::Object(fields) => Some(field_values(fields)),
            _ => None,
        }
    }

    /// Every object in the value names each of its fields once.
    pub open spec fn well_formed(self) -> bool
        decreases self,
    {
        match self {
            JsonView::Array(items) => all_well_formed(items),
            JsonView::Object(fields) => distinct_names(fields) && fields_well_formed(fields),
            _ => true,
        }
    }
}

/// Each of `values` is well formed.
pub open spec fn all_well_formed(values: Seq<JsonView>) -> bool
    decreases values,
{
    forall|i: int| 0 <= i < values.len() ==> (#[trigger] values[i]).well_formed()
}

/// The value of each of `fields` is well formed.
pub open spec fn fields_well_formed(fields: Seq<(Seq<char>, JsonView)>) -> bool
    decreases fields,
{
    forall|i: int| 0 <= i < fields.len() ==> (#[trigger] fields[i]).1.well_formed()
}

/// No two of `fields` have the same name.
pub open spec fn distinct_names(fields: Seq<(Seq<char>, JsonView)>) -> bool {
    forall|i: int, j: int|
        0 <= i < j < fields.len() ==> (#[trigger] fields[i]).0 != (#[trigger] fields[j]).0
}

/// A missing field or element reads as null.
pub open spec fn or_null(found: Option<JsonView>) -> JsonView {
    match found {
        Some(v) => v,
        None => JsonView::Null,
    }
}

impl Json {
    /// The mathematical content of the value; `v@` stands for `v.model()`.
    pub open spec fn model(self) -> JsonView
        decreases self,
    {
        match self {
            Json::Null => JsonView::Null,
            Json::Bool(b) => JsonView::Bool(b),
            Json::Number(n) => JsonView::Number(n),
            Json::String(s) => JsonView::String(s@),
            Json::Array(items) => JsonView::Array(
                Seq::new(
                    items@.len(),
                    |i: int|
                        if 0 <= i < items@.len() {
                            items@[i].model()
                        } else {
                            JsonView::Null
                        },
                ),
            ),
            Json::Object(fields) => JsonView::Object(
                Seq::new(
                    fields@.len(),
                    |i: int|
                        if 0 <= i < fields@.len() {
                            (fields@[i].0@, fields@[i].1.model())
                        } else {
                            (Seq::empty(), JsonView::Null)
                        },
                ),
            ),
        }
    }
}

impl View for Json {
    type V = JsonView;

    open spec fn view(&self) -> JsonView {
        self.model()
    }
}

impl DeepView for Json {
    type V = JsonView;

    open spec fn deep_view(&self) -> JsonView {
        self@
    }
}

/// A name that no field has is absent; and where no two fields have the
/// same name, a name leads to the value that stands beside it.
pub proof fn law_find_field(fields: Seq<(Seq<char>, JsonView)>, name: Seq<char>)
    ensures
        (forall|i: int| 0 <= i < fields.len() ==> (#[trigger] fields[i]).0 != name)
            <==> find_field(fields, name) is None,
        distinct_names(fields) ==> forall|i: int|
            0 <= i < fields.len() && (#[trigger] fields[i]).0 == name ==> find_field(
                fields,
                name,
            ) == Some(fields[i].1),
    decreases fields.len(),
{
    if fields.len() > 0 {
        let tail = fields.drop_first();
        law_find_field(tail, name);
        assert forall|i: int| 0 <= i < tail.len() implies #[trigger] tail[i] == fields[i + 1] by {}
        assert forall|i: int| 0 < i < fields.len() implies #[trigger] fields[i] == tail[i - 1] by {}
        if distinct_names(fields) {
            assert(distinct_names(tail));
        }
    }
}

impl Json {
    /// Whether the value is an array.
    pub fn is_array(&self) -> (r: bool)
        ensures
            r == (self@ is Array),
    {
        match self {
            Json::Array(_) => true,
            _ => false,
        }
    }

    /// Whether the value is an object.
    pub fn is_object(&self) -> (r: bool)
        ensures
            r == (self@ is Object),
    {
        match self {
            Json::Object(_) => true,
            _ => false,
        }
    }

    /// The element at position `n` of an array.
    pub fn get_index(&self, n: usize) -> (r: Option<&Json>)
        ensures
            match self@.get_index(n as int) {
                Some(found) => r matches Some(v) && v@ == found,
                None => r is None,
            },
    {
        match self {
            Json::Array(items) => if n < items.len() {
                Some(&items[n])
            } else {
                None
            },
            _ => None,
        }
    }

    /// The first field called `name` of an object.
    pub fn get_key(&self, name: &str) -> (r: Option<&Json>)
        ensures
            match self@.get_key(name@) {
                Some(found) => r matches Some(v) && v@ == found,
                None => r is None,
            },
    {
        match self {
            Json::Object(fields) => {
                let wanted = name.to_owned();
                let ghost all = self@->Object_0;
                let mut i: usize = 0;
                assert(all.skip(0) =~= all);
                while i < fields.len()
                    invariant
                        i <= fields.len(),
                        wanted@ == name@,
                        self@ == JsonView::Object(all),
                        all.len() == fields@.len(),
                        forall|k: int|
                            0 <= k < fields@.len() ==> all[k] == (fields@[k].0@, fields@[k].1@),
                        find_field(all, name@) == find_field(all.skip(i as int), name@),
                    decreases fields.len() - i,
                {
                    assert(all.skip(i as int).drop_first() =~= all.skip(i as int + 1));
                    if fields[i].0 == wanted {
                        return Some(&fields[i].1);
                    }
                    i += 1;
                }
                None
            },
            _ => None,
        }
    }

    /// What a fan-out walks: the elements of an array, or the field values of
    /// an object in field order; `None` for a scalar.
    pub fn members(&self) -> (r: Option<Vec<&Json>>)
        ensures
            match self@.members() {
                Some(expected) => r matches Some(found) && found.deep_view() == expected,
                None => r is None,
            },
    {
        match self {
            Json::Array(items) => {
                let mut found: Vec<&Json> = Vec::new();
                let mut i: usize = 0;
                while i < items.len()
                    invariant
                        i <= items.len(),
                        found.len() == i,
                        forall|k: int| 0 <= k < i ==> found@[k]@ == items@[k]@,
                    decreases items.len() - i,
                {
                    found.push(&items[i]);
                    i += 1;
                }
                Some(found)
            },
            Json::Object(fields) => {
                let mut found: Vec<&Json> = Vec::new();
                let mut i: usize = 0;
                while i < fields.len()
                    invariant
                        i <= fields.len(),
                        found.len() == i,
                        forall|k: int| 0 <= k < i ==> found@[k]@ == fields@[k].1@,
                    decreases fields.len() - i,
                {
                    found.push(&fields[i].1);
                    i += 1;
                }
                Some(found)
            },
            _ => None,
        }
    }
}

impl Clone for Json {
    fn clone(&self) -> (r: Json)
        ensures
            r@ == self@,
        decreases self,
    {
        match self {
            Json::Null => Json::Null,
            Json::Bool(b) => Json::Bool(*b),
            Json::Number(n) => Json::Number(n.clone()),
            Json::String(s) => Json::String(s.clone()),
            Json::Array(items) => {
                let mut copy: Vec<Json> = Vec::new();
                let mut i: usize = 0;
                while i < items.len()
                    invariant
                        i <= items.len(),
                        copy.len() == i,
                        forall|k: int| 0 <= k < i ==> copy@[k]@ == items@[k]@,
                        *self == Json::Array(*items),
                    decreases items.len() - i,
                {
                    assert(decreases_to!(self->Array_0@ => self->Array_0@[i as int]));
                    copy.push(items[i].clone());
                    i += 1;
                }
                assert(Json::Array(copy)@->Array_0 =~= self@->Array_0);
                Json::Array(copy)
            },
            Json::Object(fields) => {
                let mut copy: Vec<(String, Json)> = Vec::new();
                let mut i: usize = 0;
                while i < fields.len()
                    invariant
                        i <= fields.len(),
                        copy.len() == i,
                        forall|k: int|
                            0 <= k < i ==> copy@[k].0@ == fields@[k].0@ && copy@[k].1@
                                == fields@[k].1@,
                        *self == Json::Object(*fields),
                    decreases fields.len() - i,
                {
                    assert(decreases_to!(self->Object_0@[i as int] => self->Object_0@[i as int].1));
                    copy.push((fields[i].0.clone(), fields[i].1.clone()));
                    i += 1;
                }
                assert(Json::Object(copy)@->Object_0 =~= self@->Object_0);
                Json::Object(copy)
            },
        }
    }
}

} // verus!


