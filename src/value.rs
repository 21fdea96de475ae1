use vstd::prelude::*;

verus! {

/// The mathematical model of a JSON document.
///
/// A number is kept as its decimal text; strings are sequences of scalar
/// values; an object is a sequence of entries whose keys are kept unique.
pub enum Json {
    Null,
    Bool(bool),
    Num(Seq<char>),
    Str(Seq<char>),
    Arr(Seq<Json>),
    Obj(Seq<(Seq<char>, Json)>),
}

/// A parsed JSON value.
///
/// `Number` holds the number's decimal text exactly as written in JSON
/// (for example `-2e+3`); converting it to a binary float is left to the
/// caller. `Object` holds its entries in the order in which their keys first
/// appeared.
#[derive(Debug)]
pub enum JsonValue {
    Null,
    Boolean(bool),
    Number(String),
    String(String),
    Array(Vec<JsonValue>),
    Object(Vec<(String, JsonValue)>),
}

impl View for JsonValue {
    type V = Json;

    open spec fn view(&self) -> Json
        decreases self,
    {
        match self {
            JsonValue::Null => Json::Null,
            JsonValue::Boolean(b) => Json::Bool(*b),
            JsonValue::Number(t) => Json::Num(t@),
            JsonValue::String(t) => Json::Str(t@),
            JsonValue::Array(a) => Json::Arr(
                Seq::new(
                    a@.len(),
                    |i: int|
                        if 0 <= i < a@.len() {
                            a@[i].view()
                        } else {
                            Json::Null
                        },
                ),
            ),
            JsonValue::Object(o) => Json::Obj(
                Seq::new(
                    o@.len(),
                    |i: int|
                        if 0 <= i < o@.len() {
                            entry_view(o@[i])
                        } else {
                            (Seq::empty(), Json::Null)
                        },
                ),
            ),
        }
    }
}

/// The model of an object entry.
pub open spec fn entry_view(e: (String, JsonValue)) -> (Seq<char>, Json)
    decreases e,
{
    (e.0@, e.1.view())
}

/// The model of a sequence of values.
pub open spec fn values_view(a: Seq<JsonValue>) -> Seq<Json> {
    Seq::new(a.len(), |i: int| a[i]@)
}

/// The model of a sequence of object entries.
pub open spec fn entries_view(o: Seq<(String, JsonValue)>) -> Seq<(Seq<char>, Json)> {
    Seq::new(o.len(), |i: int| (o[i].0@, o[i].1@))
}

/// The model of an array value is the sequence of its elements' models.
pub proof fn lemma_array_view(a: Vec<JsonValue>)
    ensures
        JsonValue::Array(a)@ == Json::Arr(values_view(a@)),
{
    assert(JsonValue::Array(a)@->Arr_0 =~= values_view(a@));
}

/// The model of an object value is the sequence of its entries' models.
pub proof fn lemma_object_view(o: Vec<(String, JsonValue)>)
    ensures
        JsonValue::Object(o)@ == Json::Obj(entries_view(o@)),
{
    let w = JsonValue::Object(o)@->Obj_0;
    assert forall|i: int| 0 <= i < o@.len() implies #[trigger] w[i] == entries_view(o@)[i] by {
        assert(w[i] == entry_view(o@[i]));
    }
    assert(w =~= entries_view(o@));
}

} // verus!
