//! A JSON value held as plain data, with its mathematical view.

use vstd::prelude::*;

verus! {

/// A JSON value. A number is held as the text that JSON gives it.
pub enum JsonValue {
    Null,
    Bool(bool),
    Number(String),
    String(String),
    Array(Vec<JsonValue>),
    Object(Vec<(String, JsonValue)>),
}

/// The mathematical view of a [`JsonValue`].
pub enum JsonView {
    Null,
    Bool(bool),
    Number(Seq<char>),
    String(Seq<char>),
    Array(Seq<JsonView>),
    Object(Seq<(Seq<char>, JsonView)>),
}

impl JsonValue {
    /// The view of a JSON value, element by element.
    pub open spec fn json_view(&self) -> JsonView
        decreases self,
    {
        match self {
            JsonValue::Null => JsonView::Null,
            JsonValue::Bool(b) => JsonView::Bool(*b),
            JsonValue::Number(n) => JsonView::Number(n@),
            JsonValue::String(s) => JsonView::String(s@),
            JsonValue::Array(a) => JsonView::Array(
                Seq::new(
                    a@.len(),
                    |i: int|
                        if 0 <= i < a@.len() {
                            a@[i].json_view()
                        } else {
                            JsonView::Null
                        },
                ),
            ),
            JsonValue::Object(o) => JsonView::Object(
                Seq::new(
                    o@.len(),
                    |i: int|
                        if 0 <= i < o@.len() {
                            (o@[i].0@, o@[i].1.json_view())
                        } else {
                            (Seq::empty(), JsonView::Null)
                        },
                ),
            ),
        }
    }
}

impl View for JsonValue {
    type V = JsonView;

    open spec fn view(&self) -> JsonView {
        self.json_view()
    }
}

impl DeepView for JsonValue {
    type V = JsonView;

    open spec fn deep_view(&self) -> JsonView {
        self.json_view()
    }
}

impl JsonValue {
    /// A copy of this value.
    #[verifier::loop_isolation(false)]
    pub fn copy(&self) -> (r: JsonValue)
        ensures
            r@ == self@,
        decreases self,
    {
        match self {
            JsonValue::Null => JsonValue::Null,
            JsonValue::Bool(b) => JsonValue::Bool(*b),
            JsonValue::Number(n) => JsonValue::Number(n.clone()),
            JsonValue::String(s) => JsonValue::String(s.clone()),
            JsonValue::Array(a) => {
                let mut out: Vec<JsonValue> = Vec::new();
                let mut i: usize = 0;
                while i < a.len()
                    invariant
                        i <= a.len(),
                        out@.len() == i,
                        forall|j: int| 0 <= j < i ==> (#[trigger] out@[j])@ == a@[j]@,
                    decreases a.len() - i,
                {
                    proof {
                        vstd::std_specs::vec::axiom_vec_index_decreases(*a, i as int);
                    }
                    out.push(a[i].copy());
                    i = i + 1;
                }
                proof {
                    lemma_array_view(*a, out);
                }
                JsonValue::Array(out)
            },
            JsonValue::Object(o) => {
                let mut out: Vec<(String, JsonValue)> = Vec::new();
                let mut i: usize = 0;
                while i < o.len()
                    invariant
                        i <= o.len(),
                        out@.len() == i,
                        forall|j: int|
                            0 <= j < i ==> (#[trigger] out@[j]).0@ == o@[j].0@ && out@[j].1@
                                == o@[j].1@,
                    decreases o.len() - i,
                {
                    proof {
                        vstd::std_specs::vec::axiom_vec_index_decreases(*o, i as int);
                    }
                    out.push((o[i].0.clone(), o[i].1.copy()));
                    i = i + 1;
                }
                proof {
                    lemma_object_view(*o, out);
                }
                JsonValue::Object(out)
            },
        }
    }
}

proof fn lemma_array_view(a: Vec<JsonValue>, b: Vec<JsonValue>)
    requires
        a@.len() == b@.len(),
        forall|j: int| 0 <= j < a@.len() ==> (#[trigger] a@[j])@ == b@[j]@,
    ensures
        JsonValue::Array(a)@ == JsonValue::Array(b)@,
{
    let va = JsonValue::Array(a).json_view();
    let vb = JsonValue::Array(b).json_view();
    assert(va is Array && vb is Array);
    assert(va->Array_0 =~= vb->Array_0);
}

proof fn lemma_object_view(a: Vec<(String, JsonValue)>, b: Vec<(String, JsonValue)>)
    requires
        a@.len() == b@.len(),
        forall|j: int|
            0 <= j < a@.len() ==> (#[trigger] a@[j]).0@ == b@[j].0@ && a@[j].1@ == b@[j].1@,
    ensures
        JsonValue::Object(a)@ == JsonValue::Object(b)@,
{
    let va = JsonValue::Object(a).json_view();
    let vb = JsonValue::Object(b).json_view();
    assert(va is Object && vb is Object);
    assert(va->Object_0 =~= vb->Object_0);
}

} // verus!
