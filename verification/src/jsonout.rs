//! JSON documents that the library writes, and their pretty-printed text.
use vstd::prelude::*;
use serde_json::Value;

verus! {

/// A JSON value made of strings, arrays and objects. Object entries are
/// kept in the order given; the written text lists keys in the order of
/// `serde_json`'s map, which sorts them.
#[derive(Debug)]
pub enum JsonOut {
    Str(String),
    Array(Vec<JsonOut>),
    Object(Vec<(String, JsonOut)>),
}

/// The mathematical content of a `JsonOut`.
pub enum JsonOutV {
    Str(Seq<char>),
    Array(Seq<JsonOutV>),
    Object(Seq<(Seq<char>, JsonOutV)>),
}

/// The content of a `JsonOut`.
pub open spec fn out_view(j: JsonOut) -> JsonOutV
    decreases j,
{
    match j {
        JsonOut::Str(s) => JsonOutV::Str(s@),
        JsonOut::Array(items) => JsonOutV::Array(
            Seq::new(
                items@.len(),
                |i: int|
                    if 0 <= i < items@.len() {
                        out_view(items@[i])
                    } else {
                        JsonOutV::Str(seq![])
                    },
            ),
        ),
        JsonOut::Object(entries) => JsonOutV::Object(
            Seq::new(
                entries@.len(),
                |i: int|
                    if 0 <= i < entries@.len() {
                        (entries@[i].0@, out_view(entries@[i].1))
                    } else {
                        (seq![], JsonOutV::Str(seq![]))
                    },
            ),
        ),
    }
}

impl View for JsonOut {
    type V = JsonOutV;

    open spec fn view(&self) -> JsonOutV {
        out_view(*self)
    }
}

/// An array of strings.
pub open spec fn str_array(xs: Seq<Seq<char>>) -> JsonOutV {
    JsonOutV::Array(Seq::new(xs.len(), |i: int| JsonOutV::Str(xs[i])))
}

/// The JSON array of the strings `xs`, in order.
pub fn string_array(xs: &Vec<String>) -> (r: JsonOut)
    ensures
        r@ == str_array(xs.deep_view()),
{
    let ghost xv = xs.deep_view();
    let mut items: Vec<JsonOut> = Vec::new();
    let n = xs.len();
    let mut i: usize = 0;
    while i < n
        invariant
            n == xs.len(),
            xv == xs.deep_view(),
            i <= n,
            items@.len() == i,
            forall|k: int| 0 <= k < i ==> out_view(#[trigger] items@[k]) == JsonOutV::Str(xv[k]),
        decreases n - i,
    {
        items.push(JsonOut::Str(xs[i].clone()));
        i = i + 1;
    }
    let r = JsonOut::Array(items);
    proof {
        assert(r@ is Array);
        assert(r@->Array_0.len() == xv.len());
        assert forall|k: int| 0 <= k < xv.len() implies r@->Array_0[k] == JsonOutV::Str(xv[k]) by {
            assert(out_view(items@[k]) == JsonOutV::Str(xv[k]));
        }
        assert(r@->Array_0 =~= str_array(xv)->Array_0);
    }
    r
}

/// Name for the text that `serde_json::to_string_pretty` writes for the
/// JSON value with this content.
pub uninterp spec fn pretty_json(v: JsonOutV) -> Seq<char>;

/// The `serde_json::Value` with the same content: strings, arrays and
/// objects one for one.
#[verifier::external_body]
fn to_serde(v: &JsonOut) -> Value {
    match v {
        JsonOut::Str(s) => Value::String(s.clone()),
        JsonOut::Array(items) => Value::Array(items.iter().map(to_serde).collect()),
        JsonOut::Object(entries) => Value::Object(entries.iter().map(|(k, x)| (k.clone(), to_serde(x))).collect()),
    }
}

/// `serde_json::to_string_pretty` of the value.
///
/// Trusted: the text is `pretty_json` of the value's content. serde_json
/// documents that serializing fails only for a failing `Serialize` impl or
/// a map with non-string keys, neither of which a `Value` has, so the
/// error case does not arise.
#[verifier::external_body]
pub(crate) fn pretty_text(v: &JsonOut) -> (r: String)
    ensures
        r@ == pretty_json(v@),
{
    serde_json::to_string_pretty(&to_serde(v)).unwrap_or_default()
}

} // verus!
