//! JSON documents and JSON Schemas: parsing with `serde_json`, compiling and
//! applying schemas with `jsonschema` (draft 2020-12).
use vstd::prelude::*;
use crate::error::SeamError;
use crate::refs::{JsonTree, JsonTreeV, lookup, references_are_settled, references_settled};

verus! {

/// `serde_json::Value`, carried through opaquely.
#[verifier::external_type_specification]
#[verifier::external_body]
pub struct ExValue(serde_json::Value);

/// `jsonschema::JSONSchema`, carried through opaquely.
#[verifier::external_type_specification]
#[verifier::external_body]
pub struct ExJSONSchema(jsonschema::JSONSchema);

/// A JSON document: its text, the value parsed from it, and that value as
/// a `JsonTree`.
pub struct JsonDoc {
    text: String,
    value: serde_json::Value,
    tree: JsonTree,
}

impl View for JsonDoc {
    type V = Seq<char>;

    /// The text the document was parsed from.
    closed spec fn view(&self) -> Seq<char> {
        self.text@
    }
}

/// A JSON Schema compiled for draft 2020-12, with the text and the tree of
/// the document it came from.
pub struct CompiledSchema {
    source: String,
    tree: JsonTree,
    schema: jsonschema::JSONSchema,
}

impl CompiledSchema {
    /// The tree of the schema document.
    pub closed spec fn tree(&self) -> JsonTree {
        self.tree
    }

    /// Following the schema's references always comes to an end (see
    /// `references_settled`).
    pub open spec fn settled(&self) -> bool {
        references_settled(self.tree())
    }

    /// The errors that validating against this schema reports come in an
    /// order fixed by the two texts (see `order_may_vary`).
    pub open spec fn order_fixed(&self) -> bool {
        !order_may_vary(self.tree())
    }
}

impl View for CompiledSchema {
    type V = Seq<char>;

    /// The text of the schema document.
    closed spec fn view(&self) -> Seq<char> {
        self.source@
    }
}

/// Whether a result is `Ok`, with the message of its error otherwise.
pub open spec fn outcome_of<T>(r: Result<T, String>) -> Result<(), Seq<char>> {
    match r {
        Ok(_) => Ok(()),
        Err(m) => Err(m@),
    }
}

/// Name for what `serde_json::from_str::<serde_json::Value>` does with a
/// text: `Ok` when the text is a JSON document, else the error's message.
pub uninterp spec fn json_parse(text: Seq<char>) -> Result<(), Seq<char>>;

/// Name for the tree of the value that `serde_json::from_str::<serde_json::Value>`
/// parses from a text that is a JSON document.
pub uninterp spec fn parsed_tree(text: Seq<char>) -> JsonTreeV;

/// Name for what compiling a schema document for draft 2020-12 with
/// `jsonschema` gives: `Ok`, or the message of the compile error.
pub uninterp spec fn schema_compile(schema_text: Seq<char>) -> Result<(), Seq<char>>;

/// Name for the messages of the errors that `jsonschema` reports, in order,
/// when the document `doc_text` is validated against the schema compiled
/// from `schema_text` (for schemas where that order is fixed, see
/// `order_may_vary`).
pub uninterp spec fn schema_violations(schema_text: Seq<char>, doc_text: Seq<char>) -> Seq<Seq<char>>;

/// Some object in `t` has an entry named `key`.
pub open spec fn has_key(t: JsonTree, key: Seq<char>) -> bool
    decreases t,
{
    match t {
        JsonTree::Array(xs) => exists|i: int| 0 <= i < xs@.len() && has_key(#[trigger] xs@[i], key),
        JsonTree::Object(es) => lookup(es@, key) is Some || exists|i: int|
            0 <= i < es@.len() && has_key(#[trigger] es@[i].1, key),
        _ => false,
    }
}

/// The order of a schema's errors may differ from one run to the next:
/// `jsonschema` keeps the subschemas of `dependentSchemas` that
/// `unevaluatedProperties` looks through in a hash map seeded per process,
/// and takes the first that applies.
pub open spec fn order_may_vary(t: JsonTree) -> bool {
    has_key(t, "unevaluatedProperties"@) && has_key(t, "dependentSchemas"@)
}

/// The `JsonTree` of a `serde_json::Value`: variant for variant, numbers as
/// the text serde_json writes for them, object entries in the order of
/// serde_json's map (sorted by key). It serves `parse_json` only, whose
/// contract names the resulting tree; nothing is claimed of it here.
#[verifier::external_body]
fn tree_of(v: &serde_json::Value) -> JsonTree {
    match v {
        serde_json::Value::Null => JsonTree::Null,
        serde_json::Value::Bool(b) => JsonTree::Bool(*b),
        serde_json::Value::Number(n) => JsonTree::Number(n.to_string()),
        serde_json::Value::String(s) => JsonTree::Str(s.clone()),
        serde_json::Value::Array(a) => JsonTree::Array(a.iter().map(tree_of).collect()),
        serde_json::Value::Object(m) => JsonTree::Object(m.iter().map(|(k, x)| (k.clone(), tree_of(x))).collect()),
    }
}

/// Parses `text` with `serde_json::from_str` into a `serde_json::Value`,
/// kept together with its tree.
///
/// Trusted: the outcome is `json_parse(text)`, and a parsed document keeps
/// `text` as its view and holds the tree `parsed_tree(text)`: parsing and
/// the conversion above depend on the text alone.
#[verifier::external_body]
fn parse_json(text: &str) -> (r: Result<JsonDoc, String>)
    ensures
        outcome_of(r) == json_parse(text@),
        r matches Ok(d) ==> d@ == text@ && d.tree()@ == parsed_tree(text@),
{
    match serde_json::from_str::<serde_json::Value>(text) {
        Ok(value) => Ok(JsonDoc { text: text.to_string(), tree: tree_of(&value), value }),
        Err(e) => Err(e.to_string()),
    }
}

/// Compiles the schema document with
/// `JSONSchema::options().with_draft(Draft::Draft202012).compile`.
///
/// Trusted: the outcome is `schema_compile` of the document's text, and a
/// compiled schema keeps the document's text and tree. Compiling
/// `unevaluatedProperties` compiles at once the schema that a sibling
/// `$ref` names, which can recurse without end (until the stack overflows),
/// as on `{"properties": {"c": {"$ref": "#", "unevaluatedProperties": false}}}`;
/// `requires` admits only documents whose references all come to an end
/// (`references_settled`), where every such recursion crosses finitely many
/// references.
#[verifier::external_body]
fn compile_draft_2020_12(doc: JsonDoc) -> (r: Result<CompiledSchema, String>)
    requires
        references_settled(doc.tree()),
    ensures
        outcome_of(r) == schema_compile(doc@),
        r matches Ok(s) ==> s@ == doc@ && s.tree() == doc.tree(),
{
    let compiled = jsonschema::JSONSchema::options()
        .with_draft(jsonschema::Draft::Draft202012)
        .compile(&doc.value)
        .map_err(|e| e.to_string());
    compiled.map(|schema| CompiledSchema { source: doc.text, tree: doc.tree, schema })
}

/// Validates the document with `JSONSchema::validate` and gives the
/// messages of the errors it reports (none when it passes).
///
/// Trusted: where the order of the errors is fixed (`order_fixed`), the
/// messages are `schema_violations` of the two texts; elsewhere nothing is
/// claimed of them. Validation follows a `$ref` by compiling the schema it
/// names (at its first use) and validating the same instance against it,
/// which can recur without end on a schema such as `{"$ref": "#"}`;
/// `requires` admits only schemas whose references all come to an end
/// (`settled`), where each step either crosses one of finitely many
/// references or moves into a strictly smaller part of the instance.
#[verifier::external_body]
pub(crate) fn validation_errors(schema: &CompiledSchema, doc: &JsonDoc) -> (r: Vec<String>)
    requires
        schema.settled(),
    ensures
        schema.order_fixed() ==> r.deep_view() == schema_violations(schema@, doc@),
{
    match schema.schema.validate(&doc.value) {
        Ok(()) => Vec::new(),
        Err(errs) => errs.map(|e| e.to_string()).collect(),
    }
}

impl JsonDoc {
    /// The parsed value as a tree.
    pub closed spec fn tree(&self) -> JsonTree {
        self.tree
    }

    /// The value parsed from the document's text.
    pub closed spec fn parsed(&self) -> serde_json::Value {
        self.value
    }

    /// The parsed value.
    pub fn value(&self) -> (r: &serde_json::Value)
        ensures
            *r == self.parsed(),
    {
        &self.value
    }
}

/// Reads a JSON text, as `serde_json` does; a text that is not JSON is a
/// `Json` error with the parser's message.
pub fn load_json(text: &str) -> (r: Result<JsonDoc, SeamError>)
    ensures
        r is Ok <==> json_parse(text@) is Ok,
        r matches Ok(d) ==> d@ == text@ && d.tree()@ == parsed_tree(text@),
        r matches Err(e) ==> (e matches SeamError::Json(m) && json_parse(text@) matches Err(x) && x == m@),
{
    match parse_json(text) {
        Ok(d) => Ok(d),
        Err(m) => Err(SeamError::Json(m)),
    }
}

/// Compiles a schema document for draft 2020-12. A document whose
/// references might be followed without end is refused as
/// `SchemaUnsupported`, before any compiling; a schema that does not
/// compile is a `SchemaCompile` error with the compiler's message.
pub fn compile_schema(doc: JsonDoc) -> (r: Result<CompiledSchema, SeamError>)
    ensures
        r is Ok <==> references_settled(doc.tree()) && schema_compile(doc@) is Ok,
        r matches Ok(s) ==> s@ == doc@ && s.tree() == doc.tree() && s.settled(),
        !references_settled(doc.tree()) ==> (r matches Err(SeamError::SchemaUnsupported)),
        references_settled(doc.tree()) ==> (schema_compile(doc@) matches Err(x) ==> (r matches Err(
            SeamError::SchemaCompile(m),
        ) && m@ == x)),
{
    if !references_are_settled(&doc.tree) {
        return Err(SeamError::SchemaUnsupported);
    }
    match compile_draft_2020_12(doc) {
        Ok(s) => Ok(s),
        Err(m) => Err(SeamError::SchemaCompile(m)),
    }
}

} // verus!
