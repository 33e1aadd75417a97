//! The JSON tree of a schema document, and the check that following its
//! references always comes to an end.
//!
//! Two things can follow a `$ref` in `jsonschema`: validation, which applies
//! the referenced schema to the same instance, and the compilation of
//! `unevaluatedProperties`, which compiles the schema that a sibling `$ref`
//! names at once. Starting from a schema, the steps that do not move into a
//! strictly smaller part of the instance are: into an in-place subschema
//! (`allOf`, `anyOf`, `oneOf`, `not`, `if`, `then`, `else`,
//! `dependentSchemas`, `dependencies`), into a compiled subschema that holds
//! `unevaluatedProperties` (other than `true`), and across a `$ref`. Every
//! step but the last goes deeper into the document, so an endless chain
//! must cross references for ever. A document is accepted when, for every
//! reference in it, every such chain from the schema it names crosses only
//! finitely many references: exactly the documents where no chain goes
//! round a cycle.
//!
//! A reference is followed here only where its target is certain: a `#`
//! fragment that is a JSON pointer, without `%` or white space, into a
//! subschema position of a document that sets no base other than its root's
//! (no `$id` below the root). A reference that cannot be followed that way
//! counts as one whose chains do not end.
use vstd::prelude::*;
use crate::text::str_eq;

verus! {

/// A JSON value as parsed: numbers are kept as their text.
#[derive(Debug)]
pub enum JsonTree {
    Null,
    Bool(bool),
    Number(String),
    Str(String),
    Array(Vec<JsonTree>),
    Object(Vec<(String, JsonTree)>),
}

/// The content of a `JsonTree`, strings as character sequences.
pub enum JsonTreeV {
    Null,
    Bool(bool),
    Number(Seq<char>),
    Str(Seq<char>),
    Array(Seq<JsonTreeV>),
    Object(Seq<(Seq<char>, JsonTreeV)>),
}

/// The content of a tree.
pub open spec fn tree_view(t: JsonTree) -> JsonTreeV
    decreases t,
{
    match t {
        JsonTree::Null => JsonTreeV::Null,
        JsonTree::Bool(b) => JsonTreeV::Bool(b),
        JsonTree::Number(n) => JsonTreeV::Number(n@),
        JsonTree::Str(s) => JsonTreeV::Str(s@),
        JsonTree::Array(items) => JsonTreeV::Array(
            Seq::new(
                items@.len(),
                |i: int|
                    if 0 <= i < items@.len() {
                        tree_view(items@[i])
                    } else {
                        JsonTreeV::Null
                    },
            ),
        ),
        JsonTree::Object(entries) => JsonTreeV::Object(
            Seq::new(
                entries@.len(),
                |i: int|
                    if 0 <= i < entries@.len() {
                        (entries@[i].0@, tree_view(entries@[i].1))
                    } else {
                        (seq![], JsonTreeV::Null)
                    },
            ),
        ),
    }
}

impl View for JsonTree {
    type V = JsonTreeV;

    open spec fn view(&self) -> JsonTreeV {
        tree_view(*self)
    }
}

/// The value of the first entry named `key`.
pub open spec fn lookup(entries: Seq<(String, JsonTree)>, key: Seq<char>) -> Option<JsonTree>
    decreases entries.len(),
{
    if entries.len() == 0 {
        None
    } else if entries[0].0@ == key {
        Some(entries[0].1)
    } else {
        lookup(entries.drop_first(), key)
    }
}

/// Keywords whose value is one subschema (`items` when it is not an array).
pub open spec fn single_kw(k: Seq<char>) -> bool {
    ||| k == "additionalItems"@
    ||| k == "additionalProperties"@
    ||| k == "unevaluatedProperties"@
    ||| k == "contains"@
    ||| k == "propertyNames"@
    ||| k == "items"@
    ||| k == "not"@
    ||| k == "if"@
    ||| k == "then"@
    ||| k == "else"@
}

/// Keywords whose value is an object of subschemas.
pub open spec fn map_kw(k: Seq<char>) -> bool {
    ||| k == "properties"@
    ||| k == "patternProperties"@
    ||| k == "dependentSchemas"@
    ||| k == "dependencies"@
    ||| k == "$defs"@
    ||| k == "definitions"@
}

/// Keywords whose value is an array of subschemas (`items` when it is one).
pub open spec fn list_kw(k: Seq<char>) -> bool {
    ||| k == "allOf"@
    ||| k == "anyOf"@
    ||| k == "oneOf"@
    ||| k == "prefixItems"@
    ||| k == "items"@
}

/// Subschemas under these keywords are compiled with the schema that holds
/// them; those under `$defs` and `definitions` only when referenced.
pub open spec fn compiled_kw(k: Seq<char>) -> bool {
    k != "$defs"@ && k != "definitions"@
}

/// Keywords whose subschemas apply to the same instance as their schema.
pub open spec fn in_place_kw(k: Seq<char>) -> bool {
    ||| k == "allOf"@
    ||| k == "anyOf"@
    ||| k == "oneOf"@
    ||| k == "not"@
    ||| k == "if"@
    ||| k == "then"@
    ||| k == "else"@
    ||| k == "dependentSchemas"@
    ||| k == "dependencies"@
}

/// A schema that holds `unevaluatedProperties` with a value other than `true`.
pub open spec fn holds_unevaluated(t: JsonTree) -> bool {
    match t {
        JsonTree::Object(es) => match lookup(es@, "unevaluatedProperties"@) {
            Some(v) => v != JsonTree::Bool(true),
            None => false,
        },
        _ => false,
    }
}

/// The references a schema holds itself: the text of its `$ref`, or the
/// empty text (which names nothing) when `$ref` is not a string.
pub open spec fn own_refs(t: JsonTree) -> Seq<Seq<char>> {
    match t {
        JsonTree::Object(es) => match lookup(es@, "$ref"@) {
            Some(JsonTree::Str(s)) => seq![s@],
            Some(_) => seq![seq![]],
            None => seq![],
        },
        _ => seq![],
    }
}

/// What a walk over a schema document collects.
#[derive(Clone, Copy)]
pub enum Walk {
    /// The references of every subschema of the document.
    All,
    /// The references met along the chains of steps from a schema that do
    /// not move into a smaller part of the instance.
    Chain,
    /// The references of those chains that start at a compiled subschema
    /// below, one holding `unevaluatedProperties`.
    Below,
}

/// How a walk goes on into the subschema `c` under keyword `k`, if it does.
pub open spec fn kid_walk(w: Walk, k: Seq<char>, c: JsonTree) -> Option<Walk> {
    match w {
        Walk::All => Some(Walk::All),
        Walk::Chain => if in_place_kw(k) {
            Some(Walk::Chain)
        } else if compiled_kw(k) {
            Some(if holds_unevaluated(c) { Walk::Chain } else { Walk::Below })
        } else {
            None
        },
        Walk::Below => if compiled_kw(k) {
            Some(if holds_unevaluated(c) { Walk::Chain } else { Walk::Below })
        } else {
            None
        },
    }
}

/// The references a walk collects from a schema, in document order.
pub open spec fn walk_refs(t: JsonTree, w: Walk) -> Seq<Seq<char>>
    decreases t, 0int,
{
    let own = if w is Below { seq![] } else { own_refs(t) };
    match t {
        JsonTree::Object(es) => own + entries_refs(es@, es@.len() as int, w),
        _ => own,
    }
}

/// What the walk collects from the first `i` entries of a schema object.
pub open spec fn entries_refs(es: Seq<(String, JsonTree)>, i: int, w: Walk) -> Seq<Seq<char>>
    decreases es, i,
{
    if i <= 0 || i > es.len() {
        seq![]
    } else {
        entries_refs(es, i - 1, w) + entry_refs(es[i - 1], w)
    }
}

/// What the walk collects from the subschemas held by one entry.
pub open spec fn entry_refs(e: (String, JsonTree), w: Walk) -> Seq<Seq<char>>
    decreases e, 0int,
{
    let k = e.0@;
    match e.1 {
        JsonTree::Object(ms) => if map_kw(k) {
            values_refs(ms@, ms@.len() as int, k, w)
        } else {
            kid_refs(k, e.1, w)
        },
        JsonTree::Array(xs) => if list_kw(k) {
            items_refs(xs@, xs@.len() as int, k, w)
        } else {
            kid_refs(k, e.1, w)
        },
        _ => kid_refs(k, e.1, w),
    }
}

/// What the walk collects from `c` as the one subschema of keyword `k`.
pub open spec fn kid_refs(k: Seq<char>, c: JsonTree, w: Walk) -> Seq<Seq<char>>
    decreases c, 1int,
{
    if single_kw(k) {
        match kid_walk(w, k, c) {
            Some(w2) => walk_refs(c, w2),
            None => seq![],
        }
    } else {
        seq![]
    }
}

/// What the walk collects from the first `j` subschemas of an object of
/// subschemas under keyword `k`.
pub open spec fn values_refs(ms: Seq<(String, JsonTree)>, j: int, k: Seq<char>, w: Walk) -> Seq<
    Seq<char>,
>
    decreases ms, j,
{
    if j <= 0 || j > ms.len() {
        seq![]
    } else {
        values_refs(ms, j - 1, k, w) + match kid_walk(w, k, ms[j - 1].1) {
            Some(w2) => walk_refs(ms[j - 1].1, w2),
            None => seq![],
        }
    }
}

/// What the walk collects from the first `j` subschemas of an array of
/// subschemas under keyword `k`.
pub open spec fn items_refs(xs: Seq<JsonTree>, j: int, k: Seq<char>, w: Walk) -> Seq<Seq<char>>
    decreases xs, j,
{
    if j <= 0 || j > xs.len() {
        seq![]
    } else {
        items_refs(xs, j - 1, k, w) + match kid_walk(w, k, xs[j - 1]) {
            Some(w2) => walk_refs(xs[j - 1], w2),
            None => seq![],
        }
    }
}

fn lookup_exec<'a>(entries: &'a Vec<(String, JsonTree)>, key: &str) -> (r: Option<&'a JsonTree>)
    ensures
        match r {
            Some(v) => lookup(entries@, key@) == Some(*v),
            None => lookup(entries@, key@) is None,
        },
{
    let n = entries.len();
    let mut i: usize = 0;
    assert(entries@.subrange(0, n as int) =~= entries@);
    while i < n
        invariant
            n == entries@.len(),
            i <= n,
            lookup(entries@, key@) == lookup(entries@.subrange(i as int, n as int), key@),
        decreases n - i,
    {
        let ghost rest = entries@.subrange(i as int, n as int);
        if str_eq(entries[i].0.as_str(), key) {
            assert(rest[0] == entries@[i as int]);
            return Some(&entries[i].1);
        }
        assert(rest.drop_first() =~= entries@.subrange(i + 1, n as int));
        i = i + 1;
    }
    assert(entries@.subrange(n as int, n as int).len() == 0);
    None
}

fn is_single_kw(k: &str) -> (r: bool)
    ensures
        r == single_kw(k@),
{
    str_eq(k, "additionalItems") || str_eq(k, "additionalProperties") || str_eq(k, "unevaluatedProperties")
        || str_eq(k, "contains") || str_eq(k, "propertyNames") || str_eq(k, "items") || str_eq(k, "not")
        || str_eq(k, "if") || str_eq(k, "then") || str_eq(k, "else")
}

fn is_map_kw(k: &str) -> (r: bool)
    ensures
        r == map_kw(k@),
{
    str_eq(k, "properties") || str_eq(k, "patternProperties") || str_eq(k, "dependentSchemas") || str_eq(
        k,
        "dependencies",
    ) || str_eq(k, "$defs") || str_eq(k, "definitions")
}

fn is_list_kw(k: &str) -> (r: bool)
    ensures
        r == list_kw(k@),
{
    str_eq(k, "allOf") || str_eq(k, "anyOf") || str_eq(k, "oneOf") || str_eq(k, "prefixItems") || str_eq(
        k,
        "items",
    )
}

fn is_in_place_kw(k: &str) -> (r: bool)
    ensures
        r == in_place_kw(k@),
{
    str_eq(k, "allOf") || str_eq(k, "anyOf") || str_eq(k, "oneOf") || str_eq(k, "not") || str_eq(k, "if")
        || str_eq(k, "then") || str_eq(k, "else") || str_eq(k, "dependentSchemas") || str_eq(
        k,
        "dependencies",
    )
}

fn is_holding_unevaluated(t: &JsonTree) -> (r: bool)
    ensures
        r == holds_unevaluated(*t),
{
    match t {
        JsonTree::Object(es) => match lookup_exec(es, "unevaluatedProperties") {
            Some(JsonTree::Bool(b)) => !*b,
            Some(_) => true,
            None => false,
        },
        _ => false,
    }
}

fn next_walk(w: Walk, k: &str, c: &JsonTree) -> (r: Option<Walk>)
    ensures
        r == kid_walk(w, k@, *c),
{
    match w {
        Walk::All => Some(Walk::All),
        Walk::Chain => if is_in_place_kw(k) {
            Some(Walk::Chain)
        } else if !str_eq(k, "$defs") && !str_eq(k, "definitions") {
            Some(if is_holding_unevaluated(c) { Walk::Chain } else { Walk::Below })
        } else {
            None
        },
        Walk::Below => if !str_eq(k, "$defs") && !str_eq(k, "definitions") {
            Some(if is_holding_unevaluated(c) { Walk::Chain } else { Walk::Below })
        } else {
            None
        },
    }
}

fn push_own_refs(t: &JsonTree, out: &mut Vec<String>)
    ensures
        final(out).deep_view() == old(out).deep_view() + own_refs(*t),
{
    match t {
        JsonTree::Object(es) => match lookup_exec(es, "$ref") {
            Some(JsonTree::Str(s)) => {
                out.push(s.clone());
            },
            Some(_) => {
                out.push(String::new());
            },
            None => {},
        },
        _ => {},
    }
    assert(final(out).deep_view() =~= old(out).deep_view() + own_refs(*t));
}

fn walk_exec(t: &JsonTree, w: Walk, out: &mut Vec<String>)
    ensures
        final(out).deep_view() == old(out).deep_view() + walk_refs(*t, w),
    decreases *t, 0int,
{
    let ghost start = out.deep_view();
    match w {
        Walk::Below => {},
        _ => push_own_refs(t, out),
    }
    let ghost own = if w is Below { seq![] } else { own_refs(*t) };
    assert(out.deep_view() =~= start + own);
    match t {
        JsonTree::Object(es) => {
            let n = es.len();
            let mut i: usize = 0;
            while i < n
                invariant
                    n == es@.len(),
                    *t == JsonTree::Object(*es),
                    i <= n,
                    out.deep_view() == start + own + entries_refs(es@, i as int, w),
                decreases n - i,
            {
                proof {
                    assert(decreases_to!(*t => t->Object_0));
                    assert(decreases_to!(*es => es@));
                    assert(decreases_to!(es@ => es@[i as int]));
                }
                walk_entry(&es[i], w, out);
                assert(entries_refs(es@, i + 1, w) == entries_refs(es@, i as int, w) + entry_refs(es@[i as int], w));
                assert(start + own + entries_refs(es@, i + 1, w) =~= start + own + entries_refs(es@, i as int, w)
                    + entry_refs(es@[i as int], w));
                i = i + 1;
            }
        },
        _ => {},
    }
}

fn walk_entry(e: &(String, JsonTree), w: Walk, out: &mut Vec<String>)
    ensures
        final(out).deep_view() == old(out).deep_view() + entry_refs(*e, w),
    decreases *e, 0int,
{
    let ghost start = out.deep_view();
    let k = e.0.as_str();
    match &e.1 {
        JsonTree::Object(ms) => {
            if is_map_kw(k) {
                let n = ms.len();
                let mut j: usize = 0;
                while j < n
                    invariant
                        n == ms@.len(),
                        e.1 == JsonTree::Object(*ms),
                        j <= n,
                        out.deep_view() == start + values_refs(ms@, j as int, k@, w),
                    decreases n - j,
                {
                    let c = &ms[j].1;
                    let ghost before = out.deep_view();
                    proof {
                        assert(decreases_to!(*e => e.1));
                        assert(decreases_to!(e.1 => e.1->Object_0));
                        assert(decreases_to!(*ms => ms@));
                        assert(decreases_to!(ms@ => ms@[j as int]));
                        assert(decreases_to!(ms@[j as int] => ms@[j as int].1));
                    }
                    match next_walk(w, k, c) {
                        Some(w2) => walk_exec(c, w2, out),
                        None => {},
                    }
                    assert(start + values_refs(ms@, j + 1, k@, w) =~= before + match kid_walk(w, k@, ms@[j as int].1) {
                        Some(w2) => walk_refs(ms@[j as int].1, w2),
                        None => seq![],
                    });
                    j = j + 1;
                }
            } else {
                walk_kid(k, &e.1, w, out);
            }
        },
        JsonTree::Array(xs) => {
            if is_list_kw(k) {
                let n = xs.len();
                let mut j: usize = 0;
                while j < n
                    invariant
                        n == xs@.len(),
                        e.1 == JsonTree::Array(*xs),
                        j <= n,
                        out.deep_view() == start + items_refs(xs@, j as int, k@, w),
                    decreases n - j,
                {
                    let c = &xs[j];
                    let ghost before = out.deep_view();
                    proof {
                        assert(decreases_to!(*e => e.1));
                        assert(decreases_to!(e.1 => e.1->Array_0));
                        assert(decreases_to!(*xs => xs@));
                        assert(decreases_to!(xs@ => xs@[j as int]));
                    }
                    match next_walk(w, k, c) {
                        Some(w2) => walk_exec(c, w2, out),
                        None => {},
                    }
                    assert(start + items_refs(xs@, j + 1, k@, w) =~= before + match kid_walk(w, k@, xs@[j as int]) {
                        Some(w2) => walk_refs(xs@[j as int], w2),
                        None => seq![],
                    });
                    j = j + 1;
                }
            } else {
                walk_kid(k, &e.1, w, out);
            }
        },
        _ => walk_kid(k, &e.1, w, out),
    }
}

fn walk_kid(k: &str, c: &JsonTree, w: Walk, out: &mut Vec<String>)
    ensures
        final(out).deep_view() == old(out).deep_view() + kid_refs(k@, *c, w),
    decreases *c, 1int,
{
    if is_single_kw(k) {
        match next_walk(w, k, c) {
            Some(w2) => walk_exec(c, w2, out),
            None => {
                assert(old(out).deep_view() + kid_refs(k@, *c, w) =~= old(out).deep_view());
            },
        }
    } else {
        assert(old(out).deep_view() + kid_refs(k@, *c, w) =~= old(out).deep_view());
    }
}

/// Where a reference leads.
pub enum Target {
    /// Somewhere this check does not follow.
    Unknown,
    /// Nowhere: resolving it fails.
    Missing,
    /// To this subschema of the document.
    At(JsonTree),
}

/// What a JSON pointer has reached: a schema, an object of subschemas or
/// an array of subschemas.
#[derive(Clone, Copy)]
pub enum Place {
    Schema,
    Entries,
    Items,
}

/// No object in `t` (outside `enum` and `const`) has a string `$id`.
pub open spec fn no_ids(t: JsonTree) -> bool
    decreases t,
{
    match t {
        JsonTree::Array(xs) => forall|i: int| 0 <= i < xs@.len() ==> no_ids(#[trigger] xs@[i]),
        JsonTree::Object(es) => !(lookup(es@, "$id"@) matches Some(JsonTree::Str(_))) && forall|i: int|
            0 <= i < es@.len() ==> (#[trigger] es@[i]).0@ == "enum"@ || es@[i].0@ == "const"@ || no_ids(
                es@[i].1,
            ),
        _ => true,
    }
}

/// The document sets no base but at its root, and the root's `$id`, if
/// any, has no fragment.
pub open spec fn one_base(root: JsonTree) -> bool {
    match root {
        JsonTree::Object(es) => (match lookup(es@, "$id"@) {
            Some(JsonTree::Str(s)) => !s@.contains('#'),
            _ => true,
        }) && forall|i: int|
            0 <= i < es@.len() ==> (#[trigger] es@[i]).0@ == "enum"@ || es@[i].0@ == "const"@ || no_ids(
                es@[i].1,
            ),
        _ => no_ids(root),
    }
}

/// A reference made of `#` and a fragment with no `%`, space or control
/// character, which resolving as a URL leaves unchanged.
pub open spec fn plain_fragment(r: Seq<char>) -> bool {
    &&& r.len() >= 1
    &&& r[0] == '#'
    &&& forall|i: int| 1 <= i < r.len() ==> #[trigger] r[i] != '%' && (r[i] as u32) > 32
}

/// The tokens of a JSON pointer, read from position `i` of `r` with the
/// token `cur` and the tokens `acc` read so far; `~0` stands for `~` and
/// `~1` for `/`, and any other `~` makes the pointer one not followed here.
pub open spec fn tokens_from(r: Seq<char>, i: int, cur: Seq<char>, acc: Seq<Seq<char>>) -> Option<
    Seq<Seq<char>>,
>
    decreases r.len() - i,
{
    if i >= r.len() {
        Some(acc.push(cur))
    } else if r[i] == '/' {
        tokens_from(r, i + 1, seq![], acc.push(cur))
    } else if r[i] == '~' {
        if i + 1 < r.len() && r[i + 1] == '0' {
            tokens_from(r, i + 2, cur.push('~'), acc)
        } else if i + 1 < r.len() && r[i + 1] == '1' {
            tokens_from(r, i + 2, cur.push('/'), acc)
        } else {
            None
        }
    } else {
        tokens_from(r, i + 1, cur.push(r[i]), acc)
    }
}

/// A decimal digit.
pub open spec fn is_digit(c: char) -> bool {
    '0' <= c && c <= '9'
}

/// A token that `jsonschema` reads as an array index: digits, without a
/// leading zero unless it is `0`.
pub open spec fn index_token(t: Seq<char>) -> bool {
    &&& t.len() >= 1
    &&& forall|i: int| 0 <= i < t.len() ==> is_digit(#[trigger] t[i])
    &&& (t[0] == '0' ==> t.len() == 1)
}

/// The number that a string of digits writes.
pub open spec fn digits_value(t: Seq<char>) -> int
    decreases t.len(),
{
    if t.len() == 0 {
        0
    } else {
        digits_value(t.drop_last()) * 10 + (t.last() as int - '0' as int)
    }
}

/// Where the pointer tokens from position `i` lead from `node`, reached at `place`.
pub open spec fn walk_pointer(node: JsonTree, place: Place, toks: Seq<Seq<char>>, i: int) -> Target
    decreases toks.len() - i,
{
    if i >= toks.len() {
        match place {
            Place::Schema => Target::At(node),
            _ => Target::Unknown,
        }
    } else {
        let t = toks[i];
        match place {
            Place::Schema => match node {
                JsonTree::Object(es) => match lookup(es@, t) {
                    None => Target::Missing,
                    Some(v) => if map_kw(t) {
                        walk_pointer(v, Place::Entries, toks, i + 1)
                    } else if list_kw(t) && v is Array {
                        walk_pointer(v, Place::Items, toks, i + 1)
                    } else if single_kw(t) {
                        walk_pointer(v, Place::Schema, toks, i + 1)
                    } else {
                        Target::Unknown
                    },
                },
                _ => Target::Unknown,
            },
            Place::Entries => match node {
                JsonTree::Object(es) => match lookup(es@, t) {
                    None => Target::Missing,
                    Some(v) => walk_pointer(v, Place::Schema, toks, i + 1),
                },
                _ => Target::Unknown,
            },
            Place::Items => match node {
                JsonTree::Array(xs) => if !index_token(t) {
                    Target::Missing
                } else if t.len() > 9 {
                    Target::Unknown
                } else if digits_value(t) < xs@.len() {
                    walk_pointer(xs@[digits_value(t)], Place::Schema, toks, i + 1)
                } else {
                    Target::Missing
                },
                _ => Target::Unknown,
            },
        }
    }
}

/// Where the reference `r` in the document `root` leads.
pub open spec fn ref_target(root: JsonTree, r: Seq<char>) -> Target {
    if !one_base(root) || !plain_fragment(r) {
        Target::Unknown
    } else if r.len() == 1 {
        Target::At(root)
    } else if r[1] != '/' {
        Target::Missing
    } else {
        match tokens_from(r, 2, seq![], seq![]) {
            None => Target::Unknown,
            Some(toks) => walk_pointer(root, Place::Schema, toks, 0),
        }
    }
}

fn are_no_ids(t: &JsonTree) -> (r: bool)
    ensures
        r == no_ids(*t),
    decreases *t,
{
    match t {
        JsonTree::Array(xs) => {
            let n = xs.len();
            let mut i: usize = 0;
            while i < n
                invariant
                    n == xs@.len(),
                    *t == JsonTree::Array(*xs),
                    i <= n,
                    forall|j: int| 0 <= j < i ==> no_ids(#[trigger] xs@[j]),
                decreases n - i,
            {
                proof {
                    assert(decreases_to!(*t => t->Array_0));
                    assert(decreases_to!(*xs => xs@));
                    assert(decreases_to!(xs@ => xs@[i as int]));
                }
                if !are_no_ids(&xs[i]) {
                    assert(t->Array_0 == *xs);
                    return false;
                }
                i = i + 1;
            }
            true
        },
        JsonTree::Object(es) => {
            match lookup_exec(es, "$id") {
                Some(JsonTree::Str(_)) => {
                    return false;
                },
                _ => {},
            }
            entries_without_ids(t, es)
        },
        _ => true,
    }
}

fn entries_without_ids(t: &JsonTree, es: &Vec<(String, JsonTree)>) -> (r: bool)
    requires
        *t == JsonTree::Object(*es),
    ensures
        r == forall|i: int|
            0 <= i < es@.len() ==> (#[trigger] es@[i]).0@ == "enum"@ || es@[i].0@ == "const"@ || no_ids(
                es@[i].1,
            ),
    decreases *t, 0int,
{
    let n = es.len();
    let mut i: usize = 0;
    while i < n
        invariant
            n == es@.len(),
            *t == JsonTree::Object(*es),
            i <= n,
            forall|j: int|
                0 <= j < i ==> (#[trigger] es@[j]).0@ == "enum"@ || es@[j].0@ == "const"@ || no_ids(es@[j].1),
        decreases n - i,
    {
        let k = es[i].0.as_str();
        if !str_eq(k, "enum") && !str_eq(k, "const") {
            proof {
                assert(decreases_to!(*t => t->Object_0));
                assert(decreases_to!(*es => es@));
                assert(decreases_to!(es@ => es@[i as int]));
                assert(decreases_to!(es@[i as int] => es@[i as int].1));
            }
            if !are_no_ids(&es[i].1) {
                assert(!(es@[i as int].0@ == "enum"@ || es@[i as int].0@ == "const"@ || no_ids(es@[i as int].1)));
                return false;
            }
        }
        i = i + 1;
    }
    true
}

fn has_one_base(root: &JsonTree) -> (r: bool)
    ensures
        r == one_base(*root),
{
    match root {
        JsonTree::Object(es) => {
            match lookup_exec(es, "$id") {
                Some(JsonTree::Str(s)) => {
                    if has_char(s.as_str(), '#') {
                        return false;
                    }
                },
                _ => {},
            }
            entries_without_ids(root, es)
        },
        _ => are_no_ids(root),
    }
}

fn has_char(s: &str, c: char) -> (r: bool)
    ensures
        r == s@.contains(c),
{
    let n = s.unicode_len();
    let mut i: usize = 0;
    while i < n
        invariant
            n == s@.len(),
            i <= n,
            forall|j: int| 0 <= j < i ==> s@[j] != c,
        decreases n - i,
    {
        if s.get_char(i) == c {
            assert(s@[i as int] == c);
            return true;
        }
        i = i + 1;
    }
    false
}

fn is_plain_fragment(r: &str) -> (b: bool)
    ensures
        b == plain_fragment(r@),
{
    let n = r.unicode_len();
    if n == 0 || r.get_char(0) != '#' {
        return false;
    }
    let mut i: usize = 1;
    while i < n
        invariant
            n == r@.len(),
            1 <= i <= n,
            forall|j: int| 1 <= j < i ==> #[trigger] r@[j] != '%' && (r@[j] as u32) > 32,
        decreases n - i,
    {
        let c = r.get_char(i);
        if c == '%' || (c as u32) <= 32 {
            assert(!(r@[i as int] != '%' && (r@[i as int] as u32) > 32));
            return false;
        }
        i = i + 1;
    }
    true
}

fn pointer_tokens(r: &str) -> (t: Option<Vec<Vec<char>>>)
    requires
        r@.len() >= 2,
    ensures
        match t {
            Some(v) => tokens_from(r@, 2, seq![], seq![]) == Some(v.deep_view()),
            None => tokens_from(r@, 2, seq![], seq![]) is None,
        },
{
    let n = r.unicode_len();
    let mut acc: Vec<Vec<char>> = Vec::new();
    let mut cur: Vec<char> = Vec::new();
    let mut i: usize = 2;
    assert(acc.deep_view() =~= seq![]);
    assert(cur@ =~= seq![]);
    while i < n
        invariant
            n == r@.len(),
            2 <= i,
            tokens_from(r@, 2, seq![], seq![]) == tokens_from(r@, i as int, cur@, acc.deep_view()),
        decreases n - i,
    {
        let c = r.get_char(i);
        if c == '/' {
            let ghost old_acc = acc.deep_view();
            let ghost old_cur = cur@;
            assert(cur.deep_view() =~= cur@);
            acc.push(cur);
            cur = Vec::new();
            assert(acc.deep_view() =~= old_acc.push(old_cur));
            assert(cur@ =~= seq![]);
            i = i + 1;
        } else if c == '~' {
            if i + 1 < n && r.get_char(i + 1) == '0' {
                cur.push('~');
                i = i + 2;
            } else if i + 1 < n && r.get_char(i + 1) == '1' {
                cur.push('/');
                i = i + 2;
            } else {
                return None;
            }
        } else {
            cur.push(c);
            i = i + 1;
        }
    }
    let ghost old_acc = acc.deep_view();
    let ghost old_cur = cur@;
    assert(cur.deep_view() =~= cur@);
    acc.push(cur);
    assert(acc.deep_view() =~= old_acc.push(old_cur));
    Some(acc)
}

fn chars_eq(s: &str, t: &Vec<char>) -> (r: bool)
    ensures
        r == (s@ == t@),
{
    let n = s.unicode_len();
    if n != t.len() {
        return false;
    }
    let mut i: usize = 0;
    while i < n
        invariant
            n == s@.len(),
            n == t@.len(),
            i <= n,
            forall|j: int| 0 <= j < i ==> s@[j] == t@[j],
        decreases n - i,
    {
        if s.get_char(i) != t[i] {
            return false;
        }
        i = i + 1;
    }
    assert(s@ =~= t@);
    true
}

fn lookup_chars<'a>(entries: &'a Vec<(String, JsonTree)>, key: &Vec<char>) -> (r: Option<&'a JsonTree>)
    ensures
        match r {
            Some(v) => lookup(entries@, key@) == Some(*v),
            None => lookup(entries@, key@) is None,
        },
{
    let n = entries.len();
    let mut i: usize = 0;
    assert(entries@.subrange(0, n as int) =~= entries@);
    while i < n
        invariant
            n == entries@.len(),
            i <= n,
            lookup(entries@, key@) == lookup(entries@.subrange(i as int, n as int), key@),
        decreases n - i,
    {
        let ghost rest = entries@.subrange(i as int, n as int);
        if chars_eq(entries[i].0.as_str(), key) {
            assert(rest[0] == entries@[i as int]);
            return Some(&entries[i].1);
        }
        assert(rest.drop_first() =~= entries@.subrange(i + 1, n as int));
        i = i + 1;
    }
    assert(entries@.subrange(n as int, n as int).len() == 0);
    None
}

fn token_is_map_kw(t: &Vec<char>) -> (r: bool)
    ensures
        r == map_kw(t@),
{
    chars_eq("properties", t) || chars_eq("patternProperties", t) || chars_eq("dependentSchemas", t)
        || chars_eq("dependencies", t) || chars_eq("$defs", t) || chars_eq("definitions", t)
}

fn token_is_list_kw(t: &Vec<char>) -> (r: bool)
    ensures
        r == list_kw(t@),
{
    chars_eq("allOf", t) || chars_eq("anyOf", t) || chars_eq("oneOf", t) || chars_eq("prefixItems", t)
        || chars_eq("items", t)
}

fn token_is_single_kw(t: &Vec<char>) -> (r: bool)
    ensures
        r == single_kw(t@),
{
    chars_eq("additionalItems", t) || chars_eq("additionalProperties", t) || chars_eq(
        "unevaluatedProperties",
        t,
    ) || chars_eq("contains", t) || chars_eq("propertyNames", t) || chars_eq("items", t) || chars_eq(
        "not",
        t,
    ) || chars_eq("if", t) || chars_eq("then", t) || chars_eq("else", t)
}

/// The index that a token of at most nine digits writes, if it is one
/// that `jsonschema` reads as an index.
fn token_index(t: &Vec<char>) -> (r: Option<usize>)
    requires
        t@.len() <= 9,
    ensures
        match r {
            Some(v) => index_token(t@) && v == digits_value(t@),
            None => !index_token(t@),
        },
{
    let n = t.len();
    if n == 0 {
        return None;
    }
    if t[0] == '0' && n != 1 {
        return None;
    }
    let mut v: usize = 0;
    let mut i: usize = 0;
    while i < n
        invariant
            n == t@.len(),
            n <= 9,
            i <= n,
            forall|j: int| 0 <= j < i ==> is_digit(#[trigger] t@[j]),
            v == digits_value(t@.subrange(0, i as int)),
            v < pow10(i as nat),
        decreases n - i,
    {
        let c = t[i];
        if !('0' <= c && c <= '9') {
            assert(!is_digit(t@[i as int]));
            return None;
        }
        let d = (c as u32 - '0' as u32) as usize;
        assert(t@.subrange(0, i + 1).drop_last() =~= t@.subrange(0, i as int));
        assert(pow10((i + 1) as nat) == pow10(i as nat) * 10);
        assert(pow10((i + 1) as nat) <= 1_000_000_000) by {
            lemma_pow10_mono((i + 1) as nat, 9);
            reveal_with_fuel(pow10, 10);
        }
        v = v * 10 + d;
        i = i + 1;
    }
    assert(t@.subrange(0, n as int) =~= t@);
    Some(v)
}

/// Powers of ten.
pub open spec fn pow10(n: nat) -> nat
    decreases n,
{
    if n == 0 {
        1
    } else {
        10 * pow10((n - 1) as nat)
    }
}

proof fn lemma_pow10_mono(n: nat, m: nat)
    requires
        n <= m,
    ensures
        pow10(n) <= pow10(m),
    decreases m,
{
    if n < m {
        lemma_pow10_mono(n, (m - 1) as nat);
    }
}

fn resolve<'a>(root: &'a JsonTree, toks: &Vec<Vec<char>>) -> (r: Option<Option<&'a JsonTree>>)
    ensures
        match r {
            None => walk_pointer(*root, Place::Schema, toks.deep_view(), 0) is Unknown,
            Some(None) => walk_pointer(*root, Place::Schema, toks.deep_view(), 0) is Missing,
            Some(Some(x)) => walk_pointer(*root, Place::Schema, toks.deep_view(), 0) == Target::At(*x),
        },
{
    let ghost toks_v = toks.deep_view();
    let n = toks.len();
    let mut node: &'a JsonTree = root;
    let mut place = Place::Schema;
    let mut i: usize = 0;
    while i < n
        invariant
            n == toks_v.len(),
            toks_v == toks.deep_view(),
            i <= n,
            walk_pointer(*root, Place::Schema, toks_v, 0) == walk_pointer(*node, place, toks_v, i as int),
        decreases n - i,
    {
        let t = &toks[i];
        assert(t@ == toks_v[i as int]);
        match place {
            Place::Schema => match node {
                JsonTree::Object(es) => match lookup_chars(es, t) {
                    None => {
                        return Some(None);
                    },
                    Some(v) => {
                        if token_is_map_kw(t) {
                            node = v;
                            place = Place::Entries;
                        } else if token_is_list_kw(t) && matches!(v, JsonTree::Array(_)) {
                            node = v;
                            place = Place::Items;
                        } else if token_is_single_kw(t) {
                            node = v;
                            place = Place::Schema;
                        } else {
                            return None;
                        }
                    },
                },
                _ => {
                    return None;
                },
            },
            Place::Entries => match node {
                JsonTree::Object(es) => match lookup_chars(es, t) {
                    None => {
                        return Some(None);
                    },
                    Some(v) => {
                        node = v;
                        place = Place::Schema;
                    },
                },
                _ => {
                    return None;
                },
            },
            Place::Items => match node {
                JsonTree::Array(xs) => {
                    if t.len() > 9 {
                        if is_index_token(t) {
                            return None;
                        } else {
                            return Some(None);
                        }
                    }
                    match token_index(t) {
                        None => {
                            return Some(None);
                        },
                        Some(k) => {
                            if k < xs.len() {
                                node = &xs[k];
                                place = Place::Schema;
                            } else {
                                return Some(None);
                            }
                        },
                    }
                },
                _ => {
                    return None;
                },
            },
        }
        i = i + 1;
    }
    match place {
        Place::Schema => Some(Some(node)),
        _ => None,
    }
}

fn is_index_token(t: &Vec<char>) -> (r: bool)
    ensures
        r == index_token(t@),
{
    let n = t.len();
    if n == 0 {
        return false;
    }
    let mut i: usize = 0;
    while i < n
        invariant
            n == t@.len(),
            i <= n,
            forall|j: int| 0 <= j < i ==> is_digit(#[trigger] t@[j]),
        decreases n - i,
    {
        if !('0' <= t[i] && t[i] <= '9') {
            assert(!is_digit(t@[i as int]));
            return false;
        }
        i = i + 1;
    }
    !(t[0] == '0' && n != 1)
}

/// Where the reference `r` of the document `root` leads: `None` where it is
/// not followed here, `Some(None)` where resolving it fails.
fn target_of<'a>(root: &'a JsonTree, r: &str) -> (t: Option<Option<&'a JsonTree>>)
    ensures
        match t {
            None => ref_target(*root, r@) is Unknown,
            Some(None) => ref_target(*root, r@) is Missing,
            Some(Some(x)) => ref_target(*root, r@) == Target::At(*x),
        },
{
    if !has_one_base(root) || !is_plain_fragment(r) {
        return None;
    }
    let n = r.unicode_len();
    if n == 1 {
        return Some(Some(root));
    }
    if r.get_char(1) != '/' {
        return Some(None);
    }
    match pointer_tokens(r) {
        None => None,
        Some(toks) => resolve(root, &toks),
    }
}

/// The references of every subschema of the document, in document order.
pub open spec fn schema_refs(root: JsonTree) -> Seq<Seq<char>> {
    walk_refs(root, Walk::All)
}

/// Every chain of steps that starts by following the reference `r` crosses
/// fewer than `j` references, each of them one of the document's own.
pub open spec fn chain_ok(root: JsonTree, r: Seq<char>, j: nat) -> bool
    decreases j,
{
    j > 0 && match ref_target(root, r) {
        Target::Unknown => false,
        Target::Missing => true,
        Target::At(t) => forall|i: int|
            0 <= i < walk_refs(t, Walk::Chain).len() ==> schema_refs(root).contains(
                #[trigger] walk_refs(t, Walk::Chain)[i],
            ) && chain_ok(root, walk_refs(t, Walk::Chain)[i], (j - 1) as nat),
    }
}

/// The chains from the reference `r` cross a bounded number of references.
pub open spec fn ref_ends(root: JsonTree, r: Seq<char>) -> bool {
    exists|j: nat| chain_ok(root, r, j)
}

/// Following the document's references always comes to an end: from each
/// of them, the chains cross a bounded number of references.
pub open spec fn references_settled(root: JsonTree) -> bool {
    forall|i: int| 0 <= i < schema_refs(root).len() ==> ref_ends(root, #[trigger] schema_refs(root)[i])
}

/// A bound that holds for `j` holds for `j + 1`.
proof fn lemma_chain_mono(root: JsonTree, r: Seq<char>, j: nat)
    requires
        chain_ok(root, r, j),
    ensures
        chain_ok(root, r, j + 1),
    decreases j,
{
    match ref_target(root, r) {
        Target::At(t) => {
            let cl = walk_refs(t, Walk::Chain);
            assert forall|i: int| 0 <= i < cl.len() implies schema_refs(root).contains(#[trigger] cl[i]) && chain_ok(
                root,
                cl[i],
                j,
            ) by {
                assert(chain_ok(root, cl[i], (j - 1) as nat));
                lemma_chain_mono(root, cl[i], (j - 1) as nat);
            }
        },
        _ => {},
    }
}

proof fn lemma_chain_upto(root: JsonTree, r: Seq<char>, a: nat, b: nat)
    requires
        a <= b,
        chain_ok(root, r, a),
    ensures
        chain_ok(root, r, b),
    decreases b - a,
{
    if a < b {
        lemma_chain_mono(root, r, a);
        lemma_chain_upto(root, r, a + 1, b);
    }
}

/// Once the bounds of the document's references agree for `j` and `j + 1`,
/// they agree for every larger bound.
proof fn lemma_chain_stable(root: JsonTree, j: nat, m: nat)
    requires
        j <= m,
        forall|q: int|
            0 <= q < schema_refs(root).len() ==> chain_ok(root, #[trigger] schema_refs(root)[q], j + 1)
                == chain_ok(root, schema_refs(root)[q], j),
    ensures
        forall|q: int|
            0 <= q < schema_refs(root).len() ==> chain_ok(root, #[trigger] schema_refs(root)[q], m)
                == chain_ok(root, schema_refs(root)[q], j),
    decreases m - j,
{
    let l = schema_refs(root);
    if m > j {
        lemma_chain_stable(root, j, (m - 1) as nat);
        assert forall|q: int| 0 <= q < l.len() implies chain_ok(root, #[trigger] l[q], m) == chain_ok(root, l[q], j)
            by {
            match ref_target(root, l[q]) {
                Target::At(t) => {
                    let cl = walk_refs(t, Walk::Chain);
                    assert forall|i: int| 0 <= i < cl.len() && l.contains(#[trigger] cl[i]) implies chain_ok(
                        root,
                        cl[i],
                        (m - 1) as nat,
                    ) == chain_ok(root, cl[i], j) by {
                        let q2 = choose|q2: int| 0 <= q2 < l.len() && l[q2] == cl[i];
                        assert(chain_ok(root, l[q2], (m - 1) as nat) == chain_ok(root, l[q2], j));
                    }
                    assert(chain_ok(root, l[q], m) == chain_ok(root, l[q], j + 1));
                },
                _ => {},
            }
        }
    }
}

/// The number of `false` entries.
spec fn falses(s: Seq<bool>) -> nat
    decreases s.len(),
{
    if s.len() == 0 {
        0
    } else {
        falses(s.drop_last()) + if s.last() {
            0nat
        } else {
            1nat
        }
    }
}

proof fn lemma_falses_drop(a: Seq<bool>, b: Seq<bool>)
    requires
        a.len() == b.len(),
        forall|q: int| 0 <= q < a.len() ==> #[trigger] a[q] ==> b[q],
    ensures
        falses(b) <= falses(a),
        a != b ==> falses(b) < falses(a),
    decreases a.len(),
{
    if a.len() == 0 {
        assert(a =~= b);
    } else {
        let a2 = a.drop_last();
        let b2 = b.drop_last();
        assert forall|q: int| 0 <= q < a2.len() && #[trigger] a2[q] implies b2[q] by {
            assert(a[q] ==> b[q]);
        }
        lemma_falses_drop(a2, b2);
        assert(a.last() ==> b.last()) by {
            assert(a[a.len() - 1] ==> b[a.len() - 1]);
        }
        if a != b && a2 == b2 && a.last() == b.last() {
            assert forall|q: int| 0 <= q < a.len() implies a[q] == b[q] by {
                if q < a.len() - 1 {
                    assert(a2[q] == b2[q]);
                }
            }
            assert(a =~= b);
        }
    }
}

/// What following one reference comes to, precomputed: a fixed answer, or
/// the references that its target's chains meet next.
enum Step {
    Stop(bool),
    Then(Vec<String>),
}

spec fn step_fits(root: JsonTree, r: Seq<char>, s: Step) -> bool {
    match ref_target(root, r) {
        Target::Unknown => s == Step::Stop(false),
        Target::Missing => s == Step::Stop(true),
        Target::At(t) => s matches Step::Then(cl) && cl.deep_view() == walk_refs(t, Walk::Chain),
    }
}

fn find_ref(refs: &Vec<String>, s: &str) -> (r: Option<usize>)
    ensures
        match r {
            Some(q) => q < refs@.len() && refs.deep_view()[q as int] == s@,
            None => !refs.deep_view().contains(s@),
        },
{
    let n = refs.len();
    let mut q: usize = 0;
    while q < n
        invariant
            n == refs@.len(),
            q <= n,
            forall|p: int| 0 <= p < q ==> refs.deep_view()[p] != s@,
        decreases n - q,
    {
        if str_eq(refs[q].as_str(), s) {
            return Some(q);
        }
        q = q + 1;
    }
    None
}

fn closure_known(root: &JsonTree, refs: &Vec<String>, prev: &Vec<bool>, cl: &Vec<String>, j: Ghost<nat>) -> (r:
    bool)
    requires
        refs.deep_view() == schema_refs(*root),
        prev@.len() == refs@.len(),
        forall|q: int| 0 <= q < prev@.len() ==> prev@[q] == chain_ok(*root, #[trigger] refs.deep_view()[q], j@),
    ensures
        r == forall|i: int|
            0 <= i < cl.deep_view().len() ==> schema_refs(*root).contains(#[trigger] cl.deep_view()[i]) && chain_ok(
                *root,
                cl.deep_view()[i],
                j@,
            ),
{
    let n = cl.len();
    let mut i: usize = 0;
    while i < n
        invariant
            n == cl@.len(),
            i <= n,
            refs.deep_view() == schema_refs(*root),
            prev@.len() == refs@.len(),
            forall|q: int| 0 <= q < prev@.len() ==> prev@[q] == chain_ok(*root, #[trigger] refs.deep_view()[q], j@),
            forall|p: int|
                0 <= p < i ==> schema_refs(*root).contains(#[trigger] cl.deep_view()[p]) && chain_ok(
                    *root,
                    cl.deep_view()[p],
                    j@,
                ),
        decreases n - i,
    {
        match find_ref(refs, cl[i].as_str()) {
            None => {
                assert(!schema_refs(*root).contains(cl.deep_view()[i as int]));
                return false;
            },
            Some(q) => {
                assert(refs.deep_view()[q as int] == cl.deep_view()[i as int]);
                if !prev[q] {
                    assert(!chain_ok(*root, cl.deep_view()[i as int], j@));
                    return false;
                }
                assert(schema_refs(*root).contains(cl.deep_view()[i as int]));
            },
        }
        i = i + 1;
    }
    true
}

fn next_level(root: &JsonTree, refs: &Vec<String>, steps: &Vec<Step>, prev: &Vec<bool>, j: Ghost<nat>) -> (cur:
    Vec<bool>)
    requires
        refs.deep_view() == schema_refs(*root),
        steps@.len() == refs@.len(),
        forall|q: int| 0 <= q < steps@.len() ==> step_fits(*root, #[trigger] refs.deep_view()[q], steps@[q]),
        prev@.len() == refs@.len(),
        forall|q: int| 0 <= q < prev@.len() ==> prev@[q] == chain_ok(*root, #[trigger] refs.deep_view()[q], j@),
    ensures
        cur@.len() == refs@.len(),
        forall|q: int| 0 <= q < cur@.len() ==> cur@[q] == chain_ok(*root, #[trigger] refs.deep_view()[q], j@ + 1),
{
    let n = refs.len();
    let mut cur: Vec<bool> = Vec::new();
    let mut q: usize = 0;
    while q < n
        invariant
            n == refs@.len(),
            q <= n,
            cur@.len() == q,
            refs.deep_view() == schema_refs(*root),
            steps@.len() == refs@.len(),
            forall|p: int| 0 <= p < steps@.len() ==> step_fits(*root, #[trigger] refs.deep_view()[p], steps@[p]),
            prev@.len() == refs@.len(),
            forall|p: int| 0 <= p < prev@.len() ==> prev@[p] == chain_ok(*root, #[trigger] refs.deep_view()[p], j@),
            forall|p: int| 0 <= p < q ==> cur@[p] == chain_ok(*root, #[trigger] refs.deep_view()[p], j@ + 1),
        decreases n - q,
    {
        let ghost r = refs.deep_view()[q as int];
        assert(step_fits(*root, r, steps@[q as int]));
        let b = match &steps[q] {
            Step::Stop(b) => *b,
            Step::Then(cl) => closure_known(root, refs, prev, cl, j),
        };
        assert(b == chain_ok(*root, r, j@ + 1));
        cur.push(b);
        q = q + 1;
    }
    cur
}

/// Whether following every reference of the schema document comes to an
/// end (see the module documentation).
pub fn references_are_settled(doc: &JsonTree) -> (r: bool)
    ensures
        r == references_settled(*doc),
{
    let mut refs: Vec<String> = Vec::new();
    walk_exec(doc, Walk::All, &mut refs);
    let ghost l = schema_refs(*doc);
    assert(refs.deep_view() =~= l);
    let n = refs.len();
    let mut steps: Vec<Step> = Vec::new();
    let mut k: usize = 0;
    while k < n
        invariant
            n == refs@.len(),
            refs.deep_view() == l,
            l == schema_refs(*doc),
            k <= n,
            steps@.len() == k,
            forall|q: int| 0 <= q < k ==> step_fits(*doc, #[trigger] l[q], steps@[q]),
        decreases n - k,
    {
        let step = match target_of(doc, refs[k].as_str()) {
            None => Step::Stop(false),
            Some(None) => Step::Stop(true),
            Some(Some(t)) => {
                let mut cl: Vec<String> = Vec::new();
                walk_exec(t, Walk::Chain, &mut cl);
                assert(cl.deep_view() =~= walk_refs(*t, Walk::Chain));
                Step::Then(cl)
            },
        };
        assert(step_fits(*doc, l[k as int], step));
        steps.push(step);
        k = k + 1;
    }
    let mut prev: Vec<bool> = Vec::new();
    let mut q: usize = 0;
    while q < n
        invariant
            q <= n,
            prev@.len() == q,
            forall|p: int| 0 <= p < q ==> prev@[p] == false,
        decreases n - q,
    {
        prev.push(false);
        q = q + 1;
    }
    let ghost mut j: nat = 0;
    assert forall|p: int| 0 <= p < prev@.len() implies prev@[p] == chain_ok(*doc, #[trigger] refs.deep_view()[p], j) by {
    }
    loop
        invariant
            n == refs@.len(),
            refs.deep_view() == l,
            l == schema_refs(*doc),
            steps@.len() == n,
            forall|p: int| 0 <= p < n ==> step_fits(*doc, #[trigger] refs.deep_view()[p], steps@[p]),
            prev@.len() == n,
            forall|p: int| 0 <= p < n ==> prev@[p] == chain_ok(*doc, #[trigger] refs.deep_view()[p], j),
        decreases falses(prev@),
    {
        let cur = next_level(doc, &refs, &steps, &prev, Ghost(j));
        proof {
            assert forall|p: int| 0 <= p < prev@.len() && #[trigger] prev@[p] implies cur@[p] by {
                if prev@[p] {
                    lemma_chain_mono(*doc, refs.deep_view()[p], j);
                }
            }
            lemma_falses_drop(prev@, cur@);
        }
        if same_flags(&prev, &cur) {
            let all = all_true(&prev);
            proof {
                assert forall|q: int| 0 <= q < l.len() implies chain_ok(*doc, #[trigger] l[q], j + 1) == chain_ok(
                    *doc,
                    l[q],
                    j,
                ) by {
                    assert(cur@[q] == prev@[q]);
                }
                if all {
                    assert forall|q: int| 0 <= q < schema_refs(*doc).len() implies ref_ends(
                        *doc,
                        #[trigger] schema_refs(*doc)[q],
                    ) by {
                        assert(prev@[q]);
                        assert(chain_ok(*doc, refs.deep_view()[q], j));
                    }
                    assert(references_settled(*doc));
                } else {
                    let q0 = choose|q0: int| 0 <= q0 < prev@.len() && !prev@[q0];
                    assert(!chain_ok(*doc, l[q0], j));
                    assert forall|jj: nat| !chain_ok(*doc, l[q0], jj) by {
                        if jj <= j {
                            if chain_ok(*doc, l[q0], jj) {
                                lemma_chain_upto(*doc, l[q0], jj, j);
                            }
                        } else {
                            lemma_chain_stable(*doc, j, jj);
                            assert(chain_ok(*doc, l[q0], jj) == chain_ok(*doc, l[q0], j));
                        }
                    }
                    assert(!references_settled(*doc)) by {
                        assert(!ref_ends(*doc, l[q0]));
                    }
                }
            }
            return all;
        }
        prev = cur;
        proof {
            j = j + 1;
        }
    }
}

fn same_flags(a: &Vec<bool>, b: &Vec<bool>) -> (r: bool)
    requires
        a@.len() == b@.len(),
    ensures
        r == (a@ == b@),
{
    let n = a.len();
    let mut i: usize = 0;
    while i < n
        invariant
            n == a@.len(),
            n == b@.len(),
            i <= n,
            forall|p: int| 0 <= p < i ==> a@[p] == b@[p],
        decreases n - i,
    {
        if a[i] != b[i] {
            return false;
        }
        i = i + 1;
    }
    assert(a@ =~= b@);
    true
}

fn all_true(a: &Vec<bool>) -> (r: bool)
    ensures
        r == forall|p: int| 0 <= p < a@.len() ==> a@[p],
{
    let n = a.len();
    let mut i: usize = 0;
    while i < n
        invariant
            n == a@.len(),
            i <= n,
            forall|p: int| 0 <= p < i ==> a@[p],
        decreases n - i,
    {
        if !a[i] {
            return false;
        }
        i = i + 1;
    }
    true
}

/// A pointer token that needs no escape and that resolving as a URL leaves
/// unchanged: no `/`, `~`, `%`, space or control character.
pub open spec fn plain_token(t: Seq<char>) -> bool {
    forall|i: int| 0 <= i < t.len() ==> #[trigger] t[i] != '/' && t[i] != '~' && t[i] != '%' && (t[i] as u32) > 32
}

proof fn lemma_tokens_plain_run(r: Seq<char>, i: int, j: int, cur: Seq<char>, acc: Seq<Seq<char>>)
    requires
        0 <= i <= j <= r.len(),
        forall|m: int| i <= m < j ==> #[trigger] r[m] != '/' && r[m] != '~',
    ensures
        tokens_from(r, i, cur, acc) == tokens_from(r, j, cur + r.subrange(i, j), acc),
    decreases j - i,
{
    if i == j {
        assert(cur + r.subrange(i, j) =~= cur);
    } else {
        lemma_tokens_plain_run(r, i + 1, j, cur.push(r[i]), acc);
        assert(cur.push(r[i]) + r.subrange(i + 1, j) =~= cur + r.subrange(i, j));
    }
}

/// The reference `#/{a}/{b}` is read as the two tokens `a` and `b`, and the
/// reference `#/{a}` as the one token `a`, when they are plain.
proof fn lemma_plain_pointer(a: Seq<char>, b: Seq<char>)
    requires
        plain_token(a),
        plain_token(b),
    ensures
        tokens_from("#/"@ + a + "/"@ + b, 2, seq![], seq![]) == Some(seq![a, b]),
        plain_fragment("#/"@ + a + "/"@ + b),
        tokens_from("#/"@ + a, 2, seq![], seq![]) == Some(seq![a]),
        plain_fragment("#/"@ + a),
{
    reveal_strlit("#/");
    reveal_strlit("/");
    let r = "#/"@ + a + "/"@ + b;
    let la = a.len() as int;
    assert(r.len() == 3 + la + b.len());
    assert forall|m: int| 2 <= m < 2 + la implies #[trigger] r[m] != '/' && r[m] != '~' by {
        assert(r[m] == a[m - 2]);
    }
    lemma_tokens_plain_run(r, 2, 2 + la, seq![], seq![]);
    assert(r.subrange(2, 2 + la) =~= a);
    assert(seq![] + a =~= a);
    assert(r[2 + la] == '/');
    assert forall|m: int| 3 + la <= m < r.len() implies #[trigger] r[m] != '/' && r[m] != '~' by {
        assert(r[m] == b[m - 3 - la]);
    }
    lemma_tokens_plain_run(r, 3 + la, r.len() as int, seq![], seq![a]);
    assert(r.subrange(3 + la, r.len() as int) =~= b);
    assert(seq![] + b =~= b);
    assert(seq![a].push(b) =~= seq![a, b]);
    assert(seq![].push(a) =~= seq![a]);
    assert forall|m: int| 1 <= m < r.len() implies #[trigger] r[m] != '%' && (r[m] as u32) > 32 by {
        if 2 <= m < 2 + la {
            assert(r[m] == a[m - 2]);
        } else if 3 + la <= m {
            assert(r[m] == b[m - 3 - la]);
        }
    }
    let r1 = "#/"@ + a;
    assert forall|m: int| 2 <= m < r1.len() implies #[trigger] r1[m] != '/' && r1[m] != '~' by {
        assert(r1[m] == a[m - 2]);
    }
    lemma_tokens_plain_run(r1, 2, r1.len() as int, seq![], seq![]);
    assert(r1.subrange(2, r1.len() as int) =~= a);
    assert forall|m: int| 1 <= m < r1.len() implies #[trigger] r1[m] != '%' && (r1[m] as u32) > 32 by {
        if 2 <= m {
            assert(r1[m] == a[m - 2]);
        }
    }
}

/// A reference `#/{k}/{name}` into an object of subschemas (`$defs`,
/// `definitions`, `properties`, `patternProperties`, `dependentSchemas`,
/// `dependencies`) leads to the subschema stored there under `name`.
pub proof fn lemma_pointer_into_subschema_objects(root: JsonTree, k: Seq<char>, name: Seq<char>, t: JsonTree)
    requires
        k == "$defs"@ || k == "definitions"@ || k == "properties"@ || k == "patternProperties"@
            || k == "dependentSchemas"@ || k == "dependencies"@,
        one_base(root),
        plain_token(name),
        root matches JsonTree::Object(es) && (lookup(es@, k) matches Some(JsonTree::Object(ds)) && lookup(ds@, name)
            == Some(t)),
    ensures
        ref_target(root, "#/"@ + k + "/"@ + name) == Target::At(t),
{
    reveal_strlit("$defs");
    reveal_strlit("definitions");
    reveal_strlit("properties");
    reveal_strlit("patternProperties");
    reveal_strlit("dependentSchemas");
    reveal_strlit("dependencies");
    reveal_strlit("not");
    reveal_strlit("if");
    reveal_strlit("then");
    reveal_strlit("else");
    reveal_strlit("additionalProperties");
    reveal_strlit("unevaluatedProperties");
    reveal_strlit("contains");
    reveal_strlit("propertyNames");
    reveal_strlit("additionalItems");
    reveal_strlit("items");
    reveal_strlit("allOf");
    reveal_strlit("anyOf");
    reveal_strlit("oneOf");
    reveal_strlit("prefixItems");
    assert(plain_token(k));
    lemma_plain_pointer(k, name);
    let r = "#/"@ + k + "/"@ + name;
    reveal_strlit("#/");
    reveal_strlit("/");
    assert(r[0] == '#' && r[1] == '/' && r.len() > 1);
    assert(map_kw(k));
    let toks = seq![k, name];
    assert(toks[0] == k && toks[1] == name && toks.len() == 2);
    let es = root->Object_0;
    let ds = lookup(es@, k)->Some_0->Object_0;
    assert(walk_pointer(root, Place::Schema, toks, 0) == walk_pointer(
        JsonTree::Object(ds),
        Place::Entries,
        toks,
        1,
    ));
    assert(walk_pointer(JsonTree::Object(ds), Place::Entries, toks, 1) == walk_pointer(t, Place::Schema, toks, 2));
    assert(walk_pointer(t, Place::Schema, toks, 2) == Target::At(t));
}

/// A reference `#/{k}` to the one subschema of a keyword (`not`, `if`,
/// `then`, `else`, `additionalProperties`, `unevaluatedProperties`,
/// `contains`, `propertyNames`, `additionalItems`, or `items` holding a
/// schema) leads to that subschema.
pub proof fn lemma_pointer_into_single_subschema(root: JsonTree, k: Seq<char>, t: JsonTree)
    requires
        k == "not"@ || k == "if"@ || k == "then"@ || k == "else"@ || k == "additionalProperties"@
            || k == "unevaluatedProperties"@ || k == "contains"@ || k == "propertyNames"@ || k == "additionalItems"@
            || (k == "items"@ && !(t is Array)),
        one_base(root),
        root matches JsonTree::Object(es) && lookup(es@, k) == Some(t),
    ensures
        ref_target(root, "#/"@ + k) == Target::At(t),
{
    reveal_strlit("$defs");
    reveal_strlit("definitions");
    reveal_strlit("properties");
    reveal_strlit("patternProperties");
    reveal_strlit("dependentSchemas");
    reveal_strlit("dependencies");
    reveal_strlit("not");
    reveal_strlit("if");
    reveal_strlit("then");
    reveal_strlit("else");
    reveal_strlit("additionalProperties");
    reveal_strlit("unevaluatedProperties");
    reveal_strlit("contains");
    reveal_strlit("propertyNames");
    reveal_strlit("additionalItems");
    reveal_strlit("items");
    reveal_strlit("allOf");
    reveal_strlit("anyOf");
    reveal_strlit("oneOf");
    reveal_strlit("prefixItems");
    assert(plain_token(k));
    lemma_plain_pointer(k, k);
    let r = "#/"@ + k;
    reveal_strlit("#/");
    assert(r[0] == '#' && r[1] == '/' && r.len() > 1);
    assert(single_kw(k) && !map_kw(k));
    assert(!(list_kw(k) && t is Array));
    let toks = seq![k];
    assert(toks[0] == k && toks.len() == 1);
    assert(walk_pointer(root, Place::Schema, toks, 0) == walk_pointer(t, Place::Schema, toks, 1));
    assert(walk_pointer(t, Place::Schema, toks, 1) == Target::At(t));
}

/// The document's references can be ranked so that, for each of them, the
/// chains from the schema it names meet only references of the document
/// with a lower rank: no chain of references goes round.
pub open spec fn ranked_by(root: JsonTree, rank: spec_fn(Seq<char>) -> nat) -> bool {
    forall|r: Seq<char>|
        #![trigger schema_refs(root).contains(r)]
        schema_refs(root).contains(r) ==> match ref_target(root, r) {
            Target::Unknown => false,
            Target::Missing => true,
            Target::At(t) => forall|m: int|
                0 <= m < walk_refs(t, Walk::Chain).len() ==> schema_refs(root).contains(
                    #[trigger] walk_refs(t, Walk::Chain)[m],
                ) && rank(walk_refs(t, Walk::Chain)[m]) < rank(r),
        }
}

proof fn lemma_ranked_chain(root: JsonTree, rank: spec_fn(Seq<char>) -> nat, r: Seq<char>)
    requires
        ranked_by(root, rank),
        schema_refs(root).contains(r),
    ensures
        chain_ok(root, r, rank(r) + 1),
    decreases rank(r),
{
    match ref_target(root, r) {
        Target::At(t) => {
            let cl = walk_refs(t, Walk::Chain);
            assert forall|m: int| 0 <= m < cl.len() implies schema_refs(root).contains(#[trigger] cl[m]) && chain_ok(
                root,
                cl[m],
                rank(r),
            ) by {
                assert(schema_refs(root).contains(cl[m]) && rank(cl[m]) < rank(r));
                lemma_ranked_chain(root, rank, cl[m]);
                lemma_chain_upto(root, cl[m], rank(cl[m]) + 1, rank(r));
            }
        },
        _ => {},
    }
}

/// A document whose references can be ranked so that no chain of them goes
/// round (and each of them can be followed) is accepted.
pub proof fn lemma_acyclic_references_settle(root: JsonTree, rank: spec_fn(Seq<char>) -> nat)
    requires
        ranked_by(root, rank),
    ensures
        references_settled(root),
{
    let l = schema_refs(root);
    assert forall|i: int| 0 <= i < l.len() implies ref_ends(root, #[trigger] l[i]) by {
        assert(l.contains(l[i]));
        lemma_ranked_chain(root, rank, l[i]);
    }
}

/// A document is refused when one of its references names a schema whose
/// chains meet that same reference again.
pub proof fn lemma_reference_cycle_refused(root: JsonTree, i: int, t: JsonTree)
    requires
        0 <= i < schema_refs(root).len(),
        ref_target(root, schema_refs(root)[i]) == Target::At(t),
        walk_refs(t, Walk::Chain).contains(schema_refs(root)[i]),
    ensures
        !references_settled(root),
{
    let r = schema_refs(root)[i];
    assert forall|j: nat| !chain_ok(root, r, j) by {
        lemma_cycle_never_ok(root, r, t, j);
    }
    assert(!ref_ends(root, r));
}

proof fn lemma_cycle_never_ok(root: JsonTree, r: Seq<char>, t: JsonTree, j: nat)
    requires
        ref_target(root, r) == Target::At(t),
        walk_refs(t, Walk::Chain).contains(r),
    ensures
        !chain_ok(root, r, j),
    decreases j,
{
    if j > 0 {
        lemma_cycle_never_ok(root, r, t, (j - 1) as nat);
        let cl = walk_refs(t, Walk::Chain);
        let m = choose|m: int| 0 <= m < cl.len() && cl[m] == r;
        assert(!chain_ok(root, cl[m], (j - 1) as nat));
    }
}

proof fn lemma_concat_contains(a: Seq<Seq<char>>, b: Seq<Seq<char>>, x: Seq<char>)
    requires
        a.contains(x) || b.contains(x),
    ensures
        (a + b).contains(x),
{
    if a.contains(x) {
        let k = choose|k: int| 0 <= k < a.len() && a[k] == x;
        assert((a + b)[k] == x);
    } else {
        let k = choose|k: int| 0 <= k < b.len() && b[k] == x;
        assert((a + b)[a.len() + k] == x);
    }
}

proof fn lemma_entries_contain(es: Seq<(String, JsonTree)>, n: int, i: int, w: Walk, x: Seq<char>)
    requires
        0 <= i < n <= es.len(),
        entry_refs(es[i], w).contains(x),
    ensures
        entries_refs(es, n, w).contains(x),
    decreases n,
{
    if i < n - 1 {
        lemma_entries_contain(es, n - 1, i, w, x);
    }
    lemma_concat_contains(entries_refs(es, n - 1, w), entry_refs(es[n - 1], w), x);
}

proof fn lemma_items_contain(xs: Seq<JsonTree>, n: int, m: int, k: Seq<char>, w: Walk, w2: Walk, x: Seq<char>)
    requires
        0 <= m < n <= xs.len(),
        kid_walk(w, k, xs[m]) == Some(w2),
        walk_refs(xs[m], w2).contains(x),
    ensures
        items_refs(xs, n, k, w).contains(x),
    decreases n,
{
    if m < n - 1 {
        lemma_items_contain(xs, n - 1, m, k, w, w2, x);
    }
    let last = match kid_walk(w, k, xs[n - 1]) {
        Some(w3) => walk_refs(xs[n - 1], w3),
        None => seq![],
    };
    lemma_concat_contains(items_refs(xs, n - 1, k, w), last, x);
}

proof fn lemma_values_contain(
    ms: Seq<(String, JsonTree)>,
    n: int,
    m: int,
    k: Seq<char>,
    w: Walk,
    w2: Walk,
    x: Seq<char>,
)
    requires
        0 <= m < n <= ms.len(),
        kid_walk(w, k, ms[m].1) == Some(w2),
        walk_refs(ms[m].1, w2).contains(x),
    ensures
        values_refs(ms, n, k, w).contains(x),
    decreases n,
{
    if m < n - 1 {
        lemma_values_contain(ms, n - 1, m, k, w, w2, x);
    }
    let last = match kid_walk(w, k, ms[n - 1].1) {
        Some(w3) => walk_refs(ms[n - 1].1, w3),
        None => seq![],
    };
    lemma_concat_contains(values_refs(ms, n - 1, k, w), last, x);
}

proof fn lemma_own_ref_seen(c: JsonTree, s: Seq<char>)
    requires
        c matches JsonTree::Object(cs) && lookup(cs@, "$ref"@) matches Some(JsonTree::Str(x)) && x@ == s,
    ensures
        walk_refs(c, Walk::Chain).contains(s),
{
    let cs = c->Object_0;
    assert(own_refs(c) == seq![s]);
    assert(own_refs(c)[0] == s);
    lemma_concat_contains(own_refs(c), entries_refs(cs@, cs@.len() as int, Walk::Chain), s);
}

proof fn lemma_chain_of_entry(t: JsonTree, i: int, s: Seq<char>)
    requires
        t matches JsonTree::Object(es) && 0 <= i < es@.len() && entry_refs(es@[i], Walk::Chain).contains(s),
    ensures
        walk_refs(t, Walk::Chain).contains(s),
{
    let es = t->Object_0;
    lemma_entries_contain(es@, es@.len() as int, i, Walk::Chain, s);
    lemma_concat_contains(own_refs(t), entries_refs(es@, es@.len() as int, Walk::Chain), s);
}

/// The chains from a schema meet the reference of its `not`, `if`, `then`
/// or `else` subschema, which applies to the same instance.
pub proof fn lemma_chain_meets_single_in_place_reference(t: JsonTree, i: int, s: Seq<char>)
    requires
        t matches JsonTree::Object(es) && 0 <= i < es@.len() && (es@[i].0@ == "not"@ || es@[i].0@ == "if"@
            || es@[i].0@ == "then"@ || es@[i].0@ == "else"@) && (es@[i].1 matches JsonTree::Object(cs) && lookup(
            cs@,
            "$ref"@,
        ) matches Some(JsonTree::Str(x)) && x@ == s),
    ensures
        walk_refs(t, Walk::Chain).contains(s),
{
    reveal_strlit("not");
    reveal_strlit("if");
    reveal_strlit("then");
    reveal_strlit("else");
    reveal_strlit("properties");
    reveal_strlit("patternProperties");
    reveal_strlit("dependentSchemas");
    reveal_strlit("dependencies");
    reveal_strlit("$defs");
    reveal_strlit("definitions");
    let es = t->Object_0;
    let e = es@[i];
    assert(e.0@ == "not"@ || e.0@ == "if"@ || e.0@ == "then"@ || e.0@ == "else"@);
    assert(single_kw(e.0@));
    assert(in_place_kw(e.0@));
    assert(e.0@.len() <= 4);
    assert("$defs"@.len() == 5 && "definitions"@.len() == 11 && "properties"@.len() == 10);
    assert("patternProperties"@.len() == 17 && "dependentSchemas"@.len() == 16 && "dependencies"@.len() == 12);
    assert(!map_kw(e.0@));
    lemma_own_ref_seen(e.1, s);
    assert(kid_refs(e.0@, e.1, Walk::Chain) == walk_refs(e.1, Walk::Chain));
    lemma_chain_of_entry(t, i, s);
}

/// The chains from a schema meet the reference of each subschema of its
/// `allOf`, `anyOf` or `oneOf`, which apply to the same instance.
pub proof fn lemma_chain_meets_combined_reference(t: JsonTree, i: int, m: int, s: Seq<char>)
    requires
        t matches JsonTree::Object(es) && 0 <= i < es@.len() && (es@[i].0@ == "allOf"@ || es@[i].0@ == "anyOf"@
            || es@[i].0@ == "oneOf"@) && (es@[i].1 matches JsonTree::Array(xs) && 0 <= m < xs@.len() && (
        xs@[m] matches JsonTree::Object(cs) && lookup(cs@, "$ref"@) matches Some(JsonTree::Str(x)) && x@ == s)),
    ensures
        walk_refs(t, Walk::Chain).contains(s),
{
    reveal_strlit("allOf");
    reveal_strlit("anyOf");
    reveal_strlit("oneOf");
    reveal_strlit("prefixItems");
    reveal_strlit("items");
    let es = t->Object_0;
    let e = es@[i];
    let xs = e.1->Array_0;
    assert(list_kw(e.0@) && in_place_kw(e.0@));
    lemma_own_ref_seen(xs@[m], s);
    lemma_items_contain(xs@, xs@.len() as int, m, e.0@, Walk::Chain, Walk::Chain, s);
    lemma_chain_of_entry(t, i, s);
}

/// The chains from a schema meet the reference of each subschema of its
/// `dependentSchemas` (same instance), and of each of its `properties` that
/// holds `unevaluatedProperties` other than `true` (compiled at once).
pub proof fn lemma_chain_meets_entry_reference(t: JsonTree, i: int, m: int, s: Seq<char>)
    requires
        t matches JsonTree::Object(es) && 0 <= i < es@.len() && (es@[i].1 matches JsonTree::Object(ms) && 0 <= m
            < ms@.len() && (ms@[m].1 matches JsonTree::Object(cs) && lookup(cs@, "$ref"@) matches Some(
            JsonTree::Str(x),
        ) && x@ == s && (es@[i].0@ == "dependentSchemas"@ || (es@[i].0@ == "properties"@ && lookup(cs@, "unevaluatedProperties"@) is Some && lookup(
            cs@,
            "unevaluatedProperties"@,
        ) != Some(JsonTree::Bool(true)))))),
    ensures
        walk_refs(t, Walk::Chain).contains(s),
{
    reveal_strlit("dependentSchemas");
    reveal_strlit("properties");
    reveal_strlit("$defs");
    reveal_strlit("definitions");
    let es = t->Object_0;
    let e = es@[i];
    let ms = e.1->Object_0;
    assert(e.0@ == "dependentSchemas"@ || e.0@ == "properties"@);
    assert(map_kw(e.0@));
    assert(e.0@.len() == 10 || e.0@.len() == 16);
    assert("$defs"@.len() == 5 && "definitions"@.len() == 11);
    assert(compiled_kw(e.0@));
    assert(kid_walk(Walk::Chain, e.0@, ms@[m].1) == Some(Walk::Chain));
    lemma_own_ref_seen(ms@[m].1, s);
    lemma_values_contain(ms@, ms@.len() as int, m, e.0@, Walk::Chain, Walk::Chain, s);
    lemma_chain_of_entry(t, i, s);
}

} // verus!
