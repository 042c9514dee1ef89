use vstd::prelude::*;

verus! {

#[verifier::external_type_specification]
#[verifier::external_body]
pub struct ExJsonValue(serde_json::Value);

#[verifier::external_type_specification]
#[verifier::external_body]
#[verifier::reject_recursive_types(K)]
#[verifier::reject_recursive_types(V)]
pub struct ExJsonMap<K, V>(serde_json::Map<K, V>);

/// What parsing a text as JSON yields; parsing depends on the characters
/// alone, and malformed text yields nothing.
pub uninterp spec fn parsed_json(s: Seq<char>) -> Option<serde_json::Value>;

/// The sub-value stored under a field name, when the value is an object
/// holding that field.
pub uninterp spec fn obj_field(v: serde_json::Value, name: Seq<char>) -> Option<
    serde_json::Value,
>;

/// The characters of a JSON string value, when the value is a string.
pub uninterp spec fn str_content(v: serde_json::Value) -> Option<Seq<char>>;

/// The string-valued fields of a JSON object value; empty when the value is
/// not an object.
pub uninterp spec fn str_fields(v: serde_json::Value) -> Map<Seq<char>, Seq<char>>;

/// The string-valued entries of a JSON object map.
pub uninterp spec fn map_str_entries(m: serde_json::Map<String, serde_json::Value>) -> Map<
    Seq<char>,
    Seq<char>,
>;

/// Whether every value of a JSON object map is a string.
pub uninterp spec fn all_strings(m: serde_json::Map<String, serde_json::Value>) -> bool;

/// Relies on serde_json::from_str::<Value>: the parse is a pure function of
/// the input text, and malformed input is reported as an error, not a panic.
#[verifier::external_body]
pub(crate) fn json_from_str(s: &str) -> (r: Option<serde_json::Value>)
    ensures
        r == parsed_json(s@),
{
    serde_json::from_str::<serde_json::Value>(s).ok()
}

/// Relies on serde_json::Value::get: looking a field up by name depends on
/// the value and the name alone, and yields nothing on non-objects.
#[verifier::external_body]
pub(crate) fn json_get<'a>(v: &'a serde_json::Value, name: &str) -> (r: Option<
    &'a serde_json::Value,
>)
    ensures
        match r {
            Some(f) => obj_field(*v, name@) == Some(*f),
            None => obj_field(*v, name@) is None,
        },
{
    v.get(name)
}

/// Relies on serde_json::Value::as_str: a string value hands out its
/// characters, any other value hands out nothing.
#[verifier::external_body]
pub(crate) fn json_as_str<'a>(v: &'a serde_json::Value) -> (r: Option<&'a str>)
    ensures
        match r {
            Some(s) => str_content(*v) == Some(s@),
            None => str_content(*v) is None,
        },
{
    v.as_str()
}

/// The empty text-to-text mapping.
pub open spec fn no_entries() -> Map<Seq<char>, Seq<char>> {
    Map::empty()
}

/// Relies on serde_json::Map::new: a new object map has no entries.
#[verifier::external_body]
pub(crate) fn json_map_new() -> (r: serde_json::Map<String, serde_json::Value>)
    ensures
        map_str_entries(r) == no_entries(),
        all_strings(r),
{
    serde_json::Map::new()
}

/// Relies on serde_json::Map::insert: inserting a string value adds or
/// replaces exactly that entry.
#[verifier::external_body]
pub(crate) fn json_map_insert_str(
    m: &mut serde_json::Map<String, serde_json::Value>,
    k: &str,
    v: &str,
)
    ensures
        map_str_entries(*final(m)) == map_str_entries(*old(m)).insert(k@, v@),
        all_strings(*old(m)) ==> all_strings(*final(m)),
{
    m.insert(k.to_string(), serde_json::Value::String(v.to_string()));
}

/// Relies on serde_json's serializer (`Value::to_string` on an object) and
/// parser: the rendered text is a function of the map alone (keys are kept
/// in the map's own deterministic order), and for a flat object of string
/// values — well within the parser's recursion limit — parsing the text
/// back yields an object with exactly the same string-valued fields.
#[verifier::external_body]
pub(crate) fn json_obj_to_string(m: serde_json::Map<String, serde_json::Value>) -> (r: String)
    requires
        all_strings(m),
    ensures
        parsed_json(r@) is Some,
        str_fields(parsed_json(r@)->Some_0) == map_str_entries(m),
{
    serde_json::Value::Object(m).to_string()
}

/// Relies on serde_json::Value::as_object and Map iteration: hands the
/// string-valued fields out as plain pairs with pairwise-distinct keys,
/// covering every string-valued field; a non-object yields no pairs.
#[verifier::external_body]
pub(crate) fn json_str_fields_vec(v: &serde_json::Value) -> (r: Vec<(String, String)>)
    ensures
        forall|i: int|
            0 <= i < r@.len() ==> str_fields(*v).contains_key(#[trigger] r@[i].0@) && str_fields(
                *v,
            )[r@[i].0@] == r@[i].1@,
        forall|i: int, j: int| 0 <= i < j < r@.len() ==> #[trigger] r@[i].0@ != #[trigger] r@[j].0@,
        forall|k: Seq<char>| #[trigger] str_fields(*v).contains_key(k) ==> exists|i: int|
            0 <= i < r@.len() && #[trigger] r@[i].0@ == k,
{
    let mut out: Vec<(String, String)> = Vec::new();
    if let Some(m) = v.as_object() {
        for (k, x) in m.iter() {
            if let Some(s) = x.as_str() {
                out.push((k.clone(), s.to_string()));
            }
        }
    }
    out
}

} // verus!
