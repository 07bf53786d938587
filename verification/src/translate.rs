use vstd::prelude::*;
use vstd::string::*;
use indexmap::IndexMap;
use crate::error::{document_problem, Failure, Problem, ProblemView};
use crate::ir::{
    definitions_view, field_names, fields_view, lemma_fields_view, optional_text, optional_texts,
    DefinitionView, Enum, EnumView, Field, FieldView, Object, ObjectView, OptionalText,
    OptionalTexts, ProtocolType, Type, TypeView,
};
use crate::json::{
    items_view, lemma_get_decreases, member_keys, members_view, find_member, Json, JsonView,
    Member, MemberView,
};
use crate::names::{distinct, lemma_position, position};
use crate::table::{
    entry_values, keyed_by_name, lemma_insert_merges, lemma_merge_field_distinct,
    lemma_merge_field_find, merge_field, merge_fields, table_entries, table_insert, table_new,
    table_values,
};
use crate::text::{str_eq, strings_view, strip_prefix};

verus! {

/// The views of a sequence of string slices.
pub open spec fn strs_view(v: Seq<&str>) -> Seq<Seq<char>> {
    Seq::new(v.len(), |i: int| v[i]@)
}

/// Whether the `type` keyword of `node` is an array of exactly the strings `kinds`.
pub open spec fn is_type_list(node: JsonView, kinds: Seq<Seq<char>>) -> bool {
    match node.get("type"@) {
        Some(JsonView::Array(items)) => items.len() == kinds.len() && forall|i: int|
            0 <= i < kinds.len() ==> #[trigger] items[i] == JsonView::String(kinds[i]),
        _ => false,
    }
}

/// The seven kinds of JSON value. A schema that admits them all is untyped.
pub open spec fn any_kinds() -> Seq<Seq<char>> {
    seq!["array"@, "boolean"@, "integer"@, "null"@, "number"@, "object"@, "string"@]
}

/// The kinds of a string that may be null.
pub open spec fn nullable_string_kinds() -> Seq<Seq<char>> {
    seq!["string"@, "null"@]
}

/// The kinds of a module identifier: a number or a string.
pub open spec fn module_id_kinds() -> Seq<Seq<char>> {
    seq!["integer"@, "string"@]
}

/// The prefix of a reference to a definition of the same document.
pub open spec fn local_prefix() -> Seq<char> {
    "#/definitions/"@
}

/// The name that the value `r` of a `$ref` refers to.
pub open spec fn reference_target(r: JsonView) -> Result<Seq<char>, Failure> {
    match r {
        JsonView::String(s) => if local_prefix().is_prefix_of(s) {
            Ok(s.skip(local_prefix().len() as int))
        } else {
            Err(Failure::BadReference)
        },
        _ => Err(Failure::BadReference),
    }
}

/// Whether every one of `items` is a string.
pub open spec fn all_strings(items: Seq<JsonView>) -> bool {
    forall|i: int| 0 <= i < items.len() ==> (#[trigger] items[i]) is String
}

/// The texts of `items`, which are strings.
pub open spec fn texts(items: Seq<JsonView>) -> Seq<Seq<char>> {
    Seq::new(items.len(), |i: int| items[i]->String_0)
}

/// The texts of the array of strings `value`.
pub open spec fn texts_of(value: JsonView) -> Result<Seq<Seq<char>>, Failure> {
    match value {
        JsonView::Array(items) => if all_strings(items) {
            Ok(texts(items))
        } else {
            Err(Failure::BadKeyword)
        },
        _ => Err(Failure::BadKeyword),
    }
}

/// The text under the keyword `key` of `node`, where it has that keyword.
pub open spec fn text_keyword(node: JsonView, key: Seq<char>) -> Result<OptionalText, Failure> {
    match node.get(key) {
        None => Ok(OptionalText::Absent),
        Some(JsonView::String(s)) => Ok(OptionalText::Present(s)),
        Some(_) => Err(Failure::BadKeyword),
    }
}

/// The texts under the keyword `key` of `node`, where it has that keyword.
pub open spec fn texts_keyword(node: JsonView, key: Seq<char>) -> Result<OptionalTexts, Failure> {
    match node.get(key) {
        None => Ok(OptionalTexts::Absent),
        Some(value) => match texts_of(value) {
            Ok(t) => Ok(OptionalTexts::Present(t)),
            Err(e) => Err(e),
        },
    }
}

/// The names that `node` requires; none where it has no `required` keyword.
pub open spec fn required_names(node: JsonView) -> Result<Seq<Seq<char>>, Failure> {
    match node.get("required"@) {
        None => Ok(Seq::empty()),
        Some(value) => texts_of(value),
    }
}

/// The enum of the values `values`, of which there is at least one.
pub open spec fn enum_of(
    values: JsonView,
    doc: OptionalText,
    exhaustive: bool,
    variant_descriptions: OptionalTexts,
) -> Result<TypeView, Failure> {
    match texts_of(values) {
        Ok(variants) => if variants.len() == 0 {
            Err(Failure::EmptyEnum)
        } else {
            Ok(TypeView::Enum(EnumView { doc, variants, exhaustive, variant_descriptions }))
        },
        Err(e) => Err(e),
    }
}

/// The shape of a schema of type `string`: an exhaustive enum where it has
/// `enum`, an open one where it has `_enum`, and else a plain string.
pub open spec fn translate_string_spec(node: JsonView) -> Result<TypeView, Failure> {
    match text_keyword(node, "description"@) {
        Err(e) => Err(e),
        Ok(doc) => match texts_keyword(node, "enumDescriptions"@) {
            Err(e) => Err(e),
            Ok(descriptions) => match node.get("enum"@) {
                Some(values) => enum_of(values, doc, true, descriptions),
                None => match node.get("_enum"@) {
                    Some(values) => enum_of(values, doc, false, descriptions),
                    None => Ok(TypeView::Reference("String"@)),
                },
            },
        },
    }
}

/// How many of the first `n` of `defs` none of `path` names. An `allOf` that
/// follows a `$ref` enters a definition that `path` does not name, so that
/// fewer are left each time.
pub open spec fn unvisited(defs: Seq<MemberView>, path: Seq<Seq<char>>, n: nat) -> nat
    decreases n,
{
    if n == 0 || n > defs.len() {
        0
    } else if path.contains(defs[n - 1].key) {
        unvisited(defs, path, (n - 1) as nat)
    } else {
        unvisited(defs, path, (n - 1) as nat) + 1
    }
}

/// A longer path leaves no more definitions unvisited, and fewer where its
/// new name is that of a definition which it did not name before.
pub proof fn lemma_unvisited_decreases(
    defs: Seq<MemberView>,
    path: Seq<Seq<char>>,
    name: Seq<char>,
    n: nat,
    k: int,
)
    requires
        n <= defs.len(),
    ensures
        unvisited(defs, path.push(name), n) <= unvisited(defs, path, n),
        0 <= k < n && defs[k].key == name && !path.contains(name) ==> unvisited(
            defs,
            path.push(name),
            n,
        ) < unvisited(defs, path, n),
    decreases n,
{
    if n > 0 {
        lemma_unvisited_decreases(defs, path, name, (n - 1) as nat, k);
        let key = defs[n - 1].key;
        let longer = path.push(name);
        if path.contains(key) {
            let i = choose|i: int| 0 <= i < path.len() && path[i] == key;
            assert(longer[i] == key);
        }
        if key == name {
            assert(longer[path.len() as int] == name);
        }
    }
}

/// The shape of the schema `node`, among the definitions `defs`. `path` names
/// the definitions whose `allOf` is being resolved around `node`.
///
/// The rules, of which the first that applies decides: a `type` of all seven
/// kinds is untyped; a `type` of string and null is an optional string; a
/// `type` of integer and string is a module identifier; a `$ref` is a
/// reference; an `allOf` is the merged record of its members; else the `type`
/// keyword decides, and a kind that is none of the known ones is a reference
/// to a type of that name.
pub open spec fn translate_type_spec(
    defs: Seq<MemberView>,
    node: JsonView,
    path: Seq<Seq<char>>,
) -> Result<TypeView, Failure>
    decreases unvisited(defs, path, defs.len()), node, 3int, 0int,
{
    if is_type_list(node, any_kinds()) {
        Ok(TypeView::Any)
    } else if is_type_list(node, nullable_string_kinds()) {
        Ok(TypeView::Optional(Box::new(TypeView::Reference("String"@))))
    } else if is_type_list(node, module_id_kinds()) {
        Ok(TypeView::Reference("ModuleId"@))
    } else if let Some(r) = node.get("$ref"@) {
        match reference_target(r) {
            Ok(name) => Ok(TypeView::Reference(name)),
            Err(e) => Err(e),
        }
    } else if node.get("allOf"@) is Some {
        match translate_all_of_spec(defs, node, path) {
            Ok(o) => Ok(TypeView::Object(o)),
            Err(e) => Err(e),
        }
    } else {
        match node.get("type"@) {
            Some(JsonView::String(kind)) => {
                if kind == "integer"@ || kind == "number"@ {
                    Ok(TypeView::Reference("u64"@))
                } else if kind == "boolean"@ {
                    Ok(TypeView::Reference("bool"@))
                } else if kind == "string"@ {
                    translate_string_spec(node)
                } else if kind == "object"@ {
                    if node.get("properties"@) is None && node.get("additionalProperties"@) is Some {
                        Ok(TypeView::Any)
                    } else {
                        match translate_object_spec(defs, node, path) {
                            Ok(o) => Ok(TypeView::Object(o)),
                            Err(e) => Err(e),
                        }
                    }
                } else if kind == "array"@ {
                    match node.get("items"@) {
                        Some(items) => {
                            proof {
                                lemma_get_decreases(node, "items"@);
                            }
                            match translate_type_spec(defs, items, path) {
                                Ok(item) => Ok(TypeView::List(Box::new(item))),
                                Err(e) => Err(e),
                            }
                        },
                        None => Err(Failure::BadKeyword),
                    }
                } else {
                    Ok(TypeView::Reference(kind))
                }
            },
            _ => Err(Failure::MissingType),
        }
    }
}

/// The record that the `allOf` node `node` merges from its members. The node
/// has no key besides `allOf`.
pub open spec fn translate_all_of_spec(
    defs: Seq<MemberView>,
    node: JsonView,
    path: Seq<Seq<char>>,
) -> Result<ObjectView, Failure>
    decreases unvisited(defs, path, defs.len()), node, 2int, 0int,
{
    match node {
        JsonView::Object(members) if members.len() == 1 => match node.get("allOf"@) {
            Some(JsonView::Array(items)) => {
                proof {
                    lemma_get_decreases(node, "allOf"@);
                }
                translate_members_spec(
                    defs,
                    items,
                    path,
                    0,
                    ObjectView { doc: OptionalText::Absent, fields: Seq::empty() },
                )
            },
            _ => Err(Failure::BadKeyword),
        },
        _ => Err(Failure::AllOfSiblings),
    }
}

/// The record `acc` after the members `items[i..]` of an `allOf` are merged
/// into it in order. A field of a later member replaces the field of that name
/// where it stands, and the description of the last member that has one is
/// the description of the record.
pub open spec fn translate_members_spec(
    defs: Seq<MemberView>,
    items: Seq<JsonView>,
    path: Seq<Seq<char>>,
    i: nat,
    acc: ObjectView,
) -> Result<ObjectView, Failure>
    decreases unvisited(defs, path, defs.len()), items, 0int, items.len() - i,
{
    if i >= items.len() {
        Ok(acc)
    } else {
        match member_object_spec(defs, items[i as int], path) {
            Err(e) => Err(e),
            Ok(o) => translate_members_spec(defs, items, path, i + 1, merge_object(acc, o)),
        }
    }
}

/// The record `acc` after the record `o` is merged into it.
pub open spec fn merge_object(acc: ObjectView, o: ObjectView) -> ObjectView {
    ObjectView {
        doc: if o.doc is Present {
            o.doc
        } else {
            acc.doc
        },
        fields: merge_fields(acc.fields, o.fields, o.fields.len()),
    }
}

/// The record of the member `member` of an `allOf`: the record that the
/// definition is which its `$ref` names, or the inline record that it is.
pub open spec fn member_object_spec(
    defs: Seq<MemberView>,
    member: JsonView,
    path: Seq<Seq<char>>,
) -> Result<ObjectView, Failure>
    decreases unvisited(defs, path, defs.len()), member, 1int, 0int,
{
    match member.get("$ref"@) {
        Some(r) => match reference_target(r) {
            Err(e) => Err(e),
            Ok(name) => match position(member_keys(defs), name) {
                None => Err(Failure::UnknownReference),
                Some(k) => if path.contains(name) {
                    Err(Failure::CyclicReference)
                } else {
                    proof {
                        lemma_position(member_keys(defs), name);
                        lemma_unvisited_decreases(defs, path, name, defs.len(), k);
                    }
                    match translate_type_spec(defs, defs[k].value, path.push(name)) {
                        Err(e) => Err(e),
                        Ok(TypeView::Object(o)) => Ok(o),
                        Ok(_) => Err(Failure::NotAnObject),
                    }
                },
            },
        },
        None => translate_object_spec(defs, member, path),
    }
}

/// The record of the object schema `node`.
pub open spec fn translate_object_spec(
    defs: Seq<MemberView>,
    node: JsonView,
    path: Seq<Seq<char>>,
) -> Result<ObjectView, Failure>
    decreases unvisited(defs, path, defs.len()), node, 0int, 0int,
{
    if node.get("type"@) != Some(JsonView::String("object"@)) {
        Err(Failure::NotAnObject)
    } else {
        match required_names(node) {
            Err(e) => Err(e),
            Ok(required) => {
                let fields = match node.get("properties"@) {
                    None => Ok(Seq::empty()),
                    Some(JsonView::Object(props)) => {
                        proof {
                            lemma_get_decreases(node, "properties"@);
                        }
                        translate_fields_spec(defs, props, required, path, 0, Seq::empty())
                    },
                    Some(_) => Err(Failure::BadKeyword),
                };
                match fields {
                    Err(e) => Err(e),
                    Ok(fields) => match text_keyword(node, "description"@) {
                        Err(e) => Err(e),
                        Ok(doc) => Ok(ObjectView { doc, fields }),
                    },
                }
            },
        }
    }
}

/// The fields `acc` after the properties `props[i..]` are merged into them in
/// order.
pub open spec fn translate_fields_spec(
    defs: Seq<MemberView>,
    props: Seq<MemberView>,
    required: Seq<Seq<char>>,
    path: Seq<Seq<char>>,
    i: nat,
    acc: Seq<FieldView>,
) -> Result<Seq<FieldView>, Failure>
    decreases unvisited(defs, path, defs.len()), props, 0int, props.len() - i,
{
    if i >= props.len() {
        Ok(acc)
    } else {
        match field_spec(defs, props[i as int], required, path) {
            Err(e) => Err(e),
            Ok(f) => translate_fields_spec(defs, props, required, path, i + 1, merge_field(acc, f)),
        }
    }
}

/// The field of the property `prop`: required where `required` holds its name.
pub open spec fn field_spec(
    defs: Seq<MemberView>,
    prop: MemberView,
    required: Seq<Seq<char>>,
    path: Seq<Seq<char>>,
) -> Result<FieldView, Failure>
    decreases unvisited(defs, path, defs.len()), prop, 0int, 0int,
{
    match text_keyword(prop.value, "description"@) {
        Err(e) => Err(e),
        Ok(doc) => match translate_type_spec(defs, prop.value, path) {
            Err(e) => Err(e),
            Ok(ty) => Ok(FieldView { doc, name: prop.key, ty, required: required.contains(prop.key) }),
        },
    }
}

/// Whether `name` is one of the envelope types of the protocol or one of the
/// arguments that stay raw JSON, which are declared by hand and not translated.
pub open spec fn is_excluded_spec(name: Seq<char>) -> bool {
    name == "ProtocolMessage"@ || name == "Request"@ || name == "Event"@ || name == "Response"@
        || name == "ErrorResponse"@ || name == "RestartArguments"@ || name
        == "LaunchRequestArguments"@ || name == "AttachRequestArguments"@
}

/// The definitions `acc` followed by the translations of `defs[i..]`, without
/// those that are excluded.
pub open spec fn translate_definitions_spec(
    defs: Seq<MemberView>,
    i: nat,
    acc: Seq<DefinitionView>,
) -> Result<Seq<DefinitionView>, ProblemView>
    decreases defs.len() - i,
{
    if i >= defs.len() {
        Ok(acc)
    } else if is_excluded_spec(defs[i as int].key) {
        translate_definitions_spec(defs, i + 1, acc)
    } else {
        match translate_type_spec(defs, defs[i as int].value, Seq::empty()) {
            Err(e) => Err(ProblemView { definition: defs[i as int].key, failure: e }),
            Ok(ty) => translate_definitions_spec(
                defs,
                i + 1,
                acc.push(DefinitionView { name: defs[i as int].key, ty }),
            ),
        }
    }
}

/// The definitions of the document `schema`, translated in document order.
/// The first definition that cannot be translated is the problem.
pub open spec fn protocol_types_spec(schema: JsonView) -> Result<
    Seq<DefinitionView>,
    ProblemView,
> {
    match schema.get("definitions"@) {
        Some(JsonView::Object(defs)) => translate_definitions_spec(defs, 0, Seq::empty()),
        _ => Err(document_problem(Failure::NoDefinitions)),
    }
}

/// The view of the outcome of translating a type.
pub open spec fn type_result(r: Result<Type, Failure>) -> Result<TypeView, Failure> {
    match r {
        Ok(t) => Ok(t@),
        Err(e) => Err(e),
    }
}

/// The view of the outcome of translating a record.
pub open spec fn object_result(r: Result<Object, Failure>) -> Result<ObjectView, Failure> {
    match r {
        Ok(o) => Ok(o@),
        Err(e) => Err(e),
    }
}

/// The view of the outcome of translating a field.
pub open spec fn field_result(r: Result<Field, Failure>) -> Result<FieldView, Failure> {
    match r {
        Ok(f) => Ok(f@),
        Err(e) => Err(e),
    }
}

/// The view of the outcome of translating fields.
pub open spec fn fields_result(r: Result<Vec<Field>, Failure>) -> Result<Seq<FieldView>, Failure> {
    match r {
        Ok(f) => Ok(fields_view(f@)),
        Err(e) => Err(e),
    }
}

/// The view of the outcome of reading texts.
pub open spec fn texts_result(r: Result<Vec<String>, Failure>) -> Result<Seq<Seq<char>>, Failure> {
    match r {
        Ok(t) => Ok(strings_view(t@)),
        Err(e) => Err(e),
    }
}

/// The view of the outcome of reading an optional text.
pub open spec fn optional_text_result(r: Result<Option<String>, Failure>) -> Result<
    OptionalText,
    Failure,
> {
    match r {
        Ok(t) => Ok(optional_text(t)),
        Err(e) => Err(e),
    }
}

/// The view of the outcome of reading optional texts.
pub open spec fn optional_texts_result(r: Result<Option<Vec<String>>, Failure>) -> Result<
    OptionalTexts,
    Failure,
> {
    match r {
        Ok(t) => Ok(optional_texts(t)),
        Err(e) => Err(e),
    }
}

/// The view of the outcome of translating definitions.
pub open spec fn definitions_result(r: Result<Vec<ProtocolType>, Problem>) -> Result<
    Seq<DefinitionView>,
    ProblemView,
> {
    match r {
        Ok(d) => Ok(definitions_view(d@)),
        Err(e) => Err(e@),
    }
}

/// Whether `names` holds `name`.
pub fn contains(names: &Vec<String>, name: &str) -> (r: bool)
    ensures
        r == strings_view(names@).contains(name@),
{
    let mut i: usize = 0;
    while i < names.len()
        invariant
            i <= names.len(),
            forall|j: int| 0 <= j < i ==> strings_view(names@)[j] != name@,
        decreases names.len() - i,
    {
        if str_eq(names[i].as_str(), name) {
            assert(strings_view(names@)[i as int] == name@);
            return true;
        }
        i = i + 1;
    }
    false
}

/// Whether the `type` keyword of `t` is an array of exactly the strings `values`.
pub fn is_enum_of<const N: usize>(t: &Json, values: [&str; N]) -> (r: bool)
    ensures
        r == is_type_list(t@, strs_view(values@)),
{
    let items = match t.get("type") {
        Some(v) => match v.as_array() {
            Some(items) => items,
            None => {
                return false;
            },
        },
        None => {
            return false;
        },
    };
    if items.len() != N {
        return false;
    }
    let ghost kinds = strs_view(values@);
    let ghost all = items_view(items@);
    let mut i: usize = 0;
    while i < N
        invariant
            i <= N,
            N == items.len(),
            kinds == strs_view(values@),
            all == items_view(items@),
            t@.get("type"@) == Some(JsonView::Array(all)),
            forall|j: int| 0 <= j < i ==> #[trigger] all[j] == JsonView::String(kinds[j]),
        decreases N - i,
    {
        match items[i].as_str() {
            Some(s) => {
                if !str_eq(s, values[i]) {
                    assert(all[i as int] != JsonView::String(kinds[i as int]));
                    return false;
                }
            },
            None => {
                assert(all[i as int] != JsonView::String(kinds[i as int]));
                return false;
            },
        }
        i = i + 1;
    }
    true
}

/// Whether `t` admits every kind of JSON value.
pub fn is_any(t: &Json) -> (r: bool)
    ensures
        r == is_type_list(t@, any_kinds()),
{
    let values = ["array", "boolean", "integer", "null", "number", "object", "string"];
    assert(strs_view(values@) =~= any_kinds());
    is_enum_of(t, values)
}

/// The name that the value `r` of a `$ref` refers to.
pub fn reference_name(r: &Json) -> (name: Result<String, Failure>)
    ensures
        match name {
            Ok(n) => reference_target(r@) == Ok::<Seq<char>, Failure>(n@),
            Err(e) => reference_target(r@) == Err::<Seq<char>, Failure>(e),
        },
{
    match r.as_str() {
        Some(s) => match strip_prefix(s, "#/definitions/") {
            Some(rest) => {
                proof {
                    let p = local_prefix();
                    assert(s@.subrange(0, p.len() as int) =~= p);
                    assert(s@.skip(p.len() as int) =~= rest@);
                }
                Ok(String::from_str(rest))
            },
            None => Err(Failure::BadReference),
        },
        None => Err(Failure::BadReference),
    }
}

/// The texts of the array of strings `value`.
pub fn strings_of(value: &Json) -> (r: Result<Vec<String>, Failure>)
    ensures
        texts_result(r) == texts_of(value@),
{
    let items = match value.as_array() {
        Some(items) => items,
        None => {
            return Err(Failure::BadKeyword);
        },
    };
    let ghost all = items_view(items@);
    let mut out: Vec<String> = Vec::new();
    let mut i: usize = 0;
    while i < items.len()
        invariant
            i <= items.len(),
            all == items_view(items@),
            value@ == JsonView::Array(all),
            out@.len() == i,
            forall|j: int| 0 <= j < i ==> (#[trigger] all[j]) is String,
            forall|j: int| 0 <= j < i ==> (#[trigger] out@[j])@ == all[j]->String_0,
        decreases items.len() - i,
    {
        match items[i].as_str() {
            Some(s) => {
                out.push(String::from_str(s));
            },
            None => {
                assert(!(all[i as int] is String));
                return Err(Failure::BadKeyword);
            },
        }
        i = i + 1;
    }
    assert(strings_view(out@) =~= texts(all));
    Ok(out)
}

/// The text under the keyword `key` of `node`, where it has that keyword.
pub fn text_of_keyword(node: &Json, key: &str) -> (r: Result<Option<String>, Failure>)
    ensures
        optional_text_result(r) == text_keyword(node@, key@),
{
    match node.get(key) {
        None => Ok(None),
        Some(value) => match value.as_str() {
            Some(s) => Ok(Some(String::from_str(s))),
            None => Err(Failure::BadKeyword),
        },
    }
}

/// The texts under the keyword `key` of `node`, where it has that keyword.
pub fn texts_of_keyword(node: &Json, key: &str) -> (r: Result<Option<Vec<String>>, Failure>)
    ensures
        optional_texts_result(r) == texts_keyword(node@, key@),
{
    match node.get(key) {
        None => Ok(None),
        Some(value) => match strings_of(value) {
            Ok(t) => Ok(Some(t)),
            Err(e) => Err(e),
        },
    }
}

/// The enum of the values `values`.
fn make_enum(
    values: &Json,
    doc: Option<String>,
    exhaustive: bool,
    variant_descriptions: Option<Vec<String>>,
) -> (r: Result<Type, Failure>)
    ensures
        type_result(r) == enum_of(
            values@,
            optional_text(doc),
            exhaustive,
            optional_texts(variant_descriptions),
        ),
{
    match strings_of(values) {
        Ok(variants) => {
            assert(strings_view(variants@).len() == variants@.len());
            if variants.len() == 0 {
                Err(Failure::EmptyEnum)
            } else {
                Ok(Type::Enum(Enum { doc, variants, exhaustive, variant_descriptions }))
            }
        },
        Err(e) => Err(e),
    }
}

/// The shape of a schema of type `string`.
pub fn translate_string(t: &Json) -> (r: Result<Type, Failure>)
    ensures
        type_result(r) == translate_string_spec(t@),
{
    let doc = match text_of_keyword(t, "description") {
        Ok(doc) => doc,
        Err(e) => {
            return Err(e);
        },
    };
    let descriptions = match texts_of_keyword(t, "enumDescriptions") {
        Ok(d) => d,
        Err(e) => {
            return Err(e);
        },
    };
    match t.get("enum") {
        Some(values) => make_enum(values, doc, true, descriptions),
        None => match t.get("_enum") {
            Some(values) => make_enum(values, doc, false, descriptions),
            None => Ok(Type::reference("String")),
        },
    }
}

/// Merges `fields` into `table`, one after the other.
fn merge_into(table: &mut IndexMap<String, Field>, fields: &Vec<Field>)
    requires
        keyed_by_name(table_entries(*old(table))),
    ensures
        keyed_by_name(table_entries(*final(table))),
        entry_values(table_entries(*final(table))) == merge_fields(
            entry_values(table_entries(*old(table))),
            fields_view(fields@),
            fields@.len(),
        ),
{
    let ghost start = entry_values(table_entries(*table));
    let ghost more = fields_view(fields@);
    let mut i: usize = 0;
    while i < fields.len()
        invariant
            i <= fields.len(),
            more == fields_view(fields@),
            keyed_by_name(table_entries(*table)),
            entry_values(table_entries(*table)) == merge_fields(start, more, i as nat),
        decreases fields.len() - i,
    {
        let field = fields[i].clone();
        proof {
            lemma_insert_merges(table_entries(*table), field@);
        }
        table_insert(table, fields[i].name.clone(), field);
        i = i + 1;
    }
}

/// The shape of the schema `t`, among the definitions `defs`; `path` names the
/// definitions whose `allOf` is being resolved around `t`.
pub fn translate_type(defs: &Vec<Member>, t: &Json, path: &Vec<String>) -> (r: Result<
    Type,
    Failure,
>)
    ensures
        type_result(r) == translate_type_spec(members_view(defs@), t@, strings_view(path@)),
    decreases unvisited(members_view(defs@), strings_view(path@), defs@.len()), t@, 3int, 0int,
{
    if is_any(t) {
        return Ok(Type::Any);
    }
    let nullable = ["string", "null"];
    assert(strs_view(nullable@) =~= nullable_string_kinds());
    if is_enum_of(t, nullable) {
        return Ok(Type::Optional(Box::new(Type::reference("String"))));
    }
    let module_id = ["integer", "string"];
    assert(strs_view(module_id@) =~= module_id_kinds());
    if is_enum_of(t, module_id) {
        return Ok(Type::reference("ModuleId"));
    }
    if let Some(r) = t.get("$ref") {
        return match reference_name(r) {
            Ok(name) => Ok(Type::Reference(name)),
            Err(e) => Err(e),
        };
    }
    if t.get("allOf").is_some() {
        return match translate_all_of(defs, t, path) {
            Ok(o) => Ok(Type::Object(o)),
            Err(e) => Err(e),
        };
    }
    let kind = match t.get("type") {
        Some(v) => match v.as_str() {
            Some(s) => s,
            None => {
                return Err(Failure::MissingType);
            },
        },
        None => {
            return Err(Failure::MissingType);
        },
    };
    if str_eq(kind, "integer") || str_eq(kind, "number") {
        Ok(Type::reference("u64"))
    } else if str_eq(kind, "boolean") {
        Ok(Type::reference("bool"))
    } else if str_eq(kind, "string") {
        translate_string(t)
    } else if str_eq(kind, "object") {
        if t.get("properties").is_none() && t.get("additionalProperties").is_some() {
            Ok(Type::Any)
        } else {
            match translate_object(defs, t, path) {
                Ok(o) => Ok(Type::Object(o)),
                Err(e) => Err(e),
            }
        }
    } else if str_eq(kind, "array") {
        match t.get("items") {
            Some(items) => {
                proof {
                    lemma_get_decreases(t@, "items"@);
                }
                match translate_type(defs, items, path) {
                    Ok(item) => Ok(Type::List(Box::new(item))),
                    Err(e) => Err(e),
                }
            },
            None => Err(Failure::BadKeyword),
        }
    } else {
        Ok(Type::reference(kind))
    }
}

/// The record that the `allOf` node `def` merges from its members.
pub fn translate_all_of(defs: &Vec<Member>, def: &Json, path: &Vec<String>) -> (r: Result<
    Object,
    Failure,
>)
    ensures
        object_result(r) == translate_all_of_spec(members_view(defs@), def@, strings_view(path@)),
        r matches Ok(o) ==> distinct(field_names(o@.fields)),
    decreases unvisited(members_view(defs@), strings_view(path@), defs@.len()), def@, 2int, 0int,
{
    proof {
        lemma_all_of_names_distinct(members_view(defs@), def@, strings_view(path@));
    }
    let single = match def.as_object() {
        Some(members) => members.len() == 1,
        None => false,
    };
    if !single {
        return Err(Failure::AllOfSiblings);
    }
    let items = match def.get("allOf") {
        Some(v) => match v.as_array() {
            Some(items) => items,
            None => {
                return Err(Failure::BadKeyword);
            },
        },
        None => {
            return Err(Failure::BadKeyword);
        },
    };
    let ghost dv = members_view(defs@);
    let ghost pv = strings_view(path@);
    let ghost all = items_view(items@);
    let ghost start = ObjectView { doc: OptionalText::Absent, fields: Seq::empty() };
    proof {
        lemma_get_decreases(def@, "allOf"@);
        assert(decreases_to!(def@ => all));
    }
    let mut table = table_new();
    let mut doc: Option<String> = None;
    assert(entry_values(table_entries(table)) =~= start.fields);
    let mut i: usize = 0;
    while i < items.len()
        invariant
            i <= items.len(),
            dv == members_view(defs@),
            pv == strings_view(path@),
            all == items_view(items@),
            decreases_to!(def@ => all),
            keyed_by_name(table_entries(table)),
            translate_all_of_spec(dv, def@, pv) == translate_members_spec(
                dv,
                all,
                pv,
                i as nat,
                ObjectView {
                    doc: optional_text(doc),
                    fields: entry_values(table_entries(table)),
                },
            ),
        decreases items.len() - i,
    {
        let sub = match member_object(defs, &items[i], path) {
            Ok(o) => o,
            Err(e) => {
                return Err(e);
            },
        };
        proof {
            lemma_fields_view(sub);
        }
        merge_into(&mut table, &sub.fields);
        if sub.doc.is_some() {
            doc = sub.doc;
        }
        i = i + 1;
    }
    let merged = Object { doc, fields: table_values(table) };
    proof {
        lemma_fields_view(merged);
    }
    Ok(merged)
}

/// The record of the member `member` of an `allOf`.
pub fn member_object(defs: &Vec<Member>, member: &Json, path: &Vec<String>) -> (r: Result<
    Object,
    Failure,
>)
    ensures
        object_result(r) == member_object_spec(members_view(defs@), member@, strings_view(path@)),
    decreases unvisited(members_view(defs@), strings_view(path@), defs@.len()), member@, 1int, 0int,
{
    match member.get("$ref") {
        Some(r) => {
            let name = match reference_name(r) {
                Ok(name) => name,
                Err(e) => {
                    return Err(e);
                },
            };
            let k = match find_member(defs, name.as_str()) {
                Some(k) => k,
                None => {
                    return Err(Failure::UnknownReference);
                },
            };
            if contains(path, name.as_str()) {
                return Err(Failure::CyclicReference);
            }
            let mut inner = crate::ir::copy_strings(path);
            proof {
                lemma_position(member_keys(members_view(defs@)), name@);
                assert(member_keys(members_view(defs@))[k as int] == members_view(defs@)[k as int].key);
                lemma_unvisited_decreases(
                    members_view(defs@),
                    strings_view(path@),
                    name@,
                    defs@.len(),
                    k as int,
                );
            }
            inner.push(name);
            assert(strings_view(inner@) =~= strings_view(path@).push(name@));
            assert(members_view(defs@)[k as int].value == defs@[k as int].value@);
            match translate_type(defs, &defs[k].value, &inner) {
                Ok(Type::Object(o)) => Ok(o),
                Ok(_) => Err(Failure::NotAnObject),
                Err(e) => Err(e),
            }
        },
        None => translate_object(defs, member, path),
    }
}

/// The record of the object schema `def`.
pub fn translate_object(defs: &Vec<Member>, def: &Json, path: &Vec<String>) -> (r: Result<
    Object,
    Failure,
>)
    ensures
        object_result(r) == translate_object_spec(members_view(defs@), def@, strings_view(path@)),
        r matches Ok(o) ==> distinct(field_names(o@.fields)),
    decreases unvisited(members_view(defs@), strings_view(path@), defs@.len()), def@, 0int, 0int,
{
    proof {
        lemma_object_names_distinct(members_view(defs@), def@, strings_view(path@));
    }
    let is_object = match def.get("type") {
        Some(v) => match v.as_str() {
            Some(s) => str_eq(s, "object"),
            None => false,
        },
        None => false,
    };
    if !is_object {
        return Err(Failure::NotAnObject);
    }
    let required = match def.get("required") {
        None => Vec::new(),
        Some(value) => match strings_of(value) {
            Ok(names) => names,
            Err(e) => {
                return Err(e);
            },
        },
    };
    assert(def@.get("required"@) is None ==> strings_view(required@) =~= Seq::<Seq<char>>::empty());
    let fields = match def.get("properties") {
        None => Vec::new(),
        Some(value) => match value.as_object() {
            Some(props) => {
                proof {
                    lemma_get_decreases(def@, "properties"@);
                }
                match translate_fields(defs, props, &required, path) {
                    Ok(fields) => fields,
                    Err(e) => {
                        return Err(e);
                    },
                }
            },
            None => {
                return Err(Failure::BadKeyword);
            },
        },
    };
    assert(def@.get("properties"@) is None ==> fields_view(fields@) =~= Seq::<FieldView>::empty());
    let doc = match text_of_keyword(def, "description") {
        Ok(doc) => doc,
        Err(e) => {
            return Err(e);
        },
    };
    let o = Object { doc, fields };
    proof {
        lemma_fields_view(o);
    }
    Ok(o)
}

/// The fields of the properties `props`, in order; a later property replaces
/// an earlier one of the same name where it stands.
pub fn translate_fields(
    defs: &Vec<Member>,
    props: &Vec<Member>,
    required: &Vec<String>,
    path: &Vec<String>,
) -> (r: Result<Vec<Field>, Failure>)
    ensures
        fields_result(r) == translate_fields_spec(
            members_view(defs@),
            members_view(props@),
            strings_view(required@),
            strings_view(path@),
            0,
            Seq::empty(),
        ),
    decreases unvisited(members_view(defs@), strings_view(path@), defs@.len()), members_view(props@), 0int, props@.len(),
{
    let ghost dv = members_view(defs@);
    let ghost pv = strings_view(path@);
    let ghost rv = strings_view(required@);
    let ghost all = members_view(props@);
    let mut table = table_new();
    assert(entry_values(table_entries(table)) =~= Seq::<FieldView>::empty());
    let mut i: usize = 0;
    while i < props.len()
        invariant
            i <= props.len(),
            dv == members_view(defs@),
            pv == strings_view(path@),
            rv == strings_view(required@),
            all == members_view(props@),
            keyed_by_name(table_entries(table)),
            translate_fields_spec(dv, all, rv, pv, 0, Seq::empty()) == translate_fields_spec(
                dv,
                all,
                rv,
                pv,
                i as nat,
                entry_values(table_entries(table)),
            ),
        decreases props.len() - i,
    {
        let field = match generate_field(defs, &props[i], required, path) {
            Ok(f) => f,
            Err(e) => {
                return Err(e);
            },
        };
        proof {
            lemma_insert_merges(table_entries(table), field@);
        }
        table_insert(&mut table, props[i].key.clone(), field);
        i = i + 1;
    }
    Ok(table_values(table))
}

/// The field of the property `prop`: required where `required` holds its name.
pub fn generate_field(
    defs: &Vec<Member>,
    prop: &Member,
    required: &Vec<String>,
    path: &Vec<String>,
) -> (r: Result<Field, Failure>)
    ensures
        field_result(r) == field_spec(
            members_view(defs@),
            prop@,
            strings_view(required@),
            strings_view(path@),
        ),
    decreases unvisited(members_view(defs@), strings_view(path@), defs@.len()), prop@, 0int, 0int,
{
    let doc = match text_of_keyword(&prop.value, "description") {
        Ok(doc) => doc,
        Err(e) => {
            return Err(e);
        },
    };
    let ty = match translate_type(defs, &prop.value, path) {
        Ok(ty) => ty,
        Err(e) => {
            return Err(e);
        },
    };
    Ok(Field { doc, name: prop.key.clone(), ty, required: contains(required, prop.key.as_str()) })
}

/// Whether `name` is a type that is declared by hand and not translated.
pub fn is_excluded(name: &str) -> (r: bool)
    ensures
        r == is_excluded_spec(name@),
{
    str_eq(name, "ProtocolMessage") || str_eq(name, "Request") || str_eq(name, "Event") || str_eq(
        name,
        "Response",
    ) || str_eq(name, "ErrorResponse") || str_eq(name, "RestartArguments") || str_eq(
        name,
        "LaunchRequestArguments",
    ) || str_eq(name, "AttachRequestArguments")
}

/// Translates the definitions of the document `schema`, in document order and
/// without the excluded ones.
pub fn generate_protocol_types(schema: &Json) -> (r: Result<Vec<ProtocolType>, Problem>)
    ensures
        definitions_result(r) == protocol_types_spec(schema@),
        r matches Ok(types) ==> crate::invariants::definitions_well_formed(
            definitions_view(types@),
        ),
        r matches Ok(types) ==> (crate::json::unique_keys(schema@) ==> distinct(
            crate::ir::definition_names(definitions_view(types@)),
        )),
{
    proof {
        crate::invariants::lemma_protocol_types_well_formed(schema@);
        crate::invariants::lemma_protocol_types_named_apart(schema@);
    }
    let defs = match schema.get("definitions") {
        Some(v) => match v.as_object() {
            Some(defs) => defs,
            None => {
                return Err(Problem::of_document(Failure::NoDefinitions));
            },
        },
        None => {
            return Err(Problem::of_document(Failure::NoDefinitions));
        },
    };
    let ghost dv = members_view(defs@);
    let path: Vec<String> = Vec::new();
    assert(strings_view(path@) =~= Seq::<Seq<char>>::empty());
    let mut types: Vec<ProtocolType> = Vec::new();
    assert(definitions_view(types@) =~= Seq::<DefinitionView>::empty());
    let mut i: usize = 0;
    while i < defs.len()
        invariant
            i <= defs.len(),
            dv == members_view(defs@),
            schema@.get("definitions"@) == Some(JsonView::Object(dv)),
            strings_view(path@) == Seq::<Seq<char>>::empty(),
            translate_definitions_spec(dv, 0, Seq::empty()) == translate_definitions_spec(
                dv,
                i as nat,
                definitions_view(types@),
            ),
        decreases defs.len() - i,
    {
        if !is_excluded(defs[i].key.as_str()) {
            let ty = match translate_type(defs, &defs[i].value, &path) {
                Ok(ty) => ty,
                Err(e) => {
                    return Err(Problem::at(defs[i].key.as_str(), e));
                },
            };
            let ghost before = definitions_view(types@);
            let entry = ProtocolType { name: defs[i].key.clone(), ty };
            types.push(entry);
            assert(definitions_view(types@) =~= before.push(
                DefinitionView { name: dv[i as int].key, ty: ty@ },
            ));
        }
        i = i + 1;
    }
    Ok(types)
}

/// Merging fields keeps the names distinct.
pub proof fn lemma_merge_fields_distinct(fields: Seq<FieldView>, more: Seq<FieldView>, n: nat)
    requires
        distinct(field_names(fields)),
    ensures
        distinct(field_names(merge_fields(fields, more, n))),
    decreases n,
{
    if n != 0 && n <= more.len() {
        lemma_merge_fields_distinct(fields, more, (n - 1) as nat);
        lemma_merge_field_distinct(merge_fields(fields, more, (n - 1) as nat), more[n - 1]);
    }
}

/// After fields with distinct names are merged, each of their names finds the
/// merged field of that name.
pub proof fn lemma_merge_fields_find(
    fields: Seq<FieldView>,
    more: Seq<FieldView>,
    n: nat,
    j: int,
)
    requires
        n <= more.len(),
        0 <= j < n,
        distinct(field_names(more)),
    ensures
        position(field_names(merge_fields(fields, more, n)), more[j].name) matches Some(i)
            && merge_fields(fields, more, n)[i] == more[j],
    decreases n,
{
    let before = merge_fields(fields, more, (n - 1) as nat);
    let last = more[n - 1];
    let name = more[j].name;
    lemma_merge_field_find(before, last, name);
    if j < n - 1 {
        assert(field_names(more)[j] != field_names(more)[n - 1]);
        lemma_merge_fields_find(fields, more, (n - 1) as nat, j);
    }
}

/// Translating properties on top of fields with distinct names gives fields
/// with distinct names.
pub proof fn lemma_fields_names_distinct(
    defs: Seq<MemberView>,
    props: Seq<MemberView>,
    required: Seq<Seq<char>>,
    path: Seq<Seq<char>>,
    i: nat,
    acc: Seq<FieldView>,
)
    requires
        distinct(field_names(acc)),
    ensures
        translate_fields_spec(defs, props, required, path, i, acc) matches Ok(fields) ==> distinct(
            field_names(fields),
        ),
    decreases props.len() - i,
{
    if i < props.len() {
        if let Ok(f) = field_spec(defs, props[i as int], required, path) {
            lemma_merge_field_distinct(acc, f);
            lemma_fields_names_distinct(defs, props, required, path, i + 1, merge_field(acc, f));
        }
    }
}

/// Merging the members of an `allOf` into a record with distinct field names
/// gives a record with distinct field names.
pub proof fn lemma_members_names_distinct(
    defs: Seq<MemberView>,
    items: Seq<JsonView>,
    path: Seq<Seq<char>>,
    i: nat,
    acc: ObjectView,
)
    requires
        distinct(field_names(acc.fields)),
    ensures
        translate_members_spec(defs, items, path, i, acc) matches Ok(o) ==> distinct(
            field_names(o.fields),
        ),
    decreases items.len() - i,
{
    if i < items.len() {
        if let Ok(o) = member_object_spec(defs, items[i as int], path) {
            lemma_merge_fields_distinct(acc.fields, o.fields, o.fields.len());
            lemma_members_names_distinct(defs, items, path, i + 1, merge_object(acc, o));
        }
    }
}

/// No two fields of a translated object schema have the same name.
pub proof fn lemma_object_names_distinct(
    defs: Seq<MemberView>,
    node: JsonView,
    path: Seq<Seq<char>>,
)
    ensures
        translate_object_spec(defs, node, path) matches Ok(o) ==> distinct(field_names(o.fields)),
{
    if let Ok(required) = required_names(node) {
        if let Some(JsonView::Object(props)) = node.get("properties"@) {
            lemma_fields_names_distinct(defs, props, required, path, 0, Seq::empty());
        }
    }
}

/// No two fields of the record that an `allOf` merges have the same name.
pub proof fn lemma_all_of_names_distinct(
    defs: Seq<MemberView>,
    node: JsonView,
    path: Seq<Seq<char>>,
)
    ensures
        translate_all_of_spec(defs, node, path) matches Ok(o) ==> distinct(field_names(o.fields)),
{
    if let Some(JsonView::Array(items)) = node.get("allOf"@) {
        lemma_members_names_distinct(
            defs,
            items,
            path,
            0,
            ObjectView { doc: OptionalText::Absent, fields: Seq::empty() },
        );
    }
}

/// Merge precedence: where the second of two records declares a field, the
/// record merged from the two has under that name the field of the second,
/// with its type and its required flag, whatever the first declares.
pub proof fn lemma_merge_precedence(first: ObjectView, second: ObjectView, name: Seq<char>)
    requires
        distinct(field_names(second.fields)),
        second.find_field(name) is Some,
    ensures
        merge_object(first, second).find_field(name) == second.find_field(name),
{
    lemma_position(field_names(second.fields), name);
    let j = position(field_names(second.fields), name).unwrap();
    assert(second.fields[j].name == name);
    lemma_merge_fields_find(first.fields, second.fields, second.fields.len(), j);
}

/// Merge precedence for schemas: where an `allOf` has two inline object
/// schemas as its members and the second declares a property, the merged
/// record has under that name the field that the second schema gives it.
pub proof fn lemma_all_of_precedence(
    defs: Seq<MemberView>,
    node: JsonView,
    path: Seq<Seq<char>>,
    first: JsonView,
    second: JsonView,
    name: Seq<char>,
)
    requires
        node matches JsonView::Object(members) && members.len() == 1,
        node.get("allOf"@) == Some(JsonView::Array(seq![first, second])),
        first.get("$ref"@) is None,
        second.get("$ref"@) is None,
        translate_object_spec(defs, first, path) is Ok,
        translate_object_spec(defs, second, path) matches Ok(o) && o.find_field(name) is Some,
    ensures
        translate_all_of_spec(defs, node, path) matches Ok(merged) && merged.find_field(name)
            == translate_object_spec(defs, second, path)->Ok_0.find_field(name),
{
    let items = seq![first, second];
    let start = ObjectView { doc: OptionalText::Absent, fields: Seq::empty() };
    let a = translate_object_spec(defs, first, path)->Ok_0;
    let b = translate_object_spec(defs, second, path)->Ok_0;
    let one = merge_object(start, a);
    let two = merge_object(one, b);
    assert(member_object_spec(defs, items[0], path) == Ok::<ObjectView, Failure>(a));
    assert(member_object_spec(defs, items[1], path) == Ok::<ObjectView, Failure>(b));
    assert(translate_members_spec(defs, items, path, 2, two) == Ok::<ObjectView, Failure>(two));
    assert(translate_members_spec(defs, items, path, 1, one) == Ok::<ObjectView, Failure>(two));
    assert(translate_members_spec(defs, items, path, 0, start) == Ok::<ObjectView, Failure>(two));
    lemma_object_names_distinct(defs, second, path);
    lemma_merge_precedence(one, b, name);
}

} // verus!
