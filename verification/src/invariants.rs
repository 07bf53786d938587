use vstd::prelude::*;
use crate::ir::{
    definition_names, field_names, DefinitionView, FieldView, ObjectView, OptionalText, TypeView,
};
use crate::json::{lemma_get_decreases, member_keys, unique_keys, JsonView, MemberView};
use crate::names::{distinct, lemma_position, position};
use crate::table::{lemma_merge_field_distinct, merge_field, merge_fields};
use crate::translate::{
    field_spec, lemma_unvisited_decreases, member_object_spec, merge_object,
    protocol_types_spec, reference_target, required_names, translate_all_of_spec,
    translate_definitions_spec, translate_fields_spec, translate_members_spec,
    translate_object_spec, translate_type_spec, unvisited,
};

verus! {

/// Whether the type `ty` is well formed: no record in it, at any depth, has
/// two fields of the same name, and no enum in it is without a value.
pub open spec fn type_well_formed(ty: TypeView) -> bool
    decreases ty,
{
    match ty {
        TypeView::Enum(e) => e.variants.len() > 0,
        TypeView::Object(o) => object_well_formed(o),
        TypeView::List(x) => type_well_formed(*x),
        TypeView::Optional(x) => type_well_formed(*x),
        _ => true,
    }
}

/// Whether the record `o` is well formed: its fields have distinct names and
/// well-formed types.
pub open spec fn object_well_formed(o: ObjectView) -> bool
    decreases o,
{
    &&& distinct(field_names(o.fields))
    &&& forall|i: int| 0 <= i < o.fields.len() ==> type_well_formed((#[trigger] o.fields[i]).ty)
}

/// Whether the fields have distinct names and well-formed types.
pub open spec fn fields_well_formed(fields: Seq<FieldView>) -> bool {
    &&& distinct(field_names(fields))
    &&& forall|i: int| 0 <= i < fields.len() ==> type_well_formed((#[trigger] fields[i]).ty)
}

/// Whether every one of the definitions is well formed.
pub open spec fn definitions_well_formed(defs: Seq<DefinitionView>) -> bool {
    forall|i: int| 0 <= i < defs.len() ==> type_well_formed((#[trigger] defs[i]).ty)
}

/// Merging a well-formed field keeps the fields well formed.
pub proof fn lemma_merge_field_well_formed(fields: Seq<FieldView>, field: FieldView)
    requires
        fields_well_formed(fields),
        type_well_formed(field.ty),
    ensures
        fields_well_formed(merge_field(fields, field)),
{
    lemma_merge_field_distinct(fields, field);
    lemma_position(field_names(fields), field.name);
    let merged = merge_field(fields, field);
    assert forall|i: int| 0 <= i < merged.len() implies type_well_formed(
        (#[trigger] merged[i]).ty,
    ) by {
        match position(field_names(fields), field.name) {
            Some(k) => {
                if i != k {
                    assert(merged[i] == fields[i]);
                }
            },
            None => {
                if i < fields.len() {
                    assert(merged[i] == fields[i]);
                }
            },
        }
    }
}

/// Merging well-formed fields keeps the fields well formed.
pub proof fn lemma_merge_fields_well_formed(fields: Seq<FieldView>, more: Seq<FieldView>, n: nat)
    requires
        fields_well_formed(fields),
        forall|i: int| 0 <= i < more.len() ==> type_well_formed((#[trigger] more[i]).ty),
    ensures
        fields_well_formed(merge_fields(fields, more, n)),
    decreases n,
{
    if n != 0 && n <= more.len() {
        lemma_merge_fields_well_formed(fields, more, (n - 1) as nat);
        lemma_merge_field_well_formed(merge_fields(fields, more, (n - 1) as nat), more[n - 1]);
    }
}

/// A translated type is well formed: no record of it, at any depth, has two
/// fields of the same name, and no enum of it is without a value.
pub proof fn lemma_type_well_formed(defs: Seq<MemberView>, node: JsonView, path: Seq<Seq<char>>)
    ensures
        translate_type_spec(defs, node, path) matches Ok(t) ==> type_well_formed(t),
    decreases unvisited(defs, path, defs.len()), node, 3int, 0int,
{
    if let Ok(t) = translate_type_spec(defs, node, path) {
        match t {
            TypeView::Object(o) => {
                if node.get("$ref"@) is None {
                    if node.get("allOf"@) is Some {
                        lemma_all_of_well_formed(defs, node, path);
                    } else {
                        lemma_object_well_formed(defs, node, path);
                    }
                }
            },
            TypeView::List(x) => {
                if let Some(items) = node.get("items"@) {
                    lemma_get_decreases(node, "items"@);
                    lemma_type_well_formed(defs, items, path);
                }
            },
            TypeView::Optional(x) => {
                assert(type_well_formed(TypeView::Reference("String"@)));
            },
            _ => {},
        }
    }
}

/// The record that an `allOf` merges is well formed.
pub proof fn lemma_all_of_well_formed(
    defs: Seq<MemberView>,
    node: JsonView,
    path: Seq<Seq<char>>,
)
    ensures
        translate_all_of_spec(defs, node, path) matches Ok(o) ==> object_well_formed(o),
    decreases unvisited(defs, path, defs.len()), node, 2int, 0int,
{
    if let Some(JsonView::Array(items)) = node.get("allOf"@) {
        lemma_get_decreases(node, "allOf"@);
        let start = ObjectView { doc: OptionalText::Absent, fields: Seq::empty() };
        assert(object_well_formed(start));
        lemma_members_well_formed(defs, items, path, 0, start);
    }
}

/// The members of an `allOf`, merged into a well-formed record, give a
/// well-formed record.
pub proof fn lemma_members_well_formed(
    defs: Seq<MemberView>,
    items: Seq<JsonView>,
    path: Seq<Seq<char>>,
    i: nat,
    acc: ObjectView,
)
    requires
        object_well_formed(acc),
    ensures
        translate_members_spec(defs, items, path, i, acc) matches Ok(o) ==> object_well_formed(o),
    decreases unvisited(defs, path, defs.len()), items, 0int, items.len() - i,
{
    if i < items.len() {
        if let Ok(o) = member_object_spec(defs, items[i as int], path) {
            lemma_member_well_formed(defs, items[i as int], path);
            lemma_merge_fields_well_formed(acc.fields, o.fields, o.fields.len());
            assert(object_well_formed(merge_object(acc, o)));
            lemma_members_well_formed(defs, items, path, i + 1, merge_object(acc, o));
        }
    }
}

/// The record of one member of an `allOf` is well formed.
pub proof fn lemma_member_well_formed(
    defs: Seq<MemberView>,
    member: JsonView,
    path: Seq<Seq<char>>,
)
    ensures
        member_object_spec(defs, member, path) matches Ok(o) ==> object_well_formed(o),
    decreases unvisited(defs, path, defs.len()), member, 1int, 0int,
{
    match member.get("$ref"@) {
        Some(r) => {
            if let Ok(name) = reference_target(r) {
                if let Some(k) = position(member_keys(defs), name) {
                    if !path.contains(name) {
                        lemma_position(member_keys(defs), name);
                        lemma_unvisited_decreases(defs, path, name, defs.len(), k);
                        lemma_type_well_formed(defs, defs[k].value, path.push(name));
                    }
                }
            }
        },
        None => {
            lemma_object_well_formed(defs, member, path);
        },
    }
}

/// The record of an object schema is well formed.
pub proof fn lemma_object_well_formed(
    defs: Seq<MemberView>,
    node: JsonView,
    path: Seq<Seq<char>>,
)
    ensures
        translate_object_spec(defs, node, path) matches Ok(o) ==> object_well_formed(o),
    decreases unvisited(defs, path, defs.len()), node, 0int, 0int,
{
    if let Ok(required) = required_names(node) {
        if let Some(JsonView::Object(props)) = node.get("properties"@) {
            lemma_get_decreases(node, "properties"@);
            assert(fields_well_formed(Seq::<FieldView>::empty()));
            lemma_fields_well_formed(defs, props, required, path, 0, Seq::empty());
        }
    }
}

/// Properties translated on top of well-formed fields give well-formed fields.
pub proof fn lemma_fields_well_formed(
    defs: Seq<MemberView>,
    props: Seq<MemberView>,
    required: Seq<Seq<char>>,
    path: Seq<Seq<char>>,
    i: nat,
    acc: Seq<FieldView>,
)
    requires
        fields_well_formed(acc),
    ensures
        translate_fields_spec(defs, props, required, path, i, acc) matches Ok(fields)
            ==> fields_well_formed(fields),
    decreases unvisited(defs, path, defs.len()), props, 0int, props.len() - i,
{
    if i < props.len() {
        if let Ok(f) = field_spec(defs, props[i as int], required, path) {
            lemma_type_well_formed(defs, props[i as int].value, path);
            lemma_merge_field_well_formed(acc, f);
            lemma_fields_well_formed(defs, props, required, path, i + 1, merge_field(acc, f));
        }
    }
}

/// Definitions translated after well-formed definitions are well formed.
pub proof fn lemma_definitions_well_formed(
    defs: Seq<MemberView>,
    i: nat,
    acc: Seq<DefinitionView>,
)
    requires
        definitions_well_formed(acc),
    ensures
        translate_definitions_spec(defs, i, acc) matches Ok(all) ==> definitions_well_formed(all),
    decreases defs.len() - i,
{
    if i < defs.len() {
        if crate::translate::is_excluded_spec(defs[i as int].key) {
            lemma_definitions_well_formed(defs, i + 1, acc);
        } else if let Ok(ty) = translate_type_spec(defs, defs[i as int].value, Seq::empty()) {
            lemma_type_well_formed(defs, defs[i as int].value, Seq::empty());
            let next = acc.push(DefinitionView { name: defs[i as int].key, ty });
            assert forall|k: int| 0 <= k < next.len() implies type_well_formed(
                (#[trigger] next[k]).ty,
            ) by {
                if k < acc.len() {
                    assert(next[k] == acc[k]);
                }
            }
            lemma_definitions_well_formed(defs, i + 1, next);
        }
    }
}

/// The definitions of a translated document are well formed: no record in
/// them, at any depth, has two fields of the same name, and no enum in them
/// is without a value.
pub proof fn lemma_protocol_types_well_formed(schema: JsonView)
    ensures
        protocol_types_spec(schema) matches Ok(defs) ==> definitions_well_formed(defs),
{
    if let Some(JsonView::Object(defs)) = schema.get("definitions"@) {
        lemma_definitions_well_formed(defs, 0, Seq::empty());
    }
}

/// Whether the definitions `acc` are named apart and each by a key of one of
/// the first `i` of `defs`.
pub open spec fn named_by_earlier_keys(defs: Seq<MemberView>, i: nat, acc: Seq<DefinitionView>) -> bool {
    &&& distinct(definition_names(acc))
    &&& forall|k: int|
        0 <= k < acc.len() ==> exists|j: int|
            0 <= j < i && j < defs.len() && (#[trigger] defs[j]).key == (#[trigger] acc[k]).name
}

/// Definitions under distinct keys, translated after definitions that earlier
/// keys name apart, are named apart.
pub proof fn lemma_definitions_named_apart(
    defs: Seq<MemberView>,
    i: nat,
    acc: Seq<DefinitionView>,
)
    requires
        distinct(member_keys(defs)),
        named_by_earlier_keys(defs, i, acc),
    ensures
        translate_definitions_spec(defs, i, acc) matches Ok(all) ==> distinct(
            definition_names(all),
        ),
    decreases defs.len() - i,
{
    if i < defs.len() {
        if crate::translate::is_excluded_spec(defs[i as int].key) {
            assert(named_by_earlier_keys(defs, i + 1, acc));
            lemma_definitions_named_apart(defs, i + 1, acc);
        } else if let Ok(ty) = translate_type_spec(defs, defs[i as int].value, Seq::empty()) {
            let key = defs[i as int].key;
            let next = acc.push(DefinitionView { name: key, ty });
            assert forall|a: int, b: int| 0 <= a < b < next.len() implies definition_names(next)[a]
                != definition_names(next)[b] by {
                if b < acc.len() {
                    assert(definition_names(acc)[a] != definition_names(acc)[b]);
                } else {
                    let j = choose|j: int|
                        0 <= j < i && j < defs.len() && (#[trigger] defs[j]).key == acc[a].name;
                    assert(member_keys(defs)[j] != member_keys(defs)[i as int]);
                }
            }
            assert forall|k: int| 0 <= k < next.len() implies exists|j: int|
                0 <= j < i + 1 && j < defs.len() && (#[trigger] defs[j]).key == (
                #[trigger] next[k]).name by {
                if k < acc.len() {
                    let j = choose|j: int|
                        0 <= j < i && j < defs.len() && (#[trigger] defs[j]).key == acc[k].name;
                    assert(defs[j].key == next[k].name);
                } else {
                    assert(defs[i as int].key == next[k].name);
                }
            }
            lemma_definitions_named_apart(defs, i + 1, next);
        }
    }
}

/// Unique definitions: the definitions of a translated document whose objects
/// hold no key twice have distinct names.
pub proof fn lemma_protocol_types_named_apart(schema: JsonView)
    ensures
        protocol_types_spec(schema) matches Ok(defs) ==> (unique_keys(schema) ==> distinct(
            definition_names(defs),
        )),
{
    if unique_keys(schema) {
        if let JsonView::Object(members) = schema {
            lemma_position(member_keys(members), "definitions"@);
            if let Some(JsonView::Object(defs)) = schema.get("definitions"@) {
                let k = position(member_keys(members), "definitions"@).unwrap();
                assert(unique_keys(members[k].value));
                lemma_definitions_named_apart(defs, 0, Seq::empty());
            }
        }
    }
}

} // verus!
