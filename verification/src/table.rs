use vstd::prelude::*;
use indexmap::IndexMap;
use crate::ir::{field_names, fields_view, Field, FieldView};
use crate::names::{lemma_position, position};

verus! {

/// `indexmap::IndexMap`, a hash table that keeps its entries in the order in
/// which their keys were first inserted. Nothing is known of its inside.
#[verifier::external_type_specification]
#[verifier::external_body]
#[verifier::reject_recursive_types(K)]
#[verifier::reject_recursive_types(V)]
#[verifier::reject_recursive_types(S)]
pub struct ExIndexMap<K, V, S>(IndexMap<K, V, S>);

/// One entry of a table of fields.
pub struct EntryView {
    pub key: Seq<char>,
    pub value: FieldView,
}

/// What an `IndexMap` of fields holds: its entries in their order, which is
/// the order in which their keys were first inserted.
pub uninterp spec fn table_entries(table: IndexMap<String, Field>) -> Seq<EntryView>;

/// The keys of `entries`, in order.
pub open spec fn entry_keys(entries: Seq<EntryView>) -> Seq<Seq<char>> {
    Seq::new(entries.len(), |i: int| entries[i].key)
}

/// The values of `entries`, in order.
pub open spec fn entry_values(entries: Seq<EntryView>) -> Seq<FieldView> {
    Seq::new(entries.len(), |i: int| entries[i].value)
}

/// `entries` after `value` is inserted under `key`: an entry with that key
/// keeps its key and its place and takes the value; without one, a new entry
/// comes last.
pub open spec fn insert_entry(entries: Seq<EntryView>, key: Seq<char>, value: FieldView) -> Seq<
    EntryView,
> {
    match position(entry_keys(entries), key) {
        Some(i) => entries.update(i, EntryView { key: entries[i].key, value }),
        None => entries.push(EntryView { key, value }),
    }
}

/// `fields` after `field` is merged into it: a field of the same name is
/// replaced where it stands; without one, `field` comes last.
pub open spec fn merge_field(fields: Seq<FieldView>, field: FieldView) -> Seq<FieldView> {
    match position(field_names(fields), field.name) {
        Some(i) => fields.update(i, field),
        None => fields.push(field),
    }
}

/// `fields` after the first `n` of `more` are merged into it, one after the other.
pub open spec fn merge_fields(fields: Seq<FieldView>, more: Seq<FieldView>, n: nat) -> Seq<
    FieldView,
>
    decreases n,
{
    if n == 0 || n > more.len() {
        fields
    } else {
        merge_field(merge_fields(fields, more, (n - 1) as nat), more[n - 1])
    }
}

/// Whether every entry stands under the name of its field.
pub open spec fn keyed_by_name(entries: Seq<EntryView>) -> bool {
    forall|i: int| 0 <= i < entries.len() ==> (#[trigger] entries[i]).key == entries[i].value.name
}

/// `IndexMap::new` makes an empty map.
#[verifier::external_body]
pub(crate) fn table_new() -> (table: IndexMap<String, Field>)
    ensures
        table_entries(table) == Seq::<EntryView>::empty(),
{
    IndexMap::new()
}

/// `IndexMap::insert` updates the value of an equal key in its place, or adds
/// the pair last in order where the map has no equal key.
#[verifier::external_body]
pub(crate) fn table_insert(table: &mut IndexMap<String, Field>, key: String, value: Field)
    ensures
        table_entries(*final(table)) == insert_entry(table_entries(*old(table)), key@, value@),
{
    table.insert(key, value);
}

/// `IndexMap::into_values` yields the values of the map in its order.
#[verifier::external_body]
pub(crate) fn table_values(table: IndexMap<String, Field>) -> (fields: Vec<Field>)
    ensures
        fields_view(fields@) == entry_values(table_entries(table)),
{
    table.into_values().collect()
}

/// Inserting a field under its name into a table keyed by name merges the
/// field into the table's fields.
pub proof fn lemma_insert_merges(entries: Seq<EntryView>, field: FieldView)
    requires
        keyed_by_name(entries),
    ensures
        keyed_by_name(insert_entry(entries, field.name, field)),
        entry_values(insert_entry(entries, field.name, field)) == merge_field(
            entry_values(entries),
            field,
        ),
{
    let keys = entry_keys(entries);
    let names = field_names(entry_values(entries));
    assert(keys =~= names);
    lemma_position(keys, field.name);
    let after = insert_entry(entries, field.name, field);
    assert(entry_values(after) =~= merge_field(entry_values(entries), field));
}

/// Merging a field keeps the names distinct.
pub proof fn lemma_merge_field_distinct(fields: Seq<FieldView>, field: FieldView)
    requires
        crate::names::distinct(field_names(fields)),
    ensures
        crate::names::distinct(field_names(merge_field(fields, field))),
{
    let names = field_names(fields);
    lemma_position(names, field.name);
    let after = field_names(merge_field(fields, field));
    match position(names, field.name) {
        Some(i) => {
            assert(after =~= names);
        },
        None => {
            assert(after =~= names.push(field.name));
        },
    }
}

/// What a name finds after a merge: the merged field under its own name, and
/// under any other name what that name found before.
pub proof fn lemma_merge_field_find(fields: Seq<FieldView>, field: FieldView, name: Seq<char>)
    ensures
        position(field_names(merge_field(fields, field)), name) is Some <==> (name == field.name
            || position(field_names(fields), name) is Some),
        position(field_names(merge_field(fields, field)), name) matches Some(i) ==> merge_field(
            fields,
            field,
        )[i] == (if name == field.name {
            field
        } else {
            fields[position(field_names(fields), name).unwrap()]
        }),
{
    let names = field_names(fields);
    let merged = merge_field(fields, field);
    let after = field_names(merged);
    lemma_position(names, field.name);
    lemma_position(names, name);
    lemma_position(after, name);
    match position(names, field.name) {
        Some(k) => {
            assert(after =~= names);
        },
        None => {
            assert(after =~= names.push(field.name));
            if name != field.name {
                if let Some(j) = position(names, name) {
                    assert(after[j] == name);
                }
                if let Some(i) = position(after, name) {
                    assert(i < names.len());
                    assert(names[i] == name);
                }
            } else {
                assert(after[names.len() as int] == name);
            }
        },
    }
}

} // verus!
