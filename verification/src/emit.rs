use vstd::prelude::*;
use vstd::string::*;
use crate::casing::{
    has_member_name, has_words, to_pascal_case, to_pascal_case_spec, to_snake_case,
    to_snake_case_spec,
};
use crate::ir::{
    fields_view, lemma_fields_view, optional_text, Enum, EnumView, FieldView, Object, ObjectView,
    OptionalText, OptionalTexts, ProtocolType, Type, TypeView,
};
use crate::text::strings_view;
use crate::writer::{Writer, WriterView};

verus! {

/// The first line of the data-type stream.
pub const TYPES_HEADER: &'static str = "use serde::{Deserialize, Serialize};";

/// The attribute above every record.
pub const RECORD_DERIVE: &'static str =
    "#[derive(Debug, Clone, Deserialize, Serialize, PartialEq)]";

/// The attribute above every exhaustive enum.
pub const CLOSED_ENUM_DERIVE: &'static str =
    "#[derive(PartialEq, Eq, Debug, Hash, Clone, Copy, Deserialize, Serialize)]";

/// The attribute above every enum that is not exhaustive.
pub const OPEN_ENUM_DERIVE: &'static str =
    "#[derive(PartialEq, Eq, Debug, Hash, Clone, Deserialize, Serialize)]";

/// The declarations written by hand that end the data-type stream: the module
/// identifier and the three kinds of arguments that stay raw JSON.
pub const CUSTOM_TYPES: &'static str = "
#[derive(PartialEq, Eq, Debug, Hash, Clone, Deserialize, Serialize)]
#[serde(untagged)]
pub enum ModuleId {
    Number(u32),
    String(String),
}

#[derive(Debug, Clone, Deserialize, Serialize)]
#[serde(transparent)]
pub struct AttachRequestArguments {
    pub raw: serde_json::Value,
}

#[derive(Debug, Clone, Deserialize, Serialize)]
#[serde(transparent)]
pub struct LaunchRequestArguments {
    pub raw: serde_json::Value,
}

#[derive(Debug, Clone, Deserialize, Serialize)]
#[serde(transparent)]
pub struct RestartArguments {
    pub raw: serde_json::Value,
}
";

/// One member of a declared record.
pub struct MemberDecl {
    pub doc: OptionalText,
    /// The key of the member in the protocol.
    pub rename: Seq<char>,
    /// The name of the member in the declaration.
    pub name: Seq<char>,
    /// The type of the member, before it is made optional.
    pub ty: Seq<char>,
    /// Whether the member is declared optional.
    pub optional: bool,
}

/// One case of a declared enum.
pub struct CaseDecl {
    pub doc: OptionalText,
    /// The value of the case in the protocol.
    pub rename: Seq<char>,
    /// The name of the case in the declaration.
    pub name: Seq<char>,
}

/// One declaration of the data-type stream.
pub enum Declaration {
    /// A record with its members in order.
    Record { doc: OptionalText, name: Seq<char>, members: Seq<MemberDecl> },
    /// An enum with its cases in order. An open one ends with a case that
    /// takes every value that is none of the others.
    Choice { doc: OptionalText, name: Seq<char>, cases: Seq<CaseDecl>, open: bool },
}

/// An inline shape that waits for its declaration, as a mathematical value.
pub enum PendingView {
    Enum { name: Seq<char>, e: EnumView },
    Object { name: Seq<char>, o: ObjectView },
}

/// An inline shape found in a field, with the name under which it will be
/// declared once the record that holds the field is.
pub enum PendingInline {
    Enum { name: String, e: Enum },
    Object { name: String, o: Object },
}

impl View for PendingInline {
    type V = PendingView;

    open spec fn view(&self) -> PendingView {
        match self {
            PendingInline::Enum { name, e } => PendingView::Enum { name: name@, e: e@ },
            PendingInline::Object { name, o } => PendingView::Object { name: name@, o: o@ },
        }
    }
}

/// The views of `pending`, in order.
pub open spec fn pending_view(pending: Seq<PendingInline>) -> Seq<PendingView> {
    Seq::new(pending.len(), |i: int| pending[i]@)
}

/// The name under which the inline shape of the field `field` of `owner` is declared.
pub open spec fn inline_name(owner: Seq<char>, field: Seq<char>) -> Seq<char> {
    owner + to_pascal_case_spec(field)
}

/// The text of the type `ty`, where `name` stands for its inline shape.
pub open spec fn type_text(ty: TypeView, name: Seq<char>) -> Seq<char>
    decreases ty,
{
    match ty {
        TypeView::Any => "serde_json::Value"@,
        TypeView::Reference(x) => x,
        TypeView::Enum(_) => name,
        TypeView::Object(_) => name,
        TypeView::List(x) => "Vec<"@ + type_text(*x, name) + ">"@,
        TypeView::Optional(x) => "Option<"@ + type_text(*x, name) + ">"@,
    }
}

/// The inline shape of the type `ty`, to be declared as `name`; a type has at
/// most one.
pub open spec fn lifted(ty: TypeView, name: Seq<char>) -> Seq<PendingView>
    decreases ty,
{
    match ty {
        TypeView::Enum(e) => seq![PendingView::Enum { name, e }],
        TypeView::Object(o) => seq![PendingView::Object { name, o }],
        TypeView::List(x) => lifted(*x, name),
        TypeView::Optional(x) => lifted(*x, name),
        _ => Seq::empty(),
    }
}

/// The inline shapes of the first `n` of `fields`, in the order of the fields.
pub open spec fn pending_shapes(owner: Seq<char>, fields: Seq<FieldView>, n: nat) -> Seq<
    PendingView,
>
    decreases n,
{
    if n == 0 || n > fields.len() {
        Seq::empty()
    } else {
        pending_shapes(owner, fields, (n - 1) as nat) + lifted(
            fields[n - 1].ty,
            inline_name(owner, fields[n - 1].name),
        )
    }
}

/// Whether the enum can be declared: its descriptions, where it has them,
/// are as many as its values.
pub open spec fn enum_declarable(e: EnumView) -> bool {
    e.variant_descriptions matches OptionalTexts::Present(d) ==> d.len() == e.variants.len()
}

/// Whether the inline shapes of the type can be declared.
pub open spec fn type_declarable(ty: TypeView) -> bool
    decreases ty, 0nat,
{
    match ty {
        TypeView::Enum(e) => enum_declarable(e),
        TypeView::Object(o) => object_declarable(o),
        TypeView::List(x) => type_declarable(*x),
        TypeView::Optional(x) => type_declarable(*x),
        _ => true,
    }
}

/// Whether the record can be declared: each field has a member name and a
/// type that can be declared.
pub open spec fn object_declarable(o: ObjectView) -> bool
    decreases o, 0nat,
{
    fields_declarable(o.fields, o.fields.len())
}

/// Whether the first `n` of `fields` can be declared.
pub open spec fn fields_declarable(fields: Seq<FieldView>, n: nat) -> bool
    decreases fields, n,
{
    if n == 0 || n > fields.len() {
        true
    } else {
        fields_declarable(fields, (n - 1) as nat) && has_member_name(fields[n - 1].name)
            && type_declarable(fields[n - 1].ty)
    }
}

/// Whether the pending shape can be declared.
pub open spec fn shape_declarable(p: PendingView) -> bool {
    match p {
        PendingView::Enum { name, e } => enum_declarable(e),
        PendingView::Object { name, o } => object_declarable(o),
    }
}

/// The case of the value at `i` of the enum `e`.
pub open spec fn case_declaration(e: EnumView, i: int) -> CaseDecl {
    CaseDecl {
        doc: match e.variant_descriptions {
            OptionalTexts::Present(d) => OptionalText::Present(d[i]),
            OptionalTexts::Absent => OptionalText::Absent,
        },
        rename: e.variants[i],
        name: to_pascal_case_spec(e.variants[i]),
    }
}

/// The declaration of the enum `e` as `name`: one case per value, in order;
/// open where the enum is not exhaustive.
pub open spec fn enum_declaration(name: Seq<char>, e: EnumView) -> Declaration {
    Declaration::Choice {
        doc: e.doc,
        name,
        cases: Seq::new(e.variants.len(), |i: int| case_declaration(e, i)),
        open: !e.exhaustive,
    }
}

/// The member of the record `owner` for the field `f`. A field that is not
/// required is an optional member, whatever its type.
pub open spec fn member_declaration(owner: Seq<char>, f: FieldView) -> MemberDecl {
    MemberDecl {
        doc: f.doc,
        rename: f.name,
        name: to_snake_case_spec(f.name),
        ty: type_text(f.ty, inline_name(owner, f.name)),
        optional: !f.required,
    }
}

/// The declaration of the record `o` as `name`: one member per field, in
/// order. An inline shape is named in it by the name under which it is lifted.
pub open spec fn record_declaration(name: Seq<char>, o: ObjectView) -> Declaration {
    Declaration::Record {
        doc: o.doc,
        name,
        members: Seq::new(o.fields.len(), |i: int| member_declaration(name, o.fields[i])),
    }
}

/// The declarations that the type `ty` gives rise to when its inline shape is
/// declared as `name`.
pub open spec fn type_declarations(name: Seq<char>, ty: TypeView) -> Seq<Declaration>
    decreases ty, 0nat,
{
    match ty {
        TypeView::Enum(e) => seq![enum_declaration(name, e)],
        TypeView::Object(o) => object_declarations(name, o),
        TypeView::List(x) => type_declarations(name, *x),
        TypeView::Optional(x) => type_declarations(name, *x),
        _ => Seq::empty(),
    }
}

/// The declarations of the record `o` as `name`: its own, then those of the
/// inline shapes of its fields, field by field in the order of the fields,
/// each with what it lifts in turn.
pub open spec fn object_declarations(name: Seq<char>, o: ObjectView) -> Seq<Declaration>
    decreases o, 0nat,
{
    seq![record_declaration(name, o)] + fields_declarations(name, o.fields, o.fields.len())
}

/// The declarations of the inline shapes of the first `n` of `fields`.
pub open spec fn fields_declarations(owner: Seq<char>, fields: Seq<FieldView>, n: nat) -> Seq<
    Declaration,
>
    decreases fields, n,
{
    if n == 0 || n > fields.len() {
        Seq::empty()
    } else {
        fields_declarations(owner, fields, (n - 1) as nat) + type_declarations(
            inline_name(owner, fields[n - 1].name),
            fields[n - 1].ty,
        )
    }
}

/// The declarations of the pending shape `p`.
pub open spec fn shape_declarations(p: PendingView) -> Seq<Declaration> {
    match p {
        PendingView::Enum { name, e } => seq![enum_declaration(name, e)],
        PendingView::Object { name, o } => object_declarations(name, o),
    }
}

/// The declarations of the pending shapes `pending`, in order.
pub open spec fn shapes_declarations(pending: Seq<PendingView>) -> Seq<Declaration>
    decreases pending.len(),
{
    if pending.len() == 0 {
        Seq::empty()
    } else {
        shapes_declarations(pending.drop_last()) + shape_declarations(pending.last())
    }
}

/// The writer after the documentation `doc`, where there is one.
pub open spec fn render_doc(w: WriterView, doc: OptionalText) -> WriterView {
    match doc {
        OptionalText::Present(d) => w.doc(d),
        OptionalText::Absent => w,
    }
}

/// The writer after the documentation `doc` one level deep, where there is one.
pub open spec fn render_indented_doc(w: WriterView, doc: OptionalText) -> WriterView {
    match doc {
        OptionalText::Present(d) => w.indented_doc(d),
        OptionalText::Absent => w,
    }
}

/// The writer after the member `m`.
pub open spec fn render_member(w: WriterView, m: MemberDecl) -> WriterView {
    let named = render_indented_doc(w, m.doc).indented("#[serde(rename = \""@ + m.rename + "\")]"@);
    if m.optional {
        named.indented("#[serde(skip_serializing_if = \"Option::is_none\")]"@).indented(
            "#[serde(default)]"@,
        ).indented("pub "@ + m.name + ": Option<"@ + m.ty + ">,"@)
    } else {
        named.indented("pub "@ + m.name + ": "@ + m.ty + ","@)
    }
}

/// The writer after the first `n` of `members`.
pub open spec fn render_members(w: WriterView, members: Seq<MemberDecl>, n: nat) -> WriterView
    decreases n,
{
    if n == 0 || n > members.len() {
        w
    } else {
        render_member(render_members(w, members, (n - 1) as nat), members[n - 1])
    }
}

/// The writer after the case `c`.
pub open spec fn render_case(w: WriterView, c: CaseDecl) -> WriterView {
    render_indented_doc(w, c.doc).indented("#[serde(rename = \""@ + c.rename + "\")]"@).indented(
        c.name + ","@,
    )
}

/// The writer after the first `n` of `cases`.
pub open spec fn render_cases(w: WriterView, cases: Seq<CaseDecl>, n: nat) -> WriterView
    decreases n,
{
    if n == 0 || n > cases.len() {
        w
    } else {
        render_case(render_cases(w, cases, (n - 1) as nat), cases[n - 1])
    }
}

/// The writer after the declaration `d`.
pub open spec fn render_declaration(w: WriterView, d: Declaration) -> WriterView {
    match d {
        Declaration::Record { doc, name, members } => {
            let derived = render_doc(w, doc).line(RECORD_DERIVE@);
            let body = if members.len() == 0 {
                derived.line("pub struct "@ + name + ";"@)
            } else {
                render_members(
                    derived.line("pub struct "@ + name + " {"@),
                    members,
                    members.len(),
                ).line("}"@)
            };
            body.finish_object()
        },
        Declaration::Choice { doc, name, cases, open } => {
            let documented = render_doc(w, doc);
            let derived = if open {
                documented.line(OPEN_ENUM_DERIVE@).line("#[non_exhaustive]"@)
            } else {
                documented.line(CLOSED_ENUM_DERIVE@)
            };
            let listed = render_cases(
                derived.line("pub enum "@ + name + " {"@),
                cases,
                cases.len(),
            );
            let closed = if open {
                listed.indented("#[serde(other)]"@).indented("Unknown,"@)
            } else {
                listed
            };
            closed.line("}"@).finish_object()
        },
    }
}

/// The writer after the declarations `ds`, in order.
pub open spec fn render_all(w: WriterView, ds: Seq<Declaration>) -> WriterView
    decreases ds.len(),
{
    if ds.len() == 0 {
        w
    } else {
        render_declaration(render_all(w, ds.drop_last()), ds.last())
    }
}

/// Writing `a` and then `b` is writing `a + b`.
pub proof fn lemma_render_concat(w: WriterView, a: Seq<Declaration>, b: Seq<Declaration>)
    ensures
        render_all(w, a + b) == render_all(render_all(w, a), b),
    decreases b.len(),
{
    if b.len() == 0 {
        assert(a + b =~= a);
    } else {
        assert((a + b).drop_last() =~= a + b.drop_last());
        assert((a + b).last() == b.last());
        lemma_render_concat(w, a, b.drop_last());
    }
}

/// Writing one declaration is writing the list of it.
pub proof fn lemma_render_one(w: WriterView, d: Declaration)
    ensures
        render_all(w, seq![d]) == render_declaration(w, d),
{
    assert(seq![d].drop_last() =~= Seq::<Declaration>::empty());
    assert(render_all(w, seq![d].drop_last()) == w);
    assert(seq![d].last() == d);
}

/// The declarations of `a + b` are those of `a` and then those of `b`.
pub proof fn lemma_shapes_concat(a: Seq<PendingView>, b: Seq<PendingView>)
    ensures
        shapes_declarations(a + b) == shapes_declarations(a) + shapes_declarations(b),
    decreases b.len(),
{
    if b.len() == 0 {
        assert(a + b =~= a);
        assert(shapes_declarations(a) + shapes_declarations(b) =~= shapes_declarations(a));
    } else {
        assert((a + b).drop_last() =~= a + b.drop_last());
        assert((a + b).last() == b.last());
        lemma_shapes_concat(a, b.drop_last());
        assert(shapes_declarations(a + b) =~= shapes_declarations(a) + shapes_declarations(b));
    }
}

/// What a type lifts can be declared where the type can, is smaller than the
/// type, and is declared as the type's own declarations.
pub proof fn lemma_lifted(ty: TypeView, name: Seq<char>)
    ensures
        lifted(ty, name).len() <= 1,
        shapes_declarations(lifted(ty, name)) == type_declarations(name, ty),
        forall|k: int|
            0 <= k < lifted(ty, name).len() && type_declarable(ty) ==> shape_declarable(
                #[trigger] lifted(ty, name)[k],
            ),
        forall|k: int|
            0 <= k < lifted(ty, name).len() ==> (#[trigger] lifted(ty, name)[k] matches PendingView::Object {
                o,
                ..
            } ==> decreases_to!(ty => o)),
    decreases ty,
{
    match ty {
        TypeView::Enum(e) => {
            let s = seq![PendingView::Enum { name, e }];
            assert(s.drop_last() =~= Seq::<PendingView>::empty());
            assert(shapes_declarations(s.drop_last()) =~= Seq::<Declaration>::empty());
            assert(shapes_declarations(s) =~= seq![enum_declaration(name, e)]);
        },
        TypeView::Object(o) => {
            let s = seq![PendingView::Object { name, o }];
            assert(s.drop_last() =~= Seq::<PendingView>::empty());
            assert(shapes_declarations(s.drop_last()) =~= Seq::<Declaration>::empty());
            assert(shapes_declarations(s) =~= object_declarations(name, o));
        },
        TypeView::List(x) => {
            lemma_lifted(*x, name);
        },
        TypeView::Optional(x) => {
            lemma_lifted(*x, name);
        },
        _ => {},
    }
}

/// Each of the first `n` fields that can be declared has a member name and a
/// type that can be declared.
pub proof fn lemma_fields_declarable(fields: Seq<FieldView>, n: nat, i: int)
    requires
        n <= fields.len(),
        fields_declarable(fields, n),
        0 <= i < n,
    ensures
        has_member_name(fields[i].name),
        type_declarable(fields[i].ty),
    decreases n,
{
    if i < n - 1 {
        lemma_fields_declarable(fields, (n - 1) as nat, i);
    }
}

/// The pending shapes of fields are declared as the fields' own declarations,
/// can be declared where the fields can, and are smaller than the fields.
pub proof fn lemma_pending_shapes(owner: Seq<char>, fields: Seq<FieldView>, n: nat)
    requires
        n <= fields.len(),
    ensures
        shapes_declarations(pending_shapes(owner, fields, n)) == fields_declarations(
            owner,
            fields,
            n,
        ),
        forall|k: int|
            0 <= k < pending_shapes(owner, fields, n).len() && fields_declarable(fields, n)
                ==> shape_declarable(#[trigger] pending_shapes(owner, fields, n)[k]),
        forall|k: int|
            0 <= k < pending_shapes(owner, fields, n).len() ==> (#[trigger] pending_shapes(
                owner,
                fields,
                n,
            )[k] matches PendingView::Object { o, .. } ==> decreases_to!(fields => o)),
    decreases n,
{
    if n > 0 {
        let before = pending_shapes(owner, fields, (n - 1) as nat);
        let f = fields[n - 1];
        let more = lifted(f.ty, inline_name(owner, f.name));
        lemma_pending_shapes(owner, fields, (n - 1) as nat);
        lemma_lifted(f.ty, inline_name(owner, f.name));
        lemma_shapes_concat(before, more);
        assert(decreases_to!(fields => f));
        assert(decreases_to!(f => f.ty));
        assert forall|k: int| 0 <= k < (before + more).len() implies (#[trigger] (before + more)[k] matches PendingView::Object {
            o,
            ..
        } ==> decreases_to!(fields => o)) by {
            if k >= before.len() {
                assert((before + more)[k] == more[k - before.len()]);
            } else {
                assert((before + more)[k] == before[k]);
            }
        }
        assert forall|k: int|
            0 <= k < (before + more).len() && fields_declarable(
                fields,
                n,
            ) implies shape_declarable(#[trigger] (before + more)[k]) by {
            if k >= before.len() {
                assert((before + more)[k] == more[k - before.len()]);
            } else {
                assert((before + more)[k] == before[k]);
            }
        }
    }
}

/// Whether the enum can be declared.
pub fn is_enum_declarable(e: &Enum) -> (r: bool)
    ensures
        r == enum_declarable(e@),
{
    match &e.variant_descriptions {
        Some(d) => {
            assert(strings_view(d@).len() == d@.len());
            assert(strings_view(e.variants@).len() == e.variants@.len());
            d.len() == e.variants.len()
        },
        None => true,
    }
}

/// Whether the inline shapes of the type can be declared.
pub fn is_type_declarable(ty: &Type) -> (r: bool)
    ensures
        r == type_declarable(ty@),
    decreases ty, 0nat,
{
    match ty {
        Type::Enum(e) => is_enum_declarable(e),
        Type::Object(o) => is_object_declarable(o),
        Type::List(x) => is_type_declarable(&**x),
        Type::Optional(x) => is_type_declarable(&**x),
        _ => true,
    }
}

/// Whether the record can be declared.
pub fn is_object_declarable(o: &Object) -> (r: bool)
    ensures
        r == object_declarable(o@),
    decreases o, 1nat,
{
    proof {
        lemma_fields_view(*o);
    }
    let ghost fields = o@.fields;
    let mut i: usize = 0;
    while i < o.fields.len()
        invariant
            i <= o.fields.len(),
            fields == o@.fields,
            fields == fields_view(o.fields@),
            fields_declarable(fields, i as nat),
        decreases o.fields.len() - i,
    {
        assert(fields[i as int] == o.fields@[i as int]@);
        if !has_words(o.fields[i].name.as_str()) || !is_type_declarable(&o.fields[i].ty) {
            proof {
                lemma_not_declarable(fields, fields.len(), i as int);
            }
            return false;
        }
        i = i + 1;
    }
    true
}

/// Fields are not declarable where one of them is not.
pub proof fn lemma_not_declarable(fields: Seq<FieldView>, n: nat, i: int)
    requires
        n <= fields.len(),
        0 <= i < n,
        !(has_member_name(fields[i].name) && type_declarable(fields[i].ty)),
    ensures
        !fields_declarable(fields, n),
    decreases n,
{
    if i < n - 1 {
        lemma_not_declarable(fields, (n - 1) as nat, i);
    }
}

impl Type {
    /// The text of this type in a declaration. An inline shape is named
    /// `inline_name` there and joins `pending`, to be declared later.
    pub fn stringify(&self, inline_name: String, pending: &mut Vec<PendingInline>) -> (r: String)
        ensures
            r@ == type_text(self@, inline_name@),
            pending_view(final(pending)@) == pending_view(old(pending)@) + lifted(
                self@,
                inline_name@,
            ),
        decreases self,
    {
        let ghost before = pending_view(pending@);
        match self {
            Type::Any => {
                assert(before + Seq::<PendingView>::empty() =~= before);
                String::from_str("serde_json::Value")
            },
            Type::Reference(x) => {
                assert(before + Seq::<PendingView>::empty() =~= before);
                x.clone()
            },
            Type::Enum(e) => {
                let shape = PendingInline::Enum { name: inline_name.clone(), e: e.clone() };
                pending.push(shape);
                assert(pending_view(pending@) =~= before + seq![shape@]);
                inline_name
            },
            Type::Object(o) => {
                let shape = PendingInline::Object { name: inline_name.clone(), o: o.clone() };
                pending.push(shape);
                assert(pending_view(pending@) =~= before + seq![shape@]);
                inline_name
            },
            Type::List(x) => {
                let inner = (**x).stringify(inline_name, pending);
                let mut s = String::from_str("Vec<");
                s.append(inner.as_str());
                s.append(">");
                s
            },
            Type::Optional(x) => {
                let inner = (**x).stringify(inline_name, pending);
                let mut s = String::from_str("Option<");
                s.append(inner.as_str());
                s.append(">");
                s
            },
        }
    }
}

/// Writes the attribute that gives a member or a case its name in the protocol.
fn write_rename(dst: &mut Writer, rename: &str)
    ensures
        final(dst)@ == old(dst)@.indented("#[serde(rename = \""@ + rename@ + "\")]"@),
{
    let mut s = String::from_str("#[serde(rename = \"");
    s.append(rename);
    s.append("\")]");
    dst.indented(s.as_str());
}

/// Writes the documentation `doc`, where there is one.
pub(crate) fn write_doc(dst: &mut Writer, doc: &Option<String>)
    ensures
        final(dst)@ == render_doc(old(dst)@, optional_text(*doc)),
{
    match doc {
        Some(d) => {
            dst.doc(d.as_str());
        },
        None => {},
    }
}

/// Writes the documentation `doc` one level deep, where there is one.
fn write_indented_doc(dst: &mut Writer, doc: &Option<String>)
    ensures
        final(dst)@ == render_indented_doc(old(dst)@, optional_text(*doc)),
{
    match doc {
        Some(d) => {
            dst.indented_doc(d.as_str());
        },
        None => {},
    }
}

impl Enum {
    /// Writes the declaration of this enum as `name`: one case per value, and
    /// last, where the enum is not exhaustive, the case that takes every
    /// other value.
    pub fn write(&self, name: &str, dst: &mut Writer)
        requires
            enum_declarable(self@),
        ensures
            final(dst)@ == render_declaration(old(dst)@, enum_declaration(name@, self@)),
    {
        let ghost cases = enum_declaration(name@, self@)->cases;
        write_doc(dst, &self.doc);
        if self.exhaustive {
            dst.line(CLOSED_ENUM_DERIVE);
        } else {
            dst.line(OPEN_ENUM_DERIVE);
            dst.line("#[non_exhaustive]");
        }
        let mut head = String::from_str("pub enum ");
        head.append(name);
        head.append(" {");
        dst.line(head.as_str());
        let ghost listed = dst@;
        let mut i: usize = 0;
        while i < self.variants.len()
            invariant
                i <= self.variants.len(),
                enum_declarable(self@),
                cases == enum_declaration(name@, self@)->cases,
                cases.len() == self.variants@.len(),
                dst@ == render_cases(listed, cases, i as nat),
            decreases self.variants.len() - i,
        {
            assert(cases[i as int] == case_declaration(self@, i as int));
            assert(self@.variants[i as int] == self.variants@[i as int]@);
            match &self.variant_descriptions {
                Some(d) => {
                    assert(strings_view(d@).len() == d@.len());
                    assert(strings_view(d@)[i as int] == d@[i as int]@);
                    dst.indented_doc(d[i].as_str());
                },
                None => {},
            }
            write_rename(dst, self.variants[i].as_str());
            let mut case = to_pascal_case(self.variants[i].as_str());
            case.append(",");
            dst.indented(case.as_str());
            i = i + 1;
        }
        if !self.exhaustive {
            dst.indented("#[serde(other)]");
            dst.indented("Unknown,");
        }
        dst.line("}");
        dst.finished_object();
    }
}

impl Object {
    /// Writes the declaration of this record as `name`, and after it the
    /// declarations of the inline shapes of its fields, in the order of the
    /// fields.
    pub fn write(&self, name: &str, dst: &mut Writer)
        requires
            object_declarable(self@),
        ensures
            final(dst)@ == render_all(old(dst)@, object_declarations(name@, self@)),
        decreases self@,
    {
        proof {
            lemma_fields_view(*self);
        }
        let ghost fields = self@.fields;
        let ghost record = record_declaration(name@, self@);
        let ghost members = record->members;
        write_doc(dst, &self.doc);
        dst.line(RECORD_DERIVE);
        let mut pending: Vec<PendingInline> = Vec::new();
        assert(pending_view(pending@) =~= pending_shapes(name@, fields, 0));
        if self.fields.len() == 0 {
            let mut head = String::from_str("pub struct ");
            head.append(name);
            head.append(";");
            dst.line(head.as_str());
        } else {
            let mut head = String::from_str("pub struct ");
            head.append(name);
            head.append(" {");
            dst.line(head.as_str());
            let ghost opened = dst@;
            let mut i: usize = 0;
            while i < self.fields.len()
                invariant
                    i <= self.fields.len(),
                    fields == self@.fields,
                    fields == fields_view(self.fields@),
                    fields_declarable(fields, fields.len()),
                    members == record_declaration(name@, self@)->members,
                    members.len() == fields.len(),
                    dst@ == render_members(opened, members, i as nat),
                    pending_view(pending@) == pending_shapes(name@, fields, i as nat),
                decreases self.fields.len() - i,
            {
                let field = &self.fields[i];
                proof {
                    assert(fields[i as int] == field@);
                    assert(members[i as int] == member_declaration(name@, fields[i as int]));
                    lemma_fields_declarable(fields, fields.len(), i as int);
                }
                let mut inline = String::from_str(name);
                inline.append(to_pascal_case(field.name.as_str()).as_str());
                let ty = field.ty.stringify(inline, &mut pending);
                write_indented_doc(dst, &field.doc);
                write_rename(dst, field.name.as_str());
                let clean = to_snake_case(field.name.as_str());
                if field.required {
                    let mut s = String::from_str("pub ");
                    s.append(clean.as_str());
                    s.append(": ");
                    s.append(ty.as_str());
                    s.append(",");
                    dst.indented(s.as_str());
                } else {
                    dst.indented("#[serde(skip_serializing_if = \"Option::is_none\")]");
                    dst.indented("#[serde(default)]");
                    let mut s = String::from_str("pub ");
                    s.append(clean.as_str());
                    s.append(": Option<");
                    s.append(ty.as_str());
                    s.append(">,");
                    dst.indented(s.as_str());
                }
                i = i + 1;
            }
            dst.line("}");
        }
        dst.finished_object();
        let ghost declared = dst@;
        let ghost shapes = pending_view(pending@);
        proof {
            assert(declared == render_declaration(old(dst)@, record));
            lemma_render_one(old(dst)@, record);
            lemma_pending_shapes(name@, fields, fields.len());
            assert(shapes.take(0) =~= Seq::<PendingView>::empty());
        }
        let mut k: usize = 0;
        while k < pending.len()
            invariant
                k <= pending.len(),
                fields == self@.fields,
                shapes == pending_view(pending@),
                forall|j: int| 0 <= j < shapes.len() ==> shape_declarable(#[trigger] shapes[j]),
                forall|j: int|
                    0 <= j < shapes.len() ==> (#[trigger] shapes[j] matches PendingView::Object {
                        o,
                        ..
                    } ==> decreases_to!(fields => o)),
                dst@ == render_all(declared, shapes_declarations(shapes.take(k as int))),
            decreases pending.len() - k,
        {
            proof {
                assert(shapes.take(k as int + 1).drop_last() =~= shapes.take(k as int));
                assert(shapes.take(k as int + 1).last() == shapes[k as int]);
                assert(shapes[k as int] == pending@[k as int]@);
                lemma_render_concat(
                    declared,
                    shapes_declarations(shapes.take(k as int)),
                    shape_declarations(shapes[k as int]),
                );
            }
            let ghost before = dst@;
            match &pending[k] {
                PendingInline::Enum { name, e } => {
                    e.write(name.as_str(), dst);
                    proof {
                        lemma_render_one(before, enum_declaration(name@, e@));
                    }
                },
                PendingInline::Object { name, o } => {
                    assert(decreases_to!(self@ => fields));
                    assert(decreases_to!(fields => o@));
                    o.write(name.as_str(), dst);
                },
            }
            k = k + 1;
        }
        proof {
            assert(shapes.take(pending.len() as int) =~= shapes);
            lemma_render_concat(
                old(dst)@,
                seq![record],
                fields_declarations(name@, fields, fields.len()),
            );
        }
    }
}

impl PendingInline {
    /// Writes the declarations of this shape.
    pub fn write(&self, dst: &mut Writer)
        requires
            shape_declarable(self@),
        ensures
            final(dst)@ == render_all(old(dst)@, shape_declarations(self@)),
    {
        match self {
            PendingInline::Enum { name, e } => {
                proof {
                    lemma_render_one(dst@, enum_declaration(name@, e@));
                }
                e.write(name.as_str(), dst);
            },
            PendingInline::Object { name, o } => {
                o.write(name.as_str(), dst);
            },
        }
    }
}

impl ProtocolType {
    /// Writes the declarations of this definition, which is an enum or a record.
    pub fn write(&self, dst: &mut Writer)
        requires
            self.ty is Enum || self.ty is Object,
            type_declarable(self.ty@),
        ensures
            final(dst)@ == render_all(old(dst)@, type_declarations(self.name@, self.ty@)),
    {
        match &self.ty {
            Type::Enum(e) => {
                proof {
                    lemma_render_one(dst@, enum_declaration(self.name@, e@));
                }
                e.write(self.name.as_str(), dst);
            },
            Type::Object(o) => {
                o.write(self.name.as_str(), dst);
            },
            _ => {},
        }
    }
}

/// Optional wrapping: a field that is not required is declared as an optional
/// member, whatever its type: its line in the record reads `Option<..>` around
/// the text of the type, below the two attributes of an optional member.
pub proof fn lemma_optional_wrapping(w: WriterView, owner: Seq<char>, f: FieldView)
    requires
        !f.required,
    ensures
        member_declaration(owner, f).optional,
        render_member(w, member_declaration(owner, f)) == render_indented_doc(w, f.doc).indented(
            "#[serde(rename = \""@ + f.name + "\")]"@,
        ).indented("#[serde(skip_serializing_if = \"Option::is_none\")]"@).indented(
            "#[serde(default)]"@,
        ).indented(
            "pub "@ + to_snake_case_spec(f.name) + ": Option<"@ + type_text(
                f.ty,
                inline_name(owner, f.name),
            ) + ">,"@,
        ),
{
}

/// A required field is declared with the text of its type as it is.
pub proof fn lemma_required_member(w: WriterView, owner: Seq<char>, f: FieldView)
    requires
        f.required,
    ensures
        !member_declaration(owner, f).optional,
        render_member(w, member_declaration(owner, f)) == render_indented_doc(w, f.doc).indented(
            "#[serde(rename = \""@ + f.name + "\")]"@,
        ).indented(
            "pub "@ + to_snake_case_spec(f.name) + ": "@ + type_text(
                f.ty,
                inline_name(owner, f.name),
            ) + ","@,
        ),
{
}

/// Openness of enums: the declaration of an enum is open exactly where the
/// enum is not exhaustive. An open declaration ends with the case that takes
/// every value that is none of the known ones; a closed one ends with its
/// last known case.
pub proof fn lemma_enum_openness(w: WriterView, name: Seq<char>, e: EnumView)
    ensures
        enum_declaration(name, e) matches Declaration::Choice { open, cases, .. } && open
            == !e.exhaustive && cases.len() == e.variants.len(),
        !e.exhaustive ==> render_declaration(w, enum_declaration(name, e)) == render_cases(
            render_doc(w, e.doc).line(OPEN_ENUM_DERIVE@).line("#[non_exhaustive]"@).line(
                "pub enum "@ + name + " {"@,
            ),
            enum_declaration(name, e)->cases,
            e.variants.len(),
        ).indented("#[serde(other)]"@).indented("Unknown,"@).line("}"@).finish_object(),
        e.exhaustive ==> render_declaration(w, enum_declaration(name, e)) == render_cases(
            render_doc(w, e.doc).line(CLOSED_ENUM_DERIVE@).line("pub enum "@ + name + " {"@),
            enum_declaration(name, e)->cases,
            e.variants.len(),
        ).line("}"@).finish_object(),
{
}

/// Order of the lifted shapes: the declarations of a record start with its
/// own, and the declarations of the inline shape of a field come after those
/// of every field before it.
pub proof fn lemma_lifting_order(name: Seq<char>, o: ObjectView, n: nat)
    requires
        0 < n <= o.fields.len(),
    ensures
        object_declarations(name, o)[0] == record_declaration(name, o),
        fields_declarations(name, o.fields, n) == fields_declarations(
            name,
            o.fields,
            (n - 1) as nat,
        ) + type_declarations(inline_name(name, o.fields[n - 1].name), o.fields[n - 1].ty),
        object_declarations(name, o) == seq![record_declaration(name, o)] + fields_declarations(
            name,
            o.fields,
            o.fields.len(),
        ),
{
}

/// Order of the lifted shapes, for a record of two fields that are both
/// inline records: the record is declared first, then the record of the
/// first field with what it lifts, then that of the second.
pub proof fn lemma_two_inline_records(name: Seq<char>, o: ObjectView)
    requires
        o.fields.len() == 2,
        o.fields[0].ty is Object,
        o.fields[1].ty is Object,
    ensures
        object_declarations(name, o) == seq![record_declaration(name, o)] + object_declarations(
            inline_name(name, o.fields[0].name),
            o.fields[0].ty->Object_0,
        ) + object_declarations(inline_name(name, o.fields[1].name), o.fields[1].ty->Object_0),
{
    let first = object_declarations(inline_name(name, o.fields[0].name), o.fields[0].ty->Object_0);
    let second = object_declarations(inline_name(name, o.fields[1].name), o.fields[1].ty->Object_0);
    assert(type_declarations(inline_name(name, o.fields[0].name), o.fields[0].ty) == first);
    assert(type_declarations(inline_name(name, o.fields[1].name), o.fields[1].ty) == second);
    assert(fields_declarations(name, o.fields, 0) =~= Seq::<Declaration>::empty());
    assert(fields_declarations(name, o.fields, 1) =~= first);
    assert(fields_declarations(name, o.fields, 2) =~= first + second);
    assert(object_declarations(name, o) =~= seq![record_declaration(name, o)] + first + second);
}

} // verus!
