use vstd::prelude::*;
use vstd::string::*;
use crate::names::{lemma_position_at, lemma_position_none, position};
use crate::text::{str_eq, strings_view};

verus! {

/// A text that may be absent, as a mathematical value.
pub enum OptionalText {
    Absent,
    Present(Seq<char>),
}

/// A list of texts that may be absent, as a mathematical value.
pub enum OptionalTexts {
    Absent,
    Present(Seq<Seq<char>>),
}

/// The shape of a protocol type, as a mathematical value.
pub enum TypeView {
    /// An untyped JSON value.
    Any,
    /// A type declared elsewhere, by its name.
    Reference(Seq<char>),
    /// A string enumeration.
    Enum(EnumView),
    /// A record.
    Object(ObjectView),
    /// A homogeneous sequence.
    List(Box<TypeView>),
    /// A value that may be absent.
    Optional(Box<TypeView>),
}

/// A string enumeration, as a mathematical value.
pub struct EnumView {
    pub doc: OptionalText,
    pub variants: Seq<Seq<char>>,
    pub exhaustive: bool,
    pub variant_descriptions: OptionalTexts,
}

/// A record, as a mathematical value.
pub struct ObjectView {
    pub doc: OptionalText,
    pub fields: Seq<FieldView>,
}

/// A field of a record, as a mathematical value.
pub struct FieldView {
    pub doc: OptionalText,
    pub name: Seq<char>,
    pub ty: TypeView,
    pub required: bool,
}

/// A named definition, as a mathematical value.
pub struct DefinitionView {
    pub name: Seq<char>,
    pub ty: TypeView,
}

/// The shape of a protocol type.
#[derive(Debug, PartialEq, Eq)]
pub enum Type {
    /// An untyped JSON value.
    Any,
    /// A type declared elsewhere, by its name.
    Reference(String),
    /// A string enumeration.
    Enum(Enum),
    /// A record.
    Object(Object),
    /// A homogeneous sequence.
    List(Box<Type>),
    /// A value that may be absent.
    Optional(Box<Type>),
}

/// A string enumeration. An exhaustive one admits its variants only; one that
/// is not exhaustive lists the known values of an open set.
#[derive(Debug, PartialEq, Eq)]
pub struct Enum {
    pub doc: Option<String>,
    pub variants: Vec<String>,
    pub exhaustive: bool,
    /// One description per variant, where the schema gives them.
    pub variant_descriptions: Option<Vec<String>>,
}

/// A record. The order of its fields is the order of the schema.
#[derive(Debug, PartialEq, Eq)]
pub struct Object {
    pub doc: Option<String>,
    pub fields: Vec<Field>,
}

/// A field of a record.
#[derive(Debug, PartialEq, Eq)]
pub struct Field {
    pub doc: Option<String>,
    /// The key of the field in the schema.
    pub name: String,
    pub ty: Type,
    /// A field that is not required is declared optional, whatever its type.
    pub required: bool,
}

/// A named definition of the schema with its translated shape.
#[derive(Debug, PartialEq, Eq)]
pub struct ProtocolType {
    pub name: String,
    pub ty: Type,
}

/// The view of an optional string.
pub open spec fn optional_text(s: Option<String>) -> OptionalText {
    match s {
        Some(s) => OptionalText::Present(s@),
        None => OptionalText::Absent,
    }
}

/// The view of an optional list of strings.
pub open spec fn optional_texts(v: Option<Vec<String>>) -> OptionalTexts {
    match v {
        Some(v) => OptionalTexts::Present(strings_view(v@)),
        None => OptionalTexts::Absent,
    }
}

/// The views of `fields`, in order.
pub open spec fn fields_view(fields: Seq<Field>) -> Seq<FieldView> {
    Seq::new(fields.len(), |i: int| fields[i]@)
}

/// The views of `types`, in order.
pub open spec fn definitions_view(types: Seq<ProtocolType>) -> Seq<DefinitionView> {
    Seq::new(types.len(), |i: int| types[i]@)
}

/// The names of `fields`, in order.
pub open spec fn field_names(fields: Seq<FieldView>) -> Seq<Seq<char>> {
    Seq::new(fields.len(), |i: int| fields[i].name)
}

/// The names of `definitions`, in order.
pub open spec fn definition_names(definitions: Seq<DefinitionView>) -> Seq<Seq<char>> {
    Seq::new(definitions.len(), |i: int| definitions[i].name)
}

impl TypeView {
    /// The description of an enum or of a record; other shapes have none.
    pub open spec fn doc(self) -> OptionalText {
        match self {
            TypeView::Enum(e) => e.doc,
            TypeView::Object(o) => o.doc,
            _ => OptionalText::Absent,
        }
    }
}

impl EnumView {
    /// Whether this is an exhaustive enum of the one value `value`.
    pub open spec fn is_single(self, value: Seq<char>) -> bool {
        self.exhaustive && self.variants == seq![value]
    }
}

impl ObjectView {
    /// The first field named `name`.
    pub open spec fn find_field(self, name: Seq<char>) -> Option<FieldView> {
        match position(field_names(self.fields), name) {
            Some(i) => Some(self.fields[i]),
            None => None,
        }
    }
}

impl View for Enum {
    type V = EnumView;

    open spec fn view(&self) -> EnumView {
        EnumView {
            doc: optional_text(self.doc),
            variants: strings_view(self.variants@),
            exhaustive: self.exhaustive,
            variant_descriptions: optional_texts(self.variant_descriptions),
        }
    }
}

impl View for Field {
    type V = FieldView;

    open spec fn view(&self) -> FieldView
        decreases self,
    {
        FieldView {
            doc: optional_text(self.doc),
            name: self.name@,
            ty: self.ty.view(),
            required: self.required,
        }
    }
}

impl View for Object {
    type V = ObjectView;

    open spec fn view(&self) -> ObjectView
        decreases self,
    {
        ObjectView {
            doc: optional_text(self.doc),
            fields: Seq::new(
                self.fields@.len(),
                |i: int|
                    if 0 <= i < self.fields@.len() {
                        self.fields@[i].view()
                    } else {
                        FieldView {
                            doc: OptionalText::Absent,
                            name: Seq::empty(),
                            ty: TypeView::Any,
                            required: false,
                        }
                    },
            ),
        }
    }
}

impl View for Type {
    type V = TypeView;

    open spec fn view(&self) -> TypeView
        decreases self,
    {
        match self {
            Type::Any => TypeView::Any,
            Type::Reference(name) => TypeView::Reference(name@),
            Type::Enum(e) => TypeView::Enum(e@),
            Type::Object(o) => TypeView::Object(o.view()),
            Type::List(item) => TypeView::List(Box::new((**item).view())),
            Type::Optional(inner) => TypeView::Optional(Box::new((**inner).view())),
        }
    }
}

impl View for ProtocolType {
    type V = DefinitionView;

    open spec fn view(&self) -> DefinitionView {
        DefinitionView { name: self.name@, ty: self.ty@ }
    }
}

/// The fields of the view of a record are the views of its fields.
pub proof fn lemma_fields_view(o: Object)
    ensures
        o@.fields == fields_view(o.fields@),
{
    assert(o@.fields =~= fields_view(o.fields@));
}

/// A copy of an optional string.
pub fn copy_option(s: &Option<String>) -> (r: Option<String>)
    ensures
        optional_text(r) == optional_text(*s),
{
    match s {
        Some(s) => Some(s.clone()),
        None => None,
    }
}

/// A copy of a list of strings.
pub fn copy_strings(v: &Vec<String>) -> (r: Vec<String>)
    ensures
        strings_view(r@) == strings_view(v@),
{
    let mut r: Vec<String> = Vec::new();
    let mut i: usize = 0;
    while i < v.len()
        invariant
            i <= v.len(),
            r@.len() == i,
            forall|j: int| 0 <= j < i ==> r@[j]@ == v@[j]@,
        decreases v.len() - i,
    {
        r.push(v[i].clone());
        i = i + 1;
    }
    assert(strings_view(r@) =~= strings_view(v@));
    r
}

impl Clone for Enum {
    fn clone(&self) -> (r: Self)
        ensures
            r@ == self@,
    {
        Enum {
            doc: copy_option(&self.doc),
            variants: copy_strings(&self.variants),
            exhaustive: self.exhaustive,
            variant_descriptions: match &self.variant_descriptions {
                Some(d) => Some(copy_strings(d)),
                None => None,
            },
        }
    }
}

impl Clone for Field {
    fn clone(&self) -> (r: Self)
        ensures
            r@ == self@,
        decreases self,
    {
        Field {
            doc: copy_option(&self.doc),
            name: self.name.clone(),
            ty: self.ty.clone(),
            required: self.required,
        }
    }
}

impl Clone for Object {
    fn clone(&self) -> (r: Self)
        ensures
            r@ == self@,
        decreases self,
    {
        let mut fields: Vec<Field> = Vec::new();
        let mut i: usize = 0;
        while i < self.fields.len()
            invariant
                i <= self.fields.len(),
                fields@.len() == i,
                forall|j: int| 0 <= j < i ==> fields@[j]@ == self.fields@[j]@,
            decreases self.fields.len() - i,
        {
            fields.push(self.fields[i].clone());
            i = i + 1;
        }
        let r = Object { doc: copy_option(&self.doc), fields };
        proof {
            lemma_fields_view(r);
            lemma_fields_view(*self);
            assert(fields_view(r.fields@) =~= fields_view(self.fields@));
        }
        r
    }
}

impl Clone for Type {
    fn clone(&self) -> (r: Self)
        ensures
            r@ == self@,
        decreases self,
    {
        match self {
            Type::Any => Type::Any,
            Type::Reference(name) => Type::Reference(name.clone()),
            Type::Enum(e) => Type::Enum(e.clone()),
            Type::Object(o) => Type::Object(o.clone()),
            Type::List(item) => Type::List(Box::new((**item).clone())),
            Type::Optional(inner) => Type::Optional(Box::new((**inner).clone())),
        }
    }
}

impl Clone for ProtocolType {
    fn clone(&self) -> (r: Self)
        ensures
            r@ == self@,
    {
        ProtocolType { name: self.name.clone(), ty: self.ty.clone() }
    }
}

impl Type {
    /// A reference to the type named `name`.
    pub fn reference(name: &str) -> (r: Type)
        ensures
            r@ == TypeView::Reference(name@),
    {
        Type::Reference(String::from_str(name))
    }

    /// The enum that this type is.
    pub fn as_enum(&self) -> (e: &Enum)
        requires
            self is Enum,
        ensures
            *e == self->Enum_0,
            self@ == TypeView::Enum(e@),
    {
        match self {
            Type::Enum(e) => e,
            _ => unreached(),
        }
    }

    /// The record that this type is.
    pub fn as_object(&self) -> (o: &Object)
        requires
            self is Object,
        ensures
            *o == self->Object_0,
            self@ == TypeView::Object(o@),
    {
        match self {
            Type::Object(o) => o,
            _ => unreached(),
        }
    }

    /// The description of an enum or of a record; other shapes have none.
    pub fn doc(&self) -> (r: Option<String>)
        ensures
            optional_text(r) == self@.doc(),
    {
        match self {
            Type::Enum(e) => copy_option(&e.doc),
            Type::Object(o) => {
                assert(self@ == TypeView::Object(o@));
                copy_option(&o.doc)
            },
            _ => None,
        }
    }
}

impl Enum {
    /// The one value of an exhaustive enum of one value.
    pub fn single_value(&self) -> (r: &str)
        requires
            self@.exhaustive,
            self@.variants.len() == 1,
        ensures
            self@.is_single(r@),
    {
        assert(self@.variants =~= seq![self.variants@[0]@]);
        self.variants[0].as_str()
    }
}

impl Object {
    /// The first field named `name`.
    pub fn find_field(&self, name: &str) -> (r: Option<&Field>)
        ensures
            match r {
                Some(f) => self@.find_field(name@) == Some(f@),
                None => self@.find_field(name@) is None,
            },
    {
        proof {
            lemma_fields_view(*self);
        }
        let ghost names = field_names(self@.fields);
        let mut i: usize = 0;
        while i < self.fields.len()
            invariant
                i <= self.fields.len(),
                self@.fields == fields_view(self.fields@),
                names == field_names(self@.fields),
                forall|j: int| 0 <= j < i ==> names[j] != name@,
            decreases self.fields.len() - i,
        {
            if str_eq(self.fields[i].name.as_str(), name) {
                proof {
                    lemma_position_at(names, name@, i as int);
                }
                return Some(&self.fields[i]);
            }
            i = i + 1;
        }
        proof {
            lemma_position_none(names, name@);
        }
        None
    }
}

} // verus!
