use vstd::prelude::*;
use vstd::string::*;
use crate::emit::{
    enum_declarable, enum_declaration, is_enum_declarable, is_object_declarable,
    lemma_render_concat, object_declarable, object_declarations, render_all,
    Declaration, CUSTOM_TYPES, TYPES_HEADER,
};
use crate::error::{Failure, Problem, ProblemView};
use crate::ir::{
    definitions_view, lemma_fields_view, DefinitionView, Object, ObjectView, ProtocolType, Type,
    TypeView,
};
use crate::text::ends_with;
use crate::writer::{Writer, WriterView};

verus! {

/// The record declared for the inline `body` of a response or an event: the
/// body with the description of the definition where it has none of its own.
pub open spec fn body_record(parent: ObjectView, body: ObjectView) -> ObjectView {
    ObjectView {
        doc: if body.doc is Present {
            body.doc
        } else {
            parent.doc
        },
        fields: body.fields,
    }
}

/// The declarations of the response or event `d`: those of its `body` where
/// that is an inline record, under the name of `d`; none where the body is
/// untyped or a reference.
pub open spec fn body_declarations(d: DefinitionView) -> Result<Seq<Declaration>, Failure> {
    match d.ty {
        TypeView::Object(o) => match o.find_field("body"@) {
            None => Err(Failure::MissingField),
            Some(f) => match f.ty {
                TypeView::Any => Ok(Seq::empty()),
                TypeView::Reference(_) => Ok(Seq::empty()),
                TypeView::Object(body) => if object_declarable(body) {
                    Ok(object_declarations(d.name, body_record(o, body)))
                } else {
                    Err(Failure::IllFormed)
                },
                _ => Err(Failure::BadBody),
            },
        },
        _ => Err(Failure::BadBody),
    }
}

/// The declarations of the definition `d` in the data-type stream. A request
/// has none there; a response or an event has those of its body; any other
/// definition is declared as it is.
pub open spec fn definition_declarations(d: DefinitionView) -> Result<Seq<Declaration>, Failure> {
    if "Request"@.is_suffix_of(d.name) {
        Ok(Seq::empty())
    } else if "Response"@.is_suffix_of(d.name) || "Event"@.is_suffix_of(d.name) {
        body_declarations(d)
    } else {
        match d.ty {
            TypeView::Enum(e) => if enum_declarable(e) {
                Ok(seq![enum_declaration(d.name, e)])
            } else {
                Err(Failure::IllFormed)
            },
            TypeView::Object(o) => if object_declarable(o) {
                Ok(object_declarations(d.name, o))
            } else {
                Err(Failure::IllFormed)
            },
            _ => Err(Failure::UnsupportedDefinition),
        }
    }
}

/// The declarations `acc` followed by those of the definitions `defs[i..]`,
/// in order.
pub open spec fn types_declarations(defs: Seq<DefinitionView>, i: nat, acc: Seq<Declaration>) -> Result<
    Seq<Declaration>,
    ProblemView,
>
    decreases defs.len() - i,
{
    if i >= defs.len() {
        Ok(acc)
    } else {
        match definition_declarations(defs[i as int]) {
            Err(e) => Err(ProblemView { definition: defs[i as int].name, failure: e }),
            Ok(ds) => types_declarations(defs, i + 1, acc + ds),
        }
    }
}

/// The writer of the data-type stream before the first declaration.
pub open spec fn types_start() -> WriterView {
    WriterView::empty().line(TYPES_HEADER@).finish_object()
}

/// The text of the data-type stream for the definitions `defs`: the header, the
/// declarations of the definitions in order, and the declarations written by
/// hand.
pub open spec fn types_text(defs: Seq<DefinitionView>) -> Result<Seq<char>, ProblemView> {
    match types_declarations(defs, 0, Seq::empty()) {
        Ok(ds) => Ok(render_all(types_start(), ds).code(CUSTOM_TYPES@).output),
        Err(e) => Err(e),
    }
}

/// The view of the outcome of writing a stream.
pub open spec fn text_result(r: Result<String, Problem>) -> Result<Seq<char>, ProblemView> {
    match r {
        Ok(t) => Ok(t@),
        Err(e) => Err(e@),
    }
}

/// Writes the declarations of the body of the response or event `ty`.
fn write_body(ty: &ProtocolType, dst: &mut Writer) -> (r: Result<(), Failure>)
    ensures
        match r {
            Ok(_) => body_declarations(ty@) matches Ok(ds) && final(dst)@ == render_all(
                old(dst)@,
                ds,
            ),
            Err(e) => body_declarations(ty@) == Err::<Seq<Declaration>, Failure>(e),
        },
{
    let o = match &ty.ty {
        Type::Object(o) => o,
        _ => {
            return Err(Failure::BadBody);
        },
    };
    assert(ty@.ty == TypeView::Object(o@));
    let field = match o.find_field("body") {
        Some(f) => f,
        None => {
            return Err(Failure::MissingField);
        },
    };
    assert(field@.ty == field.ty@);
    match &field.ty {
        Type::Any => {
            assert(render_all(dst@, Seq::<Declaration>::empty()) == dst@);
            Ok(())
        },
        Type::Reference(_) => {
            assert(render_all(dst@, Seq::<Declaration>::empty()) == dst@);
            Ok(())
        },
        Type::Object(body) => {
            assert(field.ty@ == TypeView::Object(body@));
            if !is_object_declarable(body) {
                return Err(Failure::IllFormed);
            }
            let copy = body.clone();
            proof {
                lemma_fields_view(copy);
            }
            let Object { doc: own, fields } = copy;
            let doc = match own {
                Some(d) => Some(d),
                None => ty.ty.doc(),
            };
            let record = Object { doc, fields };
            proof {
                lemma_fields_view(record);
                assert(record@ == body_record(o@, body@));
            }
            record.write(ty.name.as_str(), dst);
            Ok(())
        },
        _ => Err(Failure::BadBody),
    }
}

/// Writes the declarations of the definition `ty` in the data-type stream.
fn write_definition(ty: &ProtocolType, dst: &mut Writer) -> (r: Result<(), Failure>)
    ensures
        match r {
            Ok(_) => definition_declarations(ty@) matches Ok(ds) && final(dst)@ == render_all(
                old(dst)@,
                ds,
            ),
            Err(e) => definition_declarations(ty@) == Err::<Seq<Declaration>, Failure>(e),
        },
{
    if ends_with(ty.name.as_str(), "Request") {
        assert(render_all(dst@, Seq::<Declaration>::empty()) == dst@);
        return Ok(());
    }
    if ends_with(ty.name.as_str(), "Response") || ends_with(ty.name.as_str(), "Event") {
        return write_body(ty, dst);
    }
    match &ty.ty {
        Type::Enum(e) => {
            if !is_enum_declarable(e) {
                return Err(Failure::IllFormed);
            }
            ty.write(dst);
            Ok(())
        },
        Type::Object(o) => {
            if !is_object_declarable(o) {
                return Err(Failure::IllFormed);
            }
            ty.write(dst);
            Ok(())
        },
        _ => Err(Failure::UnsupportedDefinition),
    }
}

/// Writes the data-type stream for the definitions `types`: a declaration for
/// every definition that is neither a request nor a response or event without
/// an inline body, each followed by the inline shapes that it lifts.
pub fn write_types(types: &[ProtocolType]) -> (r: Result<String, Problem>)
    ensures
        text_result(r) == types_text(definitions_view(types@)),
{
    let ghost defs = definitions_view(types@);
    let mut writer = Writer::new();
    writer.line(TYPES_HEADER);
    writer.finished_object();
    let ghost mut done: Seq<Declaration> = Seq::empty();
    let mut i: usize = 0;
    while i < types.len()
        invariant
            i <= types.len(),
            defs == definitions_view(types@),
            types_declarations(defs, 0, Seq::empty()) == types_declarations(defs, i as nat, done),
            writer@ == render_all(types_start(), done),
        decreases types.len() - i,
    {
        assert(defs[i as int] == types@[i as int]@);
        let ghost before = writer@;
        match write_definition(&types[i], &mut writer) {
            Ok(_) => {
                proof {
                    let ds = definition_declarations(defs[i as int])->Ok_0;
                    lemma_render_concat(types_start(), done, ds);
                    done = done + ds;
                }
            },
            Err(e) => {
                return Err(Problem::at(types[i].name.as_str(), e));
            },
        }
        i = i + 1;
    }
    writer.code(CUSTOM_TYPES);
    Ok(writer.into_output())
}

} // verus!
