use vstd::prelude::*;
use vstd::string::*;
use crate::error::{Failure, Problem, ProblemView};
use crate::ir::{
    copy_option, definition_names, definitions_view, optional_text, DefinitionView, Field,
    FieldView, OptionalText, ProtocolType, Type, TypeView,
};
use crate::names::{lemma_position_at, lemma_position_none, position};
use crate::data_types::text_result;
use crate::emit::{render_doc, write_doc};
use crate::text::{debug_quoted, quoted, str_eq, strip_suffix};
use crate::writer::{Writer, WriterView};

verus! {

/// The trait that the request bindings implement, as it opens their stream.
pub const REQUEST_TRAIT: &'static str = "
/// Request is a request, with associated command, and argument and response types.
pub trait Request {
    const COMMAND: &'static str;
    type Arguments: Debug + Clone + Serialize + DeserializeOwned + Send + Sync;
    type Response: Debug + Clone + Serialize + DeserializeOwned + Send + Sync;
}
";

/// The trait that the event bindings implement, as it opens their stream.
pub const EVENT_TRAIT: &'static str = "
/// Event is an event, with associated name and body type.
pub trait Event {
    const EVENT: &'static str;
    type Body: Debug + Clone + Serialize + DeserializeOwned + Send + Sync;
}
";

/// The first line of the two streams of bindings.
pub const BINDINGS_HEADER: &'static str = "use serde::{de::DeserializeOwned, Serialize};";

/// The second line of the two streams of bindings.
pub const BINDINGS_DEBUG: &'static str = "use std::fmt::Debug;";

/// The type of what a message carries, as a mathematical value.
pub enum PayloadView {
    /// Nothing.
    Unit,
    /// The declared type of this name.
    Named(Seq<char>),
    /// The declared type of this name, or nothing.
    Optional(Seq<char>),
}

/// The type of what a message carries.
#[derive(Debug, PartialEq, Eq)]
pub enum Payload {
    /// Nothing.
    Unit,
    /// The declared type of this name.
    Named(String),
    /// The declared type of this name, or nothing.
    Optional(String),
}

/// A request with its command, its arguments and its response, as a
/// mathematical value.
pub struct RequestBindingView {
    pub doc: OptionalText,
    pub name: Seq<char>,
    pub command: Seq<char>,
    pub arguments: PayloadView,
    pub response: PayloadView,
}

/// A request: the name of its binding, its command and the types of its
/// arguments and of its response.
#[derive(Debug, PartialEq, Eq)]
pub struct RequestBinding {
    /// The description of the request, where the schema gives one.
    pub doc: Option<String>,
    pub name: String,
    pub command: String,
    pub arguments: Payload,
    pub response: Payload,
}

/// An event with its name in the protocol and its body, as a mathematical value.
pub struct EventBindingView {
    pub doc: OptionalText,
    pub name: Seq<char>,
    pub event: Seq<char>,
    pub body: PayloadView,
}

/// An event: the name of its binding, its name in the protocol and the type
/// of its body.
#[derive(Debug, PartialEq, Eq)]
pub struct EventBinding {
    /// The description of the event, where the schema gives one.
    pub doc: Option<String>,
    pub name: String,
    pub event: String,
    pub body: Payload,
}

impl View for Payload {
    type V = PayloadView;

    open spec fn view(&self) -> PayloadView {
        match self {
            Payload::Unit => PayloadView::Unit,
            Payload::Named(n) => PayloadView::Named(n@),
            Payload::Optional(n) => PayloadView::Optional(n@),
        }
    }
}

impl View for RequestBinding {
    type V = RequestBindingView;

    open spec fn view(&self) -> RequestBindingView {
        RequestBindingView {
            doc: optional_text(self.doc),
            name: self.name@,
            command: self.command@,
            arguments: self.arguments@,
            response: self.response@,
        }
    }
}

impl View for EventBinding {
    type V = EventBindingView;

    open spec fn view(&self) -> EventBindingView {
        EventBindingView {
            doc: optional_text(self.doc),
            name: self.name@,
            event: self.event@,
            body: self.body@,
        }
    }
}

/// The views of `bindings`, in order.
pub open spec fn requests_view(bindings: Seq<RequestBinding>) -> Seq<RequestBindingView> {
    Seq::new(bindings.len(), |i: int| bindings[i]@)
}

/// The views of `bindings`, in order.
pub open spec fn events_view(bindings: Seq<EventBinding>) -> Seq<EventBindingView> {
    Seq::new(bindings.len(), |i: int| bindings[i]@)
}

/// The text of the payload in a binding.
pub open spec fn payload_text(p: PayloadView) -> Seq<char> {
    match p {
        PayloadView::Unit => "()"@,
        PayloadView::Named(n) => "crate::"@ + n,
        PayloadView::Optional(n) => "Option<crate::"@ + n + ">"@,
    }
}

/// Whether the definition `d` is a message of the kind `kind`: a record whose
/// field `type` is an exhaustive enum of the one value `kind`.
pub open spec fn is_kind(d: DefinitionView, kind: Seq<char>) -> bool {
    &&& d.ty matches TypeView::Object(o)
    &&& o.find_field("type"@) matches Some(f)
    &&& f.ty matches TypeView::Enum(e)
    &&& e.variants.len() == 1
    &&& e.variants[0] == kind
    &&& e.exhaustive
}

/// The one value of the discriminant field `f`.
pub open spec fn single_value_of(f: FieldView) -> Result<Seq<char>, Failure> {
    match f.ty {
        TypeView::Enum(e) => if e.exhaustive && e.variants.len() == 1 {
            Ok(e.variants[0])
        } else {
            Err(Failure::BadDiscriminant)
        },
        _ => Err(Failure::BadDiscriminant),
    }
}

/// The payload of a field `arguments` of the type `ty`.
pub open spec fn arguments_payload(ty: TypeView) -> Result<PayloadView, Failure> {
    match ty {
        TypeView::Any => Ok(PayloadView::Unit),
        TypeView::Reference(a) => Ok(PayloadView::Named(a)),
        _ => Err(Failure::BadArguments),
    }
}

/// The payload of a field `body` of the type `ty` in the definition `owner`:
/// an inline record is declared under the name of the definition that holds it.
pub open spec fn body_payload(ty: TypeView, owner: Seq<char>) -> Result<PayloadView, Failure> {
    match ty {
        TypeView::Any => Ok(PayloadView::Unit),
        TypeView::Reference(b) => Ok(PayloadView::Named(b)),
        TypeView::Object(_) => Ok(PayloadView::Named(owner)),
        _ => Err(Failure::BadBody),
    }
}

/// The payload of the response named `response` among `defs`.
pub open spec fn response_payload(defs: Seq<DefinitionView>, response: Seq<char>) -> Result<
    PayloadView,
    Failure,
> {
    match position(definition_names(defs), response) {
        None => Err(Failure::MissingResponse),
        Some(k) => match defs[k].ty {
            TypeView::Object(ro) => match ro.find_field("body"@) {
                None => Err(Failure::MissingField),
                Some(bf) => body_payload(bf.ty, response),
            },
            _ => Err(Failure::BadBody),
        },
    }
}

/// `name` without the suffix `suffix`, which it ends with.
pub open spec fn without_suffix(name: Seq<char>, suffix: Seq<char>) -> Seq<char> {
    name.take(name.len() - suffix.len())
}

/// The binding of the request `d`, which is a record: its description is that
/// of the record, where it has one; its command is the one
/// value of its field `command`, its arguments are those of its field
/// `arguments`, its name is its own without the suffix `Request`, and its
/// response is the body of the definition of that name with the suffix
/// `Response`.
pub open spec fn request_binding_spec(defs: Seq<DefinitionView>, d: DefinitionView) -> Result<
    RequestBindingView,
    Failure,
> {
    let o = d.ty->Object_0;
    match o.find_field("command"@) {
        None => Err(Failure::MissingField),
        Some(cf) => match single_value_of(cf) {
            Err(e) => Err(e),
            Ok(command) => match o.find_field("arguments"@) {
                None => Err(Failure::MissingField),
                Some(af) => match arguments_payload(af.ty) {
                    Err(e) => Err(e),
                    Ok(arguments) => if !"Request"@.is_suffix_of(d.name) {
                        Err(Failure::BadName)
                    } else {
                        let name = without_suffix(d.name, "Request"@);
                        match response_payload(defs, name + "Response"@) {
                            Err(e) => Err(e),
                            Ok(response) => Ok(
                                RequestBindingView {
                                    doc: o.doc,
                                    name,
                                    command,
                                    arguments,
                                    response,
                                },
                            ),
                        }
                    },
                },
            },
        },
    }
}

/// The name of the event whose body, where it is untyped, is the capabilities
/// of the adapter or nothing.
pub open spec fn initialized_event() -> Seq<char> {
    "initialized"@
}

/// The payload of the body of the type `ty` of the event `event` that the
/// definition `owner` describes.
pub open spec fn event_payload(ty: TypeView, event: Seq<char>, owner: Seq<char>) -> Result<
    PayloadView,
    Failure,
> {
    match ty {
        TypeView::Any => if event == initialized_event() {
            Ok(PayloadView::Optional("Capabilities"@))
        } else {
            Ok(PayloadView::Unit)
        },
        _ => body_payload(ty, owner),
    }
}

/// The binding of the event `d`, which is a record: its name in the protocol
/// is the one value of its field `event`, its body is that of its field
/// `body`, and its name is its own without the suffix `Event`.
pub open spec fn event_binding_spec(d: DefinitionView) -> Result<EventBindingView, Failure> {
    let o = d.ty->Object_0;
    match o.find_field("event"@) {
        None => Err(Failure::MissingField),
        Some(ef) => match single_value_of(ef) {
            Err(e) => Err(e),
            Ok(event) => match o.find_field("body"@) {
                None => Err(Failure::MissingField),
                Some(bf) => match event_payload(bf.ty, event, d.name) {
                    Err(e) => Err(e),
                    Ok(body) => if !"Event"@.is_suffix_of(d.name) {
                        Err(Failure::BadName)
                    } else {
                        Ok(
                            EventBindingView {
                                doc: o.doc,
                                name: without_suffix(d.name, "Event"@),
                                event,
                                body,
                            },
                        )
                    },
                },
            },
        },
    }
}

/// The bindings `acc` followed by those of the requests among `defs[i..]`.
pub open spec fn request_bindings_spec(
    defs: Seq<DefinitionView>,
    i: nat,
    acc: Seq<RequestBindingView>,
) -> Result<Seq<RequestBindingView>, ProblemView>
    decreases defs.len() - i,
{
    if i >= defs.len() {
        Ok(acc)
    } else if !is_kind(defs[i as int], "request"@) {
        request_bindings_spec(defs, i + 1, acc)
    } else {
        match request_binding_spec(defs, defs[i as int]) {
            Err(e) => Err(ProblemView { definition: defs[i as int].name, failure: e }),
            Ok(b) => request_bindings_spec(defs, i + 1, acc.push(b)),
        }
    }
}

/// The bindings `acc` followed by those of the events among `defs[i..]`.
pub open spec fn event_bindings_spec(
    defs: Seq<DefinitionView>,
    i: nat,
    acc: Seq<EventBindingView>,
) -> Result<Seq<EventBindingView>, ProblemView>
    decreases defs.len() - i,
{
    if i >= defs.len() {
        Ok(acc)
    } else if !is_kind(defs[i as int], "event"@) {
        event_bindings_spec(defs, i + 1, acc)
    } else {
        match event_binding_spec(defs[i as int]) {
            Err(e) => Err(ProblemView { definition: defs[i as int].name, failure: e }),
            Ok(b) => event_bindings_spec(defs, i + 1, acc.push(b)),
        }
    }
}

/// The writer after the binding `b` of a request.
pub open spec fn render_request(w: WriterView, b: RequestBindingView) -> WriterView {
    render_doc(w, b.doc).line("pub enum "@ + b.name + " {}"@).finish_object().line(
        "impl Request for "@ + b.name + " {"@,
    ).indented("const COMMAND: &'static str = "@ + debug_quoted(b.command) + ";"@).indented(
        "type Arguments = "@ + payload_text(b.arguments) + ";"@,
    ).indented("type Response = "@ + payload_text(b.response) + ";"@).line("}"@).finish_object()
}

/// The writer after the binding `b` of an event.
pub open spec fn render_event(w: WriterView, b: EventBindingView) -> WriterView {
    render_doc(w, b.doc).line("pub enum "@ + b.name + " {}"@).finish_object().line(
        "impl Event for "@ + b.name + " {"@,
    ).indented("const EVENT: &'static str = "@ + debug_quoted(b.event) + ";"@).indented(
        "type Body = "@ + payload_text(b.body) + ";"@,
    ).line("}"@).finish_object()
}

/// The writer after the first `n` of the request bindings.
pub open spec fn render_requests(w: WriterView, bindings: Seq<RequestBindingView>, n: nat) -> WriterView
    decreases n,
{
    if n == 0 || n > bindings.len() {
        w
    } else {
        render_request(render_requests(w, bindings, (n - 1) as nat), bindings[n - 1])
    }
}

/// The writer after the first `n` of the event bindings.
pub open spec fn render_events(w: WriterView, bindings: Seq<EventBindingView>, n: nat) -> WriterView
    decreases n,
{
    if n == 0 || n > bindings.len() {
        w
    } else {
        render_event(render_events(w, bindings, (n - 1) as nat), bindings[n - 1])
    }
}

/// The writer of a stream of bindings after the trait `declared`.
pub open spec fn bindings_start(declared: Seq<char>) -> WriterView {
    WriterView::empty().line(BINDINGS_HEADER@).line(BINDINGS_DEBUG@).finish_object().code(declared)
}

/// The text of the stream of request bindings for the definitions `defs`.
pub open spec fn requests_text(defs: Seq<DefinitionView>) -> Result<Seq<char>, ProblemView> {
    match request_bindings_spec(defs, 0, Seq::empty()) {
        Ok(bs) => Ok(render_requests(bindings_start(REQUEST_TRAIT@), bs, bs.len()).output),
        Err(e) => Err(e),
    }
}

/// The text of the stream of event bindings for the definitions `defs`.
pub open spec fn events_text(defs: Seq<DefinitionView>) -> Result<Seq<char>, ProblemView> {
    match event_bindings_spec(defs, 0, Seq::empty()) {
        Ok(bs) => Ok(render_events(bindings_start(EVENT_TRAIT@), bs, bs.len()).output),
        Err(e) => Err(e),
    }
}

/// The view of the outcome of recognising requests.
pub open spec fn requests_result(r: Result<Vec<RequestBinding>, Problem>) -> Result<
    Seq<RequestBindingView>,
    ProblemView,
> {
    match r {
        Ok(b) => Ok(requests_view(b@)),
        Err(e) => Err(e@),
    }
}

/// The view of the outcome of recognising events.
pub open spec fn events_result(r: Result<Vec<EventBinding>, Problem>) -> Result<
    Seq<EventBindingView>,
    ProblemView,
> {
    match r {
        Ok(b) => Ok(events_view(b@)),
        Err(e) => Err(e@),
    }
}

/// The `initialized` event: an event of that name with an untyped body binds
/// to the capabilities or nothing, and not to the unit type.
pub proof fn lemma_initialized_binds_capabilities(d: DefinitionView)
    requires
        ({
            &&& d.ty matches TypeView::Object(o)
            &&& o.find_field("event"@) matches Some(ef)
            &&& single_value_of(ef) == Ok::<Seq<char>, Failure>(initialized_event())
            &&& o.find_field("body"@) matches Some(bf)
            &&& bf.ty is Any
        }),
        event_binding_spec(d) is Ok,
    ensures
        event_binding_spec(d)->Ok_0.body == PayloadView::Optional("Capabilities"@),
        event_binding_spec(d)->Ok_0.body != PayloadView::Unit,
{
}

/// Whether the definition `ty` is a message of the kind `kind`.
pub fn is_message(ty: &ProtocolType, kind: &str) -> (r: bool)
    ensures
        r == is_kind(ty@, kind@),
{
    let o = match &ty.ty {
        Type::Object(o) => o,
        _ => {
            return false;
        },
    };
    assert(ty@.ty == TypeView::Object(o@));
    let field = match o.find_field("type") {
        Some(f) => f,
        None => {
            return false;
        },
    };
    assert(field@.ty == field.ty@);
    match &field.ty {
        Type::Enum(e) => {
            assert(field.ty@ == TypeView::Enum(e@));
            assert(e@.variants.len() == e.variants@.len());
            if e.variants.len() != 1 {
                return false;
            }
            assert(e@.variants[0] == e.variants@[0]@);
            str_eq(e.variants[0].as_str(), kind) && e.exhaustive
        },
        _ => false,
    }
}

/// The one value of the discriminant field `field`.
fn discriminant(field: &Field) -> (r: Result<String, Failure>)
    ensures
        match r {
            Ok(value) => single_value_of(field@) == Ok::<Seq<char>, Failure>(value@),
            Err(e) => single_value_of(field@) == Err::<Seq<char>, Failure>(e),
        },
{
    assert(field@.ty == field.ty@);
    match &field.ty {
        Type::Enum(e) => {
            assert(field.ty@ == TypeView::Enum(e@));
            assert(e@.variants.len() == e.variants@.len());
            if e.exhaustive && e.variants.len() == 1 {
                let value = field.ty.as_enum().single_value();
                assert(e@.variants[0] == value@);
                Ok(String::from_str(value))
            } else {
                Err(Failure::BadDiscriminant)
            }
        },
        _ => Err(Failure::BadDiscriminant),
    }
}

/// The view of the outcome of deriving a payload.
pub open spec fn payload_result(r: Result<Payload, Failure>) -> Result<PayloadView, Failure> {
    match r {
        Ok(p) => Ok(p@),
        Err(e) => Err(e),
    }
}

/// The payload of a field `body` of the type `ty` in the definition `owner`.
fn payload_of_body(ty: &Type, owner: &str) -> (r: Result<Payload, Failure>)
    ensures
        payload_result(r) == body_payload(ty@, owner@),
{
    match ty {
        Type::Any => Ok(Payload::Unit),
        Type::Reference(b) => Ok(Payload::Named(b.clone())),
        Type::Object(_) => Ok(Payload::Named(String::from_str(owner))),
        _ => Err(Failure::BadBody),
    }
}

/// Index of the first of `types` named `name`.
pub fn find_definition(types: &[ProtocolType], name: &str) -> (r: Option<usize>)
    ensures
        match r {
            Some(k) => k < types@.len() && position(
                definition_names(definitions_view(types@)),
                name@,
            ) == Some(k as int),
            None => position(definition_names(definitions_view(types@)), name@) is None,
        },
{
    let ghost names = definition_names(definitions_view(types@));
    let mut i: usize = 0;
    while i < types.len()
        invariant
            i <= types.len(),
            names == definition_names(definitions_view(types@)),
            forall|j: int| 0 <= j < i ==> names[j] != name@,
        decreases types.len() - i,
    {
        if str_eq(types[i].name.as_str(), name) {
            proof {
                lemma_position_at(names, name@, i as int);
            }
            return Some(i);
        }
        i = i + 1;
    }
    proof {
        lemma_position_none(names, name@);
    }
    None
}

/// The payload of the response named `response` among `types`.
fn payload_of_response(types: &[ProtocolType], response: &str) -> (r: Result<Payload, Failure>)
    ensures
        payload_result(r) == response_payload(definitions_view(types@), response@),
{
    let k = match find_definition(types, response) {
        Some(k) => k,
        None => {
            return Err(Failure::MissingResponse);
        },
    };
    assert(definitions_view(types@)[k as int] == types@[k as int]@);
    let ro = match &types[k].ty {
        Type::Object(ro) => ro,
        _ => {
            return Err(Failure::BadBody);
        },
    };
    assert(types@[k as int]@.ty == TypeView::Object(ro@));
    match ro.find_field("body") {
        Some(bf) => {
            assert(bf@.ty == bf.ty@);
            payload_of_body(&bf.ty, response)
        },
        None => Err(Failure::MissingField),
    }
}

/// The binding of the request `ty`, which is a record, among `types`.
pub fn request_binding(types: &[ProtocolType], ty: &ProtocolType) -> (r: Result<
    RequestBinding,
    Failure,
>)
    requires
        ty.ty is Object,
    ensures
        match r {
            Ok(b) => request_binding_spec(definitions_view(types@), ty@) == Ok::<
                RequestBindingView,
                Failure,
            >(b@),
            Err(e) => request_binding_spec(definitions_view(types@), ty@) == Err::<
                RequestBindingView,
                Failure,
            >(e),
        },
{
    let o = ty.ty.as_object();
    let command = match o.find_field("command") {
        Some(cf) => match discriminant(cf) {
            Ok(c) => c,
            Err(e) => {
                return Err(e);
            },
        },
        None => {
            return Err(Failure::MissingField);
        },
    };
    let arguments = match o.find_field("arguments") {
        Some(af) => {
            assert(af@.ty == af.ty@);
            match &af.ty {
                Type::Any => Payload::Unit,
                Type::Reference(a) => Payload::Named(a.clone()),
                _ => {
                    return Err(Failure::BadArguments);
                },
            }
        },
        None => {
            return Err(Failure::MissingField);
        },
    };
    let name = match strip_suffix(ty.name.as_str(), "Request") {
        Some(rest) => {
            proof {
                let n = rest@.len() as int;
                let whole = rest@ + "Request"@;
                assert(whole.subrange(n, whole.len() as int) =~= "Request"@);
                assert(whole.take(n) =~= rest@);
            }
            String::from_str(rest)
        },
        None => {
            return Err(Failure::BadName);
        },
    };
    let mut response = name.clone();
    response.append("Response");
    let response = match payload_of_response(types, response.as_str()) {
        Ok(p) => p,
        Err(e) => {
            return Err(e);
        },
    };
    let doc = copy_option(&o.doc);
    Ok(RequestBinding { doc, name, command, arguments, response })
}

/// The binding of the event `ty`, which is a record.
pub fn event_binding(ty: &ProtocolType) -> (r: Result<EventBinding, Failure>)
    requires
        ty.ty is Object,
    ensures
        match r {
            Ok(b) => event_binding_spec(ty@) == Ok::<EventBindingView, Failure>(b@),
            Err(e) => event_binding_spec(ty@) == Err::<EventBindingView, Failure>(e),
        },
{
    let o = ty.ty.as_object();
    let event = match o.find_field("event") {
        Some(ef) => match discriminant(ef) {
            Ok(c) => c,
            Err(e) => {
                return Err(e);
            },
        },
        None => {
            return Err(Failure::MissingField);
        },
    };
    let body = match o.find_field("body") {
        Some(bf) => {
            assert(bf@.ty == bf.ty@);
            match &bf.ty {
                Type::Any => {
                    if str_eq(event.as_str(), "initialized") {
                        Payload::Optional(String::from_str("Capabilities"))
                    } else {
                        Payload::Unit
                    }
                },
                _ => match payload_of_body(&bf.ty, ty.name.as_str()) {
                    Ok(p) => p,
                    Err(e) => {
                        return Err(e);
                    },
                },
            }
        },
        None => {
            return Err(Failure::MissingField);
        },
    };
    let name = match strip_suffix(ty.name.as_str(), "Event") {
        Some(rest) => {
            proof {
                let n = rest@.len() as int;
                let whole = rest@ + "Event"@;
                assert(whole.subrange(n, whole.len() as int) =~= "Event"@);
                assert(whole.take(n) =~= rest@);
            }
            String::from_str(rest)
        },
        None => {
            return Err(Failure::BadName);
        },
    };
    let doc = copy_option(&o.doc);
    Ok(EventBinding { doc, name, event, body })
}

/// The bindings of the requests among `types`, in order.
pub fn request_bindings(types: &[ProtocolType]) -> (r: Result<Vec<RequestBinding>, Problem>)
    ensures
        requests_result(r) == request_bindings_spec(definitions_view(types@), 0, Seq::empty()),
{
    let ghost defs = definitions_view(types@);
    let mut out: Vec<RequestBinding> = Vec::new();
    assert(requests_view(out@) =~= Seq::<RequestBindingView>::empty());
    let mut i: usize = 0;
    while i < types.len()
        invariant
            i <= types.len(),
            defs == definitions_view(types@),
            request_bindings_spec(defs, 0, Seq::empty()) == request_bindings_spec(
                defs,
                i as nat,
                requests_view(out@),
            ),
        decreases types.len() - i,
    {
        assert(defs[i as int] == types@[i as int]@);
        if is_message(&types[i], "request") {
            match request_binding(types, &types[i]) {
                Ok(b) => {
                    let ghost before = requests_view(out@);
                    out.push(b);
                    assert(requests_view(out@) =~= before.push(b@));
                },
                Err(e) => {
                    return Err(Problem::at(types[i].name.as_str(), e));
                },
            }
        }
        i = i + 1;
    }
    Ok(out)
}

/// The bindings of the events among `types`, in order.
pub fn event_bindings(types: &[ProtocolType]) -> (r: Result<Vec<EventBinding>, Problem>)
    ensures
        events_result(r) == event_bindings_spec(definitions_view(types@), 0, Seq::empty()),
{
    let ghost defs = definitions_view(types@);
    let mut out: Vec<EventBinding> = Vec::new();
    assert(events_view(out@) =~= Seq::<EventBindingView>::empty());
    let mut i: usize = 0;
    while i < types.len()
        invariant
            i <= types.len(),
            defs == definitions_view(types@),
            event_bindings_spec(defs, 0, Seq::empty()) == event_bindings_spec(
                defs,
                i as nat,
                events_view(out@),
            ),
        decreases types.len() - i,
    {
        assert(defs[i as int] == types@[i as int]@);
        if is_message(&types[i], "event") {
            match event_binding(&types[i]) {
                Ok(b) => {
                    let ghost before = events_view(out@);
                    out.push(b);
                    assert(events_view(out@) =~= before.push(b@));
                },
                Err(e) => {
                    return Err(Problem::at(types[i].name.as_str(), e));
                },
            }
        }
        i = i + 1;
    }
    Ok(out)
}

/// The text of the payload in a binding.
pub fn payload_string(p: &Payload) -> (r: String)
    ensures
        r@ == payload_text(p@),
{
    match p {
        Payload::Unit => String::from_str("()"),
        Payload::Named(n) => {
            let mut s = String::from_str("crate::");
            s.append(n.as_str());
            s
        },
        Payload::Optional(n) => {
            let mut s = String::from_str("Option<crate::");
            s.append(n.as_str());
            s.append(">");
            s
        },
    }
}

/// Writes the three parts `a`, `b` and `c` as one line.
fn write_line(dst: &mut Writer, a: &str, b: &str, c: &str)
    ensures
        final(dst)@ == old(dst)@.line(a@ + b@ + c@),
{
    let mut s = String::from_str(a);
    s.append(b);
    s.append(c);
    dst.line(s.as_str());
}

/// Writes the three parts `a`, `b` and `c` as one line, one level deep.
fn write_indented(dst: &mut Writer, a: &str, b: &str, c: &str)
    ensures
        final(dst)@ == old(dst)@.indented(a@ + b@ + c@),
{
    let mut s = String::from_str(a);
    s.append(b);
    s.append(c);
    dst.indented(s.as_str());
}

/// Writes the start of a stream of bindings, with the trait `declared`.
fn write_start(dst: &mut Writer, declared: &str)
    requires
        old(dst)@ == WriterView::empty(),
    ensures
        final(dst)@ == bindings_start(declared@),
{
    dst.line(BINDINGS_HEADER);
    dst.line(BINDINGS_DEBUG);
    dst.finished_object();
    dst.code(declared);
}

/// Writes the stream of request bindings for the definitions `types`: for
/// every request, in order, a binding of its command, the type of its
/// arguments and the type of its response.
pub fn write_requests(types: &[ProtocolType]) -> (r: Result<String, Problem>)
    ensures
        text_result(r) == requests_text(definitions_view(types@)),
{
    let bindings = match request_bindings(types) {
        Ok(b) => b,
        Err(e) => {
            return Err(e);
        },
    };
    let ghost all = requests_view(bindings@);
    let mut writer = Writer::new();
    write_start(&mut writer, REQUEST_TRAIT);
    let mut i: usize = 0;
    while i < bindings.len()
        invariant
            i <= bindings.len(),
            all == requests_view(bindings@),
            writer@ == render_requests(bindings_start(REQUEST_TRAIT@), all, i as nat),
        decreases bindings.len() - i,
    {
        let b = &bindings[i];
        assert(all[i as int] == b@);
        write_doc(&mut writer, &b.doc);
        write_line(&mut writer, "pub enum ", b.name.as_str(), " {}");
        writer.finished_object();
        write_line(&mut writer, "impl Request for ", b.name.as_str(), " {");
        write_indented(
            &mut writer,
            "const COMMAND: &'static str = ",
            quoted(b.command.as_str()).as_str(),
            ";",
        );
        write_indented(&mut writer, "type Arguments = ", payload_string(&b.arguments).as_str(), ";");
        write_indented(&mut writer, "type Response = ", payload_string(&b.response).as_str(), ";");
        writer.line("}");
        writer.finished_object();
        i = i + 1;
    }
    Ok(writer.into_output())
}

/// Writes the stream of event bindings for the definitions `types`: for every
/// event, in order, a binding of its name in the protocol and the type of its
/// body.
pub fn write_events(types: &[ProtocolType]) -> (r: Result<String, Problem>)
    ensures
        text_result(r) == events_text(definitions_view(types@)),
{
    let bindings = match event_bindings(types) {
        Ok(b) => b,
        Err(e) => {
            return Err(e);
        },
    };
    let ghost all = events_view(bindings@);
    let mut writer = Writer::new();
    write_start(&mut writer, EVENT_TRAIT);
    let mut i: usize = 0;
    while i < bindings.len()
        invariant
            i <= bindings.len(),
            all == events_view(bindings@),
            writer@ == render_events(bindings_start(EVENT_TRAIT@), all, i as nat),
        decreases bindings.len() - i,
    {
        let b = &bindings[i];
        assert(all[i as int] == b@);
        write_doc(&mut writer, &b.doc);
        write_line(&mut writer, "pub enum ", b.name.as_str(), " {}");
        writer.finished_object();
        write_line(&mut writer, "impl Event for ", b.name.as_str(), " {");
        write_indented(
            &mut writer,
            "const EVENT: &'static str = ",
            quoted(b.event.as_str()).as_str(),
            ";",
        );
        write_indented(&mut writer, "type Body = ", payload_string(&b.body).as_str(), ";");
        writer.line("}");
        writer.finished_object();
        i = i + 1;
    }
    Ok(writer.into_output())
}

} // verus!
