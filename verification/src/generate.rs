use vstd::prelude::*;
use vstd::string::*;
use crate::bindings::{events_text, requests_text, write_events, write_requests};
use crate::data_types::{types_text, write_types};
use crate::error::{document_problem, Failure, Problem, ProblemView};
use crate::json::{json_text, Json, JsonView};
use crate::translate::{generate_protocol_types, protocol_types_spec};

verus! {

/// The lines that mark a stored stream as generated.
pub const DISCLAIMER: &'static str =
    "// This file is autogenerated. Do not edit by hand.\n// To regenerate from schema, run `cargo run -p generator`.\n\n";

/// The three streams generated from a schema, as a mathematical value.
pub struct GeneratedView {
    pub types: Seq<char>,
    pub requests: Seq<char>,
    pub events: Seq<char>,
}

/// The three streams generated from a schema.
#[derive(Debug, PartialEq, Eq)]
pub struct Generated {
    /// The declarations of the data types.
    pub types: String,
    /// The bindings of the requests.
    pub requests: String,
    /// The bindings of the events.
    pub events: String,
}

impl View for Generated {
    type V = GeneratedView;

    open spec fn view(&self) -> GeneratedView {
        GeneratedView { types: self.types@, requests: self.requests@, events: self.events@ }
    }
}

/// The view of the outcome of a generation.
pub open spec fn generated_result(r: Result<Generated, Problem>) -> Result<
    GeneratedView,
    ProblemView,
> {
    match r {
        Ok(g) => Ok(g@),
        Err(e) => Err(e@),
    }
}

/// What is generated from the document `schema`: its definitions are
/// translated, and from them the data types, the request bindings and the
/// event bindings are written, in this order. The first failure is the
/// outcome, with the name of the definition at which it came; there is no
/// partial outcome.
pub open spec fn generated(schema: JsonView) -> Result<GeneratedView, ProblemView> {
    match protocol_types_spec(schema) {
        Err(e) => Err(e),
        Ok(defs) => match types_text(defs) {
            Err(e) => Err(e),
            Ok(types) => match requests_text(defs) {
                Err(e) => Err(e),
                Ok(requests) => match events_text(defs) {
                    Err(e) => Err(e),
                    Ok(events) => Ok(GeneratedView { types, requests, events }),
                },
            },
        },
    }
}

/// Generates the three streams from the document `schema`. The outcome is a
/// function of the document: the same document gives the same three texts,
/// character by character, however often it is generated from.
pub fn generate(schema: &Json) -> (r: Result<Generated, Problem>)
    ensures
        generated_result(r) == generated(schema@),
{
    let definitions = match generate_protocol_types(schema) {
        Ok(d) => d,
        Err(e) => {
            return Err(e);
        },
    };
    let types = match write_types(definitions.as_slice()) {
        Ok(t) => t,
        Err(e) => {
            return Err(e);
        },
    };
    let requests = match write_requests(definitions.as_slice()) {
        Ok(t) => t,
        Err(e) => {
            return Err(e);
        },
    };
    let events = match write_events(definitions.as_slice()) {
        Ok(t) => t,
        Err(e) => {
            return Err(e);
        },
    };
    Ok(Generated { types, requests, events })
}

/// Generates the three streams from the text of a schema document.
pub fn generate_from_text(text: &str) -> (r: Result<Generated, Problem>)
    ensures
        generated_result(r) == match json_text(text@) {
            Some(schema) => generated(schema),
            None => Err(document_problem(Failure::Syntax)),
        },
{
    match Json::parse(text) {
        Ok(schema) => generate(&schema),
        Err(e) => Err(Problem::of_document(e)),
    }
}

/// `contents` below the lines that mark a stored stream as generated.
pub fn with_disclaimer(contents: &str) -> (r: String)
    ensures
        r@ == DISCLAIMER@ + contents@,
{
    let mut r = String::from_str(DISCLAIMER);
    r.append(contents);
    r
}

} // verus!
