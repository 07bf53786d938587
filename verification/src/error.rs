use vstd::prelude::*;
use vstd::string::*;

verus! {

/// Why generation stopped. Generation has no partial result: the first unmet
/// expectation ends it.
#[derive(Clone, Copy, Debug, PartialEq, Eq, Structural)]
pub enum Failure {
    /// The text is not a JSON document.
    Syntax,
    /// The document has no `definitions` object.
    NoDefinitions,
    /// A schema node matches no translation rule: it has no `type` that is a string.
    MissingType,
    /// A `$ref` is not a string that starts with the prefix of local definitions.
    BadReference,
    /// A `$ref` in an `allOf` names no definition.
    UnknownReference,
    /// The `$ref`s of `allOf` nodes lead back to a definition that is being resolved.
    CyclicReference,
    /// An `allOf` node has keys besides `allOf`.
    AllOfSiblings,
    /// A member of an `allOf` is not an object schema.
    NotAnObject,
    /// A keyword holds a value of the wrong JSON type, or an array schema has no `items`.
    BadKeyword,
    /// An `enum` or `_enum` lists no value.
    EmptyEnum,
    /// A request, response or event lacks one of the fields that its kind must have.
    MissingField,
    /// A `command` or `event` field is not an exhaustive enum of one value.
    BadDiscriminant,
    /// The `arguments` of a request are neither untyped nor a reference.
    BadArguments,
    /// A `body` is neither untyped, a reference nor an inline object, or the
    /// definition that holds it is no object.
    BadBody,
    /// A request has no response definition.
    MissingResponse,
    /// The name of a request or event lacks the suffix of its kind.
    BadName,
    /// A definition to declare is neither an object nor an enum.
    UnsupportedDefinition,
    /// A shape to declare has a member without a name, or an enum whose
    /// descriptions do not match its values in number.
    IllFormed,
}

/// Where generation stopped and why, as a mathematical value.
pub struct ProblemView {
    pub definition: Seq<char>,
    pub failure: Failure,
}

/// Where generation stopped and why.
#[derive(Debug, PartialEq, Eq)]
pub struct Problem {
    /// The name of the definition at which generation stopped; empty where
    /// the document as a whole is at fault.
    pub definition: String,
    /// Why generation stopped.
    pub failure: Failure,
}

impl View for Problem {
    type V = ProblemView;

    open spec fn view(&self) -> ProblemView {
        ProblemView { definition: self.definition@, failure: self.failure }
    }
}

/// The failure `failure` of the document as a whole.
pub open spec fn document_problem(failure: Failure) -> ProblemView {
    ProblemView { definition: Seq::empty(), failure }
}

impl Problem {
    /// The failure `failure` of the document as a whole.
    pub fn of_document(failure: Failure) -> (p: Problem)
        ensures
            p@ == document_problem(failure),
    {
        Problem { definition: String::new(), failure }
    }

    /// The failure `failure` at the definition `definition`.
    pub fn at(definition: &str, failure: Failure) -> (p: Problem)
        ensures
            p@ == (ProblemView { definition: definition@, failure }),
    {
        Problem { definition: String::from_str(definition), failure }
    }
}

} // verus!
