use vstd::prelude::*;
use vstd::string::*;
use crate::bindings::{EventBinding, Payload, PayloadView};
use crate::text::str_eq;

verus! {

/// An event of the protocol: its name on the wire and the type of its body.
pub trait Event {
    /// The name of the event in the protocol.
    spec fn event_spec() -> Seq<char>;

    /// The type of the body of the event.
    spec fn body_spec() -> PayloadView;

    /// The name of the event in the protocol.
    fn event() -> (name: &'static str)
        ensures
            name@ == Self::event_spec(),
    ;

    /// The type of the body of the event.
    fn body() -> (payload: Payload)
        ensures
            payload@ == Self::body_spec(),
    ;
}

/// Whether the two payloads are the same type.
pub fn same_payload(a: &Payload, b: &Payload) -> (r: bool)
    ensures
        r == (a@ == b@),
{
    match (a, b) {
        (Payload::Unit, Payload::Unit) => true,
        (Payload::Named(x), Payload::Named(y)) => str_eq(x.as_str(), y.as_str()),
        (Payload::Optional(x), Payload::Optional(y)) => str_eq(x.as_str(), y.as_str()),
        _ => false,
    }
}

/// Whether `binding` binds the event `E`: the same name in the protocol and
/// the same type of body.
pub fn binds<E: Event>(binding: &EventBinding) -> (r: bool)
    ensures
        r == (binding@.event == E::event_spec() && binding@.body == E::body_spec()),
{
    str_eq(binding.event.as_str(), E::event()) && same_payload(&binding.body, &E::body())
}

/// The adapter is ready to accept configuration requests.
pub enum Initialized {
    /// Stands for the event; the type has no other value.
    Marker,
}

impl Event for Initialized {
    open spec fn event_spec() -> Seq<char> {
        "initialized"@
    }

    open spec fn body_spec() -> PayloadView {
        PayloadView::Optional("Capabilities"@)
    }

    fn event() -> (name: &'static str) {
        "initialized"
    }

    fn body() -> (payload: Payload) {
        Payload::Optional(String::from_str("Capabilities"))
    }
}

/// The execution of the debuggee has stopped.
pub enum Stopped {
    /// Stands for the event; the type has no other value.
    Marker,
}

impl Event for Stopped {
    open spec fn event_spec() -> Seq<char> {
        "stopped"@
    }

    open spec fn body_spec() -> PayloadView {
        PayloadView::Named("StoppedEvent"@)
    }

    fn event() -> (name: &'static str) {
        "stopped"
    }

    fn body() -> (payload: Payload) {
        Payload::Named(String::from_str("StoppedEvent"))
    }
}

/// The execution of the debuggee has continued.
pub enum Continued {
    /// Stands for the event; the type has no other value.
    Marker,
}

impl Event for Continued {
    open spec fn event_spec() -> Seq<char> {
        "continued"@
    }

    open spec fn body_spec() -> PayloadView {
        PayloadView::Named("ContinuedEvent"@)
    }

    fn event() -> (name: &'static str) {
        "continued"
    }

    fn body() -> (payload: Payload) {
        Payload::Named(String::from_str("ContinuedEvent"))
    }
}

/// The debuggee has exited and returns its exit code.
pub enum Exited {
    /// Stands for the event; the type has no other value.
    Marker,
}

impl Event for Exited {
    open spec fn event_spec() -> Seq<char> {
        "exited"@
    }

    open spec fn body_spec() -> PayloadView {
        PayloadView::Named("ExitedEvent"@)
    }

    fn event() -> (name: &'static str) {
        "exited"
    }

    fn body() -> (payload: Payload) {
        Payload::Named(String::from_str("ExitedEvent"))
    }
}

/// Debugging of the debuggee has terminated.
pub enum Terminated {
    /// Stands for the event; the type has no other value.
    Marker,
}

impl Event for Terminated {
    open spec fn event_spec() -> Seq<char> {
        "terminated"@
    }

    open spec fn body_spec() -> PayloadView {
        PayloadView::Named("TerminatedEvent"@)
    }

    fn event() -> (name: &'static str) {
        "terminated"
    }

    fn body() -> (payload: Payload) {
        Payload::Named(String::from_str("TerminatedEvent"))
    }
}

/// A thread has started or exited.
pub enum Thread {
    /// Stands for the event; the type has no other value.
    Marker,
}

impl Event for Thread {
    open spec fn event_spec() -> Seq<char> {
        "thread"@
    }

    open spec fn body_spec() -> PayloadView {
        PayloadView::Named("ThreadEvent"@)
    }

    fn event() -> (name: &'static str) {
        "thread"
    }

    fn body() -> (payload: Payload) {
        Payload::Named(String::from_str("ThreadEvent"))
    }
}

/// The target has produced some output.
pub enum Output {
    /// Stands for the event; the type has no other value.
    Marker,
}

impl Event for Output {
    open spec fn event_spec() -> Seq<char> {
        "output"@
    }

    open spec fn body_spec() -> PayloadView {
        PayloadView::Named("OutputEvent"@)
    }

    fn event() -> (name: &'static str) {
        "output"
    }

    fn body() -> (payload: Payload) {
        Payload::Named(String::from_str("OutputEvent"))
    }
}

/// Some information about a breakpoint has changed.
pub enum Breakpoint {
    /// Stands for the event; the type has no other value.
    Marker,
}

impl Event for Breakpoint {
    open spec fn event_spec() -> Seq<char> {
        "breakpoint"@
    }

    open spec fn body_spec() -> PayloadView {
        PayloadView::Named("BreakpointEvent"@)
    }

    fn event() -> (name: &'static str) {
        "breakpoint"
    }

    fn body() -> (payload: Payload) {
        Payload::Named(String::from_str("BreakpointEvent"))
    }
}

/// Some information about a module has changed.
pub enum Module {
    /// Stands for the event; the type has no other value.
    Marker,
}

impl Event for Module {
    open spec fn event_spec() -> Seq<char> {
        "module"@
    }

    open spec fn body_spec() -> PayloadView {
        PayloadView::Named("ModuleEvent"@)
    }

    fn event() -> (name: &'static str) {
        "module"
    }

    fn body() -> (payload: Payload) {
        Payload::Named(String::from_str("ModuleEvent"))
    }
}

/// A source has been added to, changed in or removed from the loaded sources.
pub enum LoadedSource {
    /// Stands for the event; the type has no other value.
    Marker,
}

impl Event for LoadedSource {
    open spec fn event_spec() -> Seq<char> {
        "loadedSource"@
    }

    open spec fn body_spec() -> PayloadView {
        PayloadView::Named("LoadedSourceEvent"@)
    }

    fn event() -> (name: &'static str) {
        "loadedSource"
    }

    fn body() -> (payload: Payload) {
        Payload::Named(String::from_str("LoadedSourceEvent"))
    }
}

/// The debugger has begun debugging a new process.
pub enum Process {
    /// Stands for the event; the type has no other value.
    Marker,
}

impl Event for Process {
    open spec fn event_spec() -> Seq<char> {
        "process"@
    }

    open spec fn body_spec() -> PayloadView {
        PayloadView::Named("ProcessEvent"@)
    }

    fn event() -> (name: &'static str) {
        "process"
    }

    fn body() -> (payload: Payload) {
        Payload::Named(String::from_str("ProcessEvent"))
    }
}

/// One or more capabilities have changed.
pub enum Capabilities {
    /// Stands for the event; the type has no other value.
    Marker,
}

impl Event for Capabilities {
    open spec fn event_spec() -> Seq<char> {
        "capabilities"@
    }

    open spec fn body_spec() -> PayloadView {
        PayloadView::Named("CapabilitiesEvent"@)
    }

    fn event() -> (name: &'static str) {
        "capabilities"
    }

    fn body() -> (payload: Payload) {
        Payload::Named(String::from_str("CapabilitiesEvent"))
    }
}

/// A long running operation is about to start.
pub enum ProgressStart {
    /// Stands for the event; the type has no other value.
    Marker,
}

impl Event for ProgressStart {
    open spec fn event_spec() -> Seq<char> {
        "progressStart"@
    }

    open spec fn body_spec() -> PayloadView {
        PayloadView::Named("ProgressStartEvent"@)
    }

    fn event() -> (name: &'static str) {
        "progressStart"
    }

    fn body() -> (payload: Payload) {
        Payload::Named(String::from_str("ProgressStartEvent"))
    }
}

/// The progress of an operation has changed.
pub enum ProgressUpdate {
    /// Stands for the event; the type has no other value.
    Marker,
}

impl Event for ProgressUpdate {
    open spec fn event_spec() -> Seq<char> {
        "progressUpdate"@
    }

    open spec fn body_spec() -> PayloadView {
        PayloadView::Named("ProgressUpdateEvent"@)
    }

    fn event() -> (name: &'static str) {
        "progressUpdate"
    }

    fn body() -> (payload: Payload) {
        Payload::Named(String::from_str("ProgressUpdateEvent"))
    }
}

/// The progress of an operation has ended.
pub enum ProgressEnd {
    /// Stands for the event; the type has no other value.
    Marker,
}

impl Event for ProgressEnd {
    open spec fn event_spec() -> Seq<char> {
        "progressEnd"@
    }

    open spec fn body_spec() -> PayloadView {
        PayloadView::Named("ProgressEndEvent"@)
    }

    fn event() -> (name: &'static str) {
        "progressEnd"
    }

    fn body() -> (payload: Payload) {
        Payload::Named(String::from_str("ProgressEndEvent"))
    }
}

/// Some state in the adapter has changed and must be fetched again.
pub enum Invalidated {
    /// Stands for the event; the type has no other value.
    Marker,
}

impl Event for Invalidated {
    open spec fn event_spec() -> Seq<char> {
        "invalidated"@
    }

    open spec fn body_spec() -> PayloadView {
        PayloadView::Named("InvalidatedEvent"@)
    }

    fn event() -> (name: &'static str) {
        "invalidated"
    }

    fn body() -> (payload: Payload) {
        Payload::Named(String::from_str("InvalidatedEvent"))
    }
}

/// Some memory range has been updated.
pub enum Memory {
    /// Stands for the event; the type has no other value.
    Marker,
}

impl Event for Memory {
    open spec fn event_spec() -> Seq<char> {
        "memory"@
    }

    open spec fn body_spec() -> PayloadView {
        PayloadView::Named("MemoryEvent"@)
    }

    fn event() -> (name: &'static str) {
        "memory"
    }

    fn body() -> (payload: Payload) {
        Payload::Named(String::from_str("MemoryEvent"))
    }
}

} // verus!
