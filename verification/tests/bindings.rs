use dap_codegen::bindings::{
    event_binding, event_bindings, find_definition, is_message, payload_string, request_binding,
    request_bindings, write_events, write_requests, EventBinding, Payload, RequestBinding,
    EVENT_TRAIT, REQUEST_TRAIT,
};
use dap_codegen::error::{Failure, Problem};
use dap_codegen::event_markers::{
    binds, same_payload, Breakpoint, Capabilities, Continued, Event, Exited, Initialized,
    Invalidated, LoadedSource, Memory, Module, Output, Process, ProgressEnd, ProgressStart,
    ProgressUpdate, Stopped, Terminated, Thread,
};
use dap_codegen::ir::ProtocolType;
use dap_codegen::json::Json;
use dap_codegen::translate::generate_protocol_types;

const ANY: &str = r#"{"type":["array","boolean","integer","null","number","object","string"]}"#;

fn types_of(definitions: &str) -> Vec<ProtocolType> {
    let doc = Json::parse(&format!(r#"{{"definitions":{}}}"#, definitions)).unwrap();
    generate_protocol_types(&doc).unwrap()
}

fn request(name: &str, description: &str, command: &str, arguments: &str) -> String {
    format!(
        r#""{}":{{"type":"object",{}"properties":{{"type":{{"type":"string","enum":["request"]}},"command":{{"type":"string","enum":["{}"]}},"arguments":{}}},"required":["command"]}}"#,
        name, description, command, arguments
    )
}

fn event(name: &str, wire: &str, body: &str) -> String {
    format!(
        r#""{}":{{"type":"object","description":"Event {}.","properties":{{"type":{{"type":"string","enum":["event"]}},"event":{{"type":"string","enum":["{}"]}},"body":{}}}}}"#,
        name, wire, wire, body
    )
}

fn requests_stream(bindings: &str) -> String {
    format!(
        "use serde::{{de::DeserializeOwned, Serialize}};\nuse std::fmt::Debug;\n{}{}",
        REQUEST_TRAIT, bindings
    )
}

fn events_stream(bindings: &str) -> String {
    format!(
        "use serde::{{de::DeserializeOwned, Serialize}};\nuse std::fmt::Debug;\n{}{}",
        EVENT_TRAIT, bindings
    )
}

#[test]
fn a_request_is_paired_with_its_response() {
    let types = types_of(&format!(
        r##"{{{},"FooResponse":{{"type":"object","properties":{{"body":{{"$ref":"#/definitions/Baz"}}}}}}}}"##,
        request("FooRequest", r#""description":"Does foo.","#, "foo", r##"{"$ref":"#/definitions/Bar"}"##)
    ));
    assert_eq!(
        request_bindings(&types),
        Ok(vec![RequestBinding {
            doc: Some("Does foo.".to_string()),
            name: "Foo".to_string(),
            command: "foo".to_string(),
            arguments: Payload::Named("Bar".to_string()),
            response: Payload::Named("Baz".to_string()),
        }])
    );
    let expected = [
        "\n/// Does foo.\n",
        "pub enum Foo {}\n",
        "\n",
        "impl Request for Foo {\n",
        "    const COMMAND: &'static str = \"foo\";\n",
        "    type Arguments = crate::Bar;\n",
        "    type Response = crate::Baz;\n",
        "}\n",
    ]
    .concat();
    assert_eq!(write_requests(&types), Ok(requests_stream(&expected)));
    assert_eq!(write_events(&types), Ok(events_stream("")));
}

#[test]
fn untyped_arguments_and_bodies_are_unit() {
    let types = types_of(&format!(
        r#"{{"GoResponse":{{"type":"object","properties":{{"body":{}}}}},{}}}"#,
        ANY,
        request("GoRequest", r#""description":"Goes.\nFar.","#, "go", ANY)
    ));
    let expected = [
        "\n/// Goes.\n/// Far.\n",
        "pub enum Go {}\n",
        "\n",
        "impl Request for Go {\n",
        "    const COMMAND: &'static str = \"go\";\n",
        "    type Arguments = ();\n",
        "    type Response = ();\n",
        "}\n",
    ]
    .concat();
    assert_eq!(write_requests(&types), Ok(requests_stream(&expected)));
}

#[test]
fn an_inline_body_is_the_response_itself() {
    let types = types_of(&format!(
        r#"{{{},"GoResponse":{{"type":"object","properties":{{"body":{{"type":"object","properties":{{}}}}}}}}}}"#,
        request("GoRequest", r#""description":"Goes.","#, "go", ANY)
    ));
    let b = request_binding(&types, &types[0]).unwrap();
    assert_eq!(b.response, Payload::Named("GoResponse".to_string()));
    assert_eq!(payload_string(&b.response), "crate::GoResponse");
}

#[test]
fn the_command_is_written_as_a_literal() {
    let types = types_of(&format!(
        r#"{{{},"GoResponse":{{"type":"object","properties":{{"body":{}}}}}}}"#,
        request("GoRequest", r#""description":"Goes.","#, r#"say \"hi\"\\now"#, ANY),
        ANY
    ));
    let text = write_requests(&types).unwrap();
    assert!(text.contains("    const COMMAND: &'static str = \"say \\\"hi\\\"\\\\now\";\n"), "{}", text);
}

#[test]
fn other_definitions_are_no_requests() {
    let types = types_of(
        r#"{"A":{"type":"object","properties":{"type":{"type":"string","enum":["response"]}}},
            "B":{"type":"object","properties":{"type":{"type":"string","_enum":["request"]}}},
            "C":{"type":"object","properties":{"type":{"type":"string","enum":["request","event"]}}},
            "D":{"type":"object","properties":{"type":{"type":"string"}}},
            "E":{"type":"string","enum":["request"]},
            "F":{"type":"object","properties":{"kind":{"type":"string","enum":["request"]}}}}"#,
    );
    for ty in &types {
        assert!(!is_message(ty, "request"), "{}", ty.name);
        assert!(!is_message(ty, "event"), "{}", ty.name);
    }
    assert!(is_message(&types[0], "response"));
    assert_eq!(request_bindings(&types), Ok(vec![]));
    assert_eq!(event_bindings(&types), Ok(vec![]));
}

#[test]
fn a_request_needs_its_fields() {
    let kind = r#""type":{"type":"string","enum":["request"]}"#;
    let check = |definition: &str, rest: &str, failure: Failure| {
        let types = types_of(&format!(r#"{{"XRequest":{}{}}}"#, definition, rest));
        assert_eq!(write_requests(&types), Err(Problem::at("XRequest", failure)), "{}", definition);
    };
    check(&format!(r#"{{"type":"object","properties":{{{}}}}}"#, kind), "", Failure::MissingField);
    check(
        &format!(r#"{{"type":"object","properties":{{{},"command":{{"type":"string"}}}}}}"#, kind),
        "",
        Failure::BadDiscriminant,
    );
    check(
        &format!(
            r#"{{"type":"object","properties":{{{},"command":{{"type":"string","enum":["a","b"]}}}}}}"#,
            kind
        ),
        "",
        Failure::BadDiscriminant,
    );
    check(
        &format!(
            r#"{{"type":"object","properties":{{{},"command":{{"type":"string","_enum":["a"]}}}}}}"#,
            kind
        ),
        "",
        Failure::BadDiscriminant,
    );
    check(
        &format!(
            r#"{{"type":"object","properties":{{{},"command":{{"type":"string","enum":["a"]}}}}}}"#,
            kind
        ),
        "",
        Failure::MissingField,
    );
    check(
        &format!(
            r#"{{"type":"object","properties":{{{},"command":{{"type":"string","enum":["a"]}},"arguments":{{"type":"object"}}}}}}"#,
            kind
        ),
        "",
        Failure::BadArguments,
    );
    let complete = format!(
        r#"{{"type":"object","properties":{{{},"command":{{"type":"string","enum":["a"]}},"arguments":{}}}}}"#,
        kind, ANY
    );
    check(&complete, "", Failure::MissingResponse);
    check(&complete, r#","XResponse":{"type":"string"}"#, Failure::BadBody);
    check(&complete, r#","XResponse":{"type":"object"}"#, Failure::MissingField);
    check(
        &complete,
        r#","XResponse":{"type":"object","properties":{"body":{"type":"array","items":{"type":"string"}}}}"#,
        Failure::BadBody,
    );
}

#[test]
fn a_request_is_named_as_one() {
    let types = types_of(&format!(
        r#"{{{},"XResponse":{{"type":"object","properties":{{"body":{}}}}}}}"#,
        request("Launch", r#""description":"d","#, "launch", ANY),
        ANY
    ));
    assert_eq!(write_requests(&types), Err(Problem::at("Launch", Failure::BadName)));
}

#[test]
fn the_first_definition_of_a_name_is_found() {
    let types = types_of(r#"{"A":{"type":"object"},"B":{"type":"object"}}"#);
    assert_eq!(find_definition(&types, "B"), Some(1));
    assert_eq!(find_definition(&types, "A"), Some(0));
    assert_eq!(find_definition(&types, "C"), None);
}

#[test]
fn an_event_is_bound_to_its_body() {
    let types = types_of(&format!(
        r##"{{{},{},{}}}"##,
        event("StoppedEvent", "stopped", r#"{"type":"object","properties":{}}"#),
        event("ExitedEvent", "exited", r##"{"$ref":"#/definitions/ExitInfo"}"##),
        event("PingEvent", "ping", ANY)
    ));
    assert_eq!(
        event_bindings(&types),
        Ok(vec![
            EventBinding {
                doc: Some("Event stopped.".to_string()),
                name: "Stopped".to_string(),
                event: "stopped".to_string(),
                body: Payload::Named("StoppedEvent".to_string()),
            },
            EventBinding {
                doc: Some("Event exited.".to_string()),
                name: "Exited".to_string(),
                event: "exited".to_string(),
                body: Payload::Named("ExitInfo".to_string()),
            },
            EventBinding {
                doc: Some("Event ping.".to_string()),
                name: "Ping".to_string(),
                event: "ping".to_string(),
                body: Payload::Unit,
            },
        ])
    );
    let expected = [
        "\n/// Event stopped.\npub enum Stopped {}\n\nimpl Event for Stopped {\n",
        "    const EVENT: &'static str = \"stopped\";\n    type Body = crate::StoppedEvent;\n}\n",
        "\n/// Event exited.\npub enum Exited {}\n\nimpl Event for Exited {\n",
        "    const EVENT: &'static str = \"exited\";\n    type Body = crate::ExitInfo;\n}\n",
        "\n/// Event ping.\npub enum Ping {}\n\nimpl Event for Ping {\n",
        "    const EVENT: &'static str = \"ping\";\n    type Body = ();\n}\n",
    ]
    .concat();
    assert_eq!(write_events(&types), Ok(events_stream(&expected)));
    assert_eq!(write_requests(&types), Ok(requests_stream("")));
}

#[test]
fn the_initialized_event_carries_the_capabilities() {
    let types = types_of(&format!("{{{}}}", event("InitializedEvent", "initialized", ANY)));
    let b = event_binding(&types[0]).unwrap();
    assert_eq!(b.body, Payload::Optional("Capabilities".to_string()));
    assert_ne!(b.body, Payload::Unit);
    assert!(binds::<Initialized>(&b));
    assert!(!binds::<Stopped>(&b));
    let expected = [
        "\n/// Event initialized.\npub enum Initialized {}\n\nimpl Event for Initialized {\n",
        "    const EVENT: &'static str = \"initialized\";\n",
        "    type Body = Option<crate::Capabilities>;\n}\n",
    ]
    .concat();
    assert_eq!(write_events(&types), Ok(events_stream(&expected)));
}

#[test]
fn a_typed_body_of_the_initialized_event_stays_as_it_is() {
    let types = types_of(&format!(
        "{{{}}}",
        event("InitializedEvent", "initialized", r##"{"$ref":"#/definitions/Caps"}"##)
    ));
    assert_eq!(event_binding(&types[0]).unwrap().body, Payload::Named("Caps".to_string()));
}

#[test]
fn an_event_needs_its_fields() {
    let kind = r#""type":{"type":"string","enum":["event"]}"#;
    let check = |name: &str, definition: &str, failure: Failure| {
        let types = types_of(&format!(r#"{{"{}":{}}}"#, name, definition));
        assert_eq!(write_events(&types), Err(Problem::at(name, failure)), "{}", definition);
    };
    check("XEvent", &format!(r#"{{"type":"object","properties":{{{}}}}}"#, kind), Failure::MissingField);
    check(
        "XEvent",
        &format!(r#"{{"type":"object","properties":{{{},"event":{{"type":"integer"}}}}}}"#, kind),
        Failure::BadDiscriminant,
    );
    check(
        "XEvent",
        &format!(
            r#"{{"type":"object","properties":{{{},"event":{{"type":"string","enum":["x"]}}}}}}"#,
            kind
        ),
        Failure::MissingField,
    );
    check(
        "XEvent",
        &format!(
            r#"{{"type":"object","properties":{{{},"event":{{"type":"string","enum":["x"]}},"body":{{"type":"string","enum":["a"]}}}}}}"#,
            kind
        ),
        Failure::BadBody,
    );
    check(
        "Thing",
        &format!(
            r#"{{"type":"object","description":"d","properties":{{{},"event":{{"type":"string","enum":["x"]}},"body":{}}}}}"#,
            kind, ANY
        ),
        Failure::BadName,
    );
}

#[test]
fn payloads_have_their_text() {
    assert_eq!(payload_string(&Payload::Unit), "()");
    assert_eq!(payload_string(&Payload::Named("Source".to_string())), "crate::Source");
    assert_eq!(
        payload_string(&Payload::Optional("Capabilities".to_string())),
        "Option<crate::Capabilities>"
    );
    assert!(same_payload(&Payload::Unit, &Payload::Unit));
    assert!(same_payload(&Payload::Named("a".to_string()), &Payload::Named("a".to_string())));
    assert!(!same_payload(&Payload::Named("a".to_string()), &Payload::Named("b".to_string())));
    assert!(!same_payload(&Payload::Named("a".to_string()), &Payload::Optional("a".to_string())));
}

#[test]
fn the_known_events_have_their_names_and_bodies() {
    fn named<E: Event>(event: &str, body: &str) {
        assert_eq!(E::event(), event);
        assert_eq!(E::body(), Payload::Named(body.to_string()));
    }
    assert_eq!(Initialized::event(), "initialized");
    assert_eq!(Initialized::body(), Payload::Optional("Capabilities".to_string()));
    named::<Stopped>("stopped", "StoppedEvent");
    named::<Continued>("continued", "ContinuedEvent");
    named::<Exited>("exited", "ExitedEvent");
    named::<Terminated>("terminated", "TerminatedEvent");
    named::<Thread>("thread", "ThreadEvent");
    named::<Output>("output", "OutputEvent");
    named::<Breakpoint>("breakpoint", "BreakpointEvent");
    named::<Module>("module", "ModuleEvent");
    named::<LoadedSource>("loadedSource", "LoadedSourceEvent");
    named::<Process>("process", "ProcessEvent");
    named::<Capabilities>("capabilities", "CapabilitiesEvent");
    named::<ProgressStart>("progressStart", "ProgressStartEvent");
    named::<ProgressUpdate>("progressUpdate", "ProgressUpdateEvent");
    named::<ProgressEnd>("progressEnd", "ProgressEndEvent");
    named::<Invalidated>("invalidated", "InvalidatedEvent");
    named::<Memory>("memory", "MemoryEvent");
}

#[test]
fn a_generated_binding_matches_the_known_event() {
    let types = types_of(&format!(
        "{{{}}}",
        event("LoadedSourceEvent", "loadedSource", r#"{"type":"object","properties":{}}"#)
    ));
    let b = event_binding(&types[0]).unwrap();
    assert!(binds::<LoadedSource>(&b));
    assert!(!binds::<Module>(&b));
}

#[test]
fn a_request_without_description_is_bound_without_doc_lines() {
    let types = types_of(&format!(
        r##"{{{},"FooResponse":{{"type":"object","properties":{{"body":{{"$ref":"#/definitions/Baz"}}}}}}}}"##,
        request("FooRequest", "", "foo", r##"{"$ref":"#/definitions/Bar"}"##)
    ));
    assert_eq!(
        request_bindings(&types),
        Ok(vec![RequestBinding {
            doc: None,
            name: "Foo".to_string(),
            command: "foo".to_string(),
            arguments: Payload::Named("Bar".to_string()),
            response: Payload::Named("Baz".to_string()),
        }])
    );
    let expected = [
        "\n",
        "pub enum Foo {}\n",
        "\n",
        "impl Request for Foo {\n",
        "    const COMMAND: &'static str = \"foo\";\n",
        "    type Arguments = crate::Bar;\n",
        "    type Response = crate::Baz;\n",
        "}\n",
    ]
    .concat();
    assert_eq!(write_requests(&types), Ok(requests_stream(&expected)));
}

#[test]
fn an_event_without_description_is_bound_without_doc_lines() {
    let kind = r#""type":{"type":"string","enum":["event"]}"#;
    let types = types_of(&format!(
        r#"{{"XEvent":{{"type":"object","properties":{{{},"event":{{"type":"string","enum":["x"]}},"body":{}}}}}}}"#,
        kind, ANY
    ));
    assert_eq!(
        event_bindings(&types),
        Ok(vec![EventBinding {
            doc: None,
            name: "X".to_string(),
            event: "x".to_string(),
            body: Payload::Unit,
        }])
    );
    let expected = [
        "\npub enum X {}\n\nimpl Event for X {\n",
        "    const EVENT: &'static str = \"x\";\n    type Body = ();\n}\n",
    ]
    .concat();
    assert_eq!(write_events(&types), Ok(events_stream(&expected)));
}
