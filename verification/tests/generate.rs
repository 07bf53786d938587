use dap_codegen::bindings::{EVENT_TRAIT, REQUEST_TRAIT};
use dap_codegen::emit::CUSTOM_TYPES;
use dap_codegen::error::{Failure, Problem};
use dap_codegen::generate::{generate, generate_from_text, with_disclaimer, Generated, DISCLAIMER};
use dap_codegen::json::Json;

const SCHEMA: &str = r##"{
  "$schema": "http://json-schema.org/draft-04/schema#",
  "title": "A small protocol",
  "definitions": {
    "ProtocolMessage": {
      "type": "object",
      "description": "Base class of requests, responses, and events.",
      "properties": {
        "seq": { "type": "integer", "description": "Sequence number." },
        "type": { "type": "string", "_enum": ["request", "response", "event"] }
      },
      "required": ["seq", "type"]
    },
    "Request": {
      "allOf": [
        { "$ref": "#/definitions/ProtocolMessage" },
        {
          "type": "object",
          "description": "A client or debug adapter initiated request.",
          "properties": {
            "type": { "type": "string", "enum": ["request"] },
            "command": { "type": "string" },
            "arguments": {
              "type": ["array", "boolean", "integer", "null", "number", "object", "string"]
            }
          },
          "required": ["type", "command"]
        }
      ]
    },
    "Event": {
      "allOf": [
        { "$ref": "#/definitions/ProtocolMessage" },
        {
          "type": "object",
          "description": "A debug adapter initiated event.",
          "properties": {
            "type": { "type": "string", "enum": ["event"] },
            "event": { "type": "string" },
            "body": {
              "type": ["array", "boolean", "integer", "null", "number", "object", "string"]
            }
          },
          "required": ["type", "event"]
        }
      ]
    },
    "Response": {
      "allOf": [
        { "$ref": "#/definitions/ProtocolMessage" },
        {
          "type": "object",
          "description": "Response for a request.",
          "properties": {
            "type": { "type": "string", "enum": ["response"] },
            "success": { "type": "boolean" },
            "body": {
              "type": ["array", "boolean", "integer", "null", "number", "object", "string"]
            }
          },
          "required": ["type", "success"]
        }
      ]
    },
    "ThreadEvent": {
      "allOf": [
        { "$ref": "#/definitions/Event" },
        {
          "type": "object",
          "description": "A thread has started or exited.",
          "properties": {
            "event": { "type": "string", "enum": ["thread"] },
            "body": {
              "type": "object",
              "properties": {
                "reason": {
                  "type": "string",
                  "description": "The reason for the event.",
                  "_enum": ["started", "exited"]
                },
                "threadId": { "type": "integer", "description": "The thread." }
              },
              "required": ["reason", "threadId"]
            }
          },
          "required": ["event", "body"]
        }
      ]
    },
    "PauseRequest": {
      "allOf": [
        { "$ref": "#/definitions/Request" },
        {
          "type": "object",
          "description": "Suspends the debuggee.",
          "properties": {
            "command": { "type": "string", "enum": ["pause"] },
            "arguments": { "$ref": "#/definitions/PauseArguments" }
          },
          "required": ["command", "arguments"]
        }
      ]
    },
    "PauseArguments": {
      "type": "object",
      "description": "Arguments for `pause` request.",
      "properties": {
        "threadId": { "type": "integer", "description": "Pause this thread." }
      },
      "required": ["threadId"]
    },
    "PauseResponse": {
      "allOf": [
        { "$ref": "#/definitions/Response" },
        { "type": "object", "description": "Response to `pause` request." }
      ]
    }
  }
}"##;

fn expected() -> Generated {
    let types = [
        "use serde::{Deserialize, Serialize};\n",
        "\n/// A thread has started or exited.\n",
        "#[derive(Debug, Clone, Deserialize, Serialize, PartialEq)]\n",
        "pub struct ThreadEvent {\n",
        "    /// The reason for the event.\n",
        "    #[serde(rename = \"reason\")]\n",
        "    pub reason: ThreadEventReason,\n",
        "    /// The thread.\n",
        "    #[serde(rename = \"threadId\")]\n",
        "    pub thread_id: u64,\n",
        "}\n",
        "\n/// The reason for the event.\n",
        "#[derive(PartialEq, Eq, Debug, Hash, Clone, Deserialize, Serialize)]\n",
        "#[non_exhaustive]\n",
        "pub enum ThreadEventReason {\n",
        "    #[serde(rename = \"started\")]\n",
        "    Started,\n",
        "    #[serde(rename = \"exited\")]\n",
        "    Exited,\n",
        "    #[serde(other)]\n",
        "    Unknown,\n",
        "}\n",
        "\n/// Arguments for `pause` request.\n",
        "#[derive(Debug, Clone, Deserialize, Serialize, PartialEq)]\n",
        "pub struct PauseArguments {\n",
        "    /// Pause this thread.\n",
        "    #[serde(rename = \"threadId\")]\n",
        "    pub thread_id: u64,\n",
        "}\n",
        CUSTOM_TYPES,
    ]
    .concat();
    let requests = [
        "use serde::{de::DeserializeOwned, Serialize};\nuse std::fmt::Debug;\n",
        REQUEST_TRAIT,
        "\n/// Suspends the debuggee.\n",
        "pub enum Pause {}\n",
        "\n",
        "impl Request for Pause {\n",
        "    const COMMAND: &'static str = \"pause\";\n",
        "    type Arguments = crate::PauseArguments;\n",
        "    type Response = ();\n",
        "}\n",
    ]
    .concat();
    let events = [
        "use serde::{de::DeserializeOwned, Serialize};\nuse std::fmt::Debug;\n",
        EVENT_TRAIT,
        "\n/// A thread has started or exited.\n",
        "pub enum Thread {}\n",
        "\n",
        "impl Event for Thread {\n",
        "    const EVENT: &'static str = \"thread\";\n",
        "    type Body = crate::ThreadEvent;\n",
        "}\n",
    ]
    .concat();
    Generated { types, requests, events }
}

#[test]
fn a_small_protocol_is_generated() {
    assert_eq!(generate_from_text(SCHEMA), Ok(expected()));
}

#[test]
fn generation_gives_the_same_text_every_time() {
    let doc = Json::parse(SCHEMA).unwrap();
    let first = generate(&doc).unwrap();
    let second = generate(&doc).unwrap();
    assert_eq!(first, second);
    assert_eq!(generate_from_text(SCHEMA).unwrap(), first);
}

#[test]
fn generation_fails_as_a_whole() {
    assert_eq!(generate_from_text("not json"), Err(Problem::of_document(Failure::Syntax)));
    assert_eq!(generate_from_text("[]"), Err(Problem::of_document(Failure::NoDefinitions)));
    assert_eq!(
        generate_from_text(r#"{"definitions":{"A":{"type":"object"},"B":{}}}"#),
        Err(Problem::at("B", Failure::MissingType))
    );
    assert_eq!(
        generate_from_text(r#"{"definitions":{"A":{"type":"object"},"B":{"type":"integer"}}}"#),
        Err(Problem::at("B", Failure::UnsupportedDefinition))
    );
    let doc = Json::parse(r#"{"definitions":{"AEvent":{"type":"object"}}}"#).unwrap();
    assert_eq!(
        generate(&doc),
        Err(Problem { definition: "AEvent".to_string(), failure: Failure::MissingField })
    );
}

#[test]
fn the_disclaimer_comes_first() {
    assert_eq!(
        with_disclaimer("pub struct A;\n"),
        "// This file is autogenerated. Do not edit by hand.\n// To regenerate from schema, run `cargo run -p generator`.\n\npub struct A;\n"
    );
    assert_eq!(with_disclaimer(""), DISCLAIMER);
}
