use dap_codegen::text::{ends_with, trimmed};
use dap_codegen::writer::Writer;

#[test]
fn line_drops_trailing_whitespace() {
    let mut w = Writer::new();
    w.line("abc  \t");
    w.line("  d e ");
    assert_eq!(w.into_output(), "abc\n  d e\n");
}

#[test]
fn indented_adds_four_spaces() {
    let mut w = Writer::new();
    w.indented("x: u64, ");
    assert_eq!(w.into_output(), "    x: u64,\n");
}

#[test]
fn finished_object_puts_an_empty_line_before_the_next_line() {
    let mut w = Writer::new();
    w.line("a");
    w.finished_object();
    w.finished_object();
    w.line("b");
    w.indented("c");
    assert_eq!(w.into_output(), "a\n\nb\n    c\n");
}

#[test]
fn finished_object_alone_writes_nothing() {
    let mut w = Writer::default();
    w.finished_object();
    assert!(w.finished_object);
    assert_eq!(w.output, "");
    w.check_finish();
    assert!(!w.finished_object);
    assert_eq!(w.output, "\n");
    w.check_finish();
    assert_eq!(w.output, "\n");
}

#[test]
fn doc_writes_one_comment_per_line() {
    let mut w = Writer::new();
    w.doc("First.\nSecond. \r\n\nLast.\n");
    assert_eq!(w.into_output(), "/// First.\n/// Second.\n///\n/// Last.\n");
}

#[test]
fn doc_of_nothing_writes_nothing() {
    let mut w = Writer::new();
    w.doc("");
    assert_eq!(w.into_output(), "");
}

#[test]
fn doc_keeps_a_carriage_return_without_line_feed() {
    let mut w = Writer::new();
    w.doc("a\rb");
    assert_eq!(w.into_output(), "/// a\rb\n");
}

#[test]
fn indented_doc_writes_comments_one_level_deep() {
    let mut w = Writer::new();
    w.indented_doc("One.\nTwo.");
    assert_eq!(w.into_output(), "    /// One.\n    /// Two.\n");
}

#[test]
fn code_keeps_the_layout() {
    let mut w = Writer::new();
    w.line("head");
    w.code("\npub struct A {\n    pub x: u8,\n        deep\n}\n\npub struct B;\n");
    w.line("tail");
    assert_eq!(
        w.into_output(),
        "head\n\npub struct A {\n    pub x: u8,\n        deep\n}\n\npub struct B;\n\ntail\n"
    );
}

#[test]
fn trimmed_removes_unicode_whitespace_at_the_end_only() {
    assert_eq!(trimmed(" a b \u{a0}\n"), " a b");
    assert_eq!(trimmed("   "), "");
    assert_eq!(trimmed("x"), "x");
}

#[test]
fn ends_with_compares_the_end() {
    assert!(ends_with("FooRequest", "Request"));
    assert!(ends_with("Request", "Request"));
    assert!(!ends_with("Requests", "Request"));
    assert!(!ends_with("est", "Request"));
}
