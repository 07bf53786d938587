use vstd::prelude::*;
use vstd::string::*;
use crate::text::{lines, split_lines, strip_prefix, trim_trailing, trimmed};

verus! {

/// The state of a writer, as a mathematical value.
pub struct WriterView {
    /// The text written so far.
    pub output: Seq<char>,
    /// Whether a declaration has just ended, so that an empty line comes first
    /// when the next line is written.
    pub finished_object: bool,
}

/// Collects emitted text line by line and separates declarations by empty lines.
pub struct Writer {
    /// The text written so far.
    pub output: String,
    /// Whether a declaration has just ended.
    pub finished_object: bool,
}

impl View for Writer {
    type V = WriterView;

    open spec fn view(&self) -> WriterView {
        WriterView { output: self.output@, finished_object: self.finished_object }
    }
}

impl WriterView {
    /// A writer that has written nothing.
    pub open spec fn empty() -> WriterView {
        WriterView { output: Seq::empty(), finished_object: false }
    }

    /// The writer after the empty line that a finished declaration is owed.
    pub open spec fn check_finish(self) -> WriterView {
        if self.finished_object {
            WriterView { output: self.output + "\n"@, finished_object: false }
        } else {
            self
        }
    }

    /// The writer after `line` is written without its trailing whitespace.
    pub open spec fn line(self, line: Seq<char>) -> WriterView {
        WriterView {
            output: self.check_finish().output + trim_trailing(line) + "\n"@,
            finished_object: false,
        }
    }

    /// The writer after `line` is written one level deep.
    pub open spec fn indented(self, line: Seq<char>) -> WriterView {
        WriterView {
            output: self.check_finish().output + "    "@ + trim_trailing(line) + "\n"@,
            finished_object: false,
        }
    }

    /// The writer after a declaration has ended.
    pub open spec fn finish_object(self) -> WriterView {
        WriterView { output: self.output, finished_object: true }
    }

    /// The writer after the first `n` of `lines` are written as documentation.
    pub open spec fn doc_lines(self, lines: Seq<Seq<char>>, n: nat) -> WriterView
        decreases n,
    {
        if n == 0 || n > lines.len() {
            self
        } else {
            self.doc_lines(lines, (n - 1) as nat).line("/// "@ + lines[n - 1])
        }
    }

    /// The writer after the first `n` of `lines` are written as documentation,
    /// one level deep.
    pub open spec fn indented_doc_lines(self, lines: Seq<Seq<char>>, n: nat) -> WriterView
        decreases n,
    {
        if n == 0 || n > lines.len() {
            self
        } else {
            self.indented_doc_lines(lines, (n - 1) as nat).indented("/// "@ + lines[n - 1])
        }
    }

    /// The writer after the lines of `doc` are written as documentation.
    pub open spec fn doc(self, doc: Seq<char>) -> WriterView {
        self.doc_lines(split_lines(doc), split_lines(doc).len())
    }

    /// The writer after the lines of `doc` are written as documentation, one
    /// level deep.
    pub open spec fn indented_doc(self, doc: Seq<char>) -> WriterView {
        self.indented_doc_lines(split_lines(doc), split_lines(doc).len())
    }

    /// The writer after one line of code: an empty line ends a declaration, a
    /// line that starts with four spaces is written one level deep without
    /// them, and any other line is written as it is.
    pub open spec fn code_line(self, line: Seq<char>) -> WriterView {
        if line.len() == 0 {
            self.finish_object()
        } else if "    "@.is_prefix_of(line) {
            self.indented(line.skip("    "@.len() as int))
        } else {
            self.line(line)
        }
    }

    /// The writer after the first `n` of `lines` are written as code.
    pub open spec fn code_lines(self, lines: Seq<Seq<char>>, n: nat) -> WriterView
        decreases n,
    {
        if n == 0 || n > lines.len() {
            self
        } else {
            self.code_lines(lines, (n - 1) as nat).code_line(lines[n - 1])
        }
    }

    /// The writer after the lines of `code` are written as code and the
    /// declaration that they end with has ended.
    pub open spec fn code(self, code: Seq<char>) -> WriterView {
        self.code_lines(split_lines(code), split_lines(code).len()).finish_object()
    }
}

impl Default for Writer {
    fn default() -> (w: Writer)
        ensures
            w@ == WriterView::empty(),
    {
        Writer { output: String::new(), finished_object: false }
    }
}

impl Writer {
    /// A writer that has written nothing.
    pub fn new() -> (w: Writer)
        ensures
            w@ == WriterView::empty(),
    {
        Writer { output: String::new(), finished_object: false }
    }

    /// Writes the empty line that a finished declaration is owed.
    pub fn check_finish(&mut self)
        ensures
            final(self)@ == old(self)@.check_finish(),
    {
        if self.finished_object {
            self.output.append("\n");
            self.finished_object = false;
        }
    }

    /// Writes `line` without its trailing whitespace.
    pub fn line(&mut self, line: &str)
        ensures
            final(self)@ == old(self)@.line(line@),
    {
        self.check_finish();
        self.output.append(trimmed(line));
        self.output.append("\n");
    }

    /// Writes `line` one level deep.
    pub fn indented(&mut self, line: &str)
        ensures
            final(self)@ == old(self)@.indented(line@),
    {
        self.check_finish();
        self.output.append("    ");
        self.output.append(trimmed(line));
        self.output.append("\n");
    }

    /// Marks the end of a declaration.
    pub fn finished_object(&mut self)
        ensures
            final(self)@ == old(self)@.finish_object(),
    {
        self.finished_object = true;
    }

    /// Writes the lines of `doc` as documentation.
    pub fn doc(&mut self, doc: &str)
        ensures
            final(self)@ == old(self)@.doc(doc@),
    {
        let ls = lines(doc);
        let ghost all = split_lines(doc@);
        let mut i: usize = 0;
        while i < ls.len()
            invariant
                i <= ls.len(),
                ls@.len() == all.len(),
                forall|j: int| 0 <= j < ls@.len() ==> (#[trigger] ls@[j])@ == all[j],
                self@ == old(self)@.doc_lines(all, i as nat),
            decreases ls.len() - i,
        {
            let mut text = String::from_str("/// ");
            text.append(ls[i]);
            self.line(text.as_str());
            i = i + 1;
        }
    }

    /// Writes the lines of `doc` as documentation, one level deep.
    pub fn indented_doc(&mut self, doc: &str)
        ensures
            final(self)@ == old(self)@.indented_doc(doc@),
    {
        let ls = lines(doc);
        let ghost all = split_lines(doc@);
        let mut i: usize = 0;
        while i < ls.len()
            invariant
                i <= ls.len(),
                ls@.len() == all.len(),
                forall|j: int| 0 <= j < ls@.len() ==> (#[trigger] ls@[j])@ == all[j],
                self@ == old(self)@.indented_doc_lines(all, i as nat),
            decreases ls.len() - i,
        {
            let mut text = String::from_str("/// ");
            text.append(ls[i]);
            self.indented(text.as_str());
            i = i + 1;
        }
    }

    /// Writes the lines of `code`, which is text in the layout of this writer,
    /// and marks the end of the declaration that they end with.
    pub fn code(&mut self, code: &str)
        ensures
            final(self)@ == old(self)@.code(code@),
    {
        let ls = lines(code);
        let ghost all = split_lines(code@);
        let mut i: usize = 0;
        while i < ls.len()
            invariant
                i <= ls.len(),
                ls@.len() == all.len(),
                forall|j: int| 0 <= j < ls@.len() ==> (#[trigger] ls@[j])@ == all[j],
                self@ == old(self)@.code_lines(all, i as nat),
            decreases ls.len() - i,
        {
            let line = ls[i];
            if line.is_empty() {
                self.finished_object();
            } else {
                match strip_prefix(line, "    ") {
                    Some(rest) => {
                        proof {
                            let p = "    "@;
                            assert(line@.subrange(0, p.len() as int) =~= p);
                            assert(line@.skip(p.len() as int) =~= rest@);
                        }
                        self.indented(rest);
                    },
                    None => {
                        self.line(line);
                    },
                }
            }
            i = i + 1;
        }
        self.finished_object();
    }

    /// The text written.
    pub fn into_output(self) -> (text: String)
        ensures
            text@ == self@.output,
    {
        self.output
    }
}

} // verus!
