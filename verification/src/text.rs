use vstd::prelude::*;
use vstd::string::*;

verus! {

/// Whether `c` has the Unicode property `Uppercase`, as `char::is_uppercase` reports it.
pub uninterp spec fn char_is_uppercase(c: char) -> bool;

/// Whether `c` has the Unicode property `White_Space`, the notion of whitespace
/// by which `str::trim_end` trims.
pub uninterp spec fn char_is_whitespace(c: char) -> bool;

/// The characters that `char::to_lowercase` yields for `c`.
pub uninterp spec fn char_lowercase(c: char) -> Seq<char>;

/// The characters that `char::to_uppercase` yields for `c`.
pub uninterp spec fn char_uppercase(c: char) -> Seq<char>;

/// The text that the `Debug` format of `str` produces for `s`: `s` between double
/// quotes, with quotes, backslashes and unprintable characters escaped.
pub uninterp spec fn debug_quoted(s: Seq<char>) -> Seq<char>;

/// `s` without its trailing whitespace.
pub open spec fn trim_trailing(s: Seq<char>) -> Seq<char>
    decreases s.len(),
{
    if s.len() > 0 && char_is_whitespace(s.last()) {
        trim_trailing(s.drop_last())
    } else {
        s
    }
}

/// Index of the first line feed in `s`, or the length of `s` where it holds none.
pub open spec fn line_end(s: Seq<char>) -> nat
    decreases s.len(),
{
    if s.len() == 0 || s[0] == '\n' {
        0
    } else {
        1 + line_end(s.drop_first())
    }
}

/// `s` without one trailing carriage return, if it ends in one.
pub open spec fn strip_carriage_return(s: Seq<char>) -> Seq<char> {
    if s.len() > 0 && s.last() == '\r' {
        s.drop_last()
    } else {
        s
    }
}

/// The lines of `s`. A line ends at a line feed or at a carriage return followed
/// by a line feed; neither is part of the line. The last line needs no line
/// ending, and a carriage return that no line feed follows stays in its line.
pub open spec fn split_lines(s: Seq<char>) -> Seq<Seq<char>>
    decreases s.len(),
{
    if s.len() == 0 {
        Seq::empty()
    } else if line_end(s) >= s.len() {
        seq![s]
    } else {
        seq![strip_carriage_return(s.take(line_end(s) as int))] + split_lines(
            s.skip(line_end(s) as int + 1),
        )
    }
}

/// The views of a sequence of strings.
pub open spec fn strings_view(v: Seq<String>) -> Seq<Seq<char>> {
    Seq::new(v.len(), |i: int| v[i]@)
}

/// `char::is_uppercase` reports the Unicode property `Uppercase`.
pub assume_specification[ char::is_uppercase ](c: char) -> (r: bool)
    ensures
        r == char_is_uppercase(c),
;

/// `str::trim_end` returns the longest prefix of `s` that does not end in a
/// character with the Unicode property `White_Space`.
pub assume_specification[ str::trim_end ](s: &str) -> (r: &str)
    ensures
        r@.is_prefix_of(s@),
        r@.len() > 0 ==> !char_is_whitespace(r@.last()),
        forall|i: int| r@.len() <= i < s@.len() ==> char_is_whitespace(#[trigger] s@[i]),
;

/// `str == str` compares the two texts character by character.
#[verifier::external_body]
pub(crate) fn str_eq(a: &str, b: &str) -> (r: bool)
    ensures
        r == (a@ == b@),
{
    a == b
}

/// `char::to_lowercase` yields the lowercase mapping of `c`, collected here into a string.
#[verifier::external_body]
pub(crate) fn lowercase(c: char) -> (r: String)
    ensures
        r@ == char_lowercase(c),
{
    c.to_lowercase().collect()
}

/// `char::to_uppercase` yields the uppercase mapping of `c`, collected here into a string.
#[verifier::external_body]
pub(crate) fn uppercase(c: char) -> (r: String)
    ensures
        r@ == char_uppercase(c),
{
    c.to_uppercase().collect()
}

/// `str::lines` yields the lines of `s` in order, as `split_lines` defines them.
#[verifier::external_body]
pub(crate) fn lines(s: &str) -> (r: Vec<&str>)
    ensures
        r@.len() == split_lines(s@).len(),
        forall|i: int| 0 <= i < r@.len() ==> (#[trigger] r@[i])@ == split_lines(s@)[i],
{
    s.lines().collect()
}

/// `str::strip_prefix` returns what follows `prefix` in `s`, or `None` where `s`
/// does not start with `prefix`.
#[verifier::external_body]
pub(crate) fn strip_prefix<'a>(s: &'a str, prefix: &str) -> (r: Option<&'a str>)
    ensures
        match r {
            Some(rest) => s@ == prefix@ + rest@,
            None => !prefix@.is_prefix_of(s@),
        },
{
    s.strip_prefix(prefix)
}

/// `str::strip_suffix` returns what precedes `suffix` in `s`, or `None` where `s`
/// does not end with `suffix`.
#[verifier::external_body]
pub(crate) fn strip_suffix<'a>(s: &'a str, suffix: &str) -> (r: Option<&'a str>)
    ensures
        match r {
            Some(rest) => s@ == rest@ + suffix@,
            None => !suffix@.is_suffix_of(s@),
        },
{
    s.strip_suffix(suffix)
}

/// The `Debug` format of `str` writes `s` as a quoted, escaped literal.
#[verifier::external_body]
pub(crate) fn quoted(s: &str) -> (r: String)
    ensures
        r@ == debug_quoted(s@),
{
    format!("{:?}", s)
}

/// What `str::trim_end` returns is `trim_trailing` of its argument: a prefix of `s`
/// that ends in no whitespace and is followed by whitespace only.
pub proof fn lemma_trim_trailing_unique(s: Seq<char>, r: Seq<char>)
    requires
        r.is_prefix_of(s),
        r.len() > 0 ==> !char_is_whitespace(r.last()),
        forall|i: int| r.len() <= i < s.len() ==> char_is_whitespace(#[trigger] s[i]),
    ensures
        r == trim_trailing(s),
    decreases s.len(),
{
    if s.len() > 0 && char_is_whitespace(s.last()) {
        if r.len() == s.len() {
            assert(r.last() == s.last());
        }
        assert(r.is_prefix_of(s.drop_last()));
        lemma_trim_trailing_unique(s.drop_last(), r);
    } else {
        if r.len() < s.len() {
            assert(char_is_whitespace(s[s.len() - 1]));
        }
        assert(r =~= s);
    }
}

/// `s` without its trailing whitespace.
pub fn trimmed(s: &str) -> (r: &str)
    ensures
        r@ == trim_trailing(s@),
{
    let r = s.trim_end();
    proof {
        lemma_trim_trailing_unique(s@, r@);
    }
    r
}

/// Whether `s` ends with `suffix`.
pub fn ends_with(s: &str, suffix: &str) -> (r: bool)
    ensures
        r == suffix@.is_suffix_of(s@),
{
    match strip_suffix(s, suffix) {
        Some(rest) => {
            proof {
                let n = rest@.len() as int;
                assert((rest@ + suffix@).subrange(n, (rest@ + suffix@).len() as int) =~= suffix@);
            }
            true
        },
        None => false,
    }
}

} // verus!
