use vstd::prelude::*;
use vstd::string::*;
use crate::text::{char_is_uppercase, char_lowercase, char_uppercase, lowercase, str_eq, strings_view, uppercase};

verus! {

/// The state of a left-to-right scan that splits an identifier into words.
pub struct Scan {
    /// The words closed so far, none of them empty.
    pub done: Seq<Seq<char>>,
    /// The word being read.
    pub last: Seq<char>,
    /// Whether the character read last was uppercase.
    pub prev_upper: bool,
}

/// An underscore or a space: ends a word and belongs to none.
pub open spec fn is_separator(c: char) -> bool {
    c == '_' || c == ' '
}

/// `done` with `last` added to it, unless `last` is empty.
pub open spec fn close_word(done: Seq<Seq<char>>, last: Seq<char>) -> Seq<Seq<char>> {
    if last.len() > 0 {
        done.push(last)
    } else {
        done
    }
}

/// The scan before any character is read.
pub open spec fn scan_start() -> Scan {
    Scan { done: Seq::empty(), last: Seq::empty(), prev_upper: false }
}

/// The scan after reading `c`. A separator closes the word; an uppercase
/// character that follows a character that is not uppercase closes the word and
/// starts the next; every other character continues the word. Characters enter
/// words in lowercase.
pub open spec fn scan_step(st: Scan, c: char) -> Scan {
    if is_separator(c) {
        Scan {
            done: close_word(st.done, st.last),
            last: Seq::empty(),
            prev_upper: char_is_uppercase(c),
        }
    } else if char_is_uppercase(c) && !st.prev_upper {
        Scan { done: close_word(st.done, st.last), last: char_lowercase(c), prev_upper: true }
    } else {
        Scan {
            done: st.done,
            last: st.last + char_lowercase(c),
            prev_upper: char_is_uppercase(c),
        }
    }
}

/// The scan after reading all of `s`, starting from `st`.
pub open spec fn scan_from(st: Scan, s: Seq<char>) -> Scan
    decreases s.len(),
{
    if s.len() == 0 {
        st
    } else {
        scan_step(scan_from(st, s.drop_last()), s.last())
    }
}

/// The words of the identifier `s`, in order and in lowercase.
pub open spec fn words_spec(s: Seq<char>) -> Seq<Seq<char>> {
    let st = scan_from(scan_start(), s);
    close_word(st.done, st.last)
}

/// The words joined by single underscores.
pub open spec fn snake_case_spec(words: Seq<Seq<char>>) -> Seq<char>
    decreases words.len(),
{
    if words.len() == 0 {
        Seq::empty()
    } else if words.len() == 1 {
        words[0]
    } else {
        snake_case_spec(words.drop_last()) + "_"@ + words.last()
    }
}

/// `w` with its first character replaced by that character's uppercase mapping.
pub open spec fn capitalize(w: Seq<char>) -> Seq<char> {
    if w.len() == 0 {
        w
    } else {
        char_uppercase(w[0]) + w.skip(1)
    }
}

/// The capitalized words, one after the other.
pub open spec fn pascal_case_spec(words: Seq<Seq<char>>) -> Seq<char>
    decreases words.len(),
{
    if words.len() == 0 {
        Seq::empty()
    } else {
        pascal_case_spec(words.drop_last()) + capitalize(words.last())
    }
}

/// The name of a record member for the schema key `raw`: its words in snake
/// case, except that the reserved word `type` becomes `type_`.
pub open spec fn to_snake_case_spec(raw: Seq<char>) -> Seq<char> {
    if raw == "type"@ {
        "type_"@
    } else {
        snake_case_spec(words_spec(raw))
    }
}

/// The name of a type or of an enum case for the schema text `raw`.
pub open spec fn to_pascal_case_spec(raw: Seq<char>) -> Seq<char> {
    pascal_case_spec(words_spec(raw))
}

/// Whether `raw` can name a record member: it is `type` or holds a word.
pub open spec fn has_member_name(raw: Seq<char>) -> bool {
    raw == "type"@ || words_spec(raw).len() > 0
}

/// Splits an identifier in snake case, camel case, Pascal case or with spaces
/// into its words, in lowercase.
pub fn words(raw: &str) -> (result: Vec<String>)
    ensures
        strings_view(result@) == words_spec(raw@),
{
    let mut result: Vec<String> = Vec::new();
    let mut last = String::new();
    let mut prev_upper = false;
    proof {
        assert(strings_view(result@) =~= Seq::<Seq<char>>::empty());
        assert(raw@.take(0).len() == 0);
    }
    for c in it: raw.chars()
        invariant
            it.seq() == raw@,
            scan_from(scan_start(), raw@.take(it.index() as int)) == (Scan {
                done: strings_view(result@),
                last: last@,
                prev_upper,
            }),
    {
        let ghost before = raw@.take(it.index() as int);
        let ghost after = raw@.take(it.index() as int + 1);
        let ghost done = strings_view(result@);
        proof {
            assert(after.drop_last() =~= before);
            assert(after.last() == c);
        }
        let upper = c.is_uppercase();
        if c == '_' || c == ' ' || (upper && !prev_upper) {
            if !last.as_str().is_empty() {
                result.push(last);
                assert(strings_view(result@) =~= done.push(last@));
            }
            if c == '_' || c == ' ' {
                last = String::new();
            } else {
                last = lowercase(c);
            }
        } else {
            let lower = lowercase(c);
            last.append(lower.as_str());
        }
        prev_upper = upper;
    }
    proof {
        assert(raw@.take(raw@.len() as int) =~= raw@);
    }
    if !last.as_str().is_empty() {
        let ghost done = strings_view(result@);
        result.push(last);
        assert(strings_view(result@) =~= done.push(last@));
    }
    result
}

/// Whether `raw` can name a record member.
pub fn has_words(raw: &str) -> (r: bool)
    ensures
        r == has_member_name(raw@),
{
    if str_eq(raw, "type") {
        true
    } else {
        let ws = words(raw);
        assert(strings_view(ws@).len() == ws@.len());
        ws.len() > 0
    }
}

/// The snake-case member name for the schema key `raw`.
pub fn to_snake_case(raw: &str) -> (r: String)
    requires
        has_member_name(raw@),
    ensures
        r@ == to_snake_case_spec(raw@),
{
    if str_eq(raw, "type") {
        return String::from_str("type_");
    }
    let ws = words(raw);
    let ghost all = strings_view(ws@);
    let mut out = String::new();
    let mut i: usize = 0;
    while i < ws.len()
        invariant
            i <= ws.len(),
            all == strings_view(ws@),
            out@ == snake_case_spec(all.take(i as int)),
        decreases ws.len() - i,
    {
        proof {
            assert(all.take(i as int + 1).drop_last() =~= all.take(i as int));
            assert(all.take(i as int + 1).last() == ws@[i as int]@);
        }
        if i > 0 {
            out.append("_");
        } else {
            assert(out@ + ws@[i as int]@ =~= ws@[i as int]@);
        }
        out.append(ws[i].as_str());
        i = i + 1;
    }
    proof {
        assert(all.take(ws.len() as int) =~= all);
    }
    out
}

/// The Pascal-case type or case name for the schema text `raw`.
pub fn to_pascal_case(raw: &str) -> (r: String)
    ensures
        r@ == to_pascal_case_spec(raw@),
{
    let ws = words(raw);
    let ghost all = strings_view(ws@);
    let mut out = String::new();
    let mut i: usize = 0;
    while i < ws.len()
        invariant
            i <= ws.len(),
            all == strings_view(ws@),
            out@ == pascal_case_spec(all.take(i as int)),
        decreases ws.len() - i,
    {
        proof {
            assert(all.take(i as int + 1).drop_last() =~= all.take(i as int));
            assert(all.take(i as int + 1).last() == ws@[i as int]@);
        }
        let w = ws[i].as_str();
        let n = w.unicode_len();
        if n > 0 {
            let head = uppercase(w.get_char(0));
            out.append(head.as_str());
            out.append(w.substring_char(1, n));
            assert(w@.subrange(1, n as int) =~= w@.skip(1));
            assert(out@ =~= pascal_case_spec(all.take(i as int)) + capitalize(w@));
        } else {
            assert(out@ + capitalize(w@) =~= out@);
        }
        i = i + 1;
    }
    proof {
        assert(all.take(ws.len() as int) =~= all);
    }
    out
}

/// A character that word splitting keeps as it is: no separator, not uppercase,
/// and its own lowercase mapping.
pub open spec fn is_stable_char(d: char) -> bool {
    !is_separator(d) && !char_is_uppercase(d) && char_lowercase(d) == seq![d]
}

/// A word of stable characters only.
pub open spec fn is_stable_word(w: Seq<char>) -> bool {
    forall|k: int| 0 <= k < w.len() ==> is_stable_char(#[trigger] w[k])
}

/// Words that are not empty and hold stable characters only.
pub open spec fn are_stable_words(words: Seq<Seq<char>>) -> bool {
    forall|i: int|
        0 <= i < words.len() ==> (#[trigger] words[i]).len() > 0 && is_stable_word(words[i])
}

/// An identifier whose characters, once in lowercase, are stable: every
/// character of it is a separator or has a lowercase mapping of stable
/// characters.
pub open spec fn is_identifier(s: Seq<char>) -> bool {
    forall|i: int|
        0 <= i < s.len() && !is_separator(#[trigger] s[i]) ==> is_stable_word(char_lowercase(s[i]))
}

/// Reading `a` and then `b` is reading `a + b`.
pub proof fn lemma_scan_concat(st: Scan, a: Seq<char>, b: Seq<char>)
    ensures
        scan_from(st, a + b) == scan_from(scan_from(st, a), b),
    decreases b.len(),
{
    if b.len() == 0 {
        assert(a + b =~= a);
    } else {
        assert((a + b).drop_last() =~= a + b.drop_last());
        assert((a + b).last() == b.last());
        lemma_scan_concat(st, a, b.drop_last());
    }
}

/// Reading a word of stable characters adds it to the word being read and
/// closes nothing.
pub proof fn lemma_scan_stable_word(st: Scan, w: Seq<char>)
    requires
        is_stable_word(w),
        w.len() > 0,
    ensures
        scan_from(st, w) == (Scan { done: st.done, last: st.last + w, prev_upper: false }),
    decreases w.len(),
{
    let d = w.last();
    assert(is_stable_char(w[w.len() - 1]));
    if w.len() == 1 {
        assert(scan_from(st, w.drop_last()) == st);
        assert(st.last + seq![d] =~= st.last + w);
    } else {
        assert forall|k: int| 0 <= k < w.drop_last().len() implies is_stable_char(
            #[trigger] w.drop_last()[k],
        ) by {
            assert(w.drop_last()[k] == w[k]);
        }
        lemma_scan_stable_word(st, w.drop_last());
        assert((st.last + w.drop_last()) + seq![d] =~= st.last + w);
    }
}

/// A scan of an identifier holds stable words only.
pub proof fn lemma_scan_identifier(s: Seq<char>)
    requires
        is_identifier(s),
    ensures
        are_stable_words(scan_from(scan_start(), s).done),
        is_stable_word(scan_from(scan_start(), s).last),
    decreases s.len(),
{
    if s.len() > 0 {
        let before = s.drop_last();
        assert forall|i: int| 0 <= i < before.len() && !is_separator(
            #[trigger] before[i],
        ) implies is_stable_word(char_lowercase(before[i])) by {
            assert(before[i] == s[i]);
        }
        lemma_scan_identifier(before);
        let st = scan_from(scan_start(), before);
        let c = s.last();
        assert(c == s[s.len() - 1]);
        let next = scan_step(st, c);
        assert(scan_from(scan_start(), s) == next);
        assert(are_stable_words(close_word(st.done, st.last)));
        if !is_separator(c) {
            assert(is_stable_word(char_lowercase(c)));
            assert(is_stable_word(st.last + char_lowercase(c))) by {
                assert forall|k: int| 0 <= k < (st.last + char_lowercase(c)).len() implies is_stable_char(
                    #[trigger] (st.last + char_lowercase(c))[k],
                ) by {
                    if k < st.last.len() {
                        assert((st.last + char_lowercase(c))[k] == st.last[k]);
                    } else {
                        assert((st.last + char_lowercase(c))[k] == char_lowercase(c)[k - st.last.len()]);
                    }
                }
            }
        }
    }
}

/// The words of an identifier are stable words.
pub proof fn lemma_words_stable(s: Seq<char>)
    requires
        is_identifier(s),
    ensures
        are_stable_words(words_spec(s)),
{
    lemma_scan_identifier(s);
}

/// Reading stable words joined by underscores leaves the last word open and the
/// others closed.
pub proof fn lemma_scan_snake_case(words: Seq<Seq<char>>)
    requires
        are_stable_words(words),
        words.len() > 0,
    ensures
        scan_from(scan_start(), snake_case_spec(words)) == (Scan {
            done: words.drop_last(),
            last: words.last(),
            prev_upper: false,
        }),
    decreases words.len(),
{
    let w = words.last();
    assert(w == words[words.len() - 1]);
    if words.len() == 1 {
        lemma_scan_stable_word(scan_start(), w);
        assert(scan_start().last + w =~= w);
        assert(words.drop_last() =~= Seq::<Seq<char>>::empty());
    } else {
        let front = words.drop_last();
        assert forall|i: int| 0 <= i < front.len() implies (#[trigger] front[i]).len() > 0
            && is_stable_word(front[i]) by {
            assert(front[i] == words[i]);
        }
        lemma_scan_snake_case(front);
        reveal_strlit("_");
        let joined = snake_case_spec(front);
        let sep = "_"@;
        assert(sep =~= seq!['_']);
        lemma_scan_concat(scan_start(), joined + sep, w);
        lemma_scan_concat(scan_start(), joined, sep);
        let st = scan_from(scan_start(), joined);
        assert(sep.drop_last() =~= Seq::<char>::empty());
        assert(scan_from(st, sep) == scan_step(scan_from(st, sep.drop_last()), sep.last()));
        assert(scan_from(st, sep.drop_last()) == st);
        let closed = scan_from(st, sep);
        assert(closed.done =~= front) by {
            assert(front.drop_last().push(front.last()) =~= front);
        }
        lemma_scan_stable_word(closed, w);
        assert(closed.last + w =~= w);
    }
}

/// Splitting is stable under joining in snake case: the words of an identifier,
/// joined by underscores and split again, are the same words.
pub proof fn lemma_snake_case_round_trip(s: Seq<char>)
    requires
        is_identifier(s),
    ensures
        words_spec(snake_case_spec(words_spec(s))) == words_spec(s),
{
    let w = words_spec(s);
    lemma_words_stable(s);
    if w.len() > 0 {
        lemma_scan_snake_case(w);
        assert(w.drop_last().push(w.last()) =~= w);
    }
}

/// Whether the word at `i` of `words` survives capitalization among them.
/// The uppercase mapping of its first character is one character that is no
/// separator and maps back to that first character; a word that another
/// follows has two characters or more; and a word after the first starts, once
/// capitalized, with an uppercase character.
pub open spec fn word_survives(words: Seq<Seq<char>>, i: int) -> bool {
    let w = words[i];
    &&& w.len() >= 1
    &&& is_stable_word(w)
    &&& char_uppercase(w[0]).len() == 1
    &&& !is_separator(char_uppercase(w[0])[0])
    &&& char_lowercase(char_uppercase(w[0])[0]) == seq![w[0]]
    &&& i + 1 < words.len() ==> w.len() >= 2
    &&& i >= 1 ==> char_is_uppercase(char_uppercase(w[0])[0])
}

/// Words that all survive capitalization.
pub open spec fn survive_pascal_case(words: Seq<Seq<char>>) -> bool {
    forall|i: int| 0 <= i < words.len() ==> #[trigger] word_survives(words, i)
}

/// Reading a capitalized word closes the word before it and leaves the word
/// itself open, where the character before it was not uppercase and either
/// the capital is uppercase or no word is open.
pub proof fn lemma_scan_capitalized(st: Scan, words: Seq<Seq<char>>, i: int)
    requires
        0 <= i < words.len(),
        word_survives(words, i),
        !st.prev_upper,
        char_is_uppercase(char_uppercase(words[i][0])[0]) || st.last.len() == 0,
    ensures
        scan_from(st, capitalize(words[i])).done == close_word(st.done, st.last),
        scan_from(st, capitalize(words[i])).last == words[i],
        words[i].len() >= 2 ==> !scan_from(st, capitalize(words[i])).prev_upper,
{
    let w = words[i];
    let head = char_uppercase(w[0]);
    let tail = w.skip(1);
    assert(head =~= seq![head[0]]);
    assert(head.drop_last() =~= Seq::<char>::empty());
    assert(scan_from(st, head.drop_last()) == st);
    assert(scan_from(st, head) == scan_step(st, head[0]));
    let opened = scan_from(st, head);
    assert(opened.last =~= seq![w[0]]);
    lemma_scan_concat(st, head, tail);
    if tail.len() > 0 {
        assert forall|k: int| 0 <= k < tail.len() implies is_stable_char(#[trigger] tail[k]) by {
            assert(tail[k] == w[k + 1]);
        }
        lemma_scan_stable_word(opened, tail);
        assert(seq![w[0]] + tail =~= w);
    } else {
        assert(seq![w[0]] =~= w);
    }
}

/// Reading capitalized words one after the other leaves the last word open
/// and the others closed.
pub proof fn lemma_scan_pascal_case(words: Seq<Seq<char>>)
    requires
        survive_pascal_case(words),
        words.len() > 0,
    ensures
        scan_from(scan_start(), pascal_case_spec(words)).done == words.drop_last(),
        scan_from(scan_start(), pascal_case_spec(words)).last == words.last(),
    decreases words.len(),
{
    let n = words.len() as int;
    let w = words.last();
    let front = words.drop_last();
    assert(word_survives(words, n - 1));
    if words.len() == 1 {
        assert(pascal_case_spec(front) =~= Seq::<char>::empty());
        assert(pascal_case_spec(front) + capitalize(w) =~= capitalize(w));
        lemma_scan_capitalized(scan_start(), words, 0);
        assert(front =~= Seq::<Seq<char>>::empty());
    } else {
        assert forall|i: int| 0 <= i < front.len() implies #[trigger] word_survives(front, i) by {
            assert(word_survives(words, i));
            assert(front[i] == words[i]);
        }
        lemma_scan_pascal_case(front);
        lemma_scan_concat(scan_start(), pascal_case_spec(front), capitalize(w));
        let st = scan_from(scan_start(), pascal_case_spec(front));
        assert(word_survives(words, n - 2));
        assert(front.last() == words[n - 2]);
        lemma_pascal_case_prev_lower(front);
        assert(!st.prev_upper);
        lemma_scan_capitalized(st, words, n - 1);
        assert(front.drop_last().push(front.last()) =~= front);
    }
}

/// After capitalized words of which the last has two characters or more, the
/// character read last is not uppercase.
pub proof fn lemma_pascal_case_prev_lower(words: Seq<Seq<char>>)
    requires
        survive_pascal_case(words),
        words.len() > 0,
        words.last().len() >= 2,
    ensures
        !scan_from(scan_start(), pascal_case_spec(words)).prev_upper,
    decreases words.len(),
{
    let n = words.len() as int;
    let w = words.last();
    let front = words.drop_last();
    assert(word_survives(words, n - 1));
    if words.len() == 1 {
        assert(pascal_case_spec(front) =~= Seq::<char>::empty());
        assert(pascal_case_spec(front) + capitalize(w) =~= capitalize(w));
        lemma_scan_capitalized(scan_start(), words, 0);
    } else {
        assert forall|i: int| 0 <= i < front.len() implies #[trigger] word_survives(front, i) by {
            assert(word_survives(words, i));
            assert(front[i] == words[i]);
        }
        assert(word_survives(words, n - 2));
        assert(front.last() == words[n - 2]);
        lemma_pascal_case_prev_lower(front);
        lemma_scan_concat(scan_start(), pascal_case_spec(front), capitalize(w));
        let st = scan_from(scan_start(), pascal_case_spec(front));
        lemma_scan_capitalized(st, words, n - 1);
    }
}

/// Splitting is stable under joining in Pascal case, for words that survive
/// capitalization: such words, capitalized, joined and split again, are the
/// same words.
pub proof fn lemma_pascal_case_round_trip(s: Seq<char>)
    requires
        survive_pascal_case(words_spec(s)),
    ensures
        words_spec(to_pascal_case_spec(s)) == words_spec(s),
{
    let w = words_spec(s);
    if w.len() > 0 {
        lemma_scan_pascal_case(w);
        assert(word_survives(w, w.len() - 1));
        assert(w.drop_last().push(w.last()) =~= w);
    }
}

/// A separator at the end of an identifier adds no word.
pub proof fn lemma_words_trailing_separator(s: Seq<char>, c: char)
    requires
        is_separator(c),
    ensures
        words_spec(s.push(c)) == words_spec(s),
{
    assert(s.push(c).drop_last() =~= s);
}

/// Splitting is stable under the member name: the member name of an
/// identifier, split again, gives the words of the identifier. This holds of
/// the reserved word too, which gets an underscore at its end.
pub proof fn lemma_to_snake_case_round_trip(s: Seq<char>)
    requires
        is_identifier(s),
    ensures
        words_spec(to_snake_case_spec(s)) == words_spec(s),
{
    if s == "type"@ {
        reveal_strlit("type");
        reveal_strlit("type_");
        assert("type_"@ =~= "type"@.push('_'));
        lemma_words_trailing_separator("type"@, '_');
    } else {
        lemma_snake_case_round_trip(s);
    }
}

/// A member name is its own member name: the words of an identifier joined
/// by underscores, taken as an identifier again, give the same text, unless it
/// is the reserved word.
pub proof fn lemma_snake_case_fixed_point(s: Seq<char>)
    requires
        is_identifier(s),
    ensures
        snake_case_spec(words_spec(s)) != "type"@ ==> to_snake_case_spec(
            snake_case_spec(words_spec(s)),
        ) == snake_case_spec(words_spec(s)),
{
    lemma_snake_case_round_trip(s);
}

/// The shape of stable words joined by underscores: the text is not empty, it
/// starts and ends with a stable character, every character of it is stable
/// or an underscore, and no underscore follows another.
pub proof fn lemma_snake_case_of_words(words: Seq<Seq<char>>)
    requires
        are_stable_words(words),
        words.len() > 0,
    ensures
        snake_case_spec(words).len() > 0,
        is_stable_char(snake_case_spec(words)[0]),
        is_stable_char(snake_case_spec(words).last()),
        forall|k: int|
            0 <= k < snake_case_spec(words).len() ==> is_stable_char(
                #[trigger] snake_case_spec(words)[k],
            ) || snake_case_spec(words)[k] == '_',
        forall|k: int|
            0 <= k < snake_case_spec(words).len() - 1 && #[trigger] snake_case_spec(words)[k]
                == '_' ==> snake_case_spec(words)[k + 1] != '_',
    decreases words.len(),
{
    let w = words.last();
    assert(w == words[words.len() - 1]);
    assert(is_stable_char(w[0]));
    assert(is_stable_char(w[w.len() - 1]));
    if words.len() > 1 {
        let front = words.drop_last();
        assert forall|i: int| 0 <= i < front.len() implies (#[trigger] front[i]).len() > 0
            && is_stable_word(front[i]) by {
            assert(front[i] == words[i]);
        }
        lemma_snake_case_of_words(front);
        reveal_strlit("_");
        let joined = snake_case_spec(front);
        let sep = "_"@;
        assert(sep =~= seq!['_']);
        let all = joined + sep + w;
        let n = joined.len() as int;
        assert(all == snake_case_spec(words));
        assert(all[0] == joined[0]);
        assert(all.last() == w[w.len() - 1]);
        assert forall|k: int| 0 <= k < all.len() implies is_stable_char(#[trigger] all[k])
            || all[k] == '_' by {
            if k < n {
                assert(all[k] == joined[k]);
            } else if k > n {
                assert(all[k] == w[k - n - 1]);
            }
        }
        assert forall|k: int| 0 <= k < all.len() - 1 && #[trigger] all[k] == '_' implies all[k + 1]
            != '_' by {
            if k < n - 1 {
                assert(all[k] == joined[k]);
                assert(all[k + 1] == joined[k + 1]);
            } else if k == n - 1 {
                assert(all[k] == joined[n - 1]);
                assert(joined[n - 1] == joined.last());
            } else if k == n {
                assert(all[k + 1] == w[0]);
            } else {
                assert(all[k] == w[k - n - 1]);
            }
        }
    }
}

/// The shape of a member name: the words of an identifier joined by
/// underscores are stable characters, which are not uppercase, and single
/// underscores between them, none at the start and none at the end.
pub proof fn lemma_snake_case_shape(s: Seq<char>)
    requires
        is_identifier(s),
        words_spec(s).len() > 0,
    ensures
        ({
            let r = snake_case_spec(words_spec(s));
            &&& r.len() > 0
            &&& r[0] != '_'
            &&& r.last() != '_'
            &&& forall|k: int| 0 <= k < r.len() ==> !char_is_uppercase(#[trigger] r[k]) || r[k] == '_'
            &&& forall|k: int| 0 <= k < r.len() - 1 && #[trigger] r[k] == '_' ==> r[k + 1] != '_'
        }),
{
    lemma_words_stable(s);
    lemma_snake_case_of_words(words_spec(s));
    let r = snake_case_spec(words_spec(s));
    assert forall|k: int| 0 <= k < r.len() implies !char_is_uppercase(#[trigger] r[k]) || r[k]
        == '_' by {
        assert(is_stable_char(r[k]) || r[k] == '_');
    }
}

/// Whether `d` is a character that word splitting keeps as it is.
pub fn is_stable(d: char) -> (r: bool)
    ensures
        r == is_stable_char(d),
{
    if d == '_' || d == ' ' || d.is_uppercase() {
        return false;
    }
    let lower = lowercase(d);
    let same = lower.as_str().unicode_len() == 1 && lower.as_str().get_char(0) == d;
    proof {
        if same {
            assert(lower@ =~= seq![d]);
        }
    }
    same
}

/// Whether `w` holds stable characters only.
pub fn is_stable_text(w: &str) -> (r: bool)
    ensures
        r == is_stable_word(w@),
{
    for c in it: w.chars()
        invariant
            it.seq() == w@,
            forall|k: int| 0 <= k < it.index() ==> is_stable_char(#[trigger] w@[k]),
    {
        if !is_stable(c) {
            assert(!is_stable_char(w@[it.index() as int]));
            return false;
        }
    }
    true
}

/// Whether `raw` is an identifier whose words survive being joined in snake
/// case: each of its characters is a separator or has a lowercase mapping of
/// stable characters.
pub fn is_word_splittable(raw: &str) -> (r: bool)
    ensures
        r == is_identifier(raw@),
{
    for c in it: raw.chars()
        invariant
            it.seq() == raw@,
            forall|k: int|
                0 <= k < it.index() && !is_separator(#[trigger] raw@[k]) ==> is_stable_word(
                    char_lowercase(raw@[k]),
                ),
    {
        if !(c == '_' || c == ' ') {
            let lower = lowercase(c);
            if !is_stable_text(lower.as_str()) {
                assert(!is_stable_word(char_lowercase(raw@[it.index() as int])));
                return false;
            }
        }
    }
    true
}

/// Whether the word at `i` of `words` survives capitalization among them.
fn survives(words: &Vec<String>, i: usize) -> (r: bool)
    requires
        i < words.len(),
    ensures
        r == word_survives(strings_view(words@), i as int),
{
    let w = words[i].as_str();
    let n = w.unicode_len();
    if n == 0 || !is_stable_text(w) {
        return false;
    }
    if i + 1 < words.len() && n < 2 {
        return false;
    }
    let head = uppercase(w.get_char(0));
    if head.as_str().unicode_len() != 1 {
        return false;
    }
    let capital = head.as_str().get_char(0);
    if capital == '_' || capital == ' ' {
        return false;
    }
    if i >= 1 && !capital.is_uppercase() {
        return false;
    }
    let back = lowercase(capital);
    let same = back.as_str().unicode_len() == 1 && back.as_str().get_char(0) == w.get_char(0);
    proof {
        if same {
            assert(back@ =~= seq![w@[0]]);
        }
    }
    same
}

/// Whether the words of `raw` survive being joined in Pascal case.
pub fn is_pascal_splittable(raw: &str) -> (r: bool)
    ensures
        r == survive_pascal_case(words_spec(raw@)),
{
    let ws = words(raw);
    let ghost all = strings_view(ws@);
    let mut i: usize = 0;
    while i < ws.len()
        invariant
            i <= ws.len(),
            all == strings_view(ws@),
            all == words_spec(raw@),
            forall|k: int| 0 <= k < i ==> #[trigger] word_survives(all, k),
        decreases ws.len() - i,
    {
        if !survives(&ws, i) {
            assert(!word_survives(all, i as int));
            return false;
        }
        i = i + 1;
    }
    true
}

} // verus!
