//! Text as sequences of characters: lines, blank lines, lexical order.

use vstd::prelude::*;
use vstd::std_specs::iter::IteratorSpec;

verus! {

/// Whether `c` is white space in the sense of `char::is_whitespace`.
pub uninterp spec fn whitespace(c: char) -> bool;

/// `char::is_whitespace`: the answer is the one that `whitespace` names.
#[verifier::external_body]
pub(crate) fn is_whitespace(c: char) -> (yes: bool)
    ensures
        yes == whitespace(c),
{
    c.is_whitespace()
}

/// Whether `c` is a control code in the sense of `char::is_control`.
pub uninterp spec fn control(c: char) -> bool;

/// `char::is_control`: the answer is the one that `control` names.
#[verifier::external_body]
pub(crate) fn is_control(c: char) -> (yes: bool)
    ensures
        yes == control(c),
{
    c.is_control()
}

/// Whether `c` is a letter or a number in the sense of
/// `char::is_alphanumeric`.
pub uninterp spec fn alphanumeric(c: char) -> bool;

/// `char::is_alphanumeric`: the answer is the one that `alphanumeric` names.
#[verifier::external_body]
pub(crate) fn is_alphanumeric(c: char) -> (yes: bool)
    ensures
        yes == alphanumeric(c),
{
    c.is_alphanumeric()
}

/// The upper case of `c` in the sense of `char::to_uppercase`: one character
/// or several.
pub uninterp spec fn uppercase(c: char) -> Seq<char>;

/// `char::to_uppercase`, collected: the characters that `uppercase` names.
#[verifier::external_body]
pub(crate) fn to_uppercase(c: char) -> (upper: Vec<char>)
    ensures
        upper@ == uppercase(c),
{
    c.to_uppercase().collect()
}

/// `String::from_iter` on characters: the string made of `chars`.
#[verifier::external_body]
pub(crate) fn string_from(chars: &[char]) -> (text: String)
    ensures
        text@ == chars@,
{
    String::from_iter(chars)
}

/// The order of `str`: whether `a < b`, comparing code point by code point,
/// a proper prefix coming first.
#[verifier::external_body]
pub(crate) fn text_less(a: &str, b: &str) -> (less: bool)
    ensures
        less == lex_less(a@, b@),
{
    a < b
}

/// Equality of `str`: whether the two texts hold the same characters.
#[verifier::external_body]
pub(crate) fn text_equal(a: &str, b: &str) -> (same: bool)
    ensures
        same == (a@ == b@),
{
    a == b
}

/// A text is blank when it holds nothing but white space.
pub open spec fn blank(text: Seq<char>) -> bool {
    forall|i: int| 0 <= i < text.len() ==> whitespace(#[trigger] text[i])
}

/// Lexical order on texts: the first differing code point decides; a proper
/// prefix is smaller.
pub open spec fn lex_less(a: Seq<char>, b: Seq<char>) -> bool
    decreases a.len(),
{
    if b.len() == 0 {
        false
    } else if a.len() == 0 {
        true
    } else if a[0] != b[0] {
        (a[0] as int) < (b[0] as int)
    } else {
        lex_less(a.drop_first(), b.drop_first())
    }
}

/// The position of the first `mark` at or after `from`, or the length of
/// `text` when there is none.
pub open spec fn position_of(text: Seq<char>, mark: char, from: int) -> int
    decreases text.len() - from,
{
    if from < 0 || from >= text.len() {
        text.len() as int
    } else if text[from] == mark {
        from
    } else {
        position_of(text, mark, from + 1)
    }
}

/// The position of the first line feed at or after `from`, or the length of
/// `text` when there is none.
pub open spec fn line_end(text: Seq<char>, from: int) -> int {
    position_of(text, '\n', from)
}

/// What stands in `text` before the first `mark`: all of it when there is
/// none.
pub open spec fn prefix_before(text: Seq<char>, mark: char) -> Seq<char> {
    text.subrange(0, position_of(text, mark, 0))
}

/// A line without the carriage return that stood before its line feed.
pub open spec fn strip_return(line: Seq<char>) -> Seq<char> {
    if line.len() > 0 && line.last() == '\r' {
        line.drop_last()
    } else {
        line
    }
}

/// The lines of `text` from position `from` on.
pub open spec fn lines_from(text: Seq<char>, from: int) -> Seq<Seq<char>>
    decreases text.len() - from,
{
    if from < 0 || from >= text.len() {
        Seq::empty()
    } else {
        let end = line_end(text, from);
        if end < from {
            // never the case: a line does not end before it starts
            Seq::empty()
        } else if end < text.len() {
            seq![strip_return(text.subrange(from, end))] + lines_from(text, end + 1)
        } else {
            seq![text.subrange(from, end)]
        }
    }
}

/// The lines of `text`: it is cut after each line feed; a line loses its line
/// feed and a carriage return right before it; a last line without a line
/// feed is kept as it is, and an empty rest after the last line feed is no
/// line.
pub open spec fn lines(text: Seq<char>) -> Seq<Seq<char>> {
    lines_from(text, 0)
}

/// `text` without the white space at its start.
pub open spec fn trim_start(text: Seq<char>) -> Seq<char>
    decreases text.len(),
{
    if text.len() > 0 && whitespace(text[0]) {
        trim_start(text.drop_first())
    } else {
        text
    }
}

/// `text` without the white space at its end.
pub open spec fn trim_end(text: Seq<char>) -> Seq<char>
    decreases text.len(),
{
    if text.len() > 0 && whitespace(text.last()) {
        trim_end(text.drop_last())
    } else {
        text
    }
}

/// `text` without the white space at its start and at its end.
pub open spec fn trimmed(text: Seq<char>) -> Seq<char> {
    trim_end(trim_start(text))
}

/// The views of a sequence of strings.
pub open spec fn texts(items: Seq<String>) -> Seq<Seq<char>> {
    items.map_values(|s: String| s@)
}

/// Up to a position without a `mark` before it, the place of the next
/// `mark` does not move.
proof fn lemma_position_step(text: Seq<char>, mark: char, from: int, at: int)
    requires
        0 <= from <= at <= text.len(),
        forall|k: int| from <= k < at ==> text[k] != mark,
    ensures
        position_of(text, mark, from) == position_of(text, mark, at),
    decreases at - from,
{
    if from < at {
        lemma_position_step(text, mark, from + 1, at);
    }
}

/// Lexical order never puts a text before itself.
pub proof fn lemma_lex_irreflexive(a: Seq<char>)
    ensures
        !lex_less(a, a),
    decreases a.len(),
{
    if a.len() > 0 {
        lemma_lex_irreflexive(a.drop_first());
    }
}

/// Lexical order is transitive.
pub proof fn lemma_lex_transitive(a: Seq<char>, b: Seq<char>, c: Seq<char>)
    requires
        lex_less(a, b),
        lex_less(b, c),
    ensures
        lex_less(a, c),
    decreases a.len(),
{
    if a.len() > 0 && a[0] == b[0] && b[0] == c[0] {
        lemma_lex_transitive(a.drop_first(), b.drop_first(), c.drop_first());
    }
}

/// Of two different texts, one comes before the other.
pub proof fn lemma_lex_total(a: Seq<char>, b: Seq<char>)
    ensures
        a == b || lex_less(a, b) || lex_less(b, a),
    decreases a.len(),
{
    if a.len() == 0 || b.len() == 0 {
        if a.len() == 0 && b.len() == 0 {
            assert(a =~= b);
        }
    } else if a[0] == b[0] {
        lemma_lex_total(a.drop_first(), b.drop_first());
        if a.drop_first() == b.drop_first() {
            assert(a =~= seq![a[0]] + a.drop_first());
            assert(b =~= seq![b[0]] + b.drop_first());
        }
    }
}

/// Cutting white space off the start leaves the text from its first other
/// character on.
proof fn lemma_trim_start(text: Seq<char>, from: int)
    requires
        0 <= from <= text.len(),
        forall|k: int| 0 <= k < from ==> whitespace(#[trigger] text[k]),
        from < text.len() ==> !whitespace(text[from]),
    ensures
        trim_start(text) == text.subrange(from, text.len() as int),
    decreases from,
{
    if from == 0 {
        assert(text.subrange(0, text.len() as int) =~= text);
    } else {
        let rest = text.drop_first();
        assert forall|k: int| 0 <= k < from - 1 implies whitespace(#[trigger] rest[k]) by {
            assert(rest[k] == text[k + 1]);
        }
        lemma_trim_start(rest, from - 1);
        assert(rest.subrange(from - 1, rest.len() as int) =~= text.subrange(
            from,
            text.len() as int,
        ));
    }
}

/// Cutting white space off the end leaves the text up to its last other
/// character.
proof fn lemma_trim_end(text: Seq<char>, upto: int)
    requires
        0 <= upto <= text.len(),
        forall|k: int| upto <= k < text.len() ==> whitespace(#[trigger] text[k]),
        upto > 0 ==> !whitespace(text[upto - 1]),
    ensures
        trim_end(text) == text.subrange(0, upto),
    decreases text.len() - upto,
{
    if upto == text.len() {
        assert(text.subrange(0, upto) =~= text);
    } else {
        let rest = text.drop_last();
        assert forall|k: int| upto <= k < rest.len() implies whitespace(#[trigger] rest[k]) by {
            assert(rest[k] == text[k]);
        }
        lemma_trim_end(rest, upto);
        assert(rest.subrange(0, upto) =~= text.subrange(0, upto));
    }
}

/// Where the trimmed part of `chars` starts and ends.
pub fn trim_bounds(chars: &Vec<char>) -> (bounds: (usize, usize))
    ensures
        bounds.0 <= bounds.1 <= chars@.len(),
        chars@.subrange(bounds.0 as int, bounds.1 as int) == trimmed(chars@),
{
    let mut from: usize = 0;
    while from < chars.len() && is_whitespace(chars[from])
        invariant
            from <= chars@.len(),
            forall|k: int| 0 <= k < from ==> whitespace(#[trigger] chars@[k]),
        decreases chars@.len() - from,
    {
        from += 1;
    }
    let mut upto: usize = chars.len();
    while upto > from && is_whitespace(chars[upto - 1])
        invariant
            from <= upto <= chars@.len(),
            forall|k: int| upto <= k < chars@.len() ==> whitespace(#[trigger] chars@[k]),
        decreases upto - from,
    {
        upto -= 1;
    }
    proof {
        lemma_trim_start(chars@, from as int);
        let rest = chars@.subrange(from as int, chars@.len() as int);
        assert forall|k: int| upto - from <= k < rest.len() implies whitespace(
            #[trigger] rest[k],
        ) by {
            assert(rest[k] == chars@[k + from]);
        }
        lemma_trim_end(rest, upto - from);
        assert(rest.subrange(0, upto - from) =~= chars@.subrange(from as int, upto as int));
    }
    (from, upto)
}

/// The characters of `text`, in order.
pub fn chars_of(text: &str) -> (chars: Vec<char>)
    ensures
        chars@ == text@,
{
    let mut rest = text.chars();
    let mut chars: Vec<char> = Vec::new();
    assert(chars@ + rest.remaining() =~= text@);
    loop
        invariant
            rest.decrease() is Some,
            chars@ + rest.remaining() == text@,
        ensures
            chars@ == text@,
        decreases rest.decrease()->0,
    {
        let ghost before = rest.remaining();
        match rest.next() {
            Some(c) => {
                chars.push(c);
                assert(chars@ + rest.remaining() =~= text@);
            },
            None => {
                assert(chars@ + before =~= chars@);
                break ;
            },
        }
    }
    chars
}

/// The string made of `chars[from..to]`.
pub fn string_of(chars: &Vec<char>, from: usize, to: usize) -> (text: String)
    requires
        from <= to <= chars@.len(),
    ensures
        text@ == chars@.subrange(from as int, to as int),
{
    string_from(vstd::slice::slice_subrange(chars.as_slice(), from, to))
}

/// Whether `text` holds nothing but white space.
pub fn is_blank(text: &str) -> (yes: bool)
    ensures
        yes == blank(text@),
{
    let chars = chars_of(text);
    let mut i: usize = 0;
    while i < chars.len()
        invariant
            i <= chars@.len(),
            chars@ == text@,
            forall|k: int| 0 <= k < i ==> whitespace(#[trigger] text@[k]),
        decreases chars@.len() - i,
    {
        if !is_whitespace(chars[i]) {
            return false;
        }
        i += 1;
    }
    true
}

/// What stands in `text` before its first `mark`.
pub fn take_before(text: &str, mark: char) -> (head: String)
    ensures
        head@ == prefix_before(text@, mark),
{
    let chars = chars_of(text);
    let mut i: usize = 0;
    while i < chars.len() && chars[i] != mark
        invariant
            chars@ == text@,
            i <= chars@.len(),
            forall|k: int| 0 <= k < i ==> text@[k] != mark,
        decreases chars@.len() - i,
    {
        i += 1;
    }
    proof {
        lemma_position_step(text@, mark, 0, i as int);
    }
    string_of(&chars, 0, i)
}

/// Cuts `text` into its lines.
pub fn split_lines(text: &str) -> (out: Vec<String>)
    ensures
        texts(out@) == lines(text@),
{
    let chars = chars_of(text);
    let mut out: Vec<String> = Vec::new();
    let mut start: usize = 0;
    let mut i: usize = 0;
    assert(texts(out@) =~= Seq::empty());
    while i < chars.len()
        invariant
            chars@ == text@,
            start <= i <= chars@.len(),
            forall|k: int| start <= k < i ==> text@[k] != '\n',
            lines(text@) == texts(out@) + lines_from(text@, start as int),
        decreases chars@.len() - i,
    {
        if chars[i] == '\n' {
            proof {
                lemma_position_step(text@, '\n', start as int, i as int);
            }
            let stop: usize = if i > start && chars[i - 1] == '\r' {
                i - 1
            } else {
                i
            };
            let line = string_of(&chars, start, stop);
            proof {
                let piece = text@.subrange(start as int, i as int);
                assert(line@ =~= strip_return(piece));
                assert(texts(out@.push(line)) =~= texts(out@) + seq![line@]);
                assert(texts(out@) + (seq![line@] + lines_from(text@, i + 1)) =~= texts(
                    out@.push(line),
                ) + lines_from(text@, i + 1));
            }
            out.push(line);
            start = i + 1;
        }
        i += 1;
    }
    if start < chars.len() {
        proof {
            lemma_position_step(text@, '\n', start as int, i as int);
        }
        let line = string_of(&chars, start, i);
        proof {
            assert(texts(out@.push(line)) =~= texts(out@) + seq![line@]);
        }
        out.push(line);
    } else {
        proof {
            assert(texts(out@) + Seq::<Seq<char>>::empty() =~= texts(out@));
        }
    }
    out
}

/// How many lines `text` has.
pub fn count_lines(text: &str) -> (count: usize)
    ensures
        count == lines(text@).len(),
{
    let chars = chars_of(text);
    let mut count: usize = 0;
    let mut start: usize = 0;
    let mut i: usize = 0;
    while i < chars.len()
        invariant
            chars@ == text@,
            count <= start <= i <= chars@.len(),
            forall|k: int| start <= k < i ==> text@[k] != '\n',
            lines(text@).len() == count + lines_from(text@, start as int).len(),
        decreases chars@.len() - i,
    {
        if chars[i] == '\n' {
            proof {
                lemma_position_step(text@, '\n', start as int, i as int);
            }
            count += 1;
            start = i + 1;
        }
        i += 1;
    }
    if start < chars.len() {
        proof {
            lemma_position_step(text@, '\n', start as int, i as int);
        }
        count += 1;
    }
    count
}

} // verus!
