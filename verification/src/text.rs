//! Text as sequences of characters: the few string operations that the
//! listing parser and the download walk need, each stated over `Seq<char>`.

use vstd::prelude::*;
use vstd::slice::slice_subrange;
use vstd::std_specs::iter::IteratorSpec;

verus! {

/// The part of `s` behind its last `sep`; all of `s` where it holds none.
pub open spec fn after_last(s: Seq<char>, sep: char) -> Seq<char>
    decreases s.len(),
{
    if s.len() == 0 || s.last() == sep {
        Seq::empty()
    } else {
        after_last(s.drop_last(), sep).push(s.last())
    }
}

/// `text` without the leading `prefix`, where it starts with it.
pub open spec fn without_prefix(text: Seq<char>, prefix: Seq<char>) -> Option<Seq<char>> {
    if prefix.is_prefix_of(text) {
        Some(text.skip(prefix.len() as int))
    } else {
        None
    }
}

/// Whether `part` stands in `text` at `at`.
pub open spec fn part_at(text: Seq<char>, part: Seq<char>, at: int) -> bool {
    0 <= at <= text.len() - part.len() && text.subrange(at, at + part.len()) == part
}

/// Whether `part` stands somewhere in `text`.
pub open spec fn has_part(text: Seq<char>, part: Seq<char>) -> bool {
    exists|at: int| part_at(text, part, at)
}

/// `text` without `suffix` at its end; `text` as it is where it does not
/// end with it.
pub open spec fn without_suffix(text: Seq<char>, suffix: Seq<char>) -> Seq<char> {
    if suffix.is_suffix_of(text) {
        text.take(text.len() - suffix.len())
    } else {
        text
    }
}

/// The index of the first line feed in `s`; the length of `s` where it
/// holds none.
pub open spec fn first_newline(s: Seq<char>) -> int
    decreases s.len(),
{
    if s.len() == 0 || s[0] == '\n' {
        0
    } else {
        1 + first_newline(s.drop_first())
    }
}

/// `line` without one carriage return at its end.
pub open spec fn without_carriage_return(line: Seq<char>) -> Seq<char> {
    if line.len() > 0 && line.last() == '\r' {
        line.drop_last()
    } else {
        line
    }
}

/// The lines of `s`. A line ends at a line feed, or at a carriage return
/// directly followed by one; neither belongs to the line. What follows the
/// last line feed is a line of its own unless it is empty.
pub open spec fn lines_of(s: Seq<char>) -> Seq<Seq<char>>
    decreases s.len(),
{
    let n = first_newline(s);
    if s.len() == 0 {
        Seq::empty()
    } else if 0 <= n < s.len() {
        seq![without_carriage_return(s.take(n))] + lines_of(s.skip(n + 1))
    } else {
        seq![s]
    }
}

/// The value of a decimal digit.
pub open spec fn digit_of(c: char) -> Option<nat> {
    match c {
        '0' => Some(0nat),
        '1' => Some(1nat),
        '2' => Some(2nat),
        '3' => Some(3nat),
        '4' => Some(4nat),
        '5' => Some(5nat),
        '6' => Some(6nat),
        '7' => Some(7nat),
        '8' => Some(8nat),
        '9' => Some(9nat),
        _ => None,
    }
}

/// Whether `s` holds decimal digits only.
pub open spec fn all_digits(s: Seq<char>) -> bool {
    forall|i: int| 0 <= i < s.len() ==> digit_of(#[trigger] s[i]) is Some
}

/// The number that the digits of `s` write in base ten.
pub open spec fn decimal_value(s: Seq<char>) -> nat
    decreases s.len(),
{
    if s.len() == 0 {
        0
    } else {
        decimal_value(s.drop_last()) * 10 + match digit_of(s.last()) {
            Some(d) => d,
            None => 0,
        }
    }
}

/// `text` without a plus sign in front.
pub open spec fn unsigned_part(text: Seq<char>) -> Seq<char> {
    if text.len() > 0 && text[0] == '+' {
        text.skip(1)
    } else {
        text
    }
}

/// The number that `text` writes: one or more decimal digits, with or
/// without a plus sign in front, that write a number of 64 bits. Any other
/// text writes none.
pub open spec fn number_of(text: Seq<char>) -> Option<u64> {
    let digits = unsigned_part(text);
    if digits.len() > 0 && all_digits(digits) && decimal_value(digits) <= u64::MAX {
        Some(decimal_value(digits) as u64)
    } else {
        None
    }
}

/// The first digits of a number write no more than the number.
pub proof fn lemma_decimal_prefix(s: Seq<char>, upto: int)
    requires
        0 <= upto <= s.len(),
    ensures
        decimal_value(s.take(upto)) <= decimal_value(s),
    decreases s.len() - upto,
{
    if upto < s.len() {
        assert(s.take(upto + 1).drop_last() =~= s.take(upto));
        lemma_decimal_prefix(s, upto + 1);
    } else {
        assert(s.take(upto) =~= s);
    }
}

/// The first line feed of `s` is at `n` if none comes before and `n` holds
/// one or is the end of `s`.
pub proof fn lemma_first_newline(s: Seq<char>, n: int)
    requires
        0 <= n <= s.len(),
        forall|k: int| 0 <= k < n ==> s[k] != '\n',
        n == s.len() || s[n] == '\n',
    ensures
        first_newline(s) == n,
    decreases s.len(),
{
    if n > 0 {
        let rest = s.drop_first();
        assert forall|k: int| 0 <= k < n - 1 implies rest[k] != '\n' by {
            assert(rest[k] == s[k + 1]);
        }
        lemma_first_newline(rest, n - 1);
    }
}

/// The characters of `text`, in order.
pub fn chars_of(text: &str) -> (chars: Vec<char>)
    ensures
        chars@ == text@,
{
    let mut chars: Vec<char> = Vec::new();
    for c in it: text.chars()
        invariant
            it.seq() == text@,
            chars@ == it.seq().take(it.index()),
    {
        chars.push(c);
    }
    chars
}

/// Collects `chars` into a `String` with `Iterator::collect`.
///
/// Not proved: that the string holds exactly these characters in this order.
#[verifier::external_body]
pub(crate) fn string_of(chars: &[char]) -> (text: String)
    ensures
        text@ == chars@,
{
    chars.iter().collect()
}

/// A copy of a text that may be absent.
pub fn clone_text(text: &Option<String>) -> (copy: Option<String>)
    ensures
        copy.deep_view() == text.deep_view(),
{
    match text {
        None => None,
        Some(t) => Some(t.clone()),
    }
}

/// Whether two texts hold the same characters.
pub fn same_text(a: &str, b: &str) -> (same: bool)
    ensures
        same == (a@ == b@),
{
    let left = a.to_owned();
    let right = b.to_owned();
    left == right
}

/// Whether `list` holds `item`.
pub fn contains_text(list: &Vec<String>, item: &str) -> (found: bool)
    ensures
        found == list.deep_view().contains(item@),
{
    let mut i: usize = 0;
    while i < list.len()
        invariant
            i <= list.len(),
            forall|j: int| 0 <= j < i ==> list.deep_view()[j] != item@,
        decreases list.len() - i,
    {
        if same_text(list[i].as_str(), item) {
            assert(list.deep_view()[i as int] == item@);
            return true;
        }
        i += 1;
    }
    false
}

/// The part of `text` behind its last `sep`; all of `text` where it holds
/// none.
pub fn last_component(text: &str, sep: char) -> (part: String)
    ensures
        part@ == after_last(text@, sep),
{
    let chars = chars_of(text);
    let mut start: usize = 0;
    let mut i: usize = 0;
    assert(chars@.take(0) =~= Seq::<char>::empty());
    while i < chars.len()
        invariant
            start <= i <= chars.len(),
            after_last(chars@.take(i as int), sep) == chars@.subrange(start as int, i as int),
        decreases chars.len() - i,
    {
        let ghost before = chars@.take(i as int);
        let ghost upto = chars@.take(i + 1);
        assert(upto.drop_last() =~= before);
        assert(upto.last() == chars@[i as int]);
        if chars[i] == sep {
            start = i + 1;
        } else {
            assert(chars@.subrange(start as int, i as int).push(chars@[i as int])
                =~= chars@.subrange(start as int, i + 1));
        }
        i += 1;
    }
    assert(chars@.take(i as int) =~= chars@);
    string_of(slice_subrange(chars.as_slice(), start, i))
}

/// `text` without the leading `prefix`; `None` where `text` does not start
/// with it.
pub fn strip_prefix(text: &str, prefix: &str) -> (rest: Option<String>)
    ensures
        rest.deep_view() == without_prefix(text@, prefix@),
{
    let chars = chars_of(text);
    let head = chars_of(prefix);
    if head.len() > chars.len() {
        return None;
    }
    let mut i: usize = 0;
    while i < head.len()
        invariant
            chars@ == text@,
            head@ == prefix@,
            i <= head.len() <= chars.len(),
            forall|j: int| 0 <= j < i ==> chars@[j] == head@[j],
        decreases head.len() - i,
    {
        if chars[i] != head[i] {
            assert(chars@.subrange(0, head@.len() as int)[i as int] != head@[i as int]);
            return None;
        }
        i += 1;
    }
    assert(head@ =~= chars@.subrange(0, head@.len() as int));
    assert(chars@.skip(head@.len() as int) =~= chars@.subrange(
        head@.len() as int,
        chars@.len() as int,
    ));
    Some(string_of(slice_subrange(chars.as_slice(), head.len(), chars.len())))
}

/// Whether `part` stands somewhere in `text`.
pub fn contains_part(text: &str, part: &str) -> (found: bool)
    ensures
        found == has_part(text@, part@),
{
    let chars = chars_of(text);
    let wanted = chars_of(part);
    if wanted.len() > chars.len() {
        assert(forall|at: int| !part_at(text@, part@, at));
        return false;
    }
    let last = chars.len() - wanted.len();
    let mut at: usize = 0;
    while at <= last
        invariant
            chars@ == text@,
            wanted@ == part@,
            wanted.len() <= chars.len(),
            last == chars.len() - wanted.len(),
            at <= last,
            forall|before: int| 0 <= before < at ==> !part_at(text@, part@, before),
        decreases last - at,
    {
        let mut i: usize = 0;
        let mut same = true;
        while i < wanted.len()
            invariant
                chars@ == text@,
                wanted@ == part@,
                at <= last,
                last == chars.len() - wanted.len(),
                i <= wanted.len(),
                same ==> forall|j: int| 0 <= j < i ==> chars@[at + j] == wanted@[j],
                !same ==> !part_at(text@, part@, at as int),
            decreases wanted.len() - i,
        {
            if chars[at + i] != wanted[i] {
                assert(text@.subrange(at as int, at + part@.len())[i as int] != part@[i as int]);
                same = false;
            }
            i += 1;
        }
        if same {
            assert(text@.subrange(at as int, at + part@.len()) =~= part@);
            assert(part_at(text@, part@, at as int));
            return true;
        }
        if at == last {
            assert(forall|any: int| !part_at(text@, part@, any));
            return false;
        }
        at += 1;
    }
    false
}

/// `text` without `suffix` at its end; `text` as it is where it does not
/// end with it.
pub fn trim_suffix(text: &str, suffix: &str) -> (rest: String)
    ensures
        rest@ == without_suffix(text@, suffix@),
{
    let chars = chars_of(text);
    let tail = chars_of(suffix);
    if tail.len() > chars.len() {
        return text.to_owned();
    }
    let start = chars.len() - tail.len();
    let mut i: usize = 0;
    while i < tail.len()
        invariant
            chars@ == text@,
            tail@ == suffix@,
            tail.len() <= chars.len(),
            start == chars.len() - tail.len(),
            i <= tail.len(),
            forall|j: int| 0 <= j < i ==> chars@[start + j] == tail@[j],
        decreases tail.len() - i,
    {
        if chars[start + i] != tail[i] {
            assert(chars@.subrange(start as int, chars@.len() as int)[i as int] != tail@[i as int]);
            return text.to_owned();
        }
        i += 1;
    }
    assert(tail@ =~= chars@.subrange(start as int, chars@.len() as int));
    assert(chars@.take(start as int) =~= chars@.subrange(0, start as int));
    string_of(slice_subrange(chars.as_slice(), 0, start))
}

/// The value of a decimal digit.
pub fn digit(c: char) -> (value: Option<u64>)
    ensures
        match value {
            Some(d) => digit_of(c) == Some(d as nat) && d <= 9,
            None => digit_of(c) is None,
        },
{
    match c {
        '0' => Some(0),
        '1' => Some(1),
        '2' => Some(2),
        '3' => Some(3),
        '4' => Some(4),
        '5' => Some(5),
        '6' => Some(6),
        '7' => Some(7),
        '8' => Some(8),
        '9' => Some(9),
        _ => None,
    }
}

/// Reads `text` as a number.
pub fn parse_number(text: &str) -> (number: Option<u64>)
    ensures
        number == number_of(text@),
{
    let chars = chars_of(text);
    let start: usize = if chars.len() > 0 && chars[0] == '+' {
        1
    } else {
        0
    };
    if start == chars.len() {
        return None;
    }
    let ghost digits = unsigned_part(chars@);
    assert(digits =~= chars@.skip(start as int));
    assert(digits.take(0) =~= Seq::<char>::empty());
    let mut value: u64 = 0;
    let mut i: usize = start;
    while i < chars.len()
        invariant
            start <= i <= chars.len(),
            chars@ == text@,
            digits == chars@.skip(start as int),
            digits == unsigned_part(chars@),
            digits.len() > 0,
            all_digits(digits.take(i - start)),
            value == decimal_value(digits.take(i - start)),
        decreases chars.len() - i,
    {
        let ghost before = digits.take(i - start);
        let ghost upto = digits.take(i - start + 1);
        assert(upto.drop_last() =~= before);
        assert(upto.last() == chars@[i as int]);
        let d = match digit(chars[i]) {
            Some(d) => d,
            None => {
                assert(digit_of(digits[i - start]) is None);
                return None;
            },
        };
        if value > (u64::MAX - d) / 10 {
            proof {
                lemma_decimal_prefix(digits, i - start + 1);
            }
            return None;
        }
        value = value * 10 + d;
        assert forall|j: int| 0 <= j < upto.len() implies digit_of(#[trigger] upto[j]) is Some by {
            if j < before.len() {
                assert(upto[j] == before[j]);
            }
        }
        i += 1;
    }
    assert(digits.take(i - start) =~= digits);
    Some(value)
}

/// The lines of `text`, in order.
pub fn split_lines(text: &str) -> (lines: Vec<String>)
    ensures
        lines.deep_view() == lines_of(text@),
{
    let chars = chars_of(text);
    let mut lines: Vec<String> = Vec::new();
    let mut start: usize = 0;
    let mut i: usize = 0;
    assert(chars@.skip(0) =~= chars@);
    assert(lines.deep_view() =~= Seq::<Seq<char>>::empty());
    while i < chars.len()
        invariant
            start <= i <= chars.len(),
            forall|k: int| start <= k < i ==> chars@[k] != '\n',
            lines_of(chars@) == lines.deep_view() + lines_of(chars@.skip(start as int)),
        decreases chars.len() - i,
    {
        if chars[i] == '\n' {
            let ghost rest = chars@.skip(start as int);
            let ghost done = lines.deep_view();
            proof {
                lemma_first_newline(rest, i - start);
                assert(rest.take(i - start) =~= chars@.subrange(start as int, i as int));
                assert(rest.skip(i - start + 1) =~= chars@.skip(i + 1));
            }
            let end = if i > start && chars[i - 1] == '\r' {
                i - 1
            } else {
                i
            };
            let line = string_of(slice_subrange(chars.as_slice(), start, end));
            proof {
                let raw = chars@.subrange(start as int, i as int);
                assert(line@ =~= without_carriage_return(raw));
            }
            lines.push(line);
            assert(lines.deep_view() =~= done.push(line@));
            assert(done + (seq![line@] + lines_of(chars@.skip(i + 1))) =~= done.push(line@)
                + lines_of(chars@.skip(i + 1)));
            start = i + 1;
        }
        i += 1;
    }
    let ghost rest = chars@.skip(start as int);
    let ghost done = lines.deep_view();
    if start < chars.len() {
        proof {
            lemma_first_newline(rest, rest.len() as int);
            assert(rest =~= chars@.subrange(start as int, chars@.len() as int));
        }
        lines.push(string_of(slice_subrange(chars.as_slice(), start, chars.len())));
        assert(lines.deep_view() =~= done + seq![rest]);
    } else {
        assert(done + Seq::<Seq<char>>::empty() =~= done);
    }
    lines
}

} // verus!
