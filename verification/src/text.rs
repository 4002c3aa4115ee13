//! Texts as sequences of characters: searching and trimming them.
use vstd::prelude::*;
use vstd::string::{StrSliceExecFns, StringExecFns};

verus! {

/// Whether `part` stands in `text` at position `at`.
pub open spec fn occurs_at(text: Seq<char>, part: Seq<char>, at: int) -> bool {
    &&& 0 <= at
    &&& at + part.len() <= text.len()
    &&& text.subrange(at, at + part.len()) == part
}

/// Whether `part` stands anywhere in `text`.
pub open spec fn contains_text(text: Seq<char>, part: Seq<char>) -> bool {
    exists|at: int| occurs_at(text, part, at)
}

/// Whether `text` ends in `part`.
pub open spec fn ends_with(text: Seq<char>, part: Seq<char>) -> bool {
    occurs_at(text, part, text.len() - part.len())
}

/// The characters with Unicode's `White_Space` property.
pub open spec fn is_white_space(c: char) -> bool {
    ||| '\u{9}' <= c <= '\u{d}'
    ||| c == '\u{20}'
    ||| c == '\u{85}'
    ||| c == '\u{a0}'
    ||| c == '\u{1680}'
    ||| '\u{2000}' <= c <= '\u{200a}'
    ||| c == '\u{2028}'
    ||| c == '\u{2029}'
    ||| c == '\u{202f}'
    ||| c == '\u{205f}'
    ||| c == '\u{3000}'
}

/// `text` without the white space at its start.
pub open spec fn trimmed_start(text: Seq<char>) -> Seq<char>
    decreases text.len(),
{
    if text.len() > 0 && is_white_space(text[0]) {
        trimmed_start(text.drop_first())
    } else {
        text
    }
}

/// `text` without the white space at its end.
pub open spec fn trimmed_end(text: Seq<char>) -> Seq<char>
    decreases text.len(),
{
    if text.len() > 0 && is_white_space(text.last()) {
        trimmed_end(text.drop_last())
    } else {
        text
    }
}

/// `text` without the white space at its start and its end.
pub open spec fn trimmed(text: Seq<char>) -> Seq<char> {
    trimmed_end(trimmed_start(text))
}

/// The part of `text` in front of the first `mark`; all of it where there is none.
pub open spec fn before_char(text: Seq<char>, mark: char) -> Seq<char>
    decreases text.len(),
{
    if text.len() == 0 || text[0] == mark {
        Seq::empty()
    } else {
        seq![text[0]] + before_char(text.drop_first(), mark)
    }
}

/// How often `c` stands in `text`.
pub open spec fn count_of(text: Seq<char>, c: char) -> nat
    decreases text.len(),
{
    if text.len() == 0 {
        0
    } else {
        count_of(text.drop_last(), c) + if text.last() == c {
            1nat
        } else {
            0
        }
    }
}

/// Where `c` last stands in `text`; a negative number where it does not stand there.
pub open spec fn last_index(text: Seq<char>, c: char) -> int
    decreases text.len(),
{
    if text.len() == 0 {
        -1
    } else if text.last() == c {
        text.len() - 1
    } else {
        last_index(text.drop_last(), c)
    }
}

/// The part of `text` in front of the last `mark`; all of it where there is none.
pub open spec fn before_last(text: Seq<char>, mark: char) -> Seq<char> {
    let at = last_index(text, mark);
    if at < 0 {
        text
    } else {
        text.take(at)
    }
}

/// The part of `text` behind the last `mark`; all of it where there is none.
pub open spec fn after_last(text: Seq<char>, mark: char) -> Seq<char> {
    text.skip(
        if last_index(text, mark) < 0 {
            0
        } else {
            last_index(text, mark) + 1
        },
    )
}

/// `text` with every `part` taken out, from its start on.
pub open spec fn without(text: Seq<char>, part: Seq<char>) -> Seq<char>
    decreases text.len(),
{
    if part.len() == 0 || text.len() < part.len() {
        text
    } else if occurs_at(text, part, 0) {
        without(text.skip(part.len() as int), part)
    } else {
        seq![text[0]] + without(text.drop_first(), part)
    }
}

/// How many bytes a character takes in UTF-8.
pub open spec fn utf8_width(c: char) -> nat {
    if c <= '\u{7f}' {
        1
    } else if c <= '\u{7ff}' {
        2
    } else if c <= '\u{ffff}' {
        3
    } else {
        4
    }
}

/// How many bytes a text takes in UTF-8.
pub open spec fn utf8_len(text: Seq<char>) -> nat
    decreases text.len(),
{
    if text.len() == 0 {
        0
    } else {
        utf8_len(text.drop_last()) + utf8_width(text.last())
    }
}

/// How many groups in parentheses may be open in a text that is parsed: parsers recurse on them,
/// and the stack of a thread holds no more than a few hundred of their calls.
pub const MAX_DEPTH: usize = 128;

/// Whether `c` is one of the ten ASCII digits.
pub open spec fn is_digit(c: char) -> bool {
    '0' <= c <= '9'
}

/// Whether `c` is an ASCII letter or an ASCII digit.
pub open spec fn is_alphanumeric(c: char) -> bool {
    is_digit(c) || 'a' <= c <= 'z' || 'A' <= c <= 'Z'
}

/// Whether `c` is an ASCII letter or an ASCII digit.
pub fn alphanumeric(c: char) -> (yes: bool)
    ensures
        yes == is_alphanumeric(c),
{
    ('0' <= c && c <= '9') || ('a' <= c && c <= 'z') || ('A' <= c && c <= 'Z')
}

/// The characters of `text`, in order.
pub fn chars_of(text: &str) -> (chars: Vec<char>)
    ensures
        chars@ == text@,
{
    let mut chars: Vec<char> = Vec::new();
    for c in it: text.chars()
        invariant
            it.seq() == text@,
            chars@ == text@.take(it.index() as int),
    {
        chars.push(c);
    }
    chars
}

/// Whether two texts are the same.
pub fn same_text(a: &str, b: &str) -> (same: bool)
    ensures
        same == (a@ == b@),
{
    same_chars(&chars_of(a), &chars_of(b))
}

/// Whether two lists hold the same characters.
pub fn same_chars(a: &Vec<char>, b: &Vec<char>) -> (same: bool)
    ensures
        same == (a@ == b@),
{
    if a.len() != b.len() {
        return false;
    }
    for i in 0..a.len()
        invariant
            a.len() == b.len(),
            forall|j: int| 0 <= j < i ==> a@[j] == b@[j],
    {
        if a[i] != b[i] {
            return false;
        }
    }
    assert(a@ =~= b@);
    true
}

/// Whether `part` stands in `text` at position `at`.
pub fn occurs_here(text: &Vec<char>, part: &Vec<char>, at: usize) -> (found: bool)
    ensures
        found == occurs_at(text@, part@, at as int),
{
    if part.len() > text.len() || at > text.len() - part.len() {
        return false;
    }
    for i in 0..part.len()
        invariant
            at + part.len() <= text.len(),
            forall|j: int| 0 <= j < i ==> text@[at + j] == part@[j],
    {
        if text[at + i] != part[i] {
            assert(text@.subrange(at as int, at + part.len())[i as int] != part@[i as int]);
            return false;
        }
    }
    assert(text@.subrange(at as int, at + part.len()) =~= part@);
    true
}

/// Whether `part` stands anywhere in `text`.
pub fn contains(text: &str, part: &str) -> (found: bool)
    ensures
        found == contains_text(text@, part@),
{
    let chars = chars_of(text);
    let wanted = chars_of(part);
    for at in 0..chars.len()
        invariant
            chars@ == text@,
            wanted@ == part@,
            forall|i: int| 0 <= i < at ==> !occurs_at(text@, part@, i),
    {
        if occurs_here(&chars, &wanted, at) {
            return true;
        }
    }
    occurs_here(&chars, &wanted, chars.len())
}

/// Whether `c` has Unicode's `White_Space` property.
pub fn white_space(c: char) -> (white: bool)
    ensures
        white == is_white_space(c),
{
    ('\u{9}' <= c && c <= '\u{d}') || c == '\u{20}' || c == '\u{85}' || c == '\u{a0}' || c
        == '\u{1680}' || ('\u{2000}' <= c && c <= '\u{200a}') || c == '\u{2028}' || c == '\u{2029}'
        || c == '\u{202f}' || c == '\u{205f}' || c == '\u{3000}'
}

/// `text` without the white space at its start and its end.
pub fn trim(text: &str) -> (rest: &str)
    ensures
        rest@ == trimmed(text@),
{
    let chars = chars_of(text);
    let mut start: usize = 0;
    assert(text@.skip(0) =~= text@);
    while start < chars.len() && white_space(chars[start])
        invariant
            chars@ == text@,
            start <= chars.len(),
            trimmed_start(text@.skip(start as int)) == trimmed_start(text@),
        decreases chars.len() - start,
    {
        assert(text@.skip(start as int).drop_first() =~= text@.skip(start + 1));
        start = start + 1;
    }
    let mut end: usize = chars.len();
    assert(text@.subrange(start as int, end as int) =~= text@.skip(start as int));
    while end > start && white_space(chars[end - 1])
        invariant
            chars@ == text@,
            start <= end <= chars.len(),
            trimmed_end(text@.subrange(start as int, end as int)) == trimmed(text@),
        decreases end,
    {
        assert(text@.subrange(start as int, end as int).drop_last() =~= text@.subrange(
            start as int,
            end - 1,
        ));
        end = end - 1;
    }
    text.substring_char(start, end)
}

/// Whether the characters end in `part`.
pub fn chars_end_with(chars: &Vec<char>, part: &str) -> (found: bool)
    ensures
        found == ends_with(chars@, part@),
{
    let wanted = chars_of(part);
    wanted.len() <= chars.len() && occurs_here(chars, &wanted, chars.len() - wanted.len())
}

/// Whether `c` is one of the characters.
pub fn has_char(chars: &Vec<char>, c: char) -> (found: bool)
    ensures
        found == chars@.contains(c),
{
    for i in 0..chars.len()
        invariant
            forall|j: int| 0 <= j < i ==> chars@[j] != c,
    {
        if chars[i] == c {
            return true;
        }
    }
    false
}

/// The characters in front of the first `mark`; all of them where there is none.
pub fn cut_before(chars: &Vec<char>, mark: char) -> (front: Vec<char>)
    ensures
        front@ == before_char(chars@, mark),
{
    let mut front: Vec<char> = Vec::new();
    assert(chars@.skip(0) =~= chars@);
    for i in 0..chars.len()
        invariant
            front@ + before_char(chars@.skip(i as int), mark) == before_char(chars@, mark),
    {
        if chars[i] == mark {
            assert(front@ =~= before_char(chars@, mark));
            return front;
        }
        assert(chars@.skip(i as int).drop_first() =~= chars@.skip(i + 1));
        let ghost rest = before_char(chars@.skip(i + 1), mark);
        assert(front@.push(chars@[i as int]) + rest =~= front@ + (seq![chars@[i as int]] + rest));
        front.push(chars[i]);
    }
    assert(front@ =~= before_char(chars@, mark));
    front
}

/// Where `c` last stands in the first characters.
pub fn find_last(chars: &Vec<char>, end: usize, c: char) -> (found: Option<usize>)
    requires
        end <= chars.len(),
    ensures
        match found {
            Some(at) => at == last_index(chars@.take(end as int), c) && at < end,
            None => last_index(chars@.take(end as int), c) < 0,
        },
{
    let mut at: usize = end;
    while at > 0
        invariant
            at <= end <= chars.len(),
            last_index(chars@.take(at as int), c) == last_index(chars@.take(end as int), c),
        decreases at,
    {
        assert(chars@.take(at as int).drop_last() =~= chars@.take(at - 1));
        if chars[at - 1] == c {
            return Some(at - 1);
        }
        at = at - 1;
    }
    None
}

/// The part of `text` in front of the first `mark`; all of it where there is none.
pub fn front(text: &str, mark: char) -> (front: &str)
    ensures
        front@ == before_char(text@, mark),
{
    let chars = cut_before(&chars_of(text), mark);
    proof {
        lemma_before_is_front(text@, mark);
    }
    text.substring_char(0, chars.len())
}

/// The part of `text` in front of the last `mark`; all of it where there is none.
pub fn front_of_last(text: &str, mark: char) -> (front: &str)
    ensures
        front@ == before_last(text@, mark),
{
    let chars = chars_of(text);
    assert(chars@.take(chars.len() as int) =~= chars@);
    match find_last(&chars, chars.len(), mark) {
        Some(at) => {
            assert(text@.subrange(0, at as int) =~= text@.take(at as int));
            text.substring_char(0, at)
        },
        None => text,
    }
}

/// The part of `text` behind the last `mark`; all of it where there is none.
pub fn rest_of_last(text: &str, mark: char) -> (rest: &str)
    ensures
        rest@ == after_last(text@, mark),
{
    let chars = chars_of(text);
    assert(chars@.take(chars.len() as int) =~= chars@);
    match find_last(&chars, chars.len(), mark) {
        Some(at) => {
            assert(text@.subrange(at + 1, text@.len() as int) =~= text@.skip(at + 1));
            text.substring_char(at + 1, chars.len())
        },
        None => {
            assert(text@.skip(0) =~= text@);
            text
        },
    }
}

/// `text` with every `part` taken out, from its start on.
pub fn take_out(text: &str, part: &Vec<char>) -> (rest: String)
    requires
        part.len() > 0,
    ensures
        rest@ == without(text@, part@),
{
    let chars = chars_of(text);
    let mut rest: String = String::new();
    let mut start: usize = 0;
    let mut at: usize = 0;
    proof {
        reveal_strlit("");
        assert(text@.skip(0) =~= text@);
        assert(rest@ + text@.subrange(0, 0) + without(text@, part@) =~= without(text@, part@));
    }
    while at < chars.len()
        invariant
            chars@ == text@,
            part.len() > 0,
            start <= at <= chars.len(),
            rest@ + text@.subrange(start as int, at as int) + without(
                text@.skip(at as int),
                part@,
            ) == without(text@, part@),
        decreases chars.len() - at,
    {
        let ghost here = text@.skip(at as int);
        let ghost before = rest@ + text@.subrange(start as int, at as int);
        if occurs_here(&chars, part, at) {
            assert(here.subrange(0, part.len() as int) =~= text@.subrange(
                at as int,
                at + part.len(),
            ));
            assert(here.skip(part.len() as int) =~= text@.skip(at + part.len()));
            rest.append(text.substring_char(start, at));
            at = at + part.len();
            start = at;
            assert(rest@ + text@.subrange(start as int, at as int) =~= before);
        } else {
            assert(!occurs_at(here, part@, 0)) by {
                if occurs_at(here, part@, 0) {
                    assert(text@.subrange(at as int, at + part.len()) =~= here.subrange(
                        0,
                        part.len() as int,
                    ));
                }
            }
            assert(here.drop_first() =~= text@.skip(at + 1));
            proof {
                if here.len() < part@.len() {
                    lemma_without_short(here.drop_first(), part@);
                }
            }
            assert(without(here, part@) =~= seq![here[0]] + without(here.drop_first(), part@));
            assert(before + (seq![here[0]] + without(here.drop_first(), part@)) =~= rest@
                + text@.subrange(start as int, at + 1) + without(text@.skip(at + 1), part@));
            at = at + 1;
        }
    }
    rest.append(text.substring_char(start, at));
    assert(rest@ + without(text@.skip(at as int), part@) =~= rest@);
    rest
}

/// Whether the characters take less than `limit` bytes in UTF-8.
pub fn fits(chars: &Vec<char>, limit: usize) -> (fits: bool)
    requires
        limit <= 0x1000_0000,
    ensures
        fits == (utf8_len(chars@) < limit),
{
    let mut bytes: usize = 0;
    assert(chars@.take(0) =~= Seq::<char>::empty());
    for i in 0..chars.len()
        invariant
            limit <= 0x1000_0000,
            bytes == utf8_len(chars@.take(i as int)),
            bytes < limit || i == 0,
    {
        assert(chars@.take(i + 1).drop_last() =~= chars@.take(i as int));
        let c = chars[i];
        let width: usize = if c <= '\u{7f}' {
            1
        } else if c <= '\u{7ff}' {
            2
        } else if c <= '\u{ffff}' {
            3
        } else {
            4
        };
        bytes = bytes + width;
        if bytes >= limit {
            proof {
                lemma_utf8_grows(chars@, i + 1);
            }
            return false;
        }
    }
    assert(chars@.take(chars.len() as int) =~= chars@);
    bytes < limit
}

/// What stands in front of a mark is the start of the text.
pub proof fn lemma_before_is_front(text: Seq<char>, mark: char)
    ensures
        before_char(text, mark).len() <= text.len(),
        before_char(text, mark) == text.take(before_char(text, mark).len() as int),
        before_char(text, mark).len() < text.len() ==> text[before_char(text, mark).len() as int]
            == mark,
    decreases text.len(),
{
    if text.len() > 0 && text[0] != mark {
        lemma_before_is_front(text.drop_first(), mark);
        let rest = before_char(text.drop_first(), mark);
        assert(before_char(text, mark) =~= text.take((rest.len() + 1) as int));
    } else {
        assert(before_char(text, mark) =~= text.take(0));
    }
}

/// From a text that is too short nothing is taken out.
proof fn lemma_without_short(text: Seq<char>, part: Seq<char>)
    requires
        text.len() < part.len(),
    ensures
        without(text, part) == text,
{
}

/// The start of a text takes no more bytes than the text.
proof fn lemma_utf8_grows(text: Seq<char>, n: int)
    requires
        0 <= n <= text.len(),
    ensures
        utf8_len(text.take(n)) <= utf8_len(text),
    decreases text.len(),
{
    if n == text.len() {
        assert(text.take(n) =~= text);
    } else {
        lemma_utf8_grows(text.drop_last(), n);
        assert(text.drop_last().take(n) =~= text.take(n));
    }
}

/// A text of ASCII characters takes one byte for each.
pub proof fn lemma_ascii_len(text: Seq<char>)
    requires
        forall|i: int| 0 <= i < text.len() ==> #[trigger] text[i] <= '\u{7f}',
    ensures
        utf8_len(text) == text.len(),
    decreases text.len(),
{
    if text.len() > 0 {
        assert(text[text.len() - 1] <= '\u{7f}');
        lemma_ascii_len(text.drop_last());
    }
}

/// Where a character last stands is within the text.
pub proof fn lemma_last_within(text: Seq<char>, c: char)
    ensures
        -1 <= last_index(text, c) < text.len(),
    decreases text.len(),
{
    if text.len() > 0 {
        lemma_last_within(text.drop_last(), c);
    }
}

/// A character that does not occur in a text stands nowhere last.
pub proof fn lemma_last_absent(text: Seq<char>, c: char)
    requires
        !text.contains(c),
    ensures
        last_index(text, c) < 0,
    decreases text.len(),
{
    if text.len() > 0 {
        assert(text.contains(text.last()));
        assert forall|i: int| 0 <= i < text.drop_last().len() implies text.drop_last()[i] != c by {
            assert(text.contains(text[i]));
        }
        lemma_last_absent(text.drop_last(), c);
    }
}

/// A text in which `mark` does not occur stands in front of it as a whole.
pub proof fn lemma_before_absent(text: Seq<char>, mark: char)
    requires
        !text.contains(mark),
    ensures
        before_char(text, mark) == text,
    decreases text.len(),
{
    if text.len() > 0 {
        assert(text.contains(text[0]));
        assert forall|i: int| 0 <= i < text.drop_first().len() implies text.drop_first()[i]
            != mark by {
            assert(text.contains(text[i + 1]));
        }
        lemma_before_absent(text.drop_first(), mark);
        assert(seq![text[0]] + text.drop_first() =~= text);
    }
}

/// What stands in front of a mark is part of the text.
pub proof fn lemma_before_within(text: Seq<char>, mark: char)
    ensures
        forall|c: char| #[trigger] before_char(text, mark).contains(c) ==> text.contains(c),
    decreases text.len(),
{
    if text.len() > 0 && text[0] != mark {
        let rest = text.drop_first();
        lemma_before_within(rest, mark);
        let front = before_char(rest, mark);
        assert forall|c: char| #[trigger] before_char(text, mark).contains(c) implies text.contains(
            c,
        ) by {
            let at = choose|at: int|
                0 <= at < before_char(text, mark).len() && before_char(text, mark)[at] == c;
            if at > 0 {
                assert(front[at - 1] == c);
                assert(front.contains(c));
                let i = choose|i: int| 0 <= i < rest.len() && rest[i] == c;
                assert(text[i + 1] == c);
            } else {
                assert(text[0] == c);
            }
        }
    }
}

/// A character stands in two texts one behind the other as often as in both.
pub proof fn lemma_count_joined(a: Seq<char>, b: Seq<char>, c: char)
    ensures
        count_of(a + b, c) == count_of(a, c) + count_of(b, c),
    decreases b.len(),
{
    if b.len() == 0 {
        assert(a + b =~= a);
    } else {
        lemma_count_joined(a, b.drop_last(), c);
        assert((a + b).drop_last() =~= a + b.drop_last());
    }
}

/// What stands in front of the first mark stands in front of it as a whole.
pub proof fn lemma_before_first(front: Seq<char>, rest: Seq<char>, mark: char)
    requires
        !front.contains(mark),
        rest.len() > 0,
        rest[0] == mark,
    ensures
        before_char(front + rest, mark) == front,
    decreases front.len(),
{
    let text = front + rest;
    if front.len() == 0 {
        assert(text[0] == rest[0]);
        assert(before_char(text, mark) =~= front);
    } else {
        assert(front.contains(front[0]));
        let tail = front.drop_first();
        assert forall|i: int| 0 <= i < tail.len() implies tail[i] != mark by {
            assert(front.contains(front[i + 1]));
        }
        lemma_before_first(tail, rest, mark);
        assert(text.drop_first() =~= tail + rest);
        assert(seq![front[0]] + tail =~= front);
    }
}

/// A character that does not occur in a text stands in it no times.
pub proof fn lemma_count_absent(text: Seq<char>, c: char)
    requires
        !text.contains(c),
    ensures
        count_of(text, c) == 0,
    decreases text.len(),
{
    if text.len() > 0 {
        assert(text.contains(text.last()));
        assert forall|i: int| 0 <= i < text.drop_last().len() implies text.drop_last()[i] != c by {
            assert(text.contains(text[i]));
        }
        lemma_count_absent(text.drop_last(), c);
    }
}

/// Whether a text has no white space at either end.
pub open spec fn is_trimmed(text: Seq<char>) -> bool {
    text.len() > 0 ==> !is_white_space(text[0]) && !is_white_space(text.last())
}

/// Trimming a text at its start leaves a part of it that does not start with white space.
proof fn lemma_trimmed_start(text: Seq<char>)
    ensures
        trimmed_start(text).len() > 0 ==> !is_white_space(trimmed_start(text)[0]),
    decreases text.len(),
{
    if text.len() > 0 && is_white_space(text[0]) {
        lemma_trimmed_start(text.drop_first());
    }
}

/// Trimming a text at its end leaves a part of it that starts as it did and does not end in white
/// space.
proof fn lemma_trimmed_end(text: Seq<char>)
    ensures
        trimmed_end(text).len() <= text.len(),
        trimmed_end(text).len() > 0 ==> !is_white_space(trimmed_end(text).last()) && trimmed_end(
            text,
        )[0] == text[0],
    decreases text.len(),
{
    if text.len() > 0 && is_white_space(text.last()) {
        lemma_trimmed_end(text.drop_last());
    }
}

/// Trimming leaves no white space at either end, and a text without any there is left as it is.
pub proof fn law_trimmed(text: Seq<char>)
    ensures
        is_trimmed(trimmed(text)),
        is_trimmed(text) ==> trimmed(text) == text,
{
    lemma_trimmed_start(text);
    lemma_trimmed_end(trimmed_start(text));
}

/// Trimming takes away white space, and nothing else: what is left stands in the text as it is,
/// with nothing but white space in front of it and behind it.
pub proof fn law_trimming_takes_white_space_only(text: Seq<char>)
    ensures
        exists|from: int, to: int|
            {
                &&& 0 <= from <= to <= text.len()
                &&& trimmed(text) == #[trigger] text.subrange(from, to)
                &&& forall|i: int| 0 <= i < from ==> is_white_space(#[trigger] text[i])
                &&& forall|i: int| to <= i < text.len() ==> is_white_space(#[trigger] text[i])
            },
{
    let from = lemma_cut_start(text);
    let rest = trimmed_start(text);
    let cut = lemma_cut_end(rest);
    let to = from + cut;
    assert(trimmed(text) =~= text.subrange(from, to));
    assert forall|i: int| to <= i < text.len() implies is_white_space(#[trigger] text[i]) by {
        assert(rest[i - from] == text[i]);
    }
}

/// How much white space is taken away at the start of a text.
proof fn lemma_cut_start(text: Seq<char>) -> (from: int)
    ensures
        0 <= from <= text.len(),
        trimmed_start(text) == text.skip(from),
        forall|i: int| 0 <= i < from ==> is_white_space(#[trigger] text[i]),
    decreases text.len(),
{
    if text.len() > 0 && is_white_space(text[0]) {
        let rest = text.drop_first();
        let from = lemma_cut_start(rest);
        assert(rest.skip(from) =~= text.skip(from + 1));
        assert forall|i: int| 0 <= i < from + 1 implies is_white_space(#[trigger] text[i]) by {
            if i > 0 {
                assert(rest[i - 1] == text[i]);
            }
        }
        from + 1
    } else {
        assert(text.skip(0) =~= text);
        0
    }
}

/// How much is left of a text where the white space at its end is taken away.
proof fn lemma_cut_end(text: Seq<char>) -> (to: int)
    ensures
        0 <= to <= text.len(),
        trimmed_end(text) == text.take(to),
        forall|i: int| to <= i < text.len() ==> is_white_space(#[trigger] text[i]),
    decreases text.len(),
{
    if text.len() > 0 && is_white_space(text.last()) {
        let rest = text.drop_last();
        let to = lemma_cut_end(rest);
        assert(rest.take(to) =~= text.take(to));
        assert forall|i: int| to <= i < text.len() implies is_white_space(#[trigger] text[i]) by {
            if i < rest.len() {
                assert(rest[i] == text[i]);
            }
        }
        to
    } else {
        assert(text.take(text.len() as int) =~= text);
        text.len() as int
    }
}

/// A text holds a part if and only if it is that part with something, or nothing, in front of it
/// and behind it.
pub proof fn law_contained_part(text: Seq<char>, part: Seq<char>)
    ensures
        contains_text(text, part) <==> exists|front: Seq<char>, rest: Seq<char>|
            text == #[trigger] (front + part + rest),
{
    if contains_text(text, part) {
        let at = choose|at: int| occurs_at(text, part, at);
        let front = text.take(at);
        let rest = text.skip(at + part.len());
        assert(front + text.subrange(at, at + part.len()) + rest =~= text);
        assert(text == front + part + rest);
    }
    if exists|front: Seq<char>, rest: Seq<char>| text == #[trigger] (front + part + rest) {
        let (front, rest) = choose|front: Seq<char>, rest: Seq<char>|
            text == #[trigger] (front + part + rest);
        let at = front.len() as int;
        assert(text.subrange(at, at + part.len()) =~= part);
        assert(occurs_at(text, part, at));
    }
}

/// What is in front of the first place where a part stands is kept, the part is taken out, and it
/// goes on behind it; a text without the part is kept as it is.
pub proof fn law_part_is_taken_out(text: Seq<char>, part: Seq<char>, at: int)
    requires
        part.len() > 0,
        0 <= at <= text.len(),
        at == text.len() || occurs_at(text, part, at),
        forall|i: int| 0 <= i < at ==> !#[trigger] occurs_at(text, part, i),
    ensures
        at < text.len() ==> without(text, part) == text.take(at) + without(
            text.skip(at + part.len()),
            part,
        ),
        at == text.len() ==> without(text, part) == text,
    decreases text.len(),
{
    if at == 0 {
        assert(text.take(0) + without(text.skip(part.len() as int), part) =~= without(
            text.skip(part.len() as int),
            part,
        ));
    } else if text.len() >= part.len() {
        assert(!occurs_at(text, part, 0));
        let rest = text.drop_first();
        assert forall|i: int| 0 <= i < rest.len() implies #[trigger] occurs_at(rest, part, i)
            == occurs_at(text, part, i + 1) by {
            if i + part.len() <= rest.len() {
                assert(rest.subrange(i, i + part.len()) =~= text.subrange(
                    i + 1,
                    i + 1 + part.len(),
                ));
            }
        }
        law_part_is_taken_out(rest, part, at - 1);
        assert(seq![text[0]] + rest =~= text);
        if at < text.len() {
            assert(rest.skip(at - 1 + part.len()) =~= text.skip(at + part.len()));
            assert(seq![text[0]] + (rest.take(at - 1) + without(
                text.skip(at + part.len()),
                part,
            )) =~= text.take(at) + without(text.skip(at + part.len()), part));
        }
    }
}

/// The length of a text in UTF-8 is that of its parts, and a character takes one byte if it is
/// ASCII and two to four if it is not.
pub proof fn law_utf8_length(a: Seq<char>, b: Seq<char>, c: char)
    ensures
        utf8_len(a + b) == utf8_len(a) + utf8_len(b),
        utf8_len(seq![c]) == 1 <==> c <= '\u{7f}',
        1 <= utf8_len(seq![c]) <= 4,
    decreases b.len(),
{
    assert(seq![c].drop_last() =~= Seq::<char>::empty());
    assert(utf8_len(Seq::<char>::empty()) == 0);
    if b.len() == 0 {
        assert(a + b =~= a);
    } else {
        law_utf8_length(a, b.drop_last(), c);
        assert((a + b).drop_last() =~= a + b.drop_last());
    }
}

/// A part of a text takes no more bytes than the text, holds no character more often, and holds
/// nothing that the text does not hold.
pub proof fn lemma_part(text: Seq<char>, from: int, to: int, c: char, part: Seq<char>)
    requires
        0 <= from <= to <= text.len(),
    ensures
        utf8_len(text.subrange(from, to)) <= utf8_len(text),
        count_of(text.subrange(from, to), c) <= count_of(text, c),
        contains_text(text.subrange(from, to), part) ==> contains_text(text, part),
{
    let front = text.take(from);
    let here = text.subrange(from, to);
    let rest = text.skip(to);
    assert(front + here + rest =~= text);
    law_utf8_length(front + here, rest, c);
    law_utf8_length(front, here, c);
    lemma_count_joined(front + here, rest, c);
    lemma_count_joined(front, here, c);
    if contains_text(here, part) {
        let at = choose|at: int| occurs_at(here, part, at);
        assert(here.subrange(at, at + part.len()) =~= text.subrange(
            from + at,
            from + at + part.len(),
        ));
        assert(occurs_at(text, part, from + at));
    }
}

/// A text with a part taken out takes no more bytes and holds no character more often.
pub proof fn lemma_without(text: Seq<char>, part: Seq<char>, c: char)
    ensures
        utf8_len(without(text, part)) <= utf8_len(text),
        count_of(without(text, part), c) <= count_of(text, c),
    decreases text.len(),
{
    if part.len() > 0 && text.len() >= part.len() {
        if occurs_at(text, part, 0) {
            let rest = text.skip(part.len() as int);
            lemma_without(rest, part, c);
            lemma_part(text, part.len() as int, text.len() as int, c, part);
            assert(text.subrange(part.len() as int, text.len() as int) =~= rest);
        } else {
            let first = seq![text[0]];
            let rest = text.drop_first();
            lemma_without(rest, part, c);
            assert(first + rest =~= text);
            law_utf8_length(first, rest, c);
            law_utf8_length(first, without(rest, part), c);
            lemma_count_joined(first, rest, c);
            lemma_count_joined(first, without(rest, part), c);
        }
    }
}

/// Where a character last stands: at the last place where it stands.
pub proof fn law_last_place(front: Seq<char>, rest: Seq<char>, c: char)
    requires
        !rest.contains(c),
    ensures
        last_index(front + seq![c] + rest, c) == front.len(),
        before_last(front + seq![c] + rest, c) == front,
        after_last(front + seq![c] + rest, c) == rest,
        before_last(rest, c) == rest,
        after_last(rest, c) == rest,
{
    let text = front + seq![c] + rest;
    lemma_last_joined(front + seq![c], rest, c);
    assert((front + seq![c]).last() == c);
    assert(text.take(front.len() as int) =~= front);
    assert(text.skip(front.len() as int + 1) =~= rest);
    lemma_last_absent(rest, c);
    assert(rest.skip(0) =~= rest);
}

/// What comes behind the last place of a character does not move it.
proof fn lemma_last_joined(front: Seq<char>, rest: Seq<char>, c: char)
    requires
        !rest.contains(c),
    ensures
        last_index(front + rest, c) == last_index(front, c),
    decreases rest.len(),
{
    if rest.len() == 0 {
        assert(front + rest =~= front);
    } else {
        assert(rest.contains(rest.last()));
        assert forall|i: int| 0 <= i < rest.drop_last().len() implies rest.drop_last()[i] != c by {
            assert(rest.contains(rest[i]));
        }
        lemma_last_joined(front, rest.drop_last(), c);
        assert((front + rest).drop_last() =~= front + rest.drop_last());
    }
}

/// The characters of white space, the digits and the letters, by their code points.
pub proof fn law_characters(c: char)
    ensures
        ({
            let code = c as u32;
            &&& code < 0x80 ==> (is_white_space(c) <==> 9 <= code <= 13 || code == 32)
            &&& code >= 0x80 ==> (is_white_space(c) <==> {
                ||| code == 0x85 || code == 0xa0 || code == 0x1680 || 0x2000 <= code <= 0x200a
                ||| code == 0x2028 || code == 0x2029 || code == 0x202f || code == 0x205f
                ||| code == 0x3000
            })
            &&& is_digit(c) <==> 48 <= code <= 57
            &&& is_alphanumeric(c) <==> 48 <= code <= 57 || 65 <= code <= 90 || 97 <= code <= 122
        }),
{
}

} // verus!
