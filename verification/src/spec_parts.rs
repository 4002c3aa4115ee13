//! The parts of the text of a match spec that decide whether it can be read.
use crate::char_class::{is_of, law_run, lemma_past, past, skip_run, Class};
use crate::text::{
    after_last, before_char, before_last, chars_end_with, chars_of, contains_text, count_of,
    ends_with, find_last, front, front_of_last, is_trimmed, is_white_space, last_index,
    law_last_place, law_trimmed, law_trimming_takes_white_space_only, lemma_before_absent,
    lemma_before_first, lemma_before_is_front, lemma_before_within, lemma_count_absent,
    lemma_count_joined, lemma_last_absent, lemma_last_within, lemma_part, lemma_without,
    rest_of_last, take_out, trim, trimmed, utf8_len, without,
};
use vstd::prelude::*;
use vstd::string::StrSliceExecFns;

verus! {

/// The text without its comment and without the white space around what is left.
pub open spec fn uncommented(text: Seq<char>) -> Seq<char> {
    trimmed(before_char(text, '#'))
}

/// Where the bracket section of a line starts and where it ends: at the last closing bracket, and
/// at the last opening bracket in front of that.
pub open spec fn pair_in(line: Seq<char>) -> Option<(int, int)> {
    let end = last_index(line, ']');
    let start = last_index(line.take(end), '[');
    if end < 0 || start < 0 {
        None
    } else {
        Some((start, end))
    }
}

/// Where the bracket section of a text starts and where it ends: it is that of the first line that
/// has one.
pub open spec fn first_pair(text: Seq<char>) -> Option<(int, int)>
    decreases text.len(),
{
    let line = before_char(text, '\n');
    match pair_in(line) {
        Some(pair) => Some(pair),
        None => if line.len() >= text.len() {
            None
        } else {
            match first_pair(text.skip(line.len() as int + 1)) {
                Some((start, end)) => Some((start + line.len() + 1, end + line.len() + 1)),
                None => None,
            }
        },
    }
}

/// The bracket section of a text; nothing where it has none.
pub open spec fn bracket_section(text: Seq<char>) -> Seq<char> {
    match first_pair(text) {
        Some((start, end)) => text.subrange(start, end + 1),
        None => Seq::empty(),
    }
}

/// A text without its bracket section: taken off at its end if it stands there, else taken out
/// wherever it stands.
pub open spec fn unbracketed(text: Seq<char>) -> Seq<char> {
    let section = bracket_section(text);
    if section.len() == 0 {
        text
    } else if ends_with(text, section) {
        text.take(text.len() - section.len())
    } else {
        without(text, section)
    }
}

/// The text of the channel that a match spec names: what stands in front of the first of two
/// colons, up to the last slash.
pub open spec fn channel_part(text: Seq<char>) -> Option<Seq<char>> {
    let rest = unbracketed(uncommented(text));
    if count_of(rest, ':') == 2 {
        Some(before_last(before_char(rest, ':'), '/'))
    } else {
        None
    }
}

/// What a match spec asks for behind the name of the package: its version, and its build.
pub open spec fn constraint_part(text: Seq<char>) -> Seq<char> {
    let spec = after_last(unbracketed(uncommented(text)), ':');
    trimmed(spec.skip(past(spec, 0, Class::Name)))
}

/// Where the bracket section of a text starts and where it ends.
fn find_pair(chars: &Vec<char>) -> (pair: Option<(usize, usize)>)
    ensures
        match pair {
            Some((start, end)) => start < end < chars.len() && first_pair(chars@) == Some(
                (start as int, end as int),
            ),
            None => first_pair(chars@) is None,
        },
{
    let mut from: usize = 0;
    assert(chars@.skip(0) =~= chars@);
    loop
        invariant
            from <= chars.len(),
            first_pair(chars@) == match first_pair(chars@.skip(from as int)) {
                Some((start, end)) => Some((start + from, end + from)),
                None => None,
            },
        decreases chars.len() - from,
    {
        let ghost rest = chars@.skip(from as int);
        let line = rest_of_line(chars, from);
        proof {
            lemma_before_is_front(rest, '\n');
        }
        assert(line@ =~= before_char(rest, '\n'));
        assert(line@.take(line.len() as int) =~= line@);
        if let Some(last) = find_last(&line, line.len(), ']') {
            if let Some(first) = find_last(&line, last, '[') {
                return Some((from + first, from + last));
            }
        }
        if from + line.len() >= chars.len() {
            return None;
        }
        assert(rest.skip(line.len() as int + 1) =~= chars@.skip(from + line.len() + 1));
        from = from + line.len() + 1;
    }
}

/// The characters from a position on up to the end of the line.
fn rest_of_line(chars: &Vec<char>, from: usize) -> (line: Vec<char>)
    requires
        from <= chars.len(),
    ensures
        line@ == before_char(chars@.skip(from as int), '\n'),
        from + line.len() <= chars.len(),
{
    let mut line: Vec<char> = Vec::new();
    let mut at: usize = from;
    let ghost rest = chars@.skip(from as int);
    assert(line@ + before_char(rest, '\n') =~= before_char(rest, '\n'));
    while at < chars.len() && chars[at] != '\n'
        invariant
            from <= at <= chars.len(),
            line.len() == at - from,
            rest == chars@.skip(from as int),
            line@ + before_char(chars@.skip(at as int), '\n') == before_char(rest, '\n'),
        decreases chars.len() - at,
    {
        let ghost here = chars@.skip(at as int);
        assert(here.drop_first() =~= chars@.skip(at + 1));
        assert(line@.push(here[0]) + before_char(chars@.skip(at + 1), '\n') =~= line@ + (
        seq![here[0]] + before_char(here.drop_first(), '\n')));
        line.push(chars[at]);
        at = at + 1;
    }
    assert(before_char(chars@.skip(at as int), '\n') =~= Seq::<char>::empty());
    assert(line@ =~= before_char(rest, '\n'));
    line
}

/// The text of a match spec, taken apart.
pub struct SpecParts {
    /// The text without its comment.
    pub bare: String,
    /// Its bracket section; nothing where it has none.
    pub section: Vec<char>,
    /// What it asks for behind the name of the package.
    pub constraint: String,
    /// The text of the channel.
    pub channel: Option<String>,
}

/// Whether a text is taken apart into these parts.
pub open spec fn splits_into(text: Seq<char>, parts: SpecParts) -> bool {
    &&& parts.bare@ == before_char(text, '#')
    &&& parts.section@ == bracket_section(uncommented(text))
    &&& parts.constraint@ == constraint_part(text)
    &&& parts.channel.deep_view() == channel_part(text)
}

/// Takes the text of a match spec apart.
pub fn split(text: &str) -> (parts: SpecParts)
    ensures
        splits_into(text@, parts),
{
    let bare = front(text, '#');
    let inner = trim(bare);
    let chars = chars_of(inner);
    let mut section: Vec<char> = Vec::new();
    let rest = match find_pair(&chars) {
        Some((start, end)) => {
            let piece = inner.substring_char(start, end + 1);
            section = chars_of(piece);
            if chars_end_with(&chars, piece) {
                let kept = chars.len() - section.len();
                assert(inner@.subrange(0, kept as int) =~= inner@.take(kept as int));
                inner.substring_char(0, kept).to_string()
            } else {
                take_out(inner, &section)
            }
        },
        None => inner.to_string(),
    };
    let channel = if colons(&chars_of(rest.as_str())) == 2 {
        Some(front_of_last(front(rest.as_str(), ':'), '/').to_string())
    } else {
        None
    };
    let spec = rest_of_last(rest.as_str(), ':');
    let spec_chars = chars_of(spec);
    let end = skip_run(&spec_chars, 0, Class::Name);
    assert(spec@.subrange(end as int, spec@.len() as int) =~= spec@.skip(end as int));
    let constraint = trim(spec.substring_char(end, spec_chars.len())).to_string();
    SpecParts { bare: bare.to_string(), section, constraint, channel }
}

/// How many colons stand among the characters.
fn colons(chars: &Vec<char>) -> (count: usize)
    ensures
        count == count_of(chars@, ':'),
{
    let mut count: usize = 0;
    assert(chars@.take(0) =~= Seq::<char>::empty());
    for i in 0..chars.len()
        invariant
            count <= i,
            count == count_of(chars@.take(i as int), ':'),
    {
        assert(chars@.take(i + 1).drop_last() =~= chars@.take(i as int));
        if chars[i] == ':' {
            count = count + 1;
        }
    }
    assert(chars@.take(chars.len() as int) =~= chars@);
    count
}

/// A text without a closing bracket has no bracket section.
pub proof fn lemma_no_brackets(text: Seq<char>)
    requires
        !text.contains(']'),
    ensures
        first_pair(text) is None,
    decreases text.len(),
{
    let line = before_char(text, '\n');
    lemma_before_is_front(text, '\n');
    lemma_before_within(text, '\n');
    lemma_last_absent(line, ']');
    if line.len() < text.len() {
        let rest = text.skip(line.len() as int + 1);
        assert forall|i: int| 0 <= i < rest.len() implies rest[i] != ']' by {
            assert(text.contains(text[i + line.len() + 1]));
        }
        lemma_no_brackets(rest);
    }
}

/// A text without comments, brackets and white space around it is looked at as it is.
proof fn lemma_plain_text(text: Seq<char>)
    requires
        !text.contains('#'),
        !text.contains(']'),
        is_trimmed(text),
    ensures
        unbracketed(uncommented(text)) == text,
{
    lemma_before_absent(text, '#');
    law_trimmed(text);
    lemma_no_brackets(text);
}

/// A match spec names a channel if and only if two colons stand in it. The channel is what stands
/// in front of the first colon, up to the last slash if there is one.
pub proof fn law_channel_stands_in_front(
    channel: Seq<char>,
    subdir: Option<Seq<char>>,
    namespace: Seq<char>,
    spec: Seq<char>,
    text: Seq<char>,
)
    requires
        text == (match subdir {
            Some(subdir) => channel + seq!['/'] + subdir,
            None => channel,
        }) + seq![':'] + namespace + seq![':'] + spec,
        !channel.contains(':') && !namespace.contains(':') && !spec.contains(':'),
        match subdir {
            Some(subdir) => !subdir.contains(':') && !subdir.contains('/'),
            None => !channel.contains('/'),
        },
        !text.contains('#'),
        !text.contains(']'),
        is_trimmed(text),
    ensures
        channel_part(text) == Some(channel),
{
    lemma_plain_text(text);
    let front = match subdir {
        Some(subdir) => channel + seq!['/'] + subdir,
        None => channel,
    };
    assert(!front.contains(':')) by {
        if front.contains(':') {
            let at = choose|at: int| 0 <= at < front.len() && front[at] == ':';
            if at < channel.len() {
                assert(channel[at] == ':');
            } else if at > channel.len() {
                assert(subdir->0[at - channel.len() - 1] == ':');
            }
        }
    }
    let rest = seq![':'] + namespace + seq![':'] + spec;
    assert(text =~= front + rest);
    lemma_before_first(front, rest, ':');
    lemma_count_absent(front, ':');
    lemma_count_absent(namespace, ':');
    lemma_count_absent(spec, ':');
    let one = seq![':'];
    assert(one.drop_last() =~= Seq::<char>::empty());
    assert(count_of(one.drop_last(), ':') == 0);
    assert(count_of(one, ':') == 1);
    lemma_count_joined(front, one, ':');
    lemma_count_joined(front + one, namespace, ':');
    lemma_count_joined(front + one + namespace, one, ':');
    lemma_count_joined(front + one + namespace + one, spec, ':');
    match subdir {
        Some(subdir) => law_last_place(channel, subdir, '/'),
        None => law_last_place(channel, channel, '/'),
    }
}

/// A match spec in which not exactly two colons stand names no channel.
pub proof fn law_no_channel(text: Seq<char>)
    requires
        count_of(text, ':') != 2,
        !text.contains('#'),
        !text.contains(']'),
        is_trimmed(text),
    ensures
        channel_part(text) is None,
{
    lemma_plain_text(text);
}

/// A comment, from the first hash sign on, plays no part, and nor does white space around what is
/// left.
pub proof fn law_comment_plays_no_part(text: Seq<char>, comment: Seq<char>)
    requires
        !text.contains('#'),
    ensures
        uncommented(text + seq!['#'] + comment) == trimmed(text),
        channel_part(text + seq!['#'] + comment) == channel_part(trimmed(text)),
        channel_part(text + seq!['#'] + comment) == channel_part(text),
        constraint_part(text + seq!['#'] + comment) == constraint_part(text),
{
    let rest = seq!['#'] + comment;
    assert(text + seq!['#'] + comment =~= text + rest);
    lemma_before_first(text, rest, '#');
    lemma_before_absent(text, '#');
    law_trimming_takes_white_space_only(text);
    law_trimmed(text);
    law_trimmed(trimmed(text));
    let (from, to) = choose|from: int, to: int|
        0 <= from <= to <= text.len() && trimmed(text) == #[trigger] text.subrange(from, to);
    assert(!trimmed(text).contains('#')) by {
        if trimmed(text).contains('#') {
            let at = choose|at: int| 0 <= at < trimmed(text).len() && trimmed(text)[at] == '#';
            assert(text[from + at] == '#');
        }
    }
    lemma_before_absent(trimmed(text), '#');
}

/// What a match spec asks for behind the name of the package starts at the first white space or
/// operator: an equals sign, an exclamation mark, a tilde or an angle bracket.
pub proof fn law_constraint_stands_behind(name: Seq<char>, rest: Seq<char>)
    requires
        forall|i: int| 0 <= i < name.len() ==> !starts_constraint(#[trigger] name[i]),
        rest.len() > 0 ==> starts_constraint(rest[0]),
        !(name + rest).contains('#'),
        !(name + rest).contains(']'),
        !(name + rest).contains(':'),
        is_trimmed(name + rest),
    ensures
        constraint_part(name + rest) == trimmed(rest),
{
    let text = name + rest;
    lemma_plain_text(text);
    law_last_place(text, text, ':');
    let n = name.len() as int;
    assert forall|i: int| 0 <= i < n implies is_of(#[trigger] text[i], Class::Name) by {
        assert(text[i] == name[i]);
        assert(!starts_constraint(name[i]));
    }
    if rest.len() > 0 {
        assert(text[n] == rest[0]);
    }
    law_run(text, 0, n, Class::Name);
    assert(text.skip(n) =~= rest);
}

/// Whether a character ends the name of a package and starts what is asked for behind it.
pub open spec fn starts_constraint(c: char) -> bool {
    is_white_space(c) || c == '=' || c == '!' || c == '~' || c == '<' || c == '>'
}

/// The bracket section of a line is what stands between its last brackets, the brackets included,
/// and at the end of the text it is taken off.
pub proof fn law_bracket_section(front: Seq<char>, inner: Seq<char>)
    requires
        !front.contains('\n'),
        !inner.contains('\n'),
        !inner.contains('['),
        !inner.contains(']'),
    ensures
        bracket_section(front + seq!['['] + inner + seq![']']) == seq!['['] + inner + seq![']'],
        unbracketed(front + seq!['['] + inner + seq![']']) == front,
{
    let section = seq!['['] + inner + seq![']'];
    let text = front + seq!['['] + inner + seq![']'];
    let start = front.len() as int;
    let end = text.len() - 1;
    assert(!text.contains('\n')) by {
        if text.contains('\n') {
            let at = choose|at: int| 0 <= at < text.len() && text[at] == '\n';
            if at < start {
                assert(front[at] == '\n');
            } else if at > start && at < end {
                assert(inner[at - start - 1] == '\n');
            }
        }
    }
    lemma_before_absent(text, '\n');
    assert(text.last() == ']');
    assert(last_index(text, ']') == end);
    assert(text.take(end) =~= front + seq!['['] + inner);
    law_last_place(front, inner, '[');
    assert(pair_in(text) == Some((start, end)));
    assert(text.subrange(start, end + 1) =~= section);
    assert(text.subrange(text.len() - section.len(), text.len() as int) =~= section);
    assert(text.take(text.len() - section.len()) =~= front);
}

/// What is looked at of a match spec is no larger than its text.
pub proof fn lemma_parts_are_small(text: Seq<char>, c: char, part: Seq<char>)
    ensures
        utf8_len(constraint_part(text)) <= utf8_len(text),
        count_of(constraint_part(text), c) <= count_of(text, c),
        utf8_len(bracket_section(uncommented(text))) <= utf8_len(text),
        count_of(bracket_section(uncommented(text)), c) <= count_of(text, c),
        contains_text(bracket_section(uncommented(text)), part) ==> contains_text(text, part),
{
    let bare = before_char(text, '#');
    let inner = uncommented(text);
    let section = bracket_section(inner);
    let rest = unbracketed(inner);
    lemma_before_is_front(text, '#');
    lemma_part(text, 0, bare.len() as int, c, part);
    assert(text.subrange(0, bare.len() as int) =~= bare);
    lemma_trimmed_is_small(bare, c, part);
    lemma_section_within(inner);
    match first_pair(inner) {
        Some((start, end)) => lemma_part(inner, start, end + 1, c, part),
        None => {
            assert(section =~= inner.subrange(0, 0));
            lemma_part(inner, 0, 0, c, part);
        },
    }
    if section.len() > 0 {
        let kept = inner.len() - section.len();
        if ends_with(inner, section) {
            lemma_part(inner, 0, kept, c, part);
            assert(inner.subrange(0, kept) =~= rest);
        } else {
            lemma_without(inner, section, c);
        }
    }
    let spec = after_last(rest, ':');
    lemma_last_within(rest, ':');
    let from = rest.len() - spec.len();
    lemma_part(rest, from, rest.len() as int, c, part);
    assert(rest.subrange(from, rest.len() as int) =~= spec);
    let name = past(spec, 0, Class::Name);
    lemma_past(spec, 0, Class::Name);
    lemma_part(spec, name, spec.len() as int, c, part);
    assert(spec.subrange(name, spec.len() as int) =~= spec.skip(name));
    lemma_trimmed_is_small(spec.skip(name), c, part);
}

proof fn lemma_trimmed_is_small(text: Seq<char>, c: char, part: Seq<char>)
    ensures
        utf8_len(trimmed(text)) <= utf8_len(text),
        count_of(trimmed(text), c) <= count_of(text, c),
        contains_text(trimmed(text), part) ==> contains_text(text, part),
{
    law_trimming_takes_white_space_only(text);
    let (from, to) = choose|from: int, to: int|
        0 <= from <= to <= text.len() && trimmed(text) == #[trigger] text.subrange(from, to);
    lemma_part(text, from, to, c, part);
}

/// The bracket section of a text lies in the text.
proof fn lemma_section_within(text: Seq<char>)
    ensures
        first_pair(text) matches Some((start, end)) ==> 0 <= start < end < text.len(),
    decreases text.len(),
{
    let line = before_char(text, '\n');
    lemma_before_is_front(text, '\n');
    let end = last_index(line, ']');
    lemma_last_within(line, ']');
    if end >= 0 {
        lemma_last_within(line.take(end), '[');
    }
    if pair_in(line) is None && line.len() < text.len() {
        lemma_section_within(text.skip(line.len() as int + 1));
    }
}

/// A line without brackets is passed over in search of the bracket section.
pub proof fn law_first_line_with_brackets(line: Seq<char>, text: Seq<char>)
    requires
        !line.contains('\n'),
        !line.contains('[') || !line.contains(']'),
    ensures
        bracket_section(line + seq!['\n'] + text) == bracket_section(text),
{
    let all = line + seq!['\n'] + text;
    let rest = seq!['\n'] + text;
    assert(all =~= line + rest);
    lemma_before_first(line, rest, '\n');
    lemma_last_within(line, ']');
    let end = last_index(line, ']');
    if !line.contains(']') {
        lemma_last_absent(line, ']');
    } else if end >= 0 {
        let front = line.take(end);
        assert forall|i: int| 0 <= i < front.len() implies front[i] != '[' by {
            assert(line.contains(line[i]));
        }
        lemma_last_absent(front, '[');
    }
    assert(pair_in(line) is None);
    assert(all.skip(line.len() as int + 1) =~= text);
    lemma_section_within(text);
    if let Some((start, end)) = first_pair(text) {
        let shift = line.len() + 1;
        assert(all.subrange(start + shift, end + 1 + shift) =~= text.subrange(start, end + 1));
    }
}

} // verus!
