//! The environment markers of requirements on Python packages, and how deeply they nest groups.
use crate::char_class::{is_of, law_run, lemma_past, past, skip_run, Class};
use crate::text::{
    before_char, chars_of, count_of, cut_before, has_char, is_white_space, lemma_before_absent,
    lemma_before_first, lemma_before_is_front, lemma_count_joined,
};
use vstd::prelude::*;

verus! {

/// The marker of a requirement: what stands behind the first semicolon, or, where the requirement
/// names a URL behind an at sign, behind the semicolon that follows the URL.
pub open spec fn marker_part(text: Seq<char>) -> Seq<char> {
    let head = before_char(text, ';');
    let semicolon = if head.contains('@') {
        let url = past(text, before_char(text, '@').len() as int + 1, Class::White);
        past(text, past(text, url, Class::Black), Class::White)
    } else {
        head.len() as int
    };
    if semicolon < text.len() && text[semicolon] == ';' {
        text.skip(semicolon + 1)
    } else {
        Seq::empty()
    }
}

/// What is known of the front of a marker.
pub struct Groups {
    /// The quotation mark of the value that is not over yet.
    pub quote: Option<char>,
    /// How many groups are open.
    pub open: nat,
    /// How many groups were open at a time.
    pub most: nat,
}

/// What is known of a marker: parentheses open and close groups, but not within quotes.
pub open spec fn groups(marker: Seq<char>) -> Groups
    decreases marker.len(),
{
    if marker.len() == 0 {
        Groups { quote: None, open: 0, most: 0 }
    } else {
        let before = groups(marker.drop_last());
        let c = marker.last();
        match before.quote {
            Some(mark) => if c == mark {
                Groups { quote: None, ..before }
            } else {
                before
            },
            None => if c == '\'' || c == '"' {
                Groups { quote: Some(c), ..before }
            } else if c == '(' {
                let open = before.open + 1;
                let most = if open > before.most {
                    open
                } else {
                    before.most
                };
                Groups { quote: None, open, most }
            } else if c == ')' && before.open > 0 {
                Groups { open: (before.open - 1) as nat, ..before }
            } else {
                before
            },
        }
    }
}

/// How many groups the marker of a requirement has open at a time.
pub open spec fn marker_depth(text: Seq<char>) -> nat {
    groups(marker_part(text)).most
}

/// How many groups a marker that starts at a position has open at a time.
fn count_groups(chars: &Vec<char>, start: usize) -> (most: usize)
    requires
        start <= chars.len(),
    ensures
        most == groups(chars@.skip(start as int)).most,
{
    let ghost marker = chars@.skip(start as int);
    let mut quote: Option<char> = None;
    let mut open: usize = 0;
    let mut most: usize = 0;
    let mut at: usize = start;
    assert(marker.take(0) =~= Seq::<char>::empty());
    while at < chars.len()
        invariant
            start <= at <= chars.len(),
            marker == chars@.skip(start as int),
            open <= at - start,
            groups(marker.take(at - start)) == (Groups {
                quote,
                open: open as nat,
                most: most as nat,
            }),
        decreases chars.len() - at,
    {
        assert(marker.take(at + 1 - start).drop_last() =~= marker.take(at - start));
        let c = chars[at];
        assert(marker.take(at + 1 - start).last() == c);
        match quote {
            Some(mark) => {
                if c == mark {
                    quote = None;
                }
            },
            None => {
                if c == '\'' || c == '"' {
                    quote = Some(c);
                } else if c == '(' {
                    open = open + 1;
                    if open > most {
                        most = open;
                    }
                } else if c == ')' && open > 0 {
                    open = open - 1;
                }
            },
        }
        at = at + 1;
    }
    assert(marker.take(at - start) =~= marker);
    most
}

/// How many groups the marker of a requirement has open at a time.
pub fn depth_of_marker(text: &str) -> (depth: usize)
    ensures
        depth == marker_depth(text@),
{
    let chars = chars_of(text);
    let head = cut_before(&chars, ';');
    proof {
        lemma_before_is_front(text@, ';');
        lemma_before_is_front(text@, '@');
    }
    let semicolon = if has_char(&head, '@') {
        let name = cut_before(&chars, '@');
        proof {
            if name.len() == chars.len() {
                let i = choose|i: int| 0 <= i < head@.len() && head@[i] == '@';
                assert(text@[i] == '@');
                lemma_before_misses(text@, '@', i);
            }
        }
        let url = skip_run(&chars, name.len() + 1, Class::White);
        skip_run(&chars, skip_run(&chars, url, Class::Black), Class::White)
    } else {
        head.len()
    };
    if semicolon < chars.len() && chars[semicolon] == ';' {
        count_groups(&chars, semicolon + 1)
    } else {
        0
    }
}

/// What stands in front of a mark does not reach to it.
proof fn lemma_before_misses(text: Seq<char>, mark: char, at: int)
    requires
        0 <= at < text.len(),
        text[at] == mark,
    ensures
        before_char(text, mark).len() <= at,
    decreases text.len(),
{
    if text[0] != mark {
        lemma_before_misses(text.drop_first(), mark, at - 1);
    }
}

/// A text without a semicolon has no marker.
pub proof fn lemma_no_marker(text: Seq<char>)
    requires
        !text.contains(';'),
    ensures
        marker_depth(text) == 0,
{
    assert forall|i: int| 0 <= i < text.len() implies text[i] != ';' by {
        assert(text.contains(text[i]));
    }
    let head = before_char(text, ';');
    lemma_before_absent(text, ';');
    lemma_before_is_front(text, '@');
    let url = past(text, before_char(text, '@').len() as int + 1, Class::White);
    lemma_past(text, before_char(text, '@').len() as int + 1, Class::White);
    lemma_past(text, url, Class::Black);
    lemma_past(text, past(text, url, Class::Black), Class::White);
    assert(marker_part(text).len() == 0);
}

/// A marker has no more groups open at a time than it has opening parentheses.
proof fn lemma_groups_are_parens(marker: Seq<char>)
    ensures
        groups(marker).open <= count_of(marker, '('),
        groups(marker).most <= count_of(marker, '('),
    decreases marker.len(),
{
    if marker.len() > 0 {
        lemma_groups_are_parens(marker.drop_last());
    }
}

/// The marker of a text has no more groups open at a time than the text has opening parentheses.
pub proof fn lemma_depth_is_count(text: Seq<char>)
    ensures
        marker_depth(text) <= count_of(text, '('),
{
    let marker = marker_part(text);
    lemma_groups_are_parens(marker);
    let n = text.len() - marker.len();
    lemma_before_is_front(text, ';');
    lemma_before_is_front(text, '@');
    let url = past(text, before_char(text, '@').len() as int + 1, Class::White);
    lemma_past(text, before_char(text, '@').len() as int + 1, Class::White);
    lemma_past(text, url, Class::Black);
    lemma_past(text, past(text, url, Class::Black), Class::White);
    assert(marker =~= text.skip(n));
    assert(text.take(n) + marker =~= text);
    lemma_count_joined(text.take(n), marker, '(');
}

/// The marker of a requirement without an at sign is what stands behind the first semicolon. The
/// marker of one that names a URL behind an at sign stands behind the first semicolon that white
/// space parts from the URL.
pub proof fn law_marker_stands_behind(
    name: Seq<char>,
    url: Seq<char>,
    gap: Seq<char>,
    marker: Seq<char>,
)
    requires
        !name.contains(';') && !name.contains('@'),
        url.len() > 0,
        forall|i: int| 0 <= i < url.len() ==> !is_white_space(#[trigger] url[i]),
        gap.len() > 0,
        forall|i: int| 0 <= i < gap.len() ==> is_white_space(#[trigger] gap[i]),
    ensures
        marker_part(name + seq![';'] + marker) == marker,
        marker_part(name) == Seq::<char>::empty(),
        marker_part(name + seq!['@'] + url + gap + seq![';'] + marker) == marker,
{
    let text = name + seq![';'] + marker;
    let rest = seq![';'] + marker;
    assert(text =~= name + rest);
    lemma_before_first(name, rest, ';');
    assert(text.skip(name.len() as int + 1) =~= marker);
    lemma_before_absent(name, ';');
    let text = name + seq!['@'] + url + gap + seq![';'] + marker;
    let n = name.len() as int;
    let rest = text.skip(n);
    assert(text =~= name + rest);
    lemma_before_first(name, rest, '@');
    lemma_before_is_front(text, ';');
    let head = before_char(text, ';');
    let end = n + 1 + url.len();
    let semicolon = end + gap.len();
    assert(head.len() > n) by {
        if head.len() <= n {
            assert(text[head.len() as int] == ';');
            if head.len() < n {
                assert(name[head.len() as int] == ';');
            }
        }
    }
    assert(head[n] == '@');
    assert(text[n + 1] == url[0]);
    law_run(text, n + 1, n + 1, Class::White);
    assert forall|i: int| n + 1 <= i < end implies is_of(#[trigger] text[i], Class::Black) by {
        assert(text[i] == url[i - n - 1]);
    }
    assert(text[end] == gap[0]);
    law_run(text, n + 1, end, Class::Black);
    assert forall|i: int| end <= i < semicolon implies is_of(#[trigger] text[i], Class::White) by {
        assert(text[i] == gap[i - end]);
    }
    assert(text[semicolon] == ';');
    law_run(text, end, semicolon, Class::White);
    assert(text.skip(semicolon + 1) =~= marker);
}

/// Opening parentheses one behind the other each open a group, and a closing one closes the last of
/// them; parentheses in quotes of either kind do neither.
pub proof fn law_groups(opening: Seq<char>, quote: char, quoted: Seq<char>)
    requires
        forall|i: int| 0 <= i < opening.len() ==> #[trigger] opening[i] == '(',
        quote == '\'' || quote == '"',
        !quoted.contains(quote),
    ensures
        groups(opening).most == opening.len(),
        groups(opening).open == opening.len(),
        groups(opening).quote is None,
        opening.len() > 0 ==> groups(opening.push(')')).open == opening.len() - 1,
        groups(opening + seq![quote] + quoted + seq![quote]) == groups(opening),
    decreases opening.len(),
{
    if opening.len() > 0 {
        assert(opening[opening.len() - 1] == '(');
        law_groups(opening.drop_last(), quote, quoted);
        assert(opening.push(')').drop_last() =~= opening);
    }
    let start = opening + seq![quote];
    assert(start.drop_last() =~= opening);
    lemma_quoted_groups(start, quote, quoted);
    let text = start + quoted + seq![quote];
    assert(text.drop_last() =~= start + quoted);
    assert(text =~= opening + seq![quote] + quoted + seq![quote]);
}

/// What stands in quotes opens and closes no groups.
proof fn lemma_quoted_groups(front: Seq<char>, quote: char, quoted: Seq<char>)
    requires
        groups(front).quote == Some(quote),
        !quoted.contains(quote),
    ensures
        groups(front + quoted) == groups(front),
    decreases quoted.len(),
{
    if quoted.len() == 0 {
        assert(front + quoted =~= front);
    } else {
        assert(quoted.contains(quoted.last()));
        assert forall|i: int| 0 <= i < quoted.drop_last().len() implies quoted.drop_last()[i]
            != quote by {
            assert(quoted.contains(quoted[i]));
        }
        lemma_quoted_groups(front, quote, quoted.drop_last());
        assert((front + quoted).drop_last() =~= front + quoted.drop_last());
    }
}

} // verus!
