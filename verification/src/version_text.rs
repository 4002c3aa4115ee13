//! The texts of versions: how far they reach, and how deeply they nest groups.
use crate::char_class::is_blank;
use crate::text::{
    count_of, fits, is_alphanumeric, lemma_ascii_len, lemma_part, utf8_len, MAX_DEPTH,
};
use vstd::prelude::*;

verus! {

/// A version of this many bytes or more is not read: the words of an error in it point at a column,
/// and a column has to fit into 16 bits.
pub const MAX_BYTES: usize = 0xffff;

/// What is known of the front of a text that starts with a version.
pub struct Scan {
    /// Whether the version is over.
    pub ended: bool,
    /// The last character of the version that is not a blank.
    pub last: Option<char>,
    /// Whether blanks stand behind that character.
    pub gap: bool,
    /// How many groups are open.
    pub open: nat,
    /// How many groups were open at a time.
    pub most: nat,
    /// How many characters belong to the version.
    pub kept: nat,
}

/// Whether a constraint or a group is expected behind a character, or at the start.
pub open spec fn expects_term(last: Option<char>) -> bool {
    match last {
        Some(c) => c == '(' || c == ',' || c == '|',
        None => true,
    }
}

/// Whether a constraint or a group may be complete with a character.
pub open spec fn may_close(last: Option<char>) -> bool {
    match last {
        Some(c) => !expects_term(last) && c != '=' && c != '<' && c != '>' && c != '~' && c != '!',
        None => false,
    }
}

/// Whether a version is over in front of a character that is neither a blank nor a separator nor a
/// closing parenthesis: a group only starts where a term is expected, and behind a term that may be
/// complete nothing but its own characters can follow, and nothing at all behind blanks or behind a
/// group.
pub open spec fn ends_before(scan: Scan, c: char) -> bool {
    if c == '(' {
        !expects_term(scan.last)
    } else {
        may_close(scan.last) && (scan.gap || scan.last == Some(')') || c == '=' || c == '<' || c
            == '>' || c == '~')
    }
}

/// What is known with one character more.
pub open spec fn scan_char(scan: Scan, c: char) -> Scan {
    if scan.ended {
        scan
    } else if is_blank(c) {
        Scan { gap: true, kept: scan.kept + 1, ..scan }
    } else if c == ')' || c == ',' || c == '|' {
        let open = if c == ')' && scan.open > 0 {
            (scan.open - 1) as nat
        } else {
            scan.open
        };
        Scan { last: Some(c), gap: false, open, kept: scan.kept + 1, ..scan }
    } else if ends_before(scan, c) {
        Scan { ended: true, ..scan }
    } else {
        let open = if c == '(' {
            scan.open + 1
        } else {
            scan.open
        };
        let most = if open > scan.most {
            open
        } else {
            scan.most
        };
        Scan { ended: false, last: Some(c), gap: false, open, most, kept: scan.kept + 1 }
    }
}

/// What is known of a text that starts with a version.
pub open spec fn scan(text: Seq<char>) -> Scan
    decreases text.len(),
{
    if text.len() == 0 {
        Scan { ended: false, last: None, gap: false, open: 0, most: 0, kept: 0 }
    } else {
        scan_char(scan(text.drop_last()), text.last())
    }
}

/// The version that a text starts with. It reaches as far as a version can: what is behind it, such
/// as a build string, is not looked at when the version is parsed.
pub open spec fn version_part(text: Seq<char>) -> Seq<char> {
    text.take(scan(text).kept as int)
}

/// How many groups the version that a text starts with has open at a time.
pub open spec fn version_depth(text: Seq<char>) -> nat {
    scan(text).most
}

/// Whether the version that a text starts with is short and flat enough to be parsed.
pub open spec fn version_fits(text: Seq<char>) -> bool {
    utf8_len(version_part(text)) < MAX_BYTES && version_depth(text) <= MAX_DEPTH
}

/// Whether the version that a text starts with is short and flat enough to be parsed.
pub fn check_version(chars: &Vec<char>) -> (fitting: bool)
    ensures
        fitting == version_fits(chars@),
{
    let mut ended: bool = false;
    let mut last: Option<char> = None;
    let mut gap: bool = false;
    let mut open: usize = 0;
    let mut most: usize = 0;
    let mut part: Vec<char> = Vec::new();
    assert(chars@.take(0) =~= Seq::<char>::empty());
    for i in 0..chars.len()
        invariant
            open <= i,
            most <= i,
            part.len() <= i,
            scan(chars@.take(i as int)) == (Scan {
                ended,
                last,
                gap,
                open: open as nat,
                most: most as nat,
                kept: part.len() as nat,
            }),
            !ended ==> part.len() == i,
            part@ == chars@.take(part.len() as int),
    {
        assert(chars@.take(i + 1).drop_last() =~= chars@.take(i as int));
        let c = chars[i];
        if !ended {
            let expecting = match last {
                Some(l) => l == '(' || l == ',' || l == '|',
                None => true,
            };
            let closing = match last {
                Some(l) => !expecting && l != '=' && l != '<' && l != '>' && l != '~' && l != '!',
                None => false,
            };
            let behind_group = match last {
                Some(l) => l == ')',
                None => false,
            };
            let blank = c == ' ' || c == '\t' || c == '\r' || c == '\n';
            let over = if c == '(' {
                !expecting
            } else {
                closing && (gap || behind_group || c == '=' || c == '<' || c == '>' || c == '~')
            };
            if blank {
                gap = true;
            } else if c == ')' || c == ',' || c == '|' {
                if c == ')' && open > 0 {
                    open = open - 1;
                }
                last = Some(c);
                gap = false;
            } else if over {
                ended = true;
            } else {
                if c == '(' {
                    open = open + 1;
                }
                if open > most {
                    most = open;
                }
                last = Some(c);
                gap = false;
            }
            if !ended {
                part.push(c);
                assert(part@ =~= chars@.take(i + 1));
            }
        }
    }
    assert(chars@.take(chars.len() as int) =~= chars@);
    fits(&part, MAX_BYTES) && most <= MAX_DEPTH
}

/// Nothing is a version that fits.
pub proof fn lemma_empty_fits()
    ensures
        version_fits(Seq::empty()),
{
    let text = Seq::<char>::empty();
    assert(version_part(text) =~= text);
}

/// A version has no more groups open at a time than it has opening parentheses, and reaches no
/// further than the text.
proof fn lemma_scan(text: Seq<char>)
    ensures
        scan(text).open <= count_of(text, '('),
        scan(text).most <= count_of(text, '('),
        scan(text).kept <= text.len(),
    decreases text.len(),
{
    if text.len() > 0 {
        lemma_scan(text.drop_last());
    }
}

/// Every text of fewer than 65535 bytes with at most 128 opening parentheses can be parsed as far
/// as it is a version.
pub proof fn law_ordinary_version_fits(text: Seq<char>)
    requires
        utf8_len(text) < 0xffff,
        count_of(text, '(') <= 128,
    ensures
        version_fits(text),
{
    lemma_scan(text);
    let kept = scan(text).kept as int;
    lemma_part(text, 0, kept, '(', text);
    assert(text.subrange(0, kept) =~= version_part(text));
}

/// Opening parentheses one behind the other each open a group, so that more than 128 of them are
/// refused.
pub proof fn law_deep_version(text: Seq<char>)
    requires
        forall|i: int| 0 <= i < text.len() ==> #[trigger] text[i] == '(',
    ensures
        version_depth(text) == text.len(),
        text.len() > 128 ==> !version_fits(text),
        text.len() <= 128 ==> version_fits(text),
{
    lemma_parens(text);
    lemma_ascii_len(text);
    assert(version_part(text) =~= text);
}

proof fn lemma_parens(text: Seq<char>)
    requires
        forall|i: int| 0 <= i < text.len() ==> #[trigger] text[i] == '(',
    ensures
        scan(text) == (Scan {
            ended: false,
            last: if text.len() == 0 {
                None
            } else {
                Some('(')
            },
            gap: false,
            open: text.len(),
            most: text.len(),
            kept: text.len(),
        }),
    decreases text.len(),
{
    if text.len() > 0 {
        assert(text[text.len() - 1] == '(');
        lemma_parens(text.drop_last());
    }
}

/// Letters and digits one behind the other belong to one version, so that 65535 of them or more
/// are refused; fewer are not. What an operator behind them starts is not looked at.
pub proof fn law_long_version(text: Seq<char>, c: char, rest: Seq<char>)
    requires
        text.len() > 0,
        forall|i: int| 0 <= i < text.len() ==> is_alphanumeric(#[trigger] text[i]),
        c == '=' || c == '<' || c == '>' || c == '~',
    ensures
        version_fits(text) <==> text.len() < 0xffff,
        version_fits(text + seq![c] + rest) <==> text.len() < 0xffff,
        version_part(text + seq![c] + rest) == text,
{
    lemma_letters(text);
    lemma_ascii_len(text);
    assert(version_part(text) =~= text);
    let all = text + seq![c];
    assert(all.drop_last() =~= text);
    assert(all.last() == c);
    assert(scan(all).ended);
    lemma_ended(all, rest);
    assert((all + rest).take(text.len() as int) =~= text);
}

proof fn lemma_letters(text: Seq<char>)
    requires
        forall|i: int| 0 <= i < text.len() ==> is_alphanumeric(#[trigger] text[i]),
    ensures
        scan(text) == (Scan {
            ended: false,
            last: if text.len() == 0 {
                None
            } else {
                Some(text.last())
            },
            gap: false,
            open: 0,
            most: 0,
            kept: text.len(),
        }),
    decreases text.len(),
{
    if text.len() > 0 {
        assert(is_alphanumeric(text[text.len() - 1]));
        lemma_letters(text.drop_last());
        if text.len() > 1 {
            assert(is_alphanumeric(text[text.len() - 2]));
        }
    }
}

/// What comes behind a version that is over is not looked at.
proof fn lemma_ended(text: Seq<char>, rest: Seq<char>)
    requires
        scan(text).ended,
    ensures
        scan(text + rest) == scan(text),
    decreases rest.len(),
{
    if rest.len() == 0 {
        assert(text + rest =~= text);
    } else {
        lemma_ended(text, rest.drop_last());
        assert((text + rest).drop_last() =~= text + rest.drop_last());
    }
}

/// Letters and digits belong to a version that does not end in front of them.
proof fn lemma_more_letters(text: Seq<char>, more: Seq<char>)
    requires
        more.len() > 0,
        forall|i: int| 0 <= i < more.len() ==> is_alphanumeric(#[trigger] more[i]),
        !scan(text).ended,
        !ends_before(scan(text), more[0]),
    ensures
        scan(text + more).kept == scan(text).kept + more.len(),
        !scan(text + more).ended,
        !scan(text + more).gap,
        scan(text + more).last == Some(more.last()),
    decreases more.len(),
{
    assert((text + more).drop_last() =~= text + more.drop_last());
    assert(is_alphanumeric(more[more.len() - 1]));
    if more.len() == 1 {
        assert(text + more.drop_last() =~= text);
    } else {
        assert(is_alphanumeric(more[more.len() - 2]));
        lemma_more_letters(text, more.drop_last());
    }
}

/// A version goes on behind a comma, a bar or an exclamation mark, and may start with an operator.
pub proof fn law_version_goes_on(a: Seq<char>, mark: char, b: Seq<char>)
    requires
        a.len() > 0,
        b.len() > 0,
        forall|i: int| 0 <= i < a.len() ==> is_alphanumeric(#[trigger] a[i]),
        forall|i: int| 0 <= i < b.len() ==> is_alphanumeric(#[trigger] b[i]),
    ensures
        mark == ',' || mark == '|' || mark == '!' ==> version_part(a + seq![mark] + b) == a
            + seq![mark] + b,
        mark == '=' || mark == '<' || mark == '>' || mark == '~' || mark == '!' || mark == '('
            ==> version_part(seq![mark] + b) == seq![mark] + b,
{
    let none = Seq::<char>::empty();
    assert(seq![mark].drop_last() =~= none);
    assert(scan(none).kept == 0 && !scan(none).ended);
    assert(is_alphanumeric(a[a.len() - 1]) && is_alphanumeric(b[0]));
    lemma_letters(a);
    let joined = a + seq![mark];
    assert(joined.drop_last() =~= a);
    if mark == ',' || mark == '|' || mark == '!' {
        lemma_more_letters(joined, b);
        assert(version_part(joined + b) =~= joined + b);
    }
    if mark == '=' || mark == '<' || mark == '>' || mark == '~' || mark == '!' || mark == '(' {
        lemma_more_letters(seq![mark], b);
        assert(version_part(seq![mark] + b) =~= seq![mark] + b);
    }
}

/// A version ends behind a term with blanks behind it, in front of a group that follows on a term,
/// and behind a group, unless a comma or a bar comes first.
pub proof fn law_version_ends(a: Seq<char>, blank: char, b: Seq<char>)
    requires
        a.len() > 0,
        b.len() > 0,
        forall|i: int| 0 <= i < a.len() ==> is_alphanumeric(#[trigger] a[i]),
        is_alphanumeric(b[0]),
        blank == ' ' || blank == '\t' || blank == '\r' || blank == '\n',
    ensures
        version_part(a + seq![blank] + b) == a + seq![blank],
        version_part(a + seq!['('] + b) == a,
        version_part(seq!['('] + a + seq![')'] + b) == seq!['('] + a + seq![')'],
{
    lemma_letters(a);
    assert(is_alphanumeric(a[a.len() - 1]) && is_alphanumeric(a[0]));
    let none = Seq::<char>::empty();
    assert(seq!['('].drop_last() =~= none);
    assert(scan(none).kept == 0 && !scan(none).ended);
    lemma_more_letters(seq!['('], a);
    let first = b.take(1);
    let rest = b.skip(1);
    assert(first + rest =~= b);
    let gapped = a + seq![blank];
    assert(gapped.drop_last() =~= a);
    assert(scan(gapped).gap && scan(gapped).kept == gapped.len());
    assert((gapped + first).drop_last() =~= gapped);
    assert((gapped + first).last() == b[0]);
    lemma_ended(gapped + first, rest);
    assert(gapped + first + rest =~= gapped + b);
    assert(version_part(gapped + b) =~= gapped);
    let opened = a + seq!['('];
    assert(opened.drop_last() =~= a);
    lemma_ended(opened, b);
    assert(version_part(opened + b) =~= a);
    let inner = seq!['('] + a;
    let closed = inner + seq![')'];
    assert(closed.drop_last() =~= inner);
    assert(scan(closed).last == Some(')') && scan(closed).kept == closed.len());
    assert((closed + first).drop_last() =~= closed);
    assert((closed + first).last() == b[0]);
    lemma_ended(closed + first, rest);
    assert(closed + first + rest =~= closed + b);
    assert(version_part(closed + b) =~= closed);
}

} // verus!
