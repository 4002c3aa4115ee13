//! The bracket sections of match specs: their keys and their values.
use crate::char_class::{is_blank, is_of, law_run, lemma_past, past, skip_run, Class};
use crate::text::{
    chars_of, contains_text, count_of, is_digit, lemma_part, occurs_at, same_chars, utf8_len,
};
use crate::version_text::{check_version, law_ordinary_version_fits, version_fits};
use vstd::prelude::*;

verus! {

/// A key in a bracket section, and its value.
pub struct Item {
    pub key: Seq<char>,
    pub value: Seq<char>,
}

/// The value that starts at a position, and the position behind it: what stands between quotes, or
/// else what stands in front of the next quote, comma or closing bracket.
pub open spec fn value_at(section: Seq<char>, start: int) -> Option<(Seq<char>, int)> {
    if start < section.len() && (section[start] == '"' || section[start] == '\'') {
        let class = if section[start] == '"' {
            Class::Double
        } else {
            Class::Single
        };
        let end = past(section, start + 1, class);
        if end < section.len() {
            Some((section.subrange(start + 1, end), end + 1))
        } else {
            None
        }
    } else {
        let end = past(section, start, Class::Plain);
        Some((section.subrange(start, end), end))
    }
}

/// The item that starts at a position, and the position behind the comma that follows it; a
/// negative one where no comma does.
pub open spec fn item_at(section: Seq<char>, at: int) -> Option<(Item, int)> {
    let key = past(section, at, Class::Blank);
    let end = past(section, key, Class::Key);
    let equals = past(section, end, Class::Blank);
    if equals < section.len() && section[equals] == '=' {
        match value_at(section, past(section, equals + 1, Class::Blank)) {
            Some((value, behind)) => {
                let comma = past(section, behind, Class::Blank);
                let next = if comma < section.len() && section[comma] == ',' {
                    comma + 1
                } else {
                    -1
                };
                Some((Item { key: section.subrange(key, end), value }, next))
            },
            None => None,
        }
    } else {
        None
    }
}

/// The items of a bracket section from a position on.
pub open spec fn items_from(section: Seq<char>, at: int) -> Seq<Item>
    decreases section.len() - at,
{
    match item_at(section, at) {
        Some((item, next)) => if at < next <= section.len() {
            seq![item] + items_from(section, next)
        } else {
            seq![item]
        },
        None => Seq::empty(),
    }
}

/// The items of a bracket section, in order.
pub open spec fn items(section: Seq<char>) -> Seq<Item> {
    items_from(section, 1)
}

/// The number that digits spell.
pub open spec fn number(digits: Seq<char>) -> nat
    decreases digits.len(),
{
    if digits.len() == 0 {
        0
    } else {
        number(digits.drop_last()) * 10 + (digits.last() as nat - '0' as nat) as nat
    }
}

/// Whether a value is a build number, behind an operator or not, that does not fit into 64 bits.
pub open spec fn is_large_build(value: Seq<char>) -> bool {
    let start = past(value, 0, Class::Operator);
    number(value.subrange(start, past(value, start, Class::Digit))) > u64::MAX
}

/// Whether an item can be parsed.
pub open spec fn item_fits(item: Item) -> bool {
    &&& item.key == "version"@ ==> version_fits(item.value)
    &&& item.key == "build_number"@ ==> !is_large_build(item.value)
}

/// Whether all items from a position on can be parsed.
pub open spec fn items_fit(section: Seq<char>, at: int) -> bool {
    forall|i: int|
        0 <= i < items_from(section, at).len() ==> item_fits(
            #[trigger] items_from(section, at)[i],
        )
}

/// Whether all items of a bracket section can be parsed.
pub open spec fn section_fits(section: Seq<char>) -> bool {
    items_fit(section, 1)
}

/// The number that the first digits spell is no larger than the number that all of them spell.
proof fn lemma_number_grows(digits: Seq<char>, n: int)
    requires
        0 <= n <= digits.len(),
    ensures
        number(digits.take(n)) <= number(digits),
    decreases digits.len(),
{
    if n == digits.len() {
        assert(digits.take(n) =~= digits);
    } else {
        lemma_number_grows(digits.drop_last(), n);
        assert(digits.drop_last().take(n) =~= digits.take(n));
    }
}

/// Whether a value is a build number that does not fit into 64 bits.
fn large_build(value: &Vec<char>) -> (large: bool)
    ensures
        large == is_large_build(value@),
{
    let start = skip_run(value, 0, Class::Operator);
    let end = skip_run(value, start, Class::Digit);
    let ghost digits = value@.subrange(start as int, end as int);
    let mut number_so_far: u128 = 0;
    let mut at: usize = start;
    assert(digits.take(0) =~= Seq::<char>::empty());
    while at < end
        invariant
            start <= at <= end <= value.len(),
            start == past(value@, 0, Class::Operator),
            end == past(value@, start as int, Class::Digit),
            forall|i: int| start <= i < end ==> is_digit(#[trigger] value@[i]),
            digits == value@.subrange(start as int, end as int),
            number_so_far == number(digits.take(at - start)),
            number_so_far <= u64::MAX,
        decreases end - at,
    {
        assert(digits.take(at + 1 - start).drop_last() =~= digits.take(at - start));
        assert(is_digit(value@[at as int]));
        number_so_far = number_so_far * 10 + (value[at] as u32 - '0' as u32) as u128;
        at = at + 1;
        if number_so_far > u64::MAX as u128 {
            proof {
                lemma_number_grows(digits, at - start);
            }
            return true;
        }
    }
    assert(digits.take(at - start) =~= digits);
    false
}

/// The characters between two positions.
fn piece(chars: &Vec<char>, start: usize, end: usize) -> (part: Vec<char>)
    requires
        start <= end <= chars.len(),
    ensures
        part@ == chars@.subrange(start as int, end as int),
{
    let mut part: Vec<char> = Vec::new();
    for i in start..end
        invariant
            end <= chars.len(),
            part@ == chars@.subrange(start as int, i as int),
    {
        part.push(chars[i]);
        assert(part@ =~= chars@.subrange(start as int, i + 1));
    }
    part
}

/// The value that starts at a position, and the position behind it.
fn read_value(section: &Vec<char>, start: usize) -> (read: Option<(Vec<char>, usize)>)
    requires
        start <= section.len(),
    ensures
        match read {
            Some((value, behind)) => start <= behind <= section.len() && value_at(
                section@,
                start as int,
            ) == Some((value@, behind as int)),
            None => value_at(section@, start as int) is None,
        },
{
    if start < section.len() && (section[start] == '"' || section[start] == '\'') {
        let class = if section[start] == '"' {
            Class::Double
        } else {
            Class::Single
        };
        let end = skip_run(section, start + 1, class);
        if end < section.len() {
            Some((piece(section, start + 1, end), end + 1))
        } else {
            None
        }
    } else {
        let end = skip_run(section, start, Class::Plain);
        Some((piece(section, start, end), end))
    }
}

/// Whether an item can be parsed.
fn check_item(key: &Vec<char>, value: &Vec<char>) -> (fitting: bool)
    ensures
        fitting == item_fits(Item { key: key@, value: value@ }),
{
    proof {
        reveal_strlit("version");
        reveal_strlit("build_number");
        assert("version"@.len() != "build_number"@.len());
    }
    if same_chars(key, &chars_of("version")) {
        check_version(value)
    } else if same_chars(key, &chars_of("build_number")) {
        !large_build(value)
    } else {
        true
    }
}

/// Whether all items of a bracket section can be parsed.
pub fn check_section(section: &Vec<char>) -> (fitting: bool)
    ensures
        fitting == section_fits(section@),
{
    let mut at: usize = 1;
    if section.len() == 0 {
        assert(item_at(section@, 1) is None) by {
            lemma_past(section@, 1, Class::Blank);
            lemma_past(section@, past(section@, 1, Class::Blank), Class::Key);
            let end = past(section@, past(section@, 1, Class::Blank), Class::Key);
            lemma_past(section@, end, Class::Blank);
        }
        return true;
    }
    loop
        invariant
            1 <= at <= section.len(),
            items_fit(section@, at as int) == section_fits(section@),
        decreases section.len() - at,
    {
        let ghost here = items_from(section@, at as int);
        let key = skip_run(section, at, Class::Blank);
        let end = skip_run(section, key, Class::Key);
        let equals = skip_run(section, end, Class::Blank);
        if equals >= section.len() || section[equals] != '=' {
            assert(here.len() == 0);
            return true;
        }
        let start = skip_run(section, equals + 1, Class::Blank);
        match read_value(section, start) {
            None => {
                assert(here.len() == 0);
                return true;
            },
            Some((value, behind)) => {
                let name = piece(section, key, end);
                let ghost item = Item { key: name@, value: value@ };
                assert(here[0] == item);
                if !check_item(&name, &value) {
                    assert(!item_fits(here[0]));
                    return false;
                }
                let comma = skip_run(section, behind, Class::Blank);
                if comma >= section.len() || section[comma] != ',' {
                    assert(here =~= seq![item]);
                    return true;
                }
                let ghost rest = items_from(section@, comma + 1);
                assert(here =~= seq![item] + rest);
                assert(items_fit(section@, at as int) == items_fit(section@, comma + 1)) by {
                    if items_fit(section@, comma + 1) {
                        assert forall|i: int| 0 <= i < here.len() implies item_fits(
                            #[trigger] here[i],
                        ) by {
                            if i > 0 {
                                assert(here[i] == rest[i - 1]);
                            }
                        }
                    }
                    if items_fit(section@, at as int) {
                        assert forall|i: int| 0 <= i < rest.len() implies item_fits(
                            #[trigger] rest[i],
                        ) by {
                            assert(here[i + 1] == rest[i]);
                        }
                    }
                }
                at = comma + 1;
            },
        }
    }
}

/// A bracket section that is not there can be parsed.
pub proof fn lemma_no_section()
    ensures
        section_fits(Seq::empty()),
{
    let section = Seq::<char>::empty();
    lemma_past(section, 1, Class::Blank);
    lemma_past(section, past(section, 1, Class::Blank), Class::Key);
    lemma_past(section, past(section, past(section, 1, Class::Blank), Class::Key), Class::Blank);
    assert(items_from(section, 1).len() == 0);
}

/// The keys and the values of a bracket section are parts of it.
proof fn lemma_items_within(section: Seq<char>, at: int, i: int) -> (places: (int, int, int, int))
    requires
        0 <= at,
        section.len() > 0 ==> at <= section.len(),
        0 <= i < items_from(section, at).len(),
    ensures
        0 <= places.0 <= places.1 <= section.len(),
        0 <= places.2 <= places.3 <= section.len(),
        items_from(section, at)[i].key == section.subrange(places.0, places.1),
        items_from(section, at)[i].value == section.subrange(places.2, places.3),
    decreases section.len() - at,
{
    let key = past(section, at, Class::Blank);
    let end = past(section, key, Class::Key);
    let equals = past(section, end, Class::Blank);
    let start = past(section, equals + 1, Class::Blank);
    lemma_past(section, at, Class::Blank);
    lemma_past(section, key, Class::Key);
    lemma_past(section, end, Class::Blank);
    lemma_past(section, equals + 1, Class::Blank);
    lemma_past(section, start + 1, Class::Single);
    lemma_past(section, start + 1, Class::Double);
    lemma_past(section, start, Class::Plain);
    let (item, next) = item_at(section, at)->0;
    if i == 0 {
        let (value, behind) = value_at(section, start)->0;
        if section[start] == '"' && start < section.len() {
            (key, end, start + 1, past(section, start + 1, Class::Double))
        } else if section[start] == '\'' && start < section.len() {
            (key, end, start + 1, past(section, start + 1, Class::Single))
        } else {
            (key, end, start, past(section, start, Class::Plain))
        }
    } else {
        assert(at < next <= section.len());
        let rest = items_from(section, next);
        assert(items_from(section, at)[i] == rest[i - 1]);
        lemma_items_within(section, next, i - 1)
    }
}

/// A bracket section of fewer than 65535 bytes with at most 128 opening parentheses can be parsed
/// if it speaks of no build number.
pub proof fn law_ordinary_section_fits(section: Seq<char>)
    requires
        utf8_len(section) < 0xffff,
        count_of(section, '(') <= 128,
        !contains_text(section, "build_number"@),
    ensures
        section_fits(section),
{
    if section.len() == 0 {
        lemma_no_section();
        assert(section =~= Seq::<char>::empty());
    } else {
        let all = items_from(section, 1);
        assert forall|i: int| 0 <= i < all.len() implies item_fits(#[trigger] all[i]) by {
            let (a, b, c, d) = lemma_items_within(section, 1, i);
            let key = section.subrange(a, b);
            lemma_part(section, a, b, '(', "build_number"@);
            assert(key.subrange(0, key.len() as int) =~= key);
            assert(occurs_at(key, key, 0));
            lemma_part(section, c, d, '(', "build_number"@);
            law_ordinary_version_fits(section.subrange(c, d));
        }
    }
}

/// A bracket section that asks for one build number can be parsed if and only if the number fits
/// into 64 bits, whatever operators stand in front of it.
pub proof fn law_build_number(operators: Seq<char>, digits: Seq<char>)
    requires
        forall|i: int|
            0 <= i < operators.len() ==> #[trigger] operators[i] == '=' || operators[i] == '!'
                || operators[i] == '<' || operators[i] == '>',
        forall|i: int| 0 <= i < digits.len() ==> '0' <= #[trigger] digits[i] <= '9',
    ensures
        section_fits("[build_number="@ + operators + digits + "]"@) <==> number(digits)
            <= 0xffff_ffff_ffff_ffff,
{
    let section = "[build_number="@ + operators + digits + "]"@;
    let value = operators + digits;
    reveal_strlit("[build_number=");
    reveal_strlit("]");
    reveal_strlit("build_number");
    reveal_strlit("version");
    let m = operators.len() as int;
    let n = value.len() as int;
    assert forall|i: int| 0 <= i < n implies is_of(#[trigger] value[i], Class::Operator) == (i < m)
        && (i >= m ==> is_of(value[i], Class::Digit)) by {
        if i < m {
            assert(value[i] == operators[i]);
        } else {
            assert(value[i] == digits[i - m]);
        }
    }
    law_run(section, 1, 1, Class::Blank);
    law_run(section, 1, 13, Class::Key);
    law_run(section, 13, 13, Class::Blank);
    assert forall|i: int| 14 <= i < 14 + n implies is_of(#[trigger] section[i], Class::Plain)
        && !is_of(section[i], Class::Blank) by {
        assert(section[i] == value[i - 14]);
        assert(is_of(value[i - 14], Class::Operator) == (i - 14 < m));
    }
    assert(section[14 + n] == ']');
    law_run(section, 14, 14, Class::Blank);
    law_run(section, 14, 14 + n, Class::Plain);
    law_run(section, 14 + n, 14 + n, Class::Blank);
    assert(section.subrange(1, 13) =~= "build_number"@);
    assert(section.subrange(14, 14 + n) =~= value);
    let item = Item { key: "build_number"@, value };
    assert(is_of(section[14], Class::Plain) || section[14] == ']');
    assert(item_at(section, 1) == Some((item, -1int)));
    assert(items_from(section, 1) =~= seq![item]);
    assert("version"@.len() != "build_number"@.len());
    law_run(value, 0, m, Class::Operator);
    law_run(value, m, n, Class::Digit);
    assert(value.subrange(m, n) =~= digits);
    assert(item_fits(items_from(section, 1)[0]) <==> number(digits) <= u64::MAX);
}

/// A bracket section that asks for one version can be parsed if and only if the version can.
pub proof fn law_version_in_brackets(version: Seq<char>)
    requires
        forall|i: int|
            0 <= i < version.len() ==> #[trigger] version[i] != ',' && version[i] != ']'
                && version[i] != '\'' && version[i] != '"',
        version.len() > 0 && !is_blank(version[0]),
    ensures
        section_fits("[version="@ + version + "]"@) <==> version_fits(version),
{
    let section = "[version="@ + version + "]"@;
    reveal_strlit("[version=");
    reveal_strlit("]");
    reveal_strlit("build_number");
    reveal_strlit("version");
    let n = version.len() as int;
    assert forall|i: int| 9 <= i < 9 + n implies is_of(#[trigger] section[i], Class::Plain) by {
        assert(section[i] == version[i - 9]);
    }
    assert(section[9] == version[0]);
    assert(section[9 + n] == ']');
    law_run(section, 1, 1, Class::Blank);
    law_run(section, 1, 8, Class::Key);
    law_run(section, 8, 8, Class::Blank);
    law_run(section, 9, 9, Class::Blank);
    law_run(section, 9, 9 + n, Class::Plain);
    law_run(section, 9 + n, 9 + n, Class::Blank);
    assert(section.subrange(1, 8) =~= "version"@);
    assert(section.subrange(9, 9 + n) =~= version);
    let item = Item { key: "version"@, value: version };
    assert(item_at(section, 1) == Some((item, -1int)));
    assert(items_from(section, 1) =~= seq![item]);
    assert("version"@.len() != "build_number"@.len());
    assert(item_fits(items_from(section, 1)[0]) <==> version_fits(version));
}

/// The items of a bracket section come one behind the other: behind a key, an equals sign, a value
/// in quotes of either kind and a comma, the next item starts.
pub proof fn law_items_follow(
    front: Seq<char>,
    key: Seq<char>,
    quote: char,
    value: Seq<char>,
    rest: Seq<char>,
)
    requires
        front.len() > 0,
        quote == '\'' || quote == '"',
        !value.contains(quote),
        key.len() > 0,
        forall|i: int|
            0 <= i < key.len() ==> !is_blank(#[trigger] key[i]) && key[i] != '=' && key[i] != ','
                && key[i] != ']' && key[i] != '\'' && key[i] != '"',
    ensures
        ({
            let section = front + key + seq!['=', quote] + value + seq![quote, ','] + rest;
            items_from(section, front.len() as int) == seq![Item { key, value }] + items_from(
                section,
                (section.len() - rest.len()) as int,
            )
        }),
{
    let section = front + key + seq!['=', quote] + value + seq![quote, ','] + rest;
    let at = front.len() as int;
    let end = at + key.len();
    let start = end + 1;
    let close = start + 1 + value.len();
    assert(section[end] == '=' && section[start] == quote);
    assert(section[close] == quote && section[close + 1] == ',');
    assert forall|i: int| at <= i < end implies is_of(#[trigger] section[i], Class::Key) by {
        assert(section[i] == key[i - at]);
    }
    assert(section[at] == key[0]);
    assert(!is_blank(key[0]));
    law_run(section, at, at, Class::Blank);
    law_run(section, at, end, Class::Key);
    law_run(section, end, end, Class::Blank);
    law_run(section, start, start, Class::Blank);
    let class = if quote == '"' {
        Class::Double
    } else {
        Class::Single
    };
    assert forall|i: int| start + 1 <= i < close implies is_of(#[trigger] section[i], class) by {
        assert(section[i] == value[i - start - 1]);
        assert(value.contains(value[i - start - 1]));
    }
    law_run(section, start + 1, close, class);
    law_run(section, close + 1, close + 1, Class::Blank);
    assert(section.subrange(at, end) =~= key);
    assert(section.subrange(start + 1, close) =~= value);
    assert(section.len() - rest.len() == close + 2);
    assert(item_at(section, at) == Some((Item { key, value }, close + 2)));
}

/// Digits spell a number in base ten.
pub proof fn law_number(digits: Seq<char>, digit: char)
    requires
        '0' <= digit <= '9',
    ensures
        number(Seq::empty()) == 0,
        number(digits.push(digit)) == 10 * number(digits) + (digit as int - 48),
{
    assert(digits.push(digit).drop_last() =~= digits);
    assert('0' as int == 48);
}

/// A value without quotes reaches up to the next comma, closing bracket or quote.
pub proof fn law_plain_value(front: Seq<char>, value: Seq<char>, stop: char, rest: Seq<char>)
    requires
        forall|i: int|
            0 <= i < value.len() ==> #[trigger] value[i] != ',' && value[i] != ']' && value[i]
                != '\'' && value[i] != '"',
        stop == ',' || stop == ']' || value.len() > 0 && (stop == '\'' || stop == '"'),
    ensures
        value_at(front + value + seq![stop] + rest, front.len() as int) == Some(
            (value, (front + value).len() as int),
        ),
{
    let section = front + value + seq![stop] + rest;
    let start = front.len() as int;
    let end = start + value.len();
    assert forall|i: int| start <= i < end implies is_of(#[trigger] section[i], Class::Plain) by {
        assert(section[i] == value[i - start]);
    }
    assert(section[end] == stop);
    law_run(section, start, end, Class::Plain);
    assert(section.subrange(start, end) =~= value);
    if value.len() > 0 {
        assert(section[start] == value[0]);
    }
}

} // verus!
