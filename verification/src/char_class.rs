//! Runs of characters of one class.
use crate::text::{alphanumeric, is_alphanumeric, is_digit, is_white_space, white_space};
use vstd::prelude::*;

verus! {

/// A class of characters.
#[derive(Debug, Clone, Copy, PartialEq, Eq, Structural)]
pub enum Class {
    /// Blanks and line breaks.
    Blank,
    /// White space.
    White,
    /// What is not white space.
    Black,
    /// Spaces and control characters.
    Control,
    /// What the scheme of a URL is made of, and what a URL leaves out.
    Scheme,
    /// What the name of a package in a match spec is made of.
    Name,
    /// What a key in a bracket section is made of.
    Key,
    /// What a value without quotes in a bracket section is made of.
    Plain,
    /// What a value in single quotes is made of.
    Single,
    /// What a value in double quotes is made of.
    Double,
    /// The operators in front of a build number.
    Operator,
    /// Digits.
    Digit,
}

/// Whether a character is a blank or a line break.
pub open spec fn is_blank(c: char) -> bool {
    c == ' ' || c == '\t' || c == '\r' || c == '\n'
}

/// Whether a character is of a class.
pub open spec fn is_of(c: char, class: Class) -> bool {
    match class {
        Class::Blank => is_blank(c),
        Class::White => is_white_space(c),
        Class::Black => !is_white_space(c),
        Class::Control => c <= ' ',
        Class::Scheme => is_alphanumeric(c) || c == '+' || c == '-' || c == '.' || c == '\t' || c
            == '\r' || c == '\n',
        Class::Name => !is_white_space(c) && c != '>' && c != '<' && c != '=' && c != '!' && c
            != '~',
        Class::Key => !is_blank(c) && c != '=' && c != ',' && c != ']' && c != '\'' && c != '"',
        Class::Plain => c != ',' && c != ']' && c != '\'' && c != '"',
        Class::Single => c != '\'',
        Class::Double => c != '"',
        Class::Operator => c == '=' || c == '!' || c == '<' || c == '>',
        Class::Digit => is_digit(c),
    }
}

/// Where a run of characters of a class ends that starts at a position.
pub open spec fn past(text: Seq<char>, from: int, class: Class) -> int
    decreases text.len() - from,
{
    if 0 <= from < text.len() && is_of(text[from], class) {
        past(text, from + 1, class)
    } else {
        from
    }
}

/// Whether a character is of a class.
fn of_class(c: char, class: Class) -> (yes: bool)
    ensures
        yes == is_of(c, class),
{
    let blank = c == ' ' || c == '\t' || c == '\r' || c == '\n';
    match class {
        Class::Blank => blank,
        Class::White => white_space(c),
        Class::Black => !white_space(c),
        Class::Control => c <= ' ',
        Class::Scheme => alphanumeric(c) || c == '+' || c == '-' || c == '.' || c == '\t' || c
            == '\r' || c == '\n',
        Class::Name => !white_space(c) && c != '>' && c != '<' && c != '=' && c != '!' && c != '~',
        Class::Key => !blank && c != '=' && c != ',' && c != ']' && c != '\'' && c != '"',
        Class::Plain => c != ',' && c != ']' && c != '\'' && c != '"',
        Class::Single => c != '\'',
        Class::Double => c != '"',
        Class::Operator => c == '=' || c == '!' || c == '<' || c == '>',
        Class::Digit => '0' <= c && c <= '9',
    }
}

/// Where a run of characters of a class ends that starts at a position.
pub fn skip_run(chars: &Vec<char>, from: usize, class: Class) -> (end: usize)
    requires
        from <= chars.len(),
    ensures
        end == past(chars@, from as int, class),
        from <= end <= chars.len(),
        forall|i: int| from <= i < end ==> is_of(#[trigger] chars@[i], class),
{
    let mut end: usize = from;
    while end < chars.len() && of_class(chars[end], class)
        invariant
            from <= end <= chars.len(),
            past(chars@, end as int, class) == past(chars@, from as int, class),
            forall|i: int| from <= i < end ==> is_of(#[trigger] chars@[i], class),
        decreases chars.len() - end,
    {
        end = end + 1;
    }
    end
}

/// A run ends within the text, and no earlier than it starts.
pub proof fn lemma_past(text: Seq<char>, from: int, class: Class)
    ensures
        from <= past(text, from, class),
        0 <= from <= text.len() ==> past(text, from, class) <= text.len(),
    decreases text.len() - from,
{
    if 0 <= from < text.len() && is_of(text[from], class) {
        lemma_past(text, from + 1, class);
    }
}

/// A run of characters of a class that a text is made of ends with the text.
pub proof fn lemma_past_all(text: Seq<char>, from: int, class: Class)
    requires
        0 <= from <= text.len(),
        forall|i: int| from <= i < text.len() ==> is_of(#[trigger] text[i], class),
    ensures
        past(text, from, class) == text.len(),
    decreases text.len() - from,
{
    if from < text.len() {
        assert(is_of(text[from], class));
        lemma_past_all(text, from + 1, class);
    }
}

/// A run reaches as far as the characters are of the class, and no further.
pub proof fn law_run(text: Seq<char>, from: int, end: int, class: Class)
    requires
        0 <= from <= text.len(),
    ensures
        past(text, from, class) == end <==> {
            &&& from <= end <= text.len()
            &&& forall|i: int| from <= i < end ==> is_of(#[trigger] text[i], class)
            &&& end < text.len() ==> !is_of(text[end], class)
        },
    decreases text.len() - from,
{
    if from < text.len() && is_of(text[from], class) {
        law_run(text, from + 1, end, class);
    }
}

/// What the classes are made of, or what ends a run of them.
pub proof fn law_classes(c: char)
    ensures
        is_of(c, Class::Blank) <==> " \t\r\n"@.contains(c),
        is_of(c, Class::White) <==> is_white_space(c),
        is_of(c, Class::Black) <==> !is_white_space(c),
        is_of(c, Class::Control) <==> c as u32 <= 32,
        is_of(c, Class::Scheme) <==> is_alphanumeric(c) || "+-.\t\r\n"@.contains(c),
        is_of(c, Class::Name) <==> !is_white_space(c) && !"<>=!~"@.contains(c),
        is_of(c, Class::Key) <==> !" \t\r\n=,]'\""@.contains(c),
        is_of(c, Class::Plain) <==> !",]'\""@.contains(c),
        is_of(c, Class::Single) <==> !"'"@.contains(c),
        is_of(c, Class::Double) <==> !"\""@.contains(c),
        is_of(c, Class::Operator) <==> "=!<>"@.contains(c),
        is_of(c, Class::Digit) <==> 48 <= c as u32 <= 57,
{
    reveal_strlit(" \t\r\n");
    reveal_strlit("+-.\t\r\n");
    reveal_strlit("<>=!~");
    reveal_strlit(" \t\r\n=,]'\"");
    reveal_strlit(",]'\"");
    reveal_strlit("'");
    reveal_strlit("\"");
    reveal_strlit("=!<>");
    let blank = " \t\r\n"@;
    assert(blank[0] == ' ' && blank[1] == '\t' && blank[2] == '\r' && blank[3] == '\n');
    let scheme = "+-.\t\r\n"@;
    assert(scheme[0] == '+' && scheme[1] == '-' && scheme[2] == '.');
    assert(scheme[3] == '\t' && scheme[4] == '\r' && scheme[5] == '\n');
    let name = "<>=!~"@;
    assert(name[0] == '<' && name[1] == '>' && name[2] == '=' && name[3] == '!' && name[4] == '~');
    let key = " \t\r\n=,]'\""@;
    assert(key[0] == ' ' && key[1] == '\t' && key[2] == '\r' && key[3] == '\n');
    assert(key[4] == '=' && key[5] == ',' && key[6] == ']' && key[7] == '\'' && key[8] == '"');
    let plain = ",]'\""@;
    assert(plain[0] == ',' && plain[1] == ']' && plain[2] == '\'' && plain[3] == '"');
    assert("'"@[0] == '\'');
    assert("\""@[0] == '"');
    let operator = "=!<>"@;
    assert(operator[0] == '=' && operator[1] == '!' && operator[2] == '<' && operator[3] == '>');
}

} // verus!
