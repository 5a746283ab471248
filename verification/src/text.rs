//! Characters, and the few operations on text that the protocol needs.
use vstd::prelude::*;

verus! {

/// Whether a character has the Unicode property White_Space.
pub open spec fn white_space(c: char) -> bool {
    ||| '\u{9}' <= c <= '\u{d}'
    ||| c == '\u{20}'
    ||| c == '\u{85}'
    ||| c == '\u{a0}'
    ||| c == '\u{1680}'
    ||| '\u{2000}' <= c <= '\u{200a}'
    ||| c == '\u{2028}'
    ||| c == '\u{2029}'
    ||| c == '\u{202f}'
    ||| c == '\u{205f}'
    ||| c == '\u{3000}'
}

/// Whether `c` has the Unicode property White_Space.
pub(crate) fn is_white_space(c: char) -> (is: bool)
    ensures
        is == white_space(c),
{
    ('\u{9}' <= c && c <= '\u{d}') || c == '\u{20}' || c == '\u{85}' || c == '\u{a0}' || c
        == '\u{1680}' || ('\u{2000}' <= c && c <= '\u{200a}') || c == '\u{2028}' || c == '\u{2029}'
        || c == '\u{202f}' || c == '\u{205f}' || c == '\u{3000}'
}

/// The characters of `text`.
pub(crate) fn chars_of(text: &str) -> (chars: Vec<char>)
    ensures
        chars@ == text@,
{
    let mut chars: Vec<char> = Vec::new();
    for c in it: text.chars()
        invariant
            chars@ == text@.take(it.index()),
            it.seq() == text@,
    {
        chars.push(c);
    }
    chars
}

/// The text without the white space at both its ends.
pub open spec fn trimmed(text: Seq<char>) -> Seq<char>
    decreases text.len(),
{
    if text.len() > 0 && white_space(text.first()) {
        trimmed(text.drop_first())
    } else if text.len() > 0 && white_space(text.last()) {
        trimmed(text.drop_last())
    } else {
        text
    }
}

/// The part of `text` from the character `from` on, without the white space at
/// both its ends.
pub(crate) fn trim_from(text: &str, chars: &Vec<char>, from: usize) -> (trim: String)
    requires
        chars@ == text@,
        from <= chars.len(),
    ensures
        trim@ == trimmed(text@.skip(from as int)),
{
    let mut start: usize = from;
    let mut end: usize = chars.len();
    while start < end && is_white_space(chars[start])
        invariant
            chars@ == text@,
            from <= start <= end == chars.len(),
            trimmed(text@.subrange(start as int, end as int)) == trimmed(text@.skip(from as int)),
        decreases end - start,
    {
        assert(text@.subrange(start as int, end as int).drop_first() == text@.subrange(
            start + 1,
            end as int,
        ));
        start = start + 1;
    }
    while start < end && is_white_space(chars[end - 1])
        invariant
            chars@ == text@,
            start <= end <= chars.len(),
            start < end ==> !white_space(chars[start as int]),
            trimmed(text@.subrange(start as int, end as int)) == trimmed(text@.skip(from as int)),
        decreases end - start,
    {
        assert(text@.subrange(start as int, end as int).drop_last() == text@.subrange(
            start as int,
            end - 1,
        ));
        end = end - 1;
    }
    text.substring_char(start, end).to_owned()
}

/// The text without the line feeds in front of it.
pub open spec fn without_line_feeds(text: Seq<char>) -> Seq<char>
    decreases text.len(),
{
    if text.len() > 0 && text.first() == '\n' {
        without_line_feeds(text.drop_first())
    } else {
        text
    }
}

/// `text` without the line feeds in front of it.
pub(crate) fn skip_line_feeds(text: &str) -> (rest: String)
    ensures
        rest@ == without_line_feeds(text@),
{
    let chars = chars_of(text);
    let mut start: usize = 0;
    assert(text@.skip(0) == text@);
    while start < chars.len() && chars[start] == '\n'
        invariant
            chars@ == text@,
            start <= chars.len(),
            without_line_feeds(text@.skip(start as int)) == without_line_feeds(text@),
        decreases chars.len() - start,
    {
        assert(text@.skip(start as int).drop_first() == text@.skip(start + 1));
        start = start + 1;
    }
    text.substring_char(start, chars.len()).to_owned()
}

/// `std::str::from_utf8`: a string exactly when the bytes are valid UTF-8, and
/// then the one that they encode.
#[verifier::external_body]
pub(crate) fn utf8(bytes: &[u8]) -> (text: Option<&str>)
    ensures
        text is Some <==> vstd::utf8::valid_utf8(bytes@),
        text matches Some(s) ==> s@ == vstd::utf8::decode_utf8(bytes@),
{
    std::str::from_utf8(bytes).ok()
}

/// Whether the characters begin with those of `prefix`.
pub(crate) fn begins(chars: &Vec<char>, prefix: &str) -> (yes: bool)
    ensures
        yes == prefix@.is_prefix_of(chars@),
{
    let wanted = chars_of(prefix);
    if wanted.len() > chars.len() {
        return false;
    }
    for i in 0..wanted.len()
        invariant
            wanted@ == prefix@,
            wanted.len() <= chars.len(),
            forall|j: int| 0 <= j < i ==> wanted[j] == chars[j],
    {
        if wanted[i] != chars[i] {
            return false;
        }
    }
    true
}

/// Whether the characters are those of `text`.
pub(crate) fn same(chars: &Vec<char>, text: &str) -> (yes: bool)
    ensures
        yes == (chars@ == text@),
{
    assert(chars@.subrange(0, chars@.len() as int) == chars@);
    begins(chars, text) && chars.len() == chars_of(text).len()
}

/// The decimal digit for a number below ten.
pub open spec fn digit(n: int) -> char {
    (48 + n) as char
}

/// Whether a character is a decimal digit.
pub open spec fn is_digit(c: char) -> bool {
    '0' <= c <= '9'
}

/// The number that a decimal digit stands for.
pub open spec fn digit_value(c: char) -> int {
    c as int - 48
}

/// The decimal digit for `n`, as text.
pub(crate) fn digit_text(n: u16) -> (text: &'static str)
    requires
        n < 10,
    ensures
        text@ == seq![digit(n as int)],
{
    proof {
        reveal_strlit("0");
        reveal_strlit("1");
        reveal_strlit("2");
        reveal_strlit("3");
        reveal_strlit("4");
        reveal_strlit("5");
        reveal_strlit("6");
        reveal_strlit("7");
        reveal_strlit("8");
        reveal_strlit("9");
    }
    match n {
        0 => "0",
        1 => "1",
        2 => "2",
        3 => "3",
        4 => "4",
        5 => "5",
        6 => "6",
        7 => "7",
        8 => "8",
        _ => "9",
    }
}

/// Whether a character may stand in the name of an input.
pub open spec fn token_char(c: char) -> bool {
    ||| 'A' <= c <= 'Z'
    ||| '0' <= c <= '9'
    ||| c == ' '
    ||| c == '/'
    ||| c == '+'
    ||| c == '-'
}

/// Whether a text can be the name of an input: one to twenty-five characters,
/// each a capital letter, a digit, a space, `/`, `+` or `-`.
pub open spec fn is_token(text: Seq<char>) -> bool {
    &&& 0 < text.len() <= 25
    &&& forall|i: int| 0 <= i < text.len() ==> token_char(#[trigger] text[i])
}

/// Whether the characters from `from` up to `to` can be the name of an input.
pub(crate) fn token_between(chars: &Vec<char>, from: usize, to: usize) -> (is: bool)
    requires
        from <= to <= chars.len(),
    ensures
        is == is_token(chars@.subrange(from as int, to as int)),
{
    let ghost part = chars@.subrange(from as int, to as int);
    if from == to || to - from > 25 {
        return false;
    }
    for i in from..to
        invariant
            from <= to <= chars.len(),
            part == chars@.subrange(from as int, to as int),
            forall|j: int| 0 <= j < i - from ==> token_char(#[trigger] part[j]),
    {
        let c = chars[i];
        assert(part[i - from] == c);
        if !(('A' <= c && c <= 'Z') || ('0' <= c && c <= '9') || c == ' ' || c == '/' || c == '+'
            || c == '-') {
            return false;
        }
    }
    true
}

/// Whether `value` can be the name of an input.
pub fn token(value: &str) -> (is: bool)
    ensures
        is == is_token(value@),
{
    let chars = chars_of(value);
    assert(chars@.subrange(0, chars@.len() as int) == value@);
    token_between(&chars, 0, chars.len())
}

} // verus!
