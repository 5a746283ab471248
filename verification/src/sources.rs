//! The receiver's list of inputs and of the names that the user gave them.
use crate::text::{begins, chars_of, token_between, trim_from};
use vstd::prelude::*;

verus! {

/// The inputs and their names, as mathematical values.
pub open spec fn views(sources: Seq<(String, String)>) -> Seq<(Seq<char>, Seq<char>)> {
    sources.map_values(|source: (String, String)| (source.0@, source.1@))
}

/// The input and its name that a line of the list tells: behind `SSFUN` the
/// input, a space, and the name, which is not empty. The name counts without the
/// white space at both its ends.
pub open spec fn source_of(line: Seq<char>) -> Option<(Seq<char>, Seq<char>)> {
    if "SSFUN"@.is_prefix_of(line) {
        let value = line.skip(5);
        match value.index_of_first(' ') {
            Some(at) => {
                let id = value.take(at);
                let name = value.skip(at + 1);
                if crate::text::is_token(id) && name.len() > 0 {
                    Some((id, crate::text::trimmed(name)))
                } else {
                    None
                }
            },
            None => None,
        }
    } else {
        None
    }
}

/// The input and its name that a line of the list tells, if it tells one.
pub fn source(line: &str) -> (told: Option<(String, String)>)
    ensures
        match told {
            Some((id, name)) => source_of(line@) == Some((id@, name@)),
            None => source_of(line@) is None,
        },
{
    let chars = chars_of(line);
    proof {
        reveal_strlit("SSFUN");
    }
    if !begins(&chars, "SSFUN") {
        return None;
    }
    let ghost value = line@.skip(5);
    proof {
        value.index_of_first_ensures(' ');
    }
    let mut at: usize = 5;
    while at < chars.len() && chars[at] != ' '
        invariant
            5 <= at <= chars.len(),
            chars@ == line@,
            value == line@.skip(5),
            forall|j: int| 0 <= j < at - 5 ==> value[j] != ' ',
        decreases chars.len() - at,
    {
        at = at + 1;
    }
    if at == chars.len() {
        return None;
    }
    assert(value[at - 5] == ' ');
    assert(chars@.subrange(5, at as int) == value.take(at - 5));
    assert(line@.skip(at + 1) == value.skip(at - 4));
    if at + 1 < chars.len() && token_between(&chars, 5, at) {
        Some((line.substring_char(5, at).to_owned(), trim_from(line, &chars, at + 1)))
    } else {
        None
    }
}

} // verus!
