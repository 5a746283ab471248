//! Lines out of the bytes that arrive.
use crate::error::Error;
use crate::text::{skip_line_feeds, utf8};
use vstd::prelude::*;
use vstd::slice::slice_subrange;

verus! {

/// The byte that ends a line.
pub const CARRIAGE_RETURN: u8 = 13;

/// The number of bytes that a line can have.
pub const LONGEST_LINE: usize = 1024;

/// What stands at the front of the bytes that have arrived.
pub enum Front {
    /// A whole line, which is not empty.
    Line(Seq<char>),
    /// A line that is too long, or is not valid UTF-8.
    Malformed,
    /// No whole line yet.
    Incomplete,
}

/// What a wait for a line comes to.
pub enum Reading {
    /// A line.
    Line(String),
    /// No whole line yet: there are so many nanoseconds left for one.
    Wait(u64),
    /// There is no line to be had: [`Error::Protocol`] where one is malformed,
    /// [`Error::Timeout`] where none came in time.
    Failed(Error),
}

/// A [`Reading`] as a mathematical value.
pub enum ReadingView {
    Line(Seq<char>),
    Wait(int),
    Failed(Error),
}

impl View for Reading {
    type V = ReadingView;

    open spec fn view(&self) -> ReadingView {
        match *self {
            Reading::Line(line) => ReadingView::Line(line@),
            Reading::Wait(left) => ReadingView::Wait(left as int),
            Reading::Failed(error) => ReadingView::Failed(error),
        }
    }
}

/// The line that the bytes in front of a carriage return are: their text,
/// without the line feeds in front of it.
pub open spec fn text_of(bytes: Seq<u8>) -> Option<Seq<char>> {
    if vstd::utf8::valid_utf8(bytes) {
        Some(crate::text::without_line_feeds(vstd::utf8::decode_utf8(bytes)))
    } else {
        None
    }
}

/// The next line in the bytes that have arrived, and the bytes that are left
/// once it is taken. Empty lines are passed over. A line that is too long stays
/// where it is.
pub open spec fn front(buffer: Seq<u8>) -> (Front, Seq<u8>)
    decreases buffer.len(),
{
    match buffer.index_of_first(CARRIAGE_RETURN) {
        Some(at) => if 0 <= at < buffer.len() && at <= LONGEST_LINE {
            match text_of(buffer.take(at)) {
                Some(line) => if line.len() == 0 {
                    front(buffer.skip(at + 1))
                } else {
                    (Front::Line(line), buffer.skip(at + 1))
                },
                None => (Front::Malformed, buffer.skip(at + 1)),
            }
        } else {
            (Front::Malformed, buffer)
        },
        None => if buffer.len() > LONGEST_LINE {
            (Front::Malformed, buffer)
        } else {
            (Front::Incomplete, buffer)
        },
    }
}

/// A line that is taken leaves fewer bytes; nothing that is taken leaves more.
pub proof fn lemma_front_shrinks(buffer: Seq<u8>)
    ensures
        front(buffer).1.len() <= buffer.len(),
        front(buffer).0 is Line ==> front(buffer).1.len() < buffer.len(),
    decreases buffer.len(),
{
    if let Some(at) = buffer.index_of_first(CARRIAGE_RETURN) {
        if 0 <= at < buffer.len() {
            lemma_front_shrinks(buffer.skip(at + 1));
        }
    }
}

/// Where the first carriage return is.
fn find_return(buffer: &Vec<u8>) -> (at: Option<usize>)
    ensures
        match at {
            Some(i) => i < buffer.len() && buffer@.index_of_first(CARRIAGE_RETURN) == Some(
                i as int,
            ),
            None => buffer@.index_of_first(CARRIAGE_RETURN) is None,
        },
{
    proof {
        buffer@.index_of_first_ensures(CARRIAGE_RETURN);
    }
    for i in 0..buffer.len()
        invariant
            forall|j: int| 0 <= j < i ==> buffer[j] != CARRIAGE_RETURN,
            match buffer@.index_of_first(CARRIAGE_RETURN) {
                Some(at) => {
                    &&& 0 <= at < buffer.len()
                    &&& buffer[at] == CARRIAGE_RETURN
                    &&& forall|j: int| 0 <= j < at ==> buffer[j] != CARRIAGE_RETURN
                },
                None => !buffer@.contains(CARRIAGE_RETURN),
            },
    {
        if buffer[i] == CARRIAGE_RETURN {
            return Some(i);
        }
    }
    None
}

/// Takes the next line out of the bytes that have arrived, if there is a whole
/// one. A line that is too long or is not valid UTF-8 is [`Error::Protocol`].
pub fn next_line(buffer: &mut Vec<u8>) -> (line: Result<Option<String>, Error>)
    ensures
        match line {
            Ok(Some(text)) => front(old(buffer)@).0 == Front::Line(text@),
            Ok(None) => front(old(buffer)@).0 == Front::Incomplete,
            Err(error) => front(old(buffer)@).0 == Front::Malformed && error == Error::Protocol,
        },
        final(buffer)@ == front(old(buffer)@).1,
{
    loop
        invariant
            front(buffer@) == front(old(buffer)@),
        decreases buffer.len(),
    {
        let ghost before = buffer@;
        match find_return(buffer) {
            Some(at) => {
                if at > LONGEST_LINE {
                    return Err(Error::Protocol);
                }
                let rest = buffer.split_off(at + 1);
                let bytes = slice_subrange(buffer.as_slice(), 0, at);
                assert(bytes@ == before.take(at as int));
                let line = match utf8(bytes) {
                    Some(text) => Ok(skip_line_feeds(text)),
                    None => Err(Error::Protocol),
                };
                *buffer = rest;
                match line {
                    Ok(text) => if !text.as_str().is_empty() {
                        return Ok(Some(text));
                    },
                    Err(error) => return Err(error),
                }
            },
            None => {
                if buffer.len() > LONGEST_LINE {
                    return Err(Error::Protocol);
                }
                return Ok(None);
            },
        }
    }
}

} // verus!
