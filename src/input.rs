//! Cleaning up a line typed by the user.
use vstd::prelude::*;

verus! {

/// `line` without one trailing line feed, and then without one trailing
/// carriage return.
pub open spec fn without_line_ending(line: Seq<u8>) -> Seq<u8> {
    let a = if line.len() > 0 && line.last() == 10 {
        line.drop_last()
    } else {
        line
    };
    if a.len() > 0 && a.last() == 13 {
        a.drop_last()
    } else {
        a
    }
}

/// Removes the line ending that reading a line leaves: a trailing `\n`,
/// then a trailing `\r`.
pub fn strip_line_ending(line: Vec<u8>) -> (r: Vec<u8>)
    ensures
        r@ == without_line_ending(line@),
{
    let mut line = line;
    if line.len() > 0 && line[line.len() - 1] == 10u8 {
        line.pop();
    }
    if line.len() > 0 && line[line.len() - 1] == 13u8 {
        line.pop();
    }
    line
}

} // verus!
