//! `clear` as `clear()`.
use vstd::prelude::*;

use crate::bash::ast::SimpleCommand;
use crate::text::chars_of;

verus! {

/// `clear()` for `clear` without arguments.
pub open spec fn spec_render(words: Seq<String>) -> Option<Seq<char>> {
    if words.len() > 1 {
        None
    } else {
        Some("clear()"@)
    }
}

pub fn render(simple: &SimpleCommand) -> (r: Option<Vec<char>>)
    ensures
        match r {
            Some(v) => spec_render(simple.words@) == Some(v@),
            None => spec_render(simple.words@) is None,
        },
{
    if simple.words.len() > 1 {
        return None;
    }
    Some(chars_of("clear()"))
}

} // verus!
