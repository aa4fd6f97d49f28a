//! `sleep seconds` as `sleep(seconds)`.
use vstd::prelude::*;

use super::{is_option, starts_with_dash};
use crate::amber::render::context::RenderContext;
use crate::amber::render::word::{spec_word_to_expr, string_to_expr};
use crate::bash::ast::SimpleCommand;
use crate::text::{chars_of, push_all, push_str};

verus! {

/// `sleep(seconds)` for `sleep seconds`.
pub open spec fn spec_render(words: Seq<String>, ctx: RenderContext) -> Option<Seq<char>> {
    if words.len() != 2 || is_option(words[1]@) {
        None
    } else {
        match spec_word_to_expr(words[1]@, ctx) {
            Some(e) => Some("sleep("@ + e + ")"@),
            None => None,
        }
    }
}

pub fn render(simple: &SimpleCommand, ctx: &RenderContext) -> (r: Option<Vec<char>>)
    requires
        ctx.wf(),
    ensures
        match r {
            Some(v) => spec_render(simple.words@, *ctx) == Some(v@),
            None => spec_render(simple.words@, *ctx) is None,
        },
{
    if simple.words.len() != 2 || starts_with_dash(&simple.words[1]) {
        return None;
    }
    let e = match string_to_expr(&simple.words[1], ctx) {
        Some(e) => e,
        None => return None,
    };
    let mut out = chars_of("sleep(");
    push_all(&mut out, &e);
    push_str(&mut out, ")");
    Some(out)
}

} // verus!
