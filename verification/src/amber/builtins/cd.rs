//! `cd path` as `cd(path)`.
use vstd::prelude::*;

use super::{is_option, starts_with_dash};
use crate::amber::render::context::RenderContext;
use crate::amber::render::word::{spec_word_to_expr, string_to_expr};
use crate::bash::ast::SimpleCommand;
use crate::text::{chars_of, push_all, push_str};

verus! {

/// `cd(path)` for `cd path ...` without options; the first argument is the path.
pub open spec fn spec_render(words: Seq<String>, ctx: RenderContext) -> Option<Seq<char>> {
    if words.len() < 2 || exists|k: int| 1 <= k < words.len() && is_option(#[trigger] words[k]@) {
        None
    } else {
        match spec_word_to_expr(words[1]@, ctx) {
            Some(p) => Some("cd("@ + p + ")"@),
            None => None,
        }
    }
}

pub fn render(simple: &SimpleCommand, ctx: &RenderContext) -> (r: Option<Vec<char>>)
    requires
        ctx.wf(),
    ensures
        match r {
            Some(v) => spec_render(simple.words@, *ctx) == Some(v@),
            None => spec_render(simple.words@, *ctx) is None,
        },
{
    let words = &simple.words;
    if words.len() < 2 {
        return None;
    }
    let mut k: usize = 1;
    while k < words.len()
        invariant
            1 <= k <= words@.len(),
            words@ == simple.words@,
            ctx.wf(),
            forall|j: int| 1 <= j < k ==> !is_option(#[trigger] words@[j]@),
        decreases words@.len() - k,
    {
        if starts_with_dash(&words[k]) {
            return None;
        }
        k += 1;
    }
    let path = match string_to_expr(&words[1], ctx) {
        Some(p) => p,
        None => return None,
    };
    let mut out = chars_of("cd(");
    push_all(&mut out, &path);
    push_str(&mut out, ")");
    Some(out)
}

} // verus!
