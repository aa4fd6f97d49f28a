//! `exit [code]` as `exit(code)` or `exit()`.
use vstd::prelude::*;

use super::{is_option, starts_with_dash};
use crate::amber::render::context::RenderContext;
use crate::amber::render::word::{spec_word_to_expr, string_to_expr};
use crate::bash::ast::SimpleCommand;
use crate::text::{chars_of, push_all, push_str};

verus! {

/// `exit()` for `exit`, `exit(code)` for `exit code`; no options, at most one argument.
pub open spec fn spec_render(words: Seq<String>, ctx: RenderContext) -> Option<Seq<char>> {
    if words.len() <= 1 {
        Some("exit()"@)
    } else if is_option(words[1]@) {
        None
    } else {
        match spec_word_to_expr(words[1]@, ctx) {
            None => None,
            Some(c) => if words.len() > 2 {
                None
            } else {
                Some("exit("@ + c + ")"@)
            },
        }
    }
}

pub fn render(simple: &SimpleCommand, ctx: &RenderContext) -> (r: Option<Vec<char>>)
    requires
        ctx.wf(),
    ensures
        match r {
            Some(v) => spec_render(simple.words@, *ctx) == Some(v@),
            None => spec_render(simple.words@, *ctx) is None,
        },
{
    let words = &simple.words;
    if words.len() <= 1 {
        return Some(chars_of("exit()"));
    }
    if starts_with_dash(&words[1]) {
        return None;
    }
    let code = match string_to_expr(&words[1], ctx) {
        Some(c) => c,
        None => return None,
    };
    if words.len() > 2 {
        return None;
    }
    let mut out = chars_of("exit(");
    push_all(&mut out, &code);
    push_str(&mut out, ")");
    Some(out)
}

} // verus!
