//! Bash commands that Amber has as standard library functions.
use vstd::prelude::*;

use super::render::context::RenderContext;
use crate::bash::ast::SimpleCommand;
use crate::text::eq_lit;

pub mod cd;
pub mod clear;
pub mod cp;
pub mod exit;
pub mod len;
pub mod ls;
pub mod rm;
pub mod sleep;

verus! {

/// Whether a word is an option: it starts with `-`.
pub open spec fn is_option(w: Seq<char>) -> bool {
    w.len() > 0 && w[0] == '-'
}

pub fn starts_with_dash(w: &String) -> (r: bool)
    ensures
        r == is_option(w@),
{
    let c = crate::text::chars_of(w.as_str());
    c.len() > 0 && c[0] == '-'
}

/// Which standard library function renders a statement named `name`.
pub open spec fn statement_builtin(name: Seq<char>) -> int {
    if name == "cd"@ {
        1
    } else if name == "clear"@ {
        2
    } else if name == "cp"@ {
        3
    } else if name == "exit"@ {
        4
    } else if name == "ls"@ {
        5
    } else if name == "rm"@ {
        6
    } else if name == "sleep"@ {
        7
    } else {
        0
    }
}

/// The Amber call for a Bash command that Amber has as a function, used as a statement:
/// `cd`, `clear`, `cp`, `exit`, `ls`, `rm` and `sleep`.
pub open spec fn spec_render_builtin(words: Seq<String>, ctx: RenderContext) -> Option<Seq<char>> {
    if words.len() == 0 {
        None
    } else {
        let k = statement_builtin(words[0]@);
        if k == 1 {
            cd::spec_render(words, ctx)
        } else if k == 2 {
            clear::spec_render(words)
        } else if k == 3 {
            cp::spec_render(words, ctx)
        } else if k == 4 {
            exit::spec_render(words, ctx)
        } else if k == 5 {
            ls::spec_render(words, ctx)
        } else if k == 6 {
            rm::spec_render(words, ctx)
        } else if k == 7 {
            sleep::spec_render(words, ctx)
        } else {
            None
        }
    }
}

pub fn render_builtin(simple: &SimpleCommand, ctx: &RenderContext) -> (r: Option<Vec<char>>)
    requires
        ctx.wf(),
    ensures
        match r {
            Some(v) => spec_render_builtin(simple.words@, *ctx) == Some(v@),
            None => spec_render_builtin(simple.words@, *ctx) is None,
        },
{
    if simple.words.len() == 0 {
        return None;
    }
    let name = crate::text::chars_of(simple.words[0].as_str());
    if eq_lit(&name, "cd") {
        cd::render(simple, ctx)
    } else if eq_lit(&name, "clear") {
        clear::render(simple)
    } else if eq_lit(&name, "cp") {
        cp::render(simple, ctx)
    } else if eq_lit(&name, "exit") {
        exit::render(simple, ctx)
    } else if eq_lit(&name, "ls") {
        ls::render(simple, ctx)
    } else if eq_lit(&name, "rm") {
        rm::render(simple, ctx)
    } else if eq_lit(&name, "sleep") {
        sleep::render(simple, ctx)
    } else {
        None
    }
}

/// The Amber expression for a command whose output is captured and that Amber has as a
/// function: `ls` and `len`.
pub open spec fn spec_render_builtin_expr(words: Seq<String>, ctx: RenderContext) -> Option<Seq<char>> {
    if words.len() == 0 {
        None
    } else if words[0]@ == "ls"@ {
        ls::spec_render(words, ctx)
    } else if words[0]@ == "len"@ {
        len::spec_render(words, ctx)
    } else {
        None
    }
}

pub fn render_builtin_expr(simple: &SimpleCommand, ctx: &RenderContext) -> (r: Option<Vec<char>>)
    requires
        ctx.wf(),
    ensures
        match r {
            Some(v) => spec_render_builtin_expr(simple.words@, *ctx) == Some(v@),
            None => spec_render_builtin_expr(simple.words@, *ctx) is None,
        },
{
    if simple.words.len() == 0 {
        return None;
    }
    let name = crate::text::chars_of(simple.words[0].as_str());
    if eq_lit(&name, "ls") {
        ls::render(simple, ctx)
    } else if eq_lit(&name, "len") {
        len::render(simple, ctx)
    } else {
        None
    }
}

} // verus!
