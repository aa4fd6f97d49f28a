//! Command substitutions `$( .. )` whose output Amber can compute as an expression.
use vstd::prelude::*;

use super::context::RenderContext;
use super::fallback::{
    command_literal_from_command, command_literal_from_shell, spec_literal_from_command,
    spec_literal_from_shell,
};
use super::word::{
    render_condition_expr, render_simple_function_call_expr, spec_condition,
    spec_function_call, spec_word_to_expr, string_to_expr,
};
use crate::amber::builtins::{render_builtin_expr, spec_render_builtin_expr};
use crate::bash::ast::{trees, Command, Connector, Program};
use crate::bash::parser::{fails_to_parse, parse, parsed_statements};
use crate::text::{
    chars_of, eq_lit, push_all, push_str, spec_strip_prefix, spec_strip_suffix, spec_trim,
    string_of, strip_prefix_lit, strip_suffix_lit, trim,
};

verus! {

/// The value a command prints, when it is `echo`, `echo word` or a single word.
pub open spec fn spec_command_output(command: Command, ctx: RenderContext) -> Option<Seq<char>> {
    match command {
        Command::Simple(s) => {
            let w = s.words@;
            if w.len() == 0 {
                None
            } else if w[0]@ == "echo"@ {
                if w.len() == 1 {
                    Some("\"\""@)
                } else if w.len() == 2 {
                    spec_word_to_expr(w[1]@, ctx)
                } else {
                    None
                }
            } else if w.len() == 1 {
                spec_word_to_expr(w[0]@, ctx)
            } else {
                None
            }
        },
        _ => None,
    }
}

pub fn render_command_output_expr(command: &Command, ctx: &RenderContext) -> (r: Option<Vec<char>>)
    requires
        ctx.wf(),
    ensures
        match r {
            Some(v) => spec_command_output(*command, *ctx) == Some(v@),
            None => spec_command_output(*command, *ctx) is None,
        },
{
    let simple = match command {
        Command::Simple(s) => s,
        _ => return None,
    };
    let w = &simple.words;
    if w.len() == 0 {
        return None;
    }
    if eq_lit(&chars_of(w[0].as_str()), "echo") {
        if w.len() == 1 {
            return Some(chars_of("\"\""));
        }
        if w.len() == 2 {
            return string_to_expr(&w[1], ctx);
        }
        return None;
    }
    if w.len() == 1 {
        return string_to_expr(&w[0], ctx);
    }
    None
}

/// `cond && a || b` as `cond then a else b`, with `a` and `b` printed values.
pub open spec fn spec_and_or_ternary(command: Command, ctx: RenderContext) -> Option<Seq<char>> {
    match command {
        Command::Connection(or_c) => if or_c.op != Connector::Or {
            None
        } else {
            match *or_c.left {
                Command::Connection(and_c) => if and_c.op != Connector::And {
                    None
                } else {
                    match (
                        spec_condition(*and_c.left, ctx),
                        spec_command_output(*and_c.right, ctx),
                        spec_command_output(*or_c.right, ctx),
                    ) {
                        (Some(c), Some(t), Some(f)) => Some(c + " then "@ + t + " else "@ + f),
                        _ => None,
                    }
                },
                _ => None,
            }
        },
        _ => None,
    }
}

fn ternary_text(c: &Vec<char>, t: &Vec<char>, f: &Vec<char>) -> (r: Vec<char>)
    ensures
        r@ == c@ + " then "@ + t@ + " else "@ + f@,
{
    let mut out = crate::text::to_vec(c);
    push_str(&mut out, " then ");
    push_all(&mut out, t);
    push_str(&mut out, " else ");
    push_all(&mut out, f);
    out
}

pub fn render_and_or_ternary_expr(command: &Command, ctx: &RenderContext) -> (r: Option<Vec<char>>)
    requires
        ctx.wf(),
    ensures
        match r {
            Some(v) => spec_and_or_ternary(*command, *ctx) == Some(v@),
            None => spec_and_or_ternary(*command, *ctx) is None,
        },
{
    let or_connection = match command {
        Command::Connection(c) => c,
        _ => return None,
    };
    if or_connection.op != Connector::Or {
        return None;
    }
    let and_connection = match &*or_connection.left {
        Command::Connection(c) => c,
        _ => return None,
    };
    if and_connection.op != Connector::And {
        return None;
    }
    let condition = match render_condition_expr(&and_connection.left, ctx) {
        Some(c) => c,
        None => return None,
    };
    let when_true = match render_command_output_expr(&and_connection.right, ctx) {
        Some(c) => c,
        None => return None,
    };
    let when_false = match render_command_output_expr(&or_connection.right, ctx) {
        Some(c) => c,
        None => return None,
    };
    Some(ternary_text(&condition, &when_true, &when_false))
}

/// The printed value of a body that is one `echo` with at most one word.
pub open spec fn spec_echo_expression(body: Seq<Command>, ctx: RenderContext) -> Option<Seq<char>> {
    if body.len() != 1 {
        None
    } else {
        match body[0] {
            Command::Simple(s) => {
                let w = s.words@;
                if w.len() == 0 || w[0]@ != "echo"@ {
                    None
                } else if w.len() == 1 {
                    Some("\"\""@)
                } else if w.len() == 2 {
                    spec_word_to_expr(w[1]@, ctx)
                } else {
                    None
                }
            },
            _ => None,
        }
    }
}

pub fn extract_echo_expression(body: &Vec<Command>, ctx: &RenderContext) -> (r: Option<Vec<char>>)
    requires
        ctx.wf(),
    ensures
        match r {
            Some(v) => spec_echo_expression(body@, *ctx) == Some(v@),
            None => spec_echo_expression(body@, *ctx) is None,
        },
{
    if body.len() != 1 {
        return None;
    }
    let simple = match &body[0] {
        Command::Simple(s) => s,
        _ => return None,
    };
    let w = &simple.words;
    if w.len() == 0 || !eq_lit(&chars_of(w[0].as_str()), "echo") {
        return None;
    }
    if w.len() == 1 {
        return Some(chars_of("\"\""));
    }
    if w.len() == 2 {
        return string_to_expr(&w[1], ctx);
    }
    None
}

// ---------------------------------------------------------------------------
// From the parsed substitution
// ---------------------------------------------------------------------------

/// `$(if c; then echo a; else echo b; fi)` as `c then a else b`.
pub open spec fn spec_if_of_program(statements: Seq<Command>, ctx: RenderContext) -> Option<Seq<char>> {
    if statements.len() != 1 {
        None
    } else {
        match statements[0] {
            Command::If(i) => match i.else_body {
                Some(b) => match (spec_condition(*i.condition, ctx), spec_echo_expression(i.then_body@, ctx), spec_echo_expression(b@, ctx)) {
                    (Some(c), Some(t), Some(f)) => Some(c + " then "@ + t + " else "@ + f),
                    _ => None,
                },
                None => None,
            },
            _ => None,
        }
    }
}

pub fn if_expression_of_program(program: &Program, ctx: &RenderContext) -> (r: Option<Vec<char>>)
    requires
        ctx.wf(),
    ensures
        match r {
            Some(v) => spec_if_of_program(program.statements@, *ctx) == Some(v@),
            None => spec_if_of_program(program.statements@, *ctx) is None,
        },
{
    if program.statements.len() != 1 {
        return None;
    }
    let if_cmd = match &program.statements[0] {
        Command::If(i) => i,
        _ => return None,
    };
    let else_body = match &if_cmd.else_body {
        Some(b) => b,
        None => return None,
    };
    let condition = match render_condition_expr(&if_cmd.condition, ctx) {
        Some(c) => c,
        None => return None,
    };
    let then_expr = match extract_echo_expression(&if_cmd.then_body, ctx) {
        Some(c) => c,
        None => return None,
    };
    let else_expr = match extract_echo_expression(else_body, ctx) {
        Some(c) => c,
        None => return None,
    };
    Some(ternary_text(&condition, &then_expr, &else_expr))
}

/// `$(cond && echo a || echo b)` as `cond then a else b`.
pub open spec fn spec_and_or_of_program(statements: Seq<Command>, ctx: RenderContext) -> Option<Seq<char>> {
    if statements.len() != 1 {
        None
    } else {
        spec_and_or_ternary(statements[0], ctx)
    }
}

pub fn and_or_expression_of_program(program: &Program, ctx: &RenderContext) -> (r: Option<Vec<char>>)
    requires
        ctx.wf(),
    ensures
        match r {
            Some(v) => spec_and_or_of_program(program.statements@, *ctx) == Some(v@),
            None => spec_and_or_of_program(program.statements@, *ctx) is None,
        },
{
    if program.statements.len() != 1 {
        return None;
    }
    render_and_or_ternary_expr(&program.statements[0], ctx)
}

/// `$(f args)` for a known function as the Amber call.
pub open spec fn spec_call_of_program(statements: Seq<Command>, ctx: RenderContext) -> Option<Seq<char>> {
    if statements.len() != 1 {
        None
    } else {
        match statements[0] {
            Command::Simple(s) => spec_function_call(s.words@, ctx),
            _ => None,
        }
    }
}

pub fn call_expression_of_program(program: &Program, ctx: &RenderContext) -> (r: Option<Vec<char>>)
    requires
        ctx.wf(),
    ensures
        match r {
            Some(v) => spec_call_of_program(program.statements@, *ctx) == Some(v@),
            None => spec_call_of_program(program.statements@, *ctx) is None,
        },
{
    if program.statements.len() != 1 {
        return None;
    }
    match &program.statements[0] {
        Command::Simple(simple) => render_simple_function_call_expr(simple, ctx),
        _ => None,
    }
}

/// Any other one-command substitution: an Amber builtin when there is one, else the command
/// as a `trust $ .. $` literal; `None` for more or fewer commands.
pub open spec fn spec_generic_of_program(statements: Seq<Command>, ctx: RenderContext) -> Option<Seq<char>> {
    if statements.len() != 1 {
        None
    } else {
        match statements[0] {
            Command::Simple(s) => match spec_render_builtin_expr(s.words@, ctx) {
                Some(b) => Some(b),
                None => Some(spec_literal_from_command(statements[0], ctx)),
            },
            _ => Some(spec_literal_from_command(statements[0], ctx)),
        }
    }
}

pub fn generic_expression_of_program(program: &Program, ctx: &RenderContext) -> (r: Option<Vec<char>>)
    requires
        ctx.wf(),
    ensures
        match r {
            Some(v) => spec_generic_of_program(program.statements@, *ctx) == Some(v@),
            None => spec_generic_of_program(program.statements@, *ctx) is None,
        },
{
    if program.statements.len() != 1 {
        return None;
    }
    let command = &program.statements[0];
    if let Command::Simple(simple) = command {
        if let Some(b) = render_builtin_expr(simple, ctx) {
            return Some(b);
        }
    }
    Some(command_literal_from_command(command, ctx))
}

// ---------------------------------------------------------------------------
// From the text
// ---------------------------------------------------------------------------

/// The inside of `$( .. )`, trimmed, when `value` (trimmed) is one.
pub open spec fn substitution_inner(value: Seq<char>) -> Option<Seq<char>> {
    match spec_strip_prefix(spec_trim(value), "$("@) {
        Some(a) => match spec_strip_suffix(a, ")"@) {
            Some(b) => Some(spec_trim(b)),
            None => None,
        },
        None => None,
    }
}

fn command_substitution_inner(value: &[char]) -> (r: Option<Vec<char>>)
    ensures
        match r {
            Some(v) => substitution_inner(value@) == Some(v@),
            None => substitution_inner(value@) is None,
        },
{
    let trimmed = trim(value);
    let a = match strip_prefix_lit(&trimmed, "$(") {
        Some(a) => a,
        None => return None,
    };
    let b = match strip_suffix_lit(&a, ")") {
        Some(b) => b,
        None => return None,
    };
    Some(trim(&b))
}

fn parse_inner(inner: &Vec<char>) -> (r: Option<Program>)
    ensures
        fails_to_parse(inner@) ==> r is None,
        parsed_statements(inner@) matches Some(statements) ==> (r matches Some(p) && trees(p.statements@) == statements),
{
    match parse(string_of(inner).as_str(), None) {
        Ok(p) => Some(p),
        Err(_) => None,
    }
}

/// The characters of an optional text.
pub open spec fn option_view(r: Option<Vec<char>>) -> Option<Seq<char>> {
    match r {
        Some(v) => Some(v@),
        None => None,
    }
}

/// `$(if ..; fi)` that chooses between two printed values, as an Amber `then`/`else`.
pub fn parse_if_command_substitution_expression(value: &[char], ctx: &RenderContext) -> (r: Option<Vec<char>>)
    requires
        ctx.wf(),
    ensures
        substitution_inner(value@) is None ==> r is None,
        substitution_inner(value@) matches Some(inner) && fails_to_parse(inner) ==> r is None,
        substitution_inner(value@) matches Some(inner) ==> (parsed_statements(inner) matches Some(views)
            ==> exists|ss: Seq<Command>| #[trigger] trees(ss) == views && option_view(r) == spec_if_of_program(ss, *ctx)),
{
    let inner = match command_substitution_inner(value) {
        Some(i) => i,
        None => return None,
    };
    match parse_inner(&inner) {
        Some(program) => {
            let r = if_expression_of_program(&program, ctx);
            proof {
                assert(option_view(r) == spec_if_of_program(program.statements@, *ctx));
            }
            r
        },
        None => None,
    }
}

/// `$(cond && echo a || echo b)` as an Amber `then`/`else`.
pub fn parse_and_or_command_substitution_expression(value: &[char], ctx: &RenderContext) -> (r: Option<Vec<char>>)
    requires
        ctx.wf(),
    ensures
        substitution_inner(value@) is None ==> r is None,
        substitution_inner(value@) matches Some(inner) && fails_to_parse(inner) ==> r is None,
        substitution_inner(value@) matches Some(inner) ==> (parsed_statements(inner) matches Some(views)
            ==> exists|ss: Seq<Command>| #[trigger] trees(ss) == views && option_view(r) == spec_and_or_of_program(ss, *ctx)),
{
    let inner = match command_substitution_inner(value) {
        Some(i) => i,
        None => return None,
    };
    match parse_inner(&inner) {
        Some(program) => {
            let r = and_or_expression_of_program(&program, ctx);
            proof {
                assert(option_view(r) == spec_and_or_of_program(program.statements@, *ctx));
            }
            r
        },
        None => None,
    }
}

/// `$(f args)` for a known function as the Amber call.
pub fn parse_function_call_command_substitution_expression(value: &[char], ctx: &RenderContext) -> (r: Option<Vec<char>>)
    requires
        ctx.wf(),
    ensures
        substitution_inner(value@) is None ==> r is None,
        substitution_inner(value@) matches Some(inner) && fails_to_parse(inner) ==> r is None,
        substitution_inner(value@) matches Some(inner) ==> (parsed_statements(inner) matches Some(views)
            ==> exists|ss: Seq<Command>| #[trigger] trees(ss) == views && option_view(r) == spec_call_of_program(ss, *ctx)),
{
    let inner = match command_substitution_inner(value) {
        Some(i) => i,
        None => return None,
    };
    match parse_inner(&inner) {
        Some(program) => {
            let r = call_expression_of_program(&program, ctx);
            proof {
                assert(option_view(r) == spec_call_of_program(program.statements@, *ctx));
            }
            r
        },
        None => None,
    }
}

/// Whether `source` does not parse as exactly one statement.
pub open spec fn not_one_statement(source: Seq<char>) -> bool {
    fails_to_parse(source) || (parsed_statements(source) matches Some(statements) && statements.len() != 1)
}

/// Any `$( .. )` with something inside: a builtin, a `trust $ .. $` literal of the parsed
/// command, or, when it does not parse as one command, of the text itself.
pub fn parse_generic_command_substitution_expression(value: &[char], ctx: &RenderContext) -> (r: Option<Vec<char>>)
    requires
        ctx.wf(),
    ensures
        match substitution_inner(value@) {
            None => r is None,
            Some(inner) => (inner.len() == 0) == r is None,
        },
        substitution_inner(value@) matches Some(inner) ==> (inner.len() > 0 && not_one_statement(inner)
            ==> (r matches Some(v) && v@ == spec_literal_from_shell(inner))),
{
    let inner = match command_substitution_inner(value) {
        Some(i) => i,
        None => return None,
    };
    if inner.len() == 0 {
        return None;
    }
    if let Some(program) = parse_inner(&inner) {
        proof {
            crate::bash::ast::lemma_trees_len(program.statements@);
        }
        if program.statements.len() == 1 {
            return generic_expression_of_program(&program, ctx);
        }
    }
    Some(command_literal_from_shell(&inner))
}

} // verus!
