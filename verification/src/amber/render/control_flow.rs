//! `for (( .. ))` ranges, ternary assignments and echoes, tail returns and `case`.
use vstd::prelude::*;

use super::context::{child_of, same_but_vars, var_of, RenderContext};
use super::simple_cmd::known_assignment_value;
use super::fallback::{command_literal_from_command, spec_literal_from_command};
use super::fragment_expr::{render_expression_fragment, spec_expression_text};
use super::word::{
    assignment_sides, has_unresolved_shell_var, parse_assignment, parse_variable_reference, render_condition_expr,
    render_simple_function_call_expr, spec_condition, spec_function_call, spec_has_unresolved, spec_var_ref,
    spec_word_to_expr, string_to_expr, word_to_expr,
};
use super::{block_rendered, block_rendered_to, commands_rendered, ctx_kept, render_commands};
use crate::amber::fragments::{
    render_kind, BlockFragment, FragmentKind, IfChainBranch, IfChainFragment, RawFragment,
};
use crate::bash::ast::{
    CaseClause, CaseClauseTerminator, CaseCommand, CStyleForCommand, Command, Connection, Connector,
    IfCommand, SimpleCommand,
};
use crate::text::{
    chars_of, ends_with_lit, eq_lit, is_identifier, is_number, join_lit, push_all, push_str, seq_eq,
    spec_is_identifier, spec_is_number, spec_split_once, spec_strip_whitespace, split_once_lit,
    string_of, strip_whitespace, to_vec, views,
};

verus! {

// ---------------------------------------------------------------------------
// `for (( i = a; i < b; i++ ))` as a range
// ---------------------------------------------------------------------------

/// A C-style `for` that counts through a range.
pub struct CStyleForRangeSpec {
    pub variable: Vec<char>,
    pub start: Vec<char>,
    pub end: Vec<char>,
    pub inclusive: bool,
}

/// `var op bound` for the first of `<=`, `>=`, `<`, `>` that splits the condition into two
/// non-empty sides.
pub open spec fn spec_c_condition(condition: Seq<char>) -> Option<(Seq<char>, Seq<char>, Seq<char>)> {
    if spec_split_once(condition, "<="@) matches Some((l, r)) && l.len() > 0 && r.len() > 0 {
        Some((spec_split_once(condition, "<="@).unwrap().0, "<="@, spec_split_once(condition, "<="@).unwrap().1))
    } else if spec_split_once(condition, ">="@) matches Some((l, r)) && l.len() > 0 && r.len() > 0 {
        Some((spec_split_once(condition, ">="@).unwrap().0, ">="@, spec_split_once(condition, ">="@).unwrap().1))
    } else if spec_split_once(condition, "<"@) matches Some((l, r)) && l.len() > 0 && r.len() > 0 {
        Some((spec_split_once(condition, "<"@).unwrap().0, "<"@, spec_split_once(condition, "<"@).unwrap().1))
    } else if spec_split_once(condition, ">"@) matches Some((l, r)) && l.len() > 0 && r.len() > 0 {
        Some((spec_split_once(condition, ">"@).unwrap().0, ">"@, spec_split_once(condition, ">"@).unwrap().1))
    } else {
        None
    }
}

/// What a Bash arithmetic comparison of a loop's condition asks of two integers.
pub open spec fn bash_loop_comparison(op: Seq<char>, x: int, y: int) -> Option<bool> {
    if op == "<"@ {
        Some(x < y)
    } else if op == "<="@ {
        Some(x <= y)
    } else if op == ">"@ {
        Some(x > y)
    } else if op == ">="@ {
        Some(x >= y)
    } else {
        None
    }
}

fn split_condition_with(condition: &[char], op: &str) -> (r: Option<(Vec<char>, Vec<char>)>)
    ensures
        match r {
            Some((l, x)) => spec_split_once(condition@, op@) == Some((l@, x@)) && l@.len() > 0 && x@.len() > 0,
            None => !(spec_split_once(condition@, op@) matches Some((l, x)) && l.len() > 0 && x.len() > 0),
        },
{
    match split_once_lit(condition, op) {
        Some((l, x)) => if l.len() > 0 && x.len() > 0 {
            Some((l, x))
        } else {
            None
        },
        None => None,
    }
}

fn parse_c_style_condition(condition: &[char]) -> (r: Option<(Vec<char>, Vec<char>, Vec<char>)>)
    ensures
        match r {
            Some((l, o, x)) => spec_c_condition(condition@) == Some((l@, o@, x@)),
            None => spec_c_condition(condition@) is None,
        },
{
    if let Some((l, x)) = split_condition_with(condition, "<=") {
        return Some((l, chars_of("<="), x));
    }
    if let Some((l, x)) = split_condition_with(condition, ">=") {
        return Some((l, chars_of(">="), x));
    }
    if let Some((l, x)) = split_condition_with(condition, "<") {
        return Some((l, chars_of("<"), x));
    }
    if let Some((l, x)) = split_condition_with(condition, ">") {
        return Some((l, chars_of(">"), x));
    }
    None
}

/// Whether the update steps up (`Some(true)`: `v++`, `++v`) or down (`Some(false)`).
pub open spec fn spec_c_update(update: Seq<char>, variable: Seq<char>) -> Option<bool> {
    if update == variable + "++"@ || update == "++"@ + variable {
        Some(true)
    } else if update == variable + "--"@ || update == "--"@ + variable {
        Some(false)
    } else {
        None
    }
}

fn concat2(a: &[char], b: &str) -> (r: Vec<char>)
    ensures
        r@ == a@ + b@,
{
    let mut out = to_vec(a);
    push_str(&mut out, b);
    out
}

fn concat_lit_first(a: &str, b: &[char]) -> (r: Vec<char>)
    ensures
        r@ == a@ + b@,
{
    let mut out = chars_of(a);
    push_all(&mut out, b);
    out
}

fn parse_c_style_update(update: &[char], variable: &[char]) -> (r: Option<bool>)
    ensures
        r == spec_c_update(update@, variable@),
{
    if seq_eq(update, &concat2(variable, "++")) || seq_eq(update, &concat_lit_first("++", variable)) {
        return Some(true);
    }
    if seq_eq(update, &concat2(variable, "--")) || seq_eq(update, &concat_lit_first("--", variable)) {
        return Some(false);
    }
    None
}

/// A bound of a range: a number, or a declared variable.
pub open spec fn spec_c_bound(raw: Seq<char>, ctx: RenderContext) -> Option<Seq<char>> {
    if raw.len() == 0 {
        None
    } else if spec_is_number(raw) {
        Some(raw)
    } else if spec_is_identifier(raw) {
        match var_of(ctx, raw) {
            Some(a) => Some(a),
            None => spec_var_ref(raw, ctx),
        }
    } else {
        None
    }
}

fn parse_c_style_bound_expr(raw: &[char], ctx: &RenderContext) -> (r: Option<Vec<char>>)
    requires
        ctx.wf(),
    ensures
        match r {
            Some(v) => spec_c_bound(raw@, *ctx) == Some(v@),
            None => spec_c_bound(raw@, *ctx) is None,
        },
{
    if raw.len() == 0 {
        return None;
    }
    if is_number(raw) {
        return Some(to_vec(raw));
    }
    if is_identifier(raw) {
        if let Some(alias) = ctx.var_chars(raw) {
            return Some(alias);
        }
        return parse_variable_reference(raw, ctx);
    }
    None
}

/// `for (( v = a; v < b; v++ ))` (spaces ignored) as the range `a..b`, `..=` for `<=`,
/// counting down for `>`/`>=` with `--`: the variable, both bounds, and inclusiveness.
pub open spec fn spec_c_range(init: Seq<char>, condition: Seq<char>, update: Seq<char>, ctx: RenderContext) -> Option<(Seq<char>, Seq<char>, Seq<char>, bool)> {
    let i = spec_strip_whitespace(init);
    let c = spec_strip_whitespace(condition);
    let u = spec_strip_whitespace(update);
    match spec_split_once(i, "="@) {
        None => None,
        Some((variable, start_raw)) => if !spec_is_identifier(variable) {
            None
        } else {
            match spec_c_condition(c) {
                None => None,
                Some((cv, op, end_raw)) => if cv != variable {
                    None
                } else {
                    match spec_c_update(u, variable) {
                        None => None,
                        Some(up) => if (op == "<"@ || op == "<="@) != up {
                            None
                        } else {
                            match (spec_c_bound(start_raw, ctx), spec_c_bound(end_raw, ctx)) {
                                (Some(s), Some(e)) => Some((variable, s, e, op == "<="@ || op == ">="@)),
                                _ => None,
                            }
                        },
                    }
                },
            }
        },
    }
}

/// A counted C-style `for` is read off its text: `v=start` and `v <op> bound` (spaces aside)
/// with both bounds rendered, and its range takes the bound in exactly when the condition
/// still holds once the variable has reached the bound (`<=` and `>=` do, `<` and `>` do
/// not), whichever way it counts; it counts up (`++`) exactly when the condition holds below
/// the bound, down (`--`) otherwise.
pub proof fn lemma_c_range_includes_bound_when_condition_holds(init: Seq<char>, condition: Seq<char>, update: Seq<char>, ctx: RenderContext)
    requires
        spec_c_range(init, condition, update, ctx) is Some,
    ensures
        spec_c_range(init, condition, update, ctx) matches Some((v, s, e, inclusive)) && exists|start_raw: Seq<char>, op: Seq<char>, bound: Seq<char>| {
            &&& spec_strip_whitespace(init) == v + "="@ + start_raw
            &&& spec_c_bound(start_raw, ctx) == Some(s)
            &&& spec_strip_whitespace(condition) == v + op + bound
            &&& spec_c_bound(bound, ctx) == Some(e)
            &&& bash_loop_comparison(op, 0, 0) is Some
            &&& forall|x: int| #[trigger] bash_loop_comparison(op, x, x) == Some(inclusive)
            &&& if bash_loop_comparison(op, 0, 1) == Some(true) {
                spec_strip_whitespace(update) == v + "++"@ || spec_strip_whitespace(update) == "++"@ + v
            } else {
                spec_strip_whitespace(update) == v + "--"@ || spec_strip_whitespace(update) == "--"@ + v
            }
        },
{
    let i = spec_strip_whitespace(init);
    let c = spec_strip_whitespace(condition);
    crate::text::lemma_split_once_parts(i, "="@);
    let (variable, start_raw) = spec_split_once(i, "="@).unwrap();
    let (cv, op, end_raw) = spec_c_condition(c).unwrap();
    crate::text::lemma_split_once_parts(c, "<="@);
    crate::text::lemma_split_once_parts(c, ">="@);
    crate::text::lemma_split_once_parts(c, "<"@);
    crate::text::lemma_split_once_parts(c, ">"@);
    reveal_strlit("<");
    reveal_strlit(">");
    reveal_strlit("<=");
    reveal_strlit(">=");
    assert("<"@.len() == 1 && "<"@[0] == '<');
    assert(">"@.len() == 1 && ">"@[0] == '>');
    assert("<="@.len() == 2 && "<="@[0] == '<');
    assert(">="@.len() == 2 && ">="@[0] == '>');
    assert(c == cv + op + end_raw);
    let (v, s0, e, inclusive) = spec_c_range(init, condition, update, ctx).unwrap();
    assert forall|x: int| #[trigger] bash_loop_comparison(op, x, x) == Some(inclusive) by {}
    reveal_strlit("++");
    reveal_strlit("--");
    assert("++"@.len() == 2 && "++"@[0] == '+');
    assert("--"@.len() == 2 && "--"@[0] == '-');
    let u = spec_strip_whitespace(update);
    let up = spec_c_update(u, variable).unwrap();
    assert(v == variable && cv == variable);
    assert((op == "<"@ || op == "<="@) == up);
    assert((bash_loop_comparison(op, 0, 1) == Some(true)) == (op == "<"@ || op == "<="@));
    if up {
        assert(u == variable + "++"@ || u == "++"@ + variable);
    } else {
        assert(u == variable + "--"@ || u == "--"@ + variable);
    }
    assert(bash_loop_comparison(op, 0, 0) is Some);
}

pub fn parse_c_style_for_range(for_cmd: &CStyleForCommand, ctx: &RenderContext) -> (r: Option<CStyleForRangeSpec>)
    requires
        ctx.wf(),
    ensures
        match r {
            Some(spec) => spec_c_range(for_cmd.init@, for_cmd.condition@, for_cmd.update@, *ctx) == Some((spec.variable@, spec.start@, spec.end@, spec.inclusive)),
            None => spec_c_range(for_cmd.init@, for_cmd.condition@, for_cmd.update@, *ctx) is None,
        },
{
    let init = strip_whitespace(&chars_of(for_cmd.init.as_str()));
    let condition = strip_whitespace(&chars_of(for_cmd.condition.as_str()));
    let update = strip_whitespace(&chars_of(for_cmd.update.as_str()));
    let (variable, start_raw) = match split_once_lit(&init, "=") {
        Some(p) => p,
        None => return None,
    };
    if !is_identifier(&variable) {
        return None;
    }
    let (cond_var, op, end_raw) = match parse_c_style_condition(&condition) {
        Some(p) => p,
        None => return None,
    };
    if !seq_eq(&cond_var, &variable) {
        return None;
    }
    let up = match parse_c_style_update(&update, &variable) {
        Some(u) => u,
        None => return None,
    };
    let counts_up = eq_lit(&op, "<") || eq_lit(&op, "<=");
    if counts_up != up {
        return None;
    }
    let start = match parse_c_style_bound_expr(&start_raw, ctx) {
        Some(s) => s,
        None => return None,
    };
    let end = match parse_c_style_bound_expr(&end_raw, ctx) {
        Some(e) => e,
        None => return None,
    };
    let inclusive = eq_lit(&op, "<=") || eq_lit(&op, ">=");
    Some(CStyleForRangeSpec { variable, start, end, inclusive })
}

// ---------------------------------------------------------------------------
// Ternaries
// ---------------------------------------------------------------------------

/// Whether `body` is one simple command.
pub open spec fn single_simple(body: Seq<Command>) -> bool {
    body.len() == 1 && body[0] is Simple
}

/// `text` begins with `let x = c then `, or with `x = c then ` when the assignment in
/// `then_command` sets a variable that `before` already binds (and is not `local`), with `x`
/// the Amber name that `after` gives the variable and `c` the condition.
pub open spec fn ternary_shape(text: Seq<char>, then_command: Command, before: RenderContext, after: RenderContext, condition: Seq<char>) -> bool {
    then_command matches Command::Simple(s) && {
        let raw = super::word::assign_raw(s.words@);
        let reassigned = s.words@[0]@ != "local"@ && var_of(before, raw) is Some;
        let prefix = (if reassigned {
            var_of(after, raw).unwrap()
        } else {
            "let "@ + var_of(after, raw).unwrap()
        }) + " = "@ + condition + " then "@;
        &&& var_of(after, raw) is Some
        &&& prefix.len() <= text.len()
        &&& text.subrange(0, prefix.len() as int) == prefix
    }
}

/// Both branches are one assignment, not `local`, of the same variable, which `ctx` already
/// binds or whose plain Amber name is free, with values known in any scope of `ctx` for a
/// nested block.
pub open spec fn known_reassignments(then_body: Seq<Command>, else_body: Seq<Command>, ctx: RenderContext) -> bool {
    &&& single_simple(then_body)
    &&& single_simple(else_body)
    &&& then_body[0] matches Command::Simple(ts) && else_body[0] matches Command::Simple(es) && {
        &&& assignment_sides(ts.words@) is Some
        &&& assignment_sides(es.words@) is Some
        &&& ts.words@[0]@ != "local"@
        &&& es.words@[0]@ != "local"@
        &&& super::word::assign_raw(ts.words@) == super::word::assign_raw(es.words@)
        &&& (var_of(ctx, super::word::assign_raw(ts.words@)) is Some
            || !super::context::name_taken(ctx, super::context::base_var_name(super::word::assign_raw(ts.words@))))
        &&& forall|c: RenderContext| #[trigger] child_of(ctx, c) ==> known_assignment_value(ts.words@, c) is Some
            && known_assignment_value(es.words@, c) is Some
    }
}

/// `if c; then x=a; else x=b; fi` as `let x = c then a else b` (or `x = ..` when `x` is
/// declared), when both branches assign the same variable in the same way.
pub fn render_if_ternary_assignment(if_cmd: &IfCommand, ctx: &mut RenderContext) -> (r: Option<Vec<char>>)
    requires
        old(ctx).wf(),
    ensures
        final(ctx).wf(),
        same_but_vars(*old(ctx), *final(ctx)),
        if_cmd.else_body is None ==> r is None && *final(ctx) == *old(ctx),
        spec_condition(*if_cmd.condition, *old(ctx)) is None ==> r is None && *final(ctx) == *old(ctx),
        !single_simple(if_cmd.then_body@) ==> r is None && *final(ctx) == *old(ctx),
        (if_cmd.else_body matches Some(b) && !single_simple(b@)) ==> r is None && *final(ctx) == *old(ctx),
        r is Some ==> (if_cmd.then_body@[0] matches Command::Simple(s) && assignment_sides(s.words@) is Some),
        r matches Some(t) ==> ternary_shape(t@, if_cmd.then_body@[0], *old(ctx), *final(ctx),
            spec_condition(*if_cmd.condition, *old(ctx)).unwrap()),
        (if_cmd.else_body matches Some(eb) && spec_condition(*if_cmd.condition, *old(ctx)) is Some
            && known_reassignments(if_cmd.then_body@, eb@, *old(ctx))) ==> r is Some,
        r is None ==> super::ternary_tried(*old(ctx), *final(ctx), *if_cmd),
{
    let else_body = match &if_cmd.else_body {
        Some(b) => b,
        None => return None,
    };
    if if_cmd.then_body.len() != 1 || else_body.len() != 1 {
        return None;
    }
    let condition = match render_condition_expr(&if_cmd.condition, ctx) {
        Some(c) => c,
        None => return None,
    };
    let then_simple = match &if_cmd.then_body[0] {
        Command::Simple(s) => s,
        _ => return None,
    };
    let else_simple = match &else_body[0] {
        Command::Simple(s) => s,
        _ => return None,
    };
    let mut then_ctx = ctx.with_child_scope();
    let ghost child = then_ctx;
    let then_assignment = match parse_assignment(then_simple, &mut then_ctx) {
        Some(a) => a,
        None => return None,
    };
    let mut else_ctx = ctx.with_child_scope();
    let else_assignment = match parse_assignment(else_simple, &mut else_ctx) {
        Some(a) => a,
        None => return None,
    };
    if !seq_eq(&then_assignment.raw_name, &else_assignment.raw_name) {
        return None;
    }
    if then_assignment.is_reassignment != else_assignment.is_reassignment {
        return None;
    }
    if !then_assignment.is_reassignment {
        let declared = ctx.declare_var(&then_assignment.raw_name);
        proof {
            assert(declared@ == super::declared_name(*old(ctx), then_assignment.raw_name@));
            assert(super::declared_in(*old(ctx), *ctx, then_assignment.raw_name@));
            assert(if_cmd.then_body@[0] == Command::Simple(*then_simple));
        }
        if !seq_eq(&chars_of(declared.as_str()), &then_assignment.name) {
            return None;
        }
    }
    let mut text = if then_assignment.is_reassignment {
        to_vec(&then_assignment.name)
    } else {
        concat_lit_first("let ", &then_assignment.name)
    };
    push_str(&mut text, " = ");
    push_all(&mut text, &condition);
    push_str(&mut text, " then ");
    push_all(&mut text, &then_assignment.value);
    push_str(&mut text, " else ");
    push_all(&mut text, &else_assignment.value);
    proof {
        let raw = then_assignment.raw_name@;
        assert(var_of(child, raw) == var_of(*old(ctx), raw));
        let reassigned = then_simple.words@[0]@ != "local"@ && var_of(*old(ctx), raw) is Some;
        let prefix = (if reassigned {
            var_of(*ctx, raw).unwrap()
        } else {
            "let "@ + var_of(*ctx, raw).unwrap()
        }) + " = "@ + condition@ + " then "@;
        assert(text@.subrange(0, prefix.len() as int) =~= prefix);
        assert(if_cmd.then_body@[0] == Command::Simple(*then_simple));
    }
    Some(text)
}

/// The printed value of `echo`, `echo word`.
pub open spec fn spec_echo_payload(command: Command, ctx: RenderContext) -> Option<Seq<char>> {
    match command {
        Command::Simple(s) => {
            let w = s.words@;
            if w.len() == 0 || w[0]@ != "echo"@ {
                None
            } else if w.len() == 1 {
                Some("\"\""@)
            } else if w.len() == 2 {
                spec_word_to_expr(w[1]@, ctx)
            } else {
                None
            }
        },
        _ => None,
    }
}

fn echo_payload_expr(command: &Command, ctx: &RenderContext) -> (r: Option<Vec<char>>)
    requires
        ctx.wf(),
    ensures
        match r {
            Some(v) => spec_echo_payload(*command, *ctx) == Some(v@),
            None => spec_echo_payload(*command, *ctx) is None,
        },
{
    let simple = match command {
        Command::Simple(s) => s,
        _ => return None,
    };
    let w = &simple.words;
    if w.len() == 0 || !eq_lit(&chars_of(w[0].as_str()), "echo") {
        return None;
    }
    if w.len() == 1 {
        return Some(chars_of("\"\""));
    }
    if w.len() == 2 {
        return string_to_expr(&w[1], ctx);
    }
    None
}

/// `c && echo a || echo b` as `echo(c then a else b)`.
pub open spec fn spec_echo_ternary(connection: Connection, ctx: RenderContext) -> Option<Seq<char>> {
    if connection.op != Connector::Or {
        None
    } else {
        match *connection.left {
            Command::Connection(and_c) => if and_c.op != Connector::And {
                None
            } else {
                match (
                    spec_condition(*and_c.left, ctx),
                    spec_echo_payload(*and_c.right, ctx),
                    spec_echo_payload(*connection.right, ctx),
                ) {
                    (Some(c), Some(t), Some(f)) => Some("echo("@ + c + " then "@ + t + " else "@ + f + ")"@),
                    _ => None,
                }
            },
            _ => None,
        }
    }
}

/// The command that `c && x || y` runs first: `c`.
pub open spec fn and_or_condition(connection: Connection) -> Command {
    match *connection.left {
        Command::Connection(and_c) => *and_c.left,
        _ => *connection.left,
    }
}

/// The command whose output `c && x || y` shows in Bash when `x` succeeds: `x` when `c`
/// succeeds, `y` when it fails.
pub open spec fn and_or_shown(connection: Connection, condition_holds: bool) -> Command {
    match *connection.left {
        Command::Connection(and_c) => if condition_holds {
            *and_c.right
        } else {
            *connection.right
        },
        _ => *connection.right,
    }
}

/// `c && echo a || echo b` becomes `echo(C then A else B)` with `A` what Bash prints when
/// `c` succeeds and `B` what it prints when `c` fails: the value after `then` is the one for
/// a condition that holds.
pub proof fn lemma_echo_ternary_keeps_branches(connection: Connection, ctx: RenderContext)
    requires
        spec_echo_ternary(connection, ctx) is Some,
    ensures
        spec_echo_ternary(connection, ctx) == Some("echo("@ + spec_condition(and_or_condition(connection), ctx).unwrap()
            + " then "@ + spec_echo_payload(and_or_shown(connection, true), ctx).unwrap()
            + " else "@ + spec_echo_payload(and_or_shown(connection, false), ctx).unwrap() + ")"@),
{
}

pub fn render_echo_ternary_connection(connection: &Connection, ctx: &RenderContext) -> (r: Option<Vec<char>>)
    requires
        ctx.wf(),
    ensures
        match r {
            Some(v) => spec_echo_ternary(*connection, *ctx) == Some(v@),
            None => spec_echo_ternary(*connection, *ctx) is None,
        },
{
    if connection.op != Connector::Or {
        return None;
    }
    let and_connection = match &*connection.left {
        Command::Connection(c) => c,
        _ => return None,
    };
    if and_connection.op != Connector::And {
        return None;
    }
    let condition = match render_condition_expr(&and_connection.left, ctx) {
        Some(c) => c,
        None => return None,
    };
    let when_true = match echo_payload_expr(&and_connection.right, ctx) {
        Some(c) => c,
        None => return None,
    };
    let when_false = match echo_payload_expr(&connection.right, ctx) {
        Some(c) => c,
        None => return None,
    };
    let mut out = concat_lit_first("echo(", &condition);
    push_str(&mut out, " then ");
    push_all(&mut out, &when_true);
    push_str(&mut out, " else ");
    push_all(&mut out, &when_false);
    push_str(&mut out, ")");
    Some(out)
}

// ---------------------------------------------------------------------------
// Tail returns
// ---------------------------------------------------------------------------

/// The words from `from` on, joined with spaces.
fn join_words_from(words: &Vec<String>, from: usize) -> (r: Vec<char>)
    requires
        from <= words@.len(),
    ensures
        r@ == crate::text::join(super::word::string_views(words@.subrange(from as int, words@.len() as int)), " "@),
{
    let mut parts: Vec<Vec<char>> = Vec::new();
    let mut k = from;
    while k < words.len()
        invariant
            from <= k <= words@.len(),
            views(parts@) == super::word::string_views(words@.subrange(from as int, k as int)),
        decreases words@.len() - k,
    {
        let ghost before = parts@;
        parts.push(chars_of(words[k].as_str()));
        proof {
            crate::text::lemma_views_push(before, parts@.last());
        }
        assert(views(parts@) =~= super::word::string_views(words@.subrange(from as int, k + 1)));
        k += 1;
    }
    join_lit(&parts, " ")
}

/// Whether the first word of `words` assigns the variable the enclosing function returns.
pub open spec fn assigns_return_var(words: Seq<String>, ctx: RenderContext) -> bool {
    &&& ctx.return_var_stack@.len() > 0
    &&& words.len() > 0
    &&& spec_split_once(words[0]@, "="@) matches Some((raw, _)) && raw == ctx.return_var_stack@.last()@
}

/// The value the last command of a function returns: what `echo` prints, what an assignment
/// of the return variable assigns, or the value of a call of a known function.
pub fn render_tail_return_expr(simple: &SimpleCommand, ctx: &mut RenderContext) -> (r: Option<Vec<char>>)
    requires
        old(ctx).wf(),
    ensures
        final(ctx).wf(),
        same_but_vars(*old(ctx), *final(ctx)),
        r is None ==> *final(ctx) == *old(ctx),
        simple.words@.len() > 0 && simple.words@[0]@ == "echo"@ ==> *final(ctx) == *old(ctx) && (
            simple.words@.len() == 1 ==> (r matches Some(v) && v@ == "\"\""@)) && (
            simple.words@.len() == 2 ==> match spec_word_to_expr(simple.words@[1]@, *old(ctx)) {
                Some(e) => r matches Some(v) && v@ == e,
                None => r is None,
            }),
        !(simple.words@.len() > 0 && simple.words@[0]@ == "echo"@) && !assigns_return_var(simple.words@, *old(ctx))
            ==> *final(ctx) == *old(ctx) && match r {
            Some(v) => spec_function_call(simple.words@, *old(ctx)) == Some(v@),
            None => spec_function_call(simple.words@, *old(ctx)) is None,
        },
        !(simple.words@.len() > 0 && simple.words@[0]@ == "echo"@) && assigns_return_var(simple.words@, *old(ctx))
            ==> (known_assignment_value(simple.words@, *old(ctx)) matches Some(e) ==> (r matches Some(v) && v@ == e)),
{
    let words = &simple.words;
    if words.len() > 0 && eq_lit(&chars_of(words[0].as_str()), "echo") {
        if words.len() == 1 {
            return Some(chars_of("\"\""));
        }
        if words.len() == 2 {
            return string_to_expr(&words[1], ctx);
        }
        let merged = join_words_from(words, 1);
        let merged_trimmed = crate::text::trim(&merged);
        if crate::text::starts_with_lit(&merged_trimmed, "$((") && ends_with_lit(&merged_trimmed, "))") {
            return word_to_expr(&merged_trimmed, ctx);
        }
        return None;
    }
    let return_var: Option<Vec<char>> = match ctx.current_return_var() {
        Some(v) => Some(chars_of(v.as_str())),
        None => None,
    };
    if let Some(return_var) = return_var {
        if words.len() > 0 {
            if let Some((raw_name, _)) = split_once_lit(&chars_of(words[0].as_str()), "=") {
                if seq_eq(&raw_name, &return_var) {
                    if let Some(assignment) = parse_assignment(simple, ctx) {
                        return Some(assignment.value);
                    }
                }
            }
        }
    }
    render_simple_function_call_expr(simple, ctx)
}

// ---------------------------------------------------------------------------
// case
// ---------------------------------------------------------------------------

/// `subject == pattern` for a literal pattern (no `*`, `?`, `[` or `]`).
pub open spec fn spec_case_pattern(subject: Seq<char>, pattern: Seq<char>, ctx: RenderContext) -> Option<Seq<char>> {
    if pattern == "*"@ {
        None
    } else if exists|k: int| 0 <= k < pattern.len() && (#[trigger] pattern[k] == '*' || pattern[k] == '?' || pattern[k] == '[' || pattern[k] == ']') {
        None
    } else if spec_has_unresolved(pattern, ctx) {
        None
    } else {
        match spec_word_to_expr(pattern, ctx) {
            Some(rhs) => Some(subject + " == "@ + rhs),
            None => None,
        }
    }
}

fn render_case_pattern_condition(subject: &Vec<char>, pattern: &[char], ctx: &RenderContext) -> (r: Option<Vec<char>>)
    requires
        ctx.wf(),
    ensures
        match r {
            Some(v) => spec_case_pattern(subject@, pattern@, *ctx) == Some(v@),
            None => spec_case_pattern(subject@, pattern@, *ctx) is None,
        },
{
    if eq_lit(pattern, "*") {
        return None;
    }
    let mut k: usize = 0;
    while k < pattern.len()
        invariant
            k <= pattern@.len(),
            pattern@ != "*"@,
            forall|j: int| 0 <= j < k ==> !(#[trigger] pattern@[j] == '*' || pattern@[j] == '?' || pattern@[j] == '[' || pattern@[j] == ']'),
        decreases pattern@.len() - k,
    {
        let c = pattern[k];
        if c == '*' || c == '?' || c == '[' || c == ']' {
            return None;
        }
        k += 1;
    }
    if has_unresolved_shell_var(pattern, ctx) {
        return None;
    }
    let rhs = match word_to_expr(pattern, ctx) {
        Some(e) => e,
        None => return None,
    };
    let mut out = to_vec(subject);
    push_str(&mut out, " == ");
    push_all(&mut out, &rhs);
    Some(out)
}

fn case_fallback(command: &Command, ctx: &RenderContext) -> (r: FragmentKind)
    requires
        ctx.wf(),
    ensures
        r matches FragmentKind::Raw(x) && x.value@ == spec_literal_from_command(*command, *ctx),
{
    FragmentKind::Raw(RawFragment { value: string_of(&command_literal_from_command(command, ctx)) })
}

/// The conditions of all patterns, when each is literal.
pub open spec fn case_conditions(subject: Seq<char>, patterns: Seq<String>, ctx: RenderContext) -> Option<Seq<Seq<char>>>
    decreases patterns.len(),
{
    if patterns.len() == 0 {
        Some(seq![])
    } else {
        match (case_conditions(subject, patterns.drop_last(), ctx), spec_case_pattern(subject, patterns.last()@, ctx)) {
            (Some(a), Some(c)) => Some(a.push(c)),
            _ => None,
        }
    }
}

proof fn lemma_case_conditions_none(subject: Seq<char>, patterns: Seq<String>, ctx: RenderContext, k: int)
    requires
        0 <= k < patterns.len(),
        spec_case_pattern(subject, patterns[k]@, ctx) is None,
    ensures
        case_conditions(subject, patterns, ctx) is None,
    decreases patterns.len(),
{
    if k < patterns.len() - 1 {
        assert(patterns.drop_last()[k] == patterns[k]);
        lemma_case_conditions_none(subject, patterns.drop_last(), ctx, k);
    }
}

/// The conditions of a clause's patterns joined with `or`; `None` when one is not literal or
/// there are none.
fn clause_condition(subject: &Vec<char>, patterns: &Vec<String>, ctx: &RenderContext) -> (r: Option<Vec<char>>)
    requires
        ctx.wf(),
    ensures
        match case_conditions(subject@, patterns@, *ctx) {
            Some(cs) => if cs.len() == 0 {
                r is None
            } else {
                r matches Some(v) && v@ == crate::text::join(cs, " or "@)
            },
            None => r is None,
        },
{
    let mut conditions: Vec<Vec<char>> = Vec::new();
    let mut k: usize = 0;
    while k < patterns.len()
        invariant
            ctx.wf(),
            k <= patterns@.len(),
            case_conditions(subject@, patterns@.take(k as int), *ctx) == Some(views(conditions@)),
        decreases patterns@.len() - k,
    {
        assert(patterns@.take(k + 1).drop_last() =~= patterns@.take(k as int));
        match render_case_pattern_condition(subject, &chars_of(patterns[k].as_str()), ctx) {
            Some(c) => {
                let ghost before = conditions@;
                conditions.push(c);
                proof {
                    crate::text::lemma_views_push(before, c);
                }
            },
            None => {
                proof {
                    lemma_case_conditions_none(subject@, patterns@, *ctx, k as int);
                }
                return None;
            },
        }
        k += 1;
    }
    assert(patterns@.take(k as int) =~= patterns@);
    if conditions.len() == 0 {
        return None;
    }
    Some(join_lit(&conditions, " or "))
}

/// Whether a clause is the default `*)`.
fn is_default_clause(clause: &CaseClause) -> (r: bool)
    ensures
        r == (clause.patterns@.len() == 1 && clause.patterns@[0]@ == "*"@),
{
    clause.patterns.len() == 1 && eq_lit(&chars_of(clause.patterns[0].as_str()), "*")
}

/// The condition of a clause: its patterns' conditions joined with `or`, when there are any
/// and each is literal.
pub open spec fn clause_condition_text(subject: Seq<char>, patterns: Seq<String>, ctx: RenderContext) -> Option<Seq<char>> {
    match case_conditions(subject, patterns, ctx) {
        Some(cs) => if cs.len() == 0 {
            None
        } else {
            Some(crate::text::join(cs, " or "@))
        },
        None => None,
    }
}

/// The first `k` clauses of a `case` as an `if` chain: the conditions of the ordinary
/// clauses, and whether a `*)` clause was met; `None` when a clause falls through, a
/// pattern is not literal, or `*)` is not the last clause.
pub open spec fn case_chain_prefix(subject: Seq<char>, clauses: Seq<CaseClause>, k: int, ctx: RenderContext) -> Option<(Seq<Seq<char>>, bool)>
    decreases k,
{
    if k <= 0 {
        Some((seq![], false))
    } else {
        match case_chain_prefix(subject, clauses, k - 1, ctx) {
            None => None,
            Some((conditions, has_default)) => {
                let c = clauses[k - 1];
                if !(c.terminator is Break || c.terminator is End) {
                    None
                } else if c.patterns@.len() == 1 && c.patterns@[0]@ == "*"@ {
                    if k != clauses.len() || has_default {
                        None
                    } else {
                        Some((conditions, true))
                    }
                } else {
                    match clause_condition_text(subject, c.patterns@, ctx) {
                        Some(x) => Some((conditions.push(x), has_default)),
                        None => None,
                    }
                }
            },
        }
    }
}

/// A whole `case` as an `if` chain, when it can be one and has a clause.
pub open spec fn case_chain(subject: Seq<char>, clauses: Seq<CaseClause>, ctx: RenderContext) -> Option<(Seq<Seq<char>>, bool)> {
    match case_chain_prefix(subject, clauses, clauses.len() as int, ctx) {
        Some((conditions, has_default)) => if conditions.len() == 0 && !has_default {
            None
        } else {
            Some((conditions, has_default))
        },
        None => None,
    }
}

proof fn lemma_case_chain_stays_none(subject: Seq<char>, clauses: Seq<CaseClause>, k: int, n: int, ctx: RenderContext)
    requires
        0 <= k <= n,
        case_chain_prefix(subject, clauses, k, ctx) is None,
    ensures
        case_chain_prefix(subject, clauses, n, ctx) is None,
    decreases n - k,
{
    if k < n {
        lemma_case_chain_stays_none(subject, clauses, k, n - 1, ctx);
    }
}

/// A character that makes a `case` pattern a glob: `*`, `?`, `[` or `]`.
pub open spec fn is_glob_char(c: char) -> bool {
    c == '*' || c == '?' || c == '[' || c == ']'
}

/// Whether a `case` pattern holds a glob character, so that it can match more than the one
/// text equal to it.
pub open spec fn has_glob(pattern: Seq<char>) -> bool {
    exists|k: int| 0 <= k < pattern.len() && #[trigger] is_glob_char(pattern[k])
}

/// Only a glob-free pattern becomes a condition, and then it is `subject == p` with `p` the
/// pattern's Amber form: a comparison for equality is never made of a glob.
pub proof fn lemma_case_pattern_is_literal(subject: Seq<char>, pattern: Seq<char>, ctx: RenderContext)
    requires
        spec_case_pattern(subject, pattern, ctx) is Some,
    ensures
        !has_glob(pattern),
        spec_case_pattern(subject, pattern, ctx) == Some(subject + " == "@ + spec_word_to_expr(pattern, ctx).unwrap()),
{
    if has_glob(pattern) {
        let k = choose|k: int| 0 <= k < pattern.len() && #[trigger] is_glob_char(pattern[k]);
        assert(pattern[k] == '*' || pattern[k] == '?' || pattern[k] == '[' || pattern[k] == ']');
    }
}

/// The conditions of a clause's patterns, when there are, are one per pattern, in order: each
/// pattern glob-free and compared for equality with the subject.
pub proof fn lemma_case_conditions_literal(subject: Seq<char>, patterns: Seq<String>, ctx: RenderContext)
    requires
        case_conditions(subject, patterns, ctx) is Some,
    ensures
        case_conditions(subject, patterns, ctx) matches Some(cs) && cs.len() == patterns.len() && forall|i: int| 0 <= i < patterns.len()
            ==> !has_glob(#[trigger] patterns[i]@) && cs[i] == subject + " == "@ + spec_word_to_expr(patterns[i]@, ctx).unwrap(),
    decreases patterns.len(),
{
    if patterns.len() > 0 {
        let init = patterns.drop_last();
        lemma_case_conditions_literal(subject, init, ctx);
        lemma_case_pattern_is_literal(subject, patterns.last()@, ctx);
        assert forall|i: int| 0 <= i < patterns.len() implies !has_glob(#[trigger] patterns[i]@)
            && case_conditions(subject, patterns, ctx).unwrap()[i] == subject + " == "@ + spec_word_to_expr(patterns[i]@, ctx).unwrap() by {
            if i < patterns.len() - 1 {
                assert(patterns[i] == init[i]);
            }
        }
    }
}

/// A clause's condition is the conditions of its patterns joined with `or`: the clause is
/// taken when the subject equals any of them.
pub proof fn lemma_clause_condition_is_any_pattern(subject: Seq<char>, patterns: Seq<String>, ctx: RenderContext)
    requires
        clause_condition_text(subject, patterns, ctx) is Some,
    ensures
        exists|cs: Seq<Seq<char>>| {
            &&& clause_condition_text(subject, patterns, ctx) == Some(crate::text::join(cs, " or "@))
            &&& cs.len() == patterns.len()
            &&& forall|i: int| 0 <= i < patterns.len() ==> !has_glob(#[trigger] patterns[i]@)
                && cs[i] == subject + " == "@ + spec_word_to_expr(patterns[i]@, ctx).unwrap()
        },
{
    lemma_case_conditions_literal(subject, patterns, ctx);
    let cs = case_conditions(subject, patterns, ctx).unwrap();
    assert(clause_condition_text(subject, patterns, ctx) == Some(crate::text::join(cs, " or "@)));
}

/// A `case` with a glob among the patterns of a clause other than the lone `*)` default is
/// no `if` chain at all: the whole `case` stays a `trust` command.
pub proof fn lemma_glob_case_falls_back(subject: Seq<char>, clauses: Seq<CaseClause>, ctx: RenderContext, j: int, k: int)
    requires
        0 <= j < clauses.len(),
        0 <= k < clauses[j].patterns@.len(),
        has_glob(clauses[j].patterns@[k]@),
        !(clauses[j].patterns@.len() == 1 && clauses[j].patterns@[0]@ == "*"@),
    ensures
        case_chain(subject, clauses, ctx) is None,
{
    let p = clauses[j].patterns@[k]@;
    if spec_case_pattern(subject, p, ctx) is Some {
        lemma_case_pattern_is_literal(subject, p, ctx);
    }
    lemma_case_conditions_none(subject, clauses[j].patterns@, ctx, k);
    assert(case_chain_prefix(subject, clauses, j + 1, ctx) is None);
    lemma_case_chain_stays_none(subject, clauses, j + 1, clauses.len() as int, ctx);
}

/// The branches of an if-chain are the bodies of the case clauses in order, each rendered in a
/// scope of its own, and its `else` the body of the last clause; see `case_scopes`.
pub open spec fn case_bodies_rendered(clauses: Seq<CaseClause>, tail: bool, parent: RenderContext, c: IfChainFragment) -> bool
    decreases clauses, 2nat,
{
    &&& c.branches@.len() <= clauses.len()
    &&& exists|parents: Seq<RenderContext>, ends: Seq<RenderContext>| #![trigger parents[0], ends.len()]
        case_scopes(clauses, tail, parent, c, parents, ends)
}

/// The scopes of the branches of `c`: branch `j` in a scope of `parents[j]` that ends in
/// `ends[j]`, the first in a scope of `parent`, each next one in a scope of the context that
/// took over what the scope before learned; the `else` in a scope of the context after all of
/// them.
pub open spec fn case_scopes(clauses: Seq<CaseClause>, tail: bool, parent: RenderContext, c: IfChainFragment, parents: Seq<RenderContext>, ends: Seq<RenderContext>) -> bool
    decreases clauses, 1nat,
{
    let n = c.branches@.len() as int;
    &&& parents.len() == n + 1
    &&& ends.len() == n
    &&& parents[0] == parent
    &&& forall|j: int| 0 <= j < n && j < clauses.len() ==>
        block_rendered_to(clauses[j].body@, tail, parents[j], (#[trigger] c.branches@[j]).body, ends[j])
        && super::context::merged(parents[j], ends[j], parents[j + 1])
    &&& c.else_body matches Some(eb) ==> clauses.len() > 0 && block_rendered(clauses.last().body@, tail, parents[n], None, eb)
}

/// A `case` as an `if` chain on `subject == pattern`, the `*)` clause last as `else`; when a
/// clause falls through, a pattern is not literal, or `*)` is not last, the whole `case` as
/// a `trust $ .. $` command.
pub fn render_case(command: &Command, case_cmd: &CaseCommand, ctx: &mut RenderContext, return_tail: bool) -> (r: FragmentKind)
    requires
        old(ctx).wf(),
        *command == Command::Case(*case_cmd),
    ensures
        ctx_kept(*old(ctx), *final(ctx)),
        match spec_word_to_expr(case_cmd.word@, *old(ctx)) {
            Some(subject) => match case_chain(subject, case_cmd.clauses@, *old(ctx)) {
                Some((conditions, has_default)) => r matches FragmentKind::IfChain(c)
                    && c.branches@.len() == conditions.len()
                    && (forall|j: int| 0 <= j < conditions.len() ==> render_kind(*(#[trigger] c.branches@[j]).condition, 0)
                        == spec_expression_text(conditions[j]))
                    && c.else_body.is_some() == has_default,
                None => *final(ctx) == *old(ctx) && (r matches FragmentKind::Raw(x)
                    && x.value@ == spec_literal_from_command(*command, *old(ctx))),
            },
            None => *final(ctx) == *old(ctx) && (r matches FragmentKind::Raw(x)
                && x.value@ == spec_literal_from_command(*command, *old(ctx))),
        },
        r matches FragmentKind::IfChain(c) ==> case_bodies_rendered(case_cmd.clauses@, return_tail, *old(ctx), c),
    decreases *case_cmd, 0nat,
{
    proof {
        super::lemma_ctx_kept_refl(*ctx);
    }
    let subject = match string_to_expr(&case_cmd.word, ctx) {
        Some(s) => s,
        None => return case_fallback(command, ctx),
    };
    let clauses = &case_cmd.clauses;
    let mut conditions: Vec<Vec<char>> = Vec::new();
    let mut bodies: Vec<usize> = Vec::new();
    let mut default_index: Option<usize> = None;
    let mut k: usize = 0;
    while k < clauses.len()
        invariant
            ctx.wf(),
            *ctx == *old(ctx),
            ctx_kept(*old(ctx), *ctx),
            k <= clauses@.len(),
            conditions@.len() == bodies@.len(),
            forall|j: int| 0 <= j < bodies@.len() ==> #[trigger] bodies@[j] < k,
            forall|j: int| 0 <= j < bodies@.len() ==> #[trigger] bodies@[j] == j,
            bodies@.len() == (if default_index is Some { k - 1 } else { k as int }),
            default_index matches Some(d) ==> d + 1 == k && k == clauses@.len(),
            default_index matches Some(d) ==> d < k,
            clauses == &case_cmd.clauses,
            *command == Command::Case(*case_cmd),
            spec_word_to_expr(case_cmd.word@, *old(ctx)) == Some(subject@),
            case_chain_prefix(subject@, clauses@, k as int, *ctx) == Some((views(conditions@), default_index is Some)),
        decreases clauses@.len() - k,
    {
        let clause = &clauses[k];
        if !(clause.terminator == CaseClauseTerminator::Break || clause.terminator == CaseClauseTerminator::End) {
            proof {
                lemma_case_chain_stays_none(subject@, clauses@, k + 1, clauses@.len() as int, *ctx);
            }
            return case_fallback(command, ctx);
        }
        if is_default_clause(clause) {
            if k + 1 != clauses.len() || default_index.is_some() {
                proof {
                    lemma_case_chain_stays_none(subject@, clauses@, k + 1, clauses@.len() as int, *ctx);
                }
                return case_fallback(command, ctx);
            }
            default_index = Some(k);
            k += 1;
            continue;
        }
        match clause_condition(&subject, &clause.patterns, ctx) {
            Some(c) => {
                let ghost before = conditions@;
                conditions.push(c);
                bodies.push(k);
                proof {
                    crate::text::lemma_views_push(before, c);
                }
            },
            None => {
                proof {
                    lemma_case_chain_stays_none(subject@, clauses@, k + 1, clauses@.len() as int, *ctx);
                }
                return case_fallback(command, ctx);
            },
        }
        k += 1;
    }
    if conditions.len() == 0 && default_index.is_none() {
        return case_fallback(command, ctx);
    }
    let ghost start = *ctx;
    proof {
        super::lemma_ctx_kept_refl(start);
    }
    let mut branches: Vec<IfChainBranch> = Vec::new();
    let ghost mut parents: Seq<RenderContext> = seq![start];
    let ghost mut ends: Seq<RenderContext> = seq![];
    let mut b: usize = 0;
    while b < bodies.len()
        invariant
            ctx_kept(start, *ctx),
            b <= bodies@.len(),
            conditions@.len() == bodies@.len(),
            forall|j: int| 0 <= j < bodies@.len() ==> #[trigger] bodies@[j] < clauses@.len(),
            *command == Command::Case(*case_cmd),
            clauses == &case_cmd.clauses,
            branches@.len() == b,
            forall|j: int| 0 <= j < b ==> render_kind(*(#[trigger] branches@[j]).condition, 0)
                == spec_expression_text(conditions@[j]@),
            forall|j: int| 0 <= j < bodies@.len() ==> #[trigger] bodies@[j] == j,
            bodies@.len() <= clauses@.len(),
            parents.len() == b + 1,
            parents[0] == start,
            parents[b as int] == *ctx,
            ends.len() == b,
            forall|j: int| 0 <= j < b ==>
                block_rendered_to(clauses@[j].body@, return_tail, parents[j], (#[trigger] branches@[j]).body, ends[j])
                && super::context::merged(parents[j], ends[j], parents[j + 1]),
        decreases bodies@.len() - b,
    {
        let clause = &clauses[bodies[b]];
        let ghost before = *ctx;
        let mut clause_ctx = ctx.with_child_scope();
        let ghost clause_start = clause_ctx;
        let rendered = render_commands(&clause.body, 0, &mut clause_ctx, return_tail);
        let ghost clause_end = clause_ctx;
        let bb = BlockFragment::new(rendered, true);
        proof {
            assert(clause.body@.subrange(0, clause.body@.len() as int) =~= clause.body@);
            assert(bodies@[b as int] == b);
            assert(super::scope_start(before, clause_start, None));
            assert(block_rendered_to(clauses@[b as int].body@, return_tail, before, bb, clause_end)) by {
                reveal(block_rendered_to);
                reveal(commands_rendered);
                assert(commands_rendered(clause.body@, return_tail, clause_start, clause_end, bb.statements@));
            }
        }
        ctx.merge_from_child(clause_ctx);
        proof {
            assert(ctx.warnings@.subrange(0, before.warnings@.len() as int) =~= before.warnings@);
            super::lemma_ctx_kept_trans(start, before, *ctx);
        }
        let ghost before_branches = branches@;
        let ghost before_parents = parents;
        let ghost before_ends = ends;
        branches.push(IfChainBranch {
            condition: Box::new(render_expression_fragment(&conditions[b])),
            body: bb,
        });
        proof {
            parents = parents.push(*ctx);
            ends = ends.push(clause_end);
            assert forall|j: int| 0 <= j < b + 1 implies
                block_rendered_to(clauses@[j].body@, return_tail, parents[j], (#[trigger] branches@[j]).body, ends[j])
                && super::context::merged(parents[j], ends[j], parents[j + 1]) by {
                if j < b {
                    assert(branches@[j] == before_branches[j]);
                    assert(parents[j] == before_parents[j]);
                    assert(parents[j + 1] == before_parents[j + 1]);
                    assert(ends[j] == before_ends[j]);
                } else {
                    assert(block_rendered_to(clauses@[j].body@, return_tail, parents[j], branches@[j].body, clause_end)) by {
                        reveal(block_rendered_to);
                    }
                    assert(super::context::merged(parents[j], clause_end, parents[j + 1]));
                }
            }
        }
        b += 1;
    }
    let ghost after_branches = *ctx;
    let else_body = match default_index {
        Some(d) => {
            let ghost before = *ctx;
            let mut clause_ctx = ctx.with_child_scope();
            let ghost clause_start = clause_ctx;
            let rendered = render_commands(&clauses[d].body, 0, &mut clause_ctx, return_tail);
            let ghost clause_end = clause_ctx;
            let eb = BlockFragment::new(rendered, true);
            proof {
                assert(clauses@[d as int].body@.subrange(0, clauses@[d as int].body@.len() as int) =~= clauses@[d as int].body@);
                assert(super::scope_start(before, clause_start, None));
                assert(block_rendered(clauses@.last().body@, return_tail, before, None, eb)) by {
                    reveal(block_rendered);
                    reveal(commands_rendered);
                    assert(commands_rendered(clauses@[d as int].body@, return_tail, clause_start, clause_end, eb.statements@));
                }
            }
            ctx.merge_from_child(clause_ctx);
            proof {
                assert(ctx.warnings@.subrange(0, before.warnings@.len() as int) =~= before.warnings@);
                super::lemma_ctx_kept_trans(start, before, *ctx);
            }
            Some(eb)
        },
        None => None,
    };
    let ghost chain = IfChainFragment { branches, else_body };
    proof {
        assert(case_scopes(case_cmd.clauses@, return_tail, start, chain, parents, ends)) by {
            reveal(block_rendered_to);
            reveal(block_rendered);
        }
    }
    FragmentKind::IfChain(IfChainFragment { branches, else_body })
}

} // verus!
