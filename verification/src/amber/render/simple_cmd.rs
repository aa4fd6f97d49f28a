//! Simple commands: assignments, `printf -v`, calls of known functions, `echo`, and the rest
//! as `trust $ .. $`.
use vstd::prelude::*;

use super::context::{
    same_but_vars, value_of, var_of, FunctionSig, RenderContext, TypeCommentReturnContract,
};
use super::fallback::{command_literal_from_command, spec_literal_from_command};
use super::fragment_expr::{render_expression_fragment, spec_expression_text};
use super::word::{
    assign_first, assign_raw, assignment_index, assignment_sides, known_value, parse_assignment,
    render_simple_function_call_expr, spaced_tail, spec_array_items, spec_function_call,
    spec_word_to_expr, string_to_expr, string_views, word_to_expr,
};
use crate::amber::fragments::{render_kind, FragmentKind, RawFragment, VarStmtFragment};
use crate::bash::ast::{Command, SimpleCommand};
use crate::text::{
    chars_of, ends_with_lit, eq_lit, is_identifier, is_number, join, join_lit, push_all, push_str,
    seq_eq, spec_ends_with, spec_is_identifier, spec_is_number, spec_starts_with, spec_trim,
    spec_trim_start, starts_with_lit, string_of, to_vec, trim, views,
};

verus! {

/// How a `printf -v` argument is written: quoted strings and numbers as they are, other
/// expressions interpolated.
pub open spec fn printf_arg(e: Seq<char>) -> Seq<char> {
    if (e.len() > 0 && e[0] == '"' && e.last() == '"') || spec_is_number(e) {
        e
    } else {
        "{"@ + e + "}"@
    }
}

/// The arguments of `printf -v` from word `k` on, each rendered, when all render.
pub open spec fn printf_args(words: Seq<String>, k: int, ctx: RenderContext) -> Option<Seq<Seq<char>>>
    decreases words.len() - k,
{
    if k < 0 || k >= words.len() {
        Some(seq![])
    } else {
        match (spec_word_to_expr(words[k]@, ctx), printf_args(words, k + 1, ctx)) {
            (Some(e), Some(rest)) => Some(seq![printf_arg(e)] + rest),
            _ => None,
        }
    }
}

/// Whether `words` is `printf -v name ..` with an identifier as the target.
pub open spec fn is_printf_v(words: Seq<String>) -> bool {
    words.len() >= 4 && words[0]@ == "printf"@ && words[1]@ == "-v"@ && spec_is_identifier(words[2]@)
}

/// The `trust $ printf -v {nameof name} .. $` command for `words`, with the target as `ctx`
/// knows it, when every argument renders.
pub open spec fn printf_v_text(words: Seq<String>, ctx: RenderContext) -> Option<Seq<char>> {
    match printf_args(words, 3, ctx) {
        Some(args) => Some("trust $ printf -v {nameof "@ + var_of(ctx, words[2]@).unwrap() + "} "@ + join(args, " "@) + " $"@),
        None => None,
    }
}

/// `printf -v name fmt args..` as a `trust $ printf -v {nameof name} .. $` command; the
/// target is declared when it was not.
pub fn render_printf_v(simple: &SimpleCommand, ctx: &mut RenderContext) -> (r: Option<Vec<char>>)
    requires
        old(ctx).wf(),
    ensures
        final(ctx).wf(),
        same_but_vars(*old(ctx), *final(ctx)),
        !is_printf_v(simple.words@) ==> r is None && *final(ctx) == *old(ctx),
        is_printf_v(simple.words@) ==> {
            &&& var_of(*final(ctx), simple.words@[2]@) is Some
            &&& match printf_v_text(simple.words@, *final(ctx)) {
                Some(t) => r matches Some(v) && v@ == t,
                None => r is None,
            }
        },
{
    let words = &simple.words;
    if words.len() < 4 {
        return None;
    }
    if !eq_lit(&chars_of(words[0].as_str()), "printf") || !eq_lit(&chars_of(words[1].as_str()), "-v") {
        return None;
    }
    let target_raw = chars_of(words[2].as_str());
    if !is_identifier(&target_raw) {
        return None;
    }
    let target = match ctx.var_chars(&target_raw) {
        Some(t) => t,
        None => chars_of(ctx.declare_var(&target_raw).as_str()),
    };
    let ghost c = *ctx;
    assert(var_of(c, target_raw@) == Some(target@));
    let mut args: Vec<Vec<char>> = Vec::new();
    let mut k: usize = 3;
    proof {
        assert(printf_args(words@, 3, c) == super::arithmetic::prefix_tokens(views(args@), printf_args(words@, 3, c))) by {
            assert(views(args@) =~= seq![]);
            match printf_args(words@, 3, c) {
                Some(x) => assert(Seq::<Seq<char>>::empty() + x =~= x),
                None => {},
            }
        }
    }
    while k < words.len()
        invariant
            3 <= k <= words@.len(),
            words@ == simple.words@,
            simple.words@.len() >= 4 && simple.words@[0]@ == "printf"@ && simple.words@[1]@ == "-v"@
                && spec_is_identifier(simple.words@[2]@),
            target_raw@ == simple.words@[2]@,
            var_of(c, target_raw@) == Some(target@),
            same_but_vars(*old(ctx), *ctx),
            c == *ctx,
            ctx.wf(),
            printf_args(words@, 3, c) == super::arithmetic::prefix_tokens(views(args@), printf_args(words@, k as int, c)),
        decreases words@.len() - k,
    {
        let expr = match string_to_expr(&words[k], ctx) {
            Some(e) => e,
            None => return None,
        };
        let arg = if (expr.len() > 0 && expr[0] == '"' && expr[expr.len() - 1] == '"') || is_number(&expr) {
            expr
        } else {
            let mut a = chars_of("{");
            push_all(&mut a, &expr);
            push_str(&mut a, "}");
            a
        };
        let ghost before = args@;
        args.push(arg);
        proof {
            crate::text::lemma_views_push(before, arg);
            match printf_args(words@, k + 1, c) {
                Some(rest) => assert(views(before) + (seq![arg@] + rest) =~= views(args@) + rest),
                None => {},
            }
        }
        k += 1;
    }
    proof {
        match printf_args(words@, 3, c) {
            Some(x) => assert(views(args@) + Seq::<Seq<char>>::empty() =~= views(args@)),
            None => {},
        }
    }
    let mut out = chars_of("trust $ printf -v {nameof ");
    push_all(&mut out, &target);
    push_str(&mut out, "} ");
    push_all(&mut out, &join_lit(&args, " "));
    push_str(&mut out, " $");
    Some(out)
}

/// Whether a function returns its value through the variable its type comment names.
pub open spec fn typed_return(sig: FunctionSig) -> bool {
    sig.returns_value && sig.typed_signature is Some && sig.typed_signature.unwrap().return_contract is TypedVariable
}

/// The statement for a call of a known function, `before` and `after` the call's return
/// variable is declared: the call, assigned to that variable when the function has one.
pub open spec fn call_statement(words: Seq<String>, before: RenderContext, after: RenderContext) -> Seq<char> {
    let call = spec_function_call(words, before).unwrap();
    let sig = value_of(before.functions@, words[0]@).unwrap();
    if typed_return(sig) {
        let v = sig.typed_signature.unwrap().return_contract->variable_name@;
        let t = var_of(after, v).unwrap();
        if var_of(before, v) is Some {
            t + " = "@ + call
        } else {
            "let "@ + t + " = "@ + call
        }
    } else {
        call
    }
}

/// A call of a known function as a statement; when the function returns its value through a
/// typed return variable, the call is assigned to that variable (declared when new).
pub fn render_function_call_statement(simple: &SimpleCommand, ctx: &mut RenderContext) -> (r: Option<Vec<char>>)
    requires
        old(ctx).wf(),
    ensures
        final(ctx).wf(),
        same_but_vars(*old(ctx), *final(ctx)),
        spec_function_call(simple.words@, *old(ctx)) is None ==> r is None && *final(ctx) == *old(ctx),
        spec_function_call(simple.words@, *old(ctx)) is Some ==> {
            let sig = value_of(old(ctx).functions@, simple.words@[0]@).unwrap();
            &&& r matches Some(s) && s@ == call_statement(simple.words@, *old(ctx), *final(ctx))
            &&& typed_return(sig) ==> var_of(*final(ctx), sig.typed_signature.unwrap().return_contract->variable_name@) is Some
            &&& !typed_return(sig) ==> *final(ctx) == *old(ctx)
        },
{
    let expr = match render_simple_function_call_expr(simple, ctx) {
        Some(e) => e,
        None => return None,
    };
    let name = chars_of(simple.words[0].as_str());
    let variable: Option<Vec<char>> = match ctx.resolve_function(&name) {
        Some(sig) => if sig.returns_value {
            match &sig.typed_signature {
                Some(ts) => match &ts.return_contract {
                    TypeCommentReturnContract::TypedVariable { variable_name, .. } => Some(chars_of(variable_name.as_str())),
                    TypeCommentReturnContract::Null => None,
                },
                None => None,
            }
        } else {
            None
        },
        None => None,
    };
    let variable_name = match variable {
        Some(v) => v,
        None => return Some(expr),
    };
    let existing = ctx.var_chars(&variable_name);
    let target = match &existing {
        Some(t) => to_vec(t),
        None => chars_of(ctx.declare_var(&variable_name).as_str()),
    };
    let mut out = if existing.is_some() {
        target
    } else {
        let mut o = chars_of("let ");
        push_all(&mut o, &target);
        o
    };
    push_str(&mut out, " = ");
    push_all(&mut out, &expr);
    Some(out)
}

/// The words after `echo`, joined by spaces and trimmed.
pub open spec fn echo_merged(words: Seq<String>) -> Seq<char> {
    spec_trim(join(string_views(words.subrange(1, words.len() as int)), " "@))
}

/// `echo` of nothing, of one expression or of one arithmetic expansion as an Amber `echo`,
/// else the command as a `trust` literal.
pub open spec fn echo_or_literal(command: Command, words: Seq<String>, ctx: RenderContext) -> Seq<char> {
    let literal = spec_literal_from_command(command, ctx);
    if words.len() > 0 && words[0]@ == "echo"@ {
        if words.len() == 1 {
            "echo(\"\")"@
        } else if words.len() == 2 {
            match spec_word_to_expr(words[1]@, ctx) {
                Some(e) => "echo("@ + e + ")"@,
                None => literal,
            }
        } else if spec_starts_with(echo_merged(words), "$(("@) && spec_ends_with(echo_merged(words), "))"@) {
            match spec_word_to_expr(echo_merged(words), ctx) {
                Some(e) => "echo("@ + e + ")"@,
                None => literal,
            }
        } else {
            literal
        }
    } else {
        literal
    }
}

/// The value of an assignment when it is known without parsing a command substitution that
/// parses: an arithmetic expansion, a plain value, an array literal, or a substitution that
/// does not parse, kept as a `trust` literal.
pub open spec fn known_assignment_value(words: Seq<String>, ctx: RenderContext) -> Option<Seq<char>> {
    if assignment_sides(words) is None || !spec_is_identifier(assign_raw(words)) {
        None
    } else {
        let first = assign_first(words);
        let index = assignment_index(words).unwrap();
        if words.len() == index + 1 {
            match known_value(first, true, ctx) {
                Some(Some(e)) => Some(e),
                _ => None,
            }
        } else if spec_starts_with(spec_trim_start(first), "("@) {
            match spec_array_items(first + spaced_tail(words, index + 1), ctx) {
                Some(items) => Some("["@ + join(items, ", "@) + "]"@),
                None => None,
            }
        } else {
            match known_value(first + spaced_tail(words, index + 1), false, ctx) {
                Some(Some(e)) => Some(e),
                _ => None,
            }
        }
    }
}

/// An assignment that Amber cannot state: its name is not an identifier, or its value is
/// neither a value known in `ctx` nor a substitution left to the shell.
pub open spec fn refused_assignment(words: Seq<String>, ctx: RenderContext) -> bool {
    assignment_sides(words) is Some && (!spec_is_identifier(assign_raw(words)) || {
        let first = assign_first(words);
        let index = assignment_index(words).unwrap();
        if words.len() == index + 1 {
            known_value(first, true, ctx) == Some(None::<Seq<char>>)
        } else if spec_starts_with(spec_trim_start(first), "("@) {
            spec_array_items(first + spaced_tail(words, index + 1), ctx) is None
        } else {
            known_value(first + spaced_tail(words, index + 1), false, ctx) == Some(None::<Seq<char>>)
        }
    })
}

/// What `render_simple` gives for a simple command, read against the context before the
/// call and after it: an assignment whose value is known, `printf -v`, a call of a known
/// function, and `echo` or the `trust` fallback.
pub open spec fn simple_rendered(command: Command, simple: SimpleCommand, before: RenderContext, after: RenderContext, r: Option<FragmentKind>) -> bool {
    &&& (known_assignment_value(simple.words@, before) matches Some(e) ==> {
        let raw = assign_raw(simple.words@);
        let reassigned = simple.words@[0]@ != "local"@ && var_of(before, raw) is Some;
        &&& var_of(after, raw) is Some
        &&& var_of(after, raw) == Some(if simple.words@[0]@ == "local"@ {
            super::context::fresh_var_name(before, raw)
        } else {
            super::context::declared_name(before, raw)
        })
        &&& forall|n: Seq<char>| n != raw ==> #[trigger] value_of(after.var_aliases@, n) == value_of(before.var_aliases@, n)
        &&& forall|m: Seq<char>| #[trigger] super::context::has_name(after.declared_vars@, m)
            == (super::context::has_name(before.declared_vars@, m) || m == var_of(after, raw).unwrap())
        &&& if !reassigned && var_of(after, raw).unwrap() == e {
            r is None
        } else {
            r matches Some(FragmentKind::VarStmt(v)) && v.name@ == var_of(after, raw).unwrap()
                && render_kind(*v.value, 0) == spec_expression_text(e) && v.is_reassignment == reassigned
        }
    })
    &&& (assignment_sides(simple.words@) is None && is_printf_v(simple.words@) && value_of(before.functions@, "printf"@) is None ==> {
        &&& var_of(after, simple.words@[2]@) is Some
        &&& r matches Some(FragmentKind::Raw(x)) && x.value@ == match printf_v_text(simple.words@, after) {
            Some(t) => t,
            None => spec_literal_from_command(command, after),
        }
    })
    &&& (assignment_sides(simple.words@) is None && !is_printf_v(simple.words@) && spec_function_call(simple.words@, before) is Some
        ==> (r matches Some(FragmentKind::Raw(x)) && x.value@ == call_statement(simple.words@, before, after)))
    &&& (assignment_sides(simple.words@) is None && !is_printf_v(simple.words@) && spec_function_call(simple.words@, before) is None
        ==> after == before && (r matches Some(FragmentKind::Raw(x)) && x.value@ == echo_or_literal(command, simple.words@, before)))
    &&& (refused_assignment(simple.words@, before) && !is_printf_v(simple.words@) && spec_function_call(simple.words@, before) is None
        ==> after == before && (r matches Some(FragmentKind::Raw(x)) && x.value@ == echo_or_literal(command, simple.words@, before)))
}

/// The Amber statement for a simple command: a variable statement for an assignment (none
/// for an assignment of a name to itself), `printf -v`, a function call, `echo` of one
/// expression, or else the command as `trust $ .. $`.
pub fn render_simple(command: &Command, simple: &SimpleCommand, ctx: &mut RenderContext) -> (r: Option<FragmentKind>)
    requires
        old(ctx).wf(),
        *command == Command::Simple(*simple),
    ensures
        final(ctx).wf(),
        same_but_vars(*old(ctx), *final(ctx)),
        simple_rendered(*command, *simple, *old(ctx), *final(ctx), r),
{
    if let Some(assignment) = parse_assignment(simple, ctx) {
        if !assignment.is_reassignment && seq_eq(&assignment.name, &assignment.value) {
            return None;
        }
        return Some(FragmentKind::VarStmt(VarStmtFragment {
            name: string_of(&assignment.name),
            value: Box::new(render_expression_fragment(&assignment.value)),
            is_reassignment: assignment.is_reassignment,
        }));
    }
    if let Some(printf_v) = render_printf_v(simple, ctx) {
        return Some(FragmentKind::Raw(RawFragment { value: string_of(&printf_v) }));
    }
    if let Some(call) = render_function_call_statement(simple, ctx) {
        return Some(FragmentKind::Raw(RawFragment { value: string_of(&call) }));
    }
    let words = &simple.words;
    proof {
        reveal_strlit("printf");
        reveal_strlit("echo");
        assert("printf"@[0] != "echo"@[0]);
    }
    if words.len() > 0 && eq_lit(&chars_of(words[0].as_str()), "echo") {
        if words.len() == 1 {
            return Some(FragmentKind::Raw(RawFragment { value: string_of(&chars_of("echo(\"\")")) }));
        }
        if words.len() == 2 {
            if let Some(expr) = string_to_expr(&words[1], ctx) {
                let mut out = chars_of("echo(");
                push_all(&mut out, &expr);
                push_str(&mut out, ")");
                return Some(FragmentKind::Raw(RawFragment { value: string_of(&out) }));
            }
        }
        if words.len() > 2 {
            let mut parts: Vec<Vec<char>> = Vec::new();
            let mut k: usize = 1;
            while k < words.len()
                invariant
                    1 <= k <= words@.len(),
                    views(parts@) == string_views(words@.subrange(1, k as int)),
                decreases words@.len() - k,
            {
                let piece = chars_of(words[k].as_str());
                let ghost before = parts@;
                parts.push(piece);
                proof {
                    crate::text::lemma_views_push(before, piece);
                    assert(words@.subrange(1, k + 1) =~= words@.subrange(1, k as int).push(words@[k as int]));
                    assert(string_views(words@.subrange(1, k + 1)) =~= string_views(words@.subrange(1, k as int)).push(words@[k as int]@));
                }
                k += 1;
            }
            let merged = trim(&join_lit(&parts, " "));
            if starts_with_lit(&merged, "$((") && ends_with_lit(&merged, "))") {
                if let Some(expr) = word_to_expr(&merged, ctx) {
                    let mut out = chars_of("echo(");
                    push_all(&mut out, &expr);
                    push_str(&mut out, ")");
                    return Some(FragmentKind::Raw(RawFragment { value: string_of(&out) }));
                }
            }
        }
    }
    Some(FragmentKind::Raw(RawFragment { value: string_of(&command_literal_from_command(command, ctx)) }))
}

} // verus!
