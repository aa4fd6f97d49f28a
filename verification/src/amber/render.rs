pub mod syntax;
pub mod context;
pub mod arithmetic;
pub mod word;
pub mod fallback;
pub mod substitution;
pub mod fragment_expr;
pub mod type_comment;
pub mod analysis;
pub mod function;
pub mod simple_cmd;
pub mod control_flow;
use vstd::prelude::*;

use crate::amber::fragments::{
    lemma_parts_text, render_kind, renders_text, lemma_renders_text, BlockFragment, ForFragment, FragmentKind, FragmentRenderable, Fragments,
    IfFragment, RawFragment, TranslateMetadata, VarStmtFragment, WhileFragment,
};
use crate::bash::ast::{CStyleForCommand, Command, ForCommand, IfCommand, Program, SimpleCommand};
use crate::text::{chars_of, join, push_all, push_str, spec_trim, string_of};
use arithmetic::{assignment_applies, spec_arith_expr, spec_arith_increment};
use context::{declared_name, keys_unique, set_key, value_of, RenderContext, Warning};
use control_flow::{
    parse_c_style_for_range, render_case, render_echo_ternary_connection,
    assigns_return_var, case_bodies_rendered, known_reassignments, render_if_ternary_assignment, render_tail_return_expr, single_simple,
    spec_c_range, spec_echo_ternary, ternary_shape,
};
use fallback::{
    command_literal_from_command, rewrite_words, spec_literal_from_command, spec_literal_from_shell,
};
use fragment_expr::{render_expression_fragment, spec_expression_text};
use function::{
    function_body_rendered, function_rendered, last_definition, only_functions_changed, preregister_function_signatures,
    registered_as, render_function, signatures_registered,
};
use simple_cmd::{render_simple, simple_rendered};
use syntax::GlobalVarType;
use type_comment::collect_function_hints;
use word::{
    render_condition_expr, render_for_items, spec_condition, spec_for_items, spec_function_call, spec_word_to_expr,
};

verus! {

/// What rendering keeps of a context: well-formedness, the positional scopes, the return
/// variables, the function hints and the source path; warnings are only added.
pub open spec fn ctx_kept(a: RenderContext, b: RenderContext) -> bool {
    &&& b.wf()
    &&& b.positional_scopes == a.positional_scopes
    &&& b.function_hints == a.function_hints
    &&& b.return_var_stack == a.return_var_stack
    &&& b.source_path == a.source_path
    &&& a.warnings@.len() <= b.warnings@.len()
    &&& b.warnings@.subrange(0, a.warnings@.len() as int) == a.warnings@
}

/// The condition of an `if` or a `while`: its Amber condition when it has one, else the
/// command as a `trust` literal.
pub open spec fn condition_text(command: Command, ctx: RenderContext) -> Seq<char> {
    match spec_condition(command, ctx) {
        Some(c) => c,
        None => spec_literal_from_command(command, ctx),
    }
}

/// The items of `for x in items`: an Amber array or expression when they have one, else the
/// words as a `trust` literal.
pub open spec fn for_items_text(items: Seq<String>, ctx: RenderContext) -> Seq<char> {
    match spec_for_items(items, ctx) {
        Some(v) => v,
        None => spec_literal_from_shell(spec_trim(join(rewrite_words(items, ctx), " "@))),
    }
}

/// The Amber range of a counted `for (( .. ))`.
pub open spec fn c_range_text(start: Seq<char>, end: Seq<char>, inclusive: bool) -> Seq<char> {
    start + (if inclusive {
        "..="@
    } else {
        ".."@
    }) + end
}

/// The statement for `(( expression ))` when it assigns nothing: an increment, else the
/// expression, else the command as a `trust` literal.
pub open spec fn arith_statement_text(command: Command, expression: Seq<char>, ctx: RenderContext) -> Seq<char> {
    match spec_arith_increment(spec_trim(expression), ctx) {
        Some(v) => v,
        None => match spec_arith_expr(spec_trim(expression), ctx) {
            Some(v) => v,
            None => spec_literal_from_command(command, ctx),
        },
    }
}

pub proof fn lemma_ctx_kept_refl(a: RenderContext)
    requires
        a.wf(),
    ensures
        ctx_kept(a, a),
{
    assert(a.warnings@.subrange(0, a.warnings@.len() as int) =~= a.warnings@);
}

/// A change of variables alone keeps a context.
pub proof fn lemma_vars_kept(a: RenderContext, b: RenderContext)
    requires
        b.wf(),
        context::same_but_vars(a, b),
    ensures
        ctx_kept(a, b),
{
    assert(b.warnings@.subrange(0, a.warnings@.len() as int) =~= a.warnings@);
}

pub proof fn lemma_ctx_kept_trans(a: RenderContext, b: RenderContext, c: RenderContext)
    requires
        ctx_kept(a, b),
        ctx_kept(b, c),
    ensures
        ctx_kept(a, c),
{
    assert(c.warnings@.subrange(0, a.warnings@.len() as int) =~= b.warnings@.subrange(0, a.warnings@.len() as int));
}

/// A root block of `items` as text: the items' renderings on lines of their own, with a final
/// newline.
pub open spec fn program_text(items: Seq<FragmentKind>) -> Seq<char> {
    let out = join(crate::amber::fragments::render_parts(items, 0), crate::amber::fragments::nl());
    if out.len() > 0 && out.last() != '\n' {
        out.push('\n')
    } else {
        out
    }
}

/// A context as a program starts: no variables, functions, positional scopes or return
/// variables, no warnings, the `##` type comments of the source (none without a source), and
/// the source path.
pub open spec fn fresh_context(c: RenderContext, source: Option<Seq<char>>, source_path: Option<Seq<char>>) -> bool {
    &&& match source {
        Some(text) => forall|name: Seq<char>| match #[trigger] context::value_of(c.function_hints@, name) {
            Some(hs) => type_comment::hint_views(hs@) == type_comment::hints_of(crate::text::spec_lines(text), name,
                crate::text::spec_lines(text).len() as int),
            None => type_comment::hints_of(crate::text::spec_lines(text), name, crate::text::spec_lines(text).len() as int).len() == 0,
        },
        None => c.function_hints@.len() == 0,
    }
    &&& c.var_aliases@.len() == 0
    &&& c.declared_vars@.len() == 0
    &&& c.functions@.len() == 0
    &&& c.positional_scopes@.len() == 0
    &&& c.return_var_stack@.len() == 0
    &&& c.warnings@.len() == 0
    &&& match source_path {
        Some(p) => c.source_path matches Some(q) && q@ == p,
        None => c.source_path is None,
    }
}

/// The characters of an optional text.
pub open spec fn path_view(p: Option<&str>) -> Option<Seq<char>> {
    match p {
        Some(x) => Some(x@),
        None => None,
    }
}

/// `text` is the program `statements` rendered from a fresh context, one statement after
/// another, as a root block.
pub open spec fn program_rendered(statements: Seq<Command>, source: Option<Seq<char>>, source_path: Option<Seq<char>>, text: Seq<char>) -> bool {
    exists|start: RenderContext, end: RenderContext, items: Seq<FragmentKind>|
        #[trigger] commands_rendered(statements, false, start, end, items) && fresh_context(start, source, source_path)
            && text == program_text(items)
}

/// Renders a Bash program as Amber source text, with the warnings met on the way.
pub fn render_program_with_warnings(program: &Program, source: Option<&str>, source_path: Option<&str>) -> (r: (String, Vec<Warning>))
    ensures
        program.statements@.len() == 0 ==> r.0@.len() == 0,
        (exists|k: int| 0 <= k < program.statements@.len() && yields_text(#[trigger] program.statements@[k])) ==> r.0@.len() > 0,
        r.0@.len() > 0 ==> r.0@.last() == '\n',
        program_rendered(program.statements@, path_view(source), path_view(source_path), r.0@),
{
    let hints = match source {
        Some(s) => collect_function_hints(&chars_of(s)),
        None => Vec::new(),
    };
    let path = match source_path {
        Some(p) => Some(string_of(&chars_of(p))),
        None => None,
    };
    let mut ctx = RenderContext::new(hints, path);
    let ghost start = ctx;
    let items = render_commands(&program.statements, 0, &mut ctx, false);
    let ghost items_view = items@;
    proof {
        assert(program.statements@.subrange(0, program.statements@.len() as int) =~= program.statements@);
    }
    let fragments = Fragments { fragment: FragmentKind::block(items) };
    let mut meta = TranslateMetadata::default();
    let text = fragments.to_string(&mut meta);
    proof {
        if program.statements@.len() == 0 {
            assert(crate::amber::fragments::render_parts(items_view, 0) =~= Seq::<Seq<char>>::empty());
            assert(join(Seq::<Seq<char>>::empty(), crate::amber::fragments::nl()) =~= Seq::<char>::empty());
        }
        if exists|k: int| 0 <= k < program.statements@.len() && yields_text(#[trigger] program.statements@[k]) {
            let m = choose|m: int| 0 <= m < items_view.len() && renders_text(#[trigger] items_view[m]);
            assert(render_kind(items_view[m], 0).len() > 0);
            lemma_parts_text(items_view, 0, m);
        }
        assert(text@ == program_text(items_view));
        assert(fresh_context(start, path_view(source), path_view(source_path)));
        assert(commands_rendered(program.statements@, false, start, ctx, items_view));
    }
    (text, ctx.warnings)
}

/// Renders a Bash program as Amber source text.
pub fn render_program(program: &Program, source: Option<&str>, source_path: Option<&str>) -> (r: String)
    ensures
        program.statements@.len() == 0 ==> r@.len() == 0,
        (exists|k: int| 0 <= k < program.statements@.len() && yields_text(#[trigger] program.statements@[k])) ==> r@.len() > 0,
        r@.len() > 0 ==> r@.last() == '\n',
        program_rendered(program.statements@, path_view(source), path_view(source_path), r@),
{
    render_program_with_warnings(program, source, source_path).0
}

fn copy_strings(v: &Vec<String>) -> (r: Vec<String>)
    ensures
        r@ == v@,
{
    let mut out: Vec<String> = Vec::new();
    let mut k: usize = 0;
    while k < v.len()
        invariant
            k <= v@.len(),
            out@ == v@.take(k as int),
        decreases v@.len() - k,
    {
        out.push(v[k].clone());
        assert(out@ =~= v@.take(k + 1));
        k += 1;
    }
    assert(out@ =~= v@);
    out
}

fn raw(text: &Vec<char>) -> (f: FragmentKind)
    ensures
        f matches FragmentKind::Raw(x) && x.value@ == text@,
{
    FragmentKind::Raw(RawFragment { value: string_of(text) })
}

/// Renders `commands` from `from` on: the function signatures first, then a declaration of
/// each global output variable before the function that sets it, then each command; with
/// `return_tail`, the last one returns its value.
#[verifier::rlimit(40)]
pub fn render_commands(commands: &Vec<Command>, from: usize, ctx: &mut RenderContext, return_tail: bool) -> (r: Vec<FragmentKind>)
    requires
        old(ctx).wf(),
        from <= commands@.len(),
    ensures
        ctx_kept(*old(ctx), *final(ctx)),
        from == commands@.len() ==> r@.len() == 0,
        (exists|k: int| from <= k < commands@.len() && yields_text(#[trigger] commands@[k]))
            ==> exists|m: int| 0 <= m < r@.len() && renders_text(#[trigger] r@[m]),
        commands_rendered(commands@.subrange(from as int, commands@.len() as int), return_tail, *old(ctx), *final(ctx), r@),
    decreases commands@, 0nat,
{
    let ghost start = *ctx;
    preregister_function_signatures(commands, from, ctx);
    let mut all_global_vars: Vec<(String, GlobalVarType)> = Vec::new();
    let mut function_global_vars: Vec<(String, Vec<(String, GlobalVarType)>)> = Vec::new();
    let ghost after_pre = *ctx;
    let mut k = from;
    while k < commands.len()
        invariant
            from <= k <= commands@.len(),
            ctx.wf(),
            *ctx == after_pre,
            keys_unique(function_global_vars@),
            (forall|j: int| from <= j < k ==> !(#[trigger] commands@[j] is Function)) ==> all_global_vars@.len() == 0,
            forall|n: Seq<char>| #[trigger] value_of(function_global_vars@, n) matches Some(vs)
                ==> (value_of(after_pre.functions@, n) matches Some(sg) && globals_view(vs@) == globals_view(sg.global_vars@)),
            forall|j: int| from <= j < k ==> (#[trigger] commands@[j] matches Command::Function(f)
                ==> (value_of(after_pre.functions@, f.name@) matches Some(sg) && sg.global_vars@.len() > 0
                ==> value_of(function_global_vars@, f.name@) is Some)),
        decreases commands@.len() - k,
    {
        if let Command::Function(function) = &commands[k] {
            let fname = chars_of(function.name.as_str());
            if let Some(sig) = ctx.resolve_function(&fname) {
                let mut g: usize = 0;
                while g < sig.global_vars.len()
                    invariant
                        g <= sig.global_vars@.len(),
                    decreases sig.global_vars@.len() - g,
                {
                    let var = &sig.global_vars[g].0;
                    let vc = chars_of(var.as_str());
                    let mut seen = false;
                    let mut a: usize = 0;
                    while a < all_global_vars.len()
                        invariant
                            a <= all_global_vars@.len(),
                        decreases all_global_vars@.len() - a,
                    {
                        if crate::text::eq_lit(&vc, all_global_vars[a].0.as_str()) {
                            seen = true;
                        }
                        a += 1;
                    }
                    if !seen {
                        all_global_vars.push((var.clone(), sig.global_vars[g].1));
                    }
                    g += 1;
                }
                if sig.global_vars.len() > 0 {
                    let mut copy: Vec<(String, GlobalVarType)> = Vec::new();
                    let mut g: usize = 0;
                    while g < sig.global_vars.len()
                        invariant
                            g <= sig.global_vars@.len(),
                            globals_view(copy@) == globals_view(sig.global_vars@.take(g as int)),
                        decreases sig.global_vars@.len() - g,
                    {
                        let ghost before_copy = copy@;
                        copy.push((sig.global_vars[g].0.clone(), sig.global_vars[g].1));
                        proof {
                            assert(globals_view(copy@) =~= globals_view(before_copy).push((sig.global_vars@[g as int].0@, sig.global_vars@[g as int].1)));
                            assert(sig.global_vars@.take(g + 1) =~= sig.global_vars@.take(g as int).push(sig.global_vars@[g as int]));
                            assert(globals_view(sig.global_vars@.take(g + 1)) =~= globals_view(sig.global_vars@.take(g as int)).push((sig.global_vars@[g as int].0@, sig.global_vars@[g as int].1)));
                        }
                        g += 1;
                    }
                    proof {
                        assert(sig.global_vars@.take(g as int) =~= sig.global_vars@);
                    }
                    let ghost before_set = function_global_vars@;
                    set_key(&mut function_global_vars, function.name.clone(), copy);
                    proof {
                        assert forall|j: int| from <= j < k + 1 implies (#[trigger] commands@[j] matches Command::Function(f)
                            ==> (value_of(after_pre.functions@, f.name@) matches Some(sg) && sg.global_vars@.len() > 0
                            ==> value_of(function_global_vars@, f.name@) is Some)) by {
                            if j < k && commands@[j] is Function {
                                let f = commands@[j]->Function_0;
                                if f.name@ != function.name@ {
                                    assert(value_of(function_global_vars@, f.name@) == value_of(before_set, f.name@));
                                }
                            }
                        }
                    }
                }
            }
        }
        k += 1;
    }
    let ghost after_signatures = *ctx;
    proof {
        lemma_ctx_kept_refl(after_signatures);
    }
    let mut a: usize = 0;
    while a < all_global_vars.len()
        invariant
            a <= all_global_vars@.len(),
            ctx_kept(after_signatures, *ctx),
            context::same_but_vars(after_signatures, *ctx),
            a == 0 ==> *ctx == after_signatures,
        decreases all_global_vars@.len() - a,
    {
        let ghost before = *ctx;
        ctx.declare_var(&chars_of(all_global_vars[a].0.as_str()));
        proof {
            assert(context::same_but_vars(before, *ctx));
            lemma_vars_kept(before, *ctx);
            lemma_ctx_kept_trans(after_signatures, before, *ctx);
        }
        a += 1;
    }
    let mut fragments: Vec<FragmentKind> = Vec::new();
    let mut index = from;
    let ghost tail_index: int = tail_position(return_tail, commands@.len() - from);
    let ghost first_ctx = *ctx;
    let ghost mut ctxs: Seq<RenderContext> = seq![*ctx];
    let ghost mut decls: Seq<Seq<FragmentKind>> = seq![];
    let ghost mut outs: Seq<Seq<FragmentKind>> = seq![];
    proof {
        reveal(sequence_rendered);
        assert(sequence_rendered(commands@.subrange(from as int, index as int), tail_index, ctxs, decls, outs, after_signatures));
    }
    while index < commands.len()
        invariant
            from <= index <= commands@.len(),
            tail_index == tail_position(return_tail, commands@.len() - from),
            sequence_rendered(commands@.subrange(from as int, index as int), tail_index, ctxs, decls, outs, after_signatures),
            ctxs.len() == index - from + 1,
            decls.len() == index - from,
            ctxs[0] == first_ctx,
            ctxs.last() == *ctx,
            ctx_kept(after_signatures, first_ctx),
            fragments@ == interleaved(decls, outs, decls.len() as int),
            from == commands@.len() ==> fragments@.len() == 0,
            ctx_kept(after_signatures, *ctx),
            keys_unique(function_global_vars@),
            after_signatures == after_pre,
            forall|n: Seq<char>| #[trigger] value_of(function_global_vars@, n) matches Some(vs)
                ==> (value_of(after_pre.functions@, n) matches Some(sg) && globals_view(vs@) == globals_view(sg.global_vars@)),
            forall|j: int| from <= j < commands@.len() ==> (#[trigger] commands@[j] matches Command::Function(f)
                ==> (value_of(after_pre.functions@, f.name@) matches Some(sg) && sg.global_vars@.len() > 0
                ==> value_of(function_global_vars@, f.name@) is Some)),
            (exists|k: int| from <= k < index && yields_text(#[trigger] commands@[k]))
                ==> exists|m: int| 0 <= m < fragments@.len() && renders_text(#[trigger] fragments@[m]),
        decreases commands@.len() - index,
    {
        let ghost found_before = exists|k: int| from <= k < index && yields_text(#[trigger] commands@[k]);
        let ghost witness: int = if found_before {
            choose|m: int| 0 <= m < fragments@.len() && renders_text(#[trigger] fragments@[m])
        } else {
            0
        };
        let ghost frag_start = fragments@;
        let ghost mut these_decls: Seq<FragmentKind> = seq![];
        let ghost gv = globals_of(commands@[index as int], after_signatures);
        if let Command::Function(function) = &commands[index] {
            let fname = chars_of(function.name.as_str());
            if let Some(i) = context::find_key(&function_global_vars, &fname) {
                let vars = &function_global_vars[i].1;
                proof {
                    assert(globals_view(vars@) == gv);
                }
                let mut g: usize = 0;
                while g < vars.len()
                    invariant
                        g <= vars@.len(),
                        these_decls.len() == g,
                        globals_view(vars@) == gv,
                        forall|j: int| 0 <= j < g ==> (#[trigger] these_decls[j] matches FragmentKind::VarStmt(v) && !v.is_reassignment
                            && v.name@ == (match context::var_of(*ctx, gv[j].0) {
                                Some(a) => a,
                                None => gv[j].0,
                            })
                            && (*v.value matches FragmentKind::Raw(x) && x.value@ == global_default(gv[j].1))),
                        ctx.wf(),
                        frag_start.len() <= fragments@.len(),
                        forall|m: int| 0 <= m < frag_start.len() ==> fragments@[m] == frag_start[m],
                        fragments@ == frag_start + these_decls,
                        forall|j: int| 0 <= j < these_decls.len() ==> (#[trigger] these_decls[j] matches FragmentKind::VarStmt(v)
                            && !v.is_reassignment),
                    decreases vars@.len() - g,
                {
                    let var = chars_of(vars[g].0.as_str());
                    let amber_name = match ctx.var_chars(&var) {
                        Some(a) => a,
                        None => var,
                    };
                    let default_value = match vars[g].1 {
                        GlobalVarType::Text => chars_of("\"\""),
                        GlobalVarType::Int | GlobalVarType::Unknown => chars_of("0"),
                    };
                    proof {
                        assert(gv[g as int] == (vars@[g as int].0@, vars@[g as int].1));
                        assert(var@ == gv[g as int].0);
                        assert(default_value@ == global_default(gv[g as int].1));
                    }
                    let decl = FragmentKind::VarStmt(VarStmtFragment {
                        name: string_of(&amber_name),
                        value: Box::new(raw(&default_value)),
                        is_reassignment: false,
                    });
                    proof {
                        let ghost before_decls = these_decls;
                        these_decls = these_decls.push(decl);
                        assert forall|j: int| 0 <= j < g + 1 implies (#[trigger] these_decls[j] matches FragmentKind::VarStmt(v) && !v.is_reassignment
                            && v.name@ == (match context::var_of(*ctx, gv[j].0) {
                                Some(a) => a,
                                None => gv[j].0,
                            })
                            && (*v.value matches FragmentKind::Raw(x) && x.value@ == global_default(gv[j].1))) by {
                            if j < g {
                                assert(these_decls[j] == before_decls[j]);
                            }
                        }
                    }
                    fragments.push(decl);
                    g += 1;
                }
            }
        }
        proof {
            assert(decls_before(commands@[index as int], after_signatures, *ctx, these_decls));
        }
        let tail_return = return_tail && index + 1 == commands.len();
        let ghost before = *ctx;
        let mut rendered = render_command(&commands[index], ctx, tail_return);
        proof {
            lemma_ctx_kept_trans(after_signatures, before, *ctx);
        }
        let ghost before_append = fragments@;
        let ghost rendered_view = rendered@;
        fragments.append(&mut rendered);
        proof {
            assert(command_rendered(commands@[index as int], before, *ctx, tail_return, rendered_view)) by {
                reveal(command_rendered);
                reveal(block_rendered);
                reveal(commands_rendered);
            }
            let cs0 = commands@.subrange(from as int, index as int);
            let cs1 = commands@.subrange(from as int, index + 1);
            assert(cs1 =~= cs0.push(commands@[index as int]));
            assert(tail_return == (cs0.len() == tail_index));
            lemma_sequence_push(cs0, commands@[index as int], tail_index, ctxs, decls, outs, *ctx, these_decls, rendered_view, after_signatures);
            ctxs = ctxs.push(*ctx);
            decls = decls.push(these_decls);
            outs = outs.push(rendered_view);
            if found_before {
                assert(fragments@[witness] == frag_start[witness]);
            }
            if yields_text(commands@[index as int]) {
                assert(fragments@[before_append.len() as int] == rendered_view[0]);
            }
            if exists|k: int| from <= k < index + 1 && yields_text(#[trigger] commands@[k]) {
                if !found_before {
                    let k = choose|k: int| from <= k < index + 1 && yields_text(#[trigger] commands@[k]);
                    assert(k == index);
                }
            }
        }
        index += 1;
    }
    proof {
        assert(ctx_kept(start, after_signatures)) by {
            assert(after_signatures.warnings@.subrange(0, start.warnings@.len() as int) =~= start.warnings@);
        }
        lemma_ctx_kept_trans(start, after_signatures, *ctx);
        lemma_ctx_kept_trans(start, after_signatures, first_ctx);
        assert(sequence_rendered(commands@.subrange(from as int, commands@.len() as int), tail_index, ctxs, decls, outs, after_signatures));
        let sub = commands@.subrange(from as int, commands@.len() as int);
        if forall|i: int| 0 <= i < sub.len() ==> !(#[trigger] sub[i] is Function) {
            assert forall|j: int| from <= j < commands@.len() implies !(#[trigger] commands@[j] is Function) by {
                assert(sub[j - from] == commands@[j]);
            }
            assert(first_ctx == start);
        }
        assert forall|k: Seq<char>| #[trigger] registered_as(start, after_signatures, last_definition(sub, 0, sub.len() as int, k), k) by {
            function::lemma_last_definition_shift(commands@, from as int, commands@.len() as int, k);
            assert(registered_as(start, after_signatures, last_definition(commands@, from as int, commands@.len() as int, k), k));
        }
        assert(signatures_registered(start, after_signatures, sub, 0, sub.len() as int));
        assert(prepared(sub, start, after_signatures, first_ctx));
        assert(commands_rendered(commands@.subrange(from as int, commands@.len() as int), return_tail, start, *ctx, fragments@)) by {
            reveal(commands_rendered);
        }
    }
    fragments
}

/// Renders `body` in a child scope of `ctx` (with `loop_variable` declared in it) and takes
/// over what it learned.
fn render_in_child(body: &Vec<Command>, ctx: &mut RenderContext, return_tail: bool, loop_variable: Option<&[char]>) -> (r: BlockFragment)
    requires
        old(ctx).wf(),
    ensures
        ctx_kept(*old(ctx), *final(ctx)),
        block_rendered(body@, return_tail, *old(ctx), slice_view(loop_variable), r),
    decreases body@, 1nat,
{
    let mut child = ctx.with_child_scope();
    let ghost child0 = child;
    if let Some(v) = loop_variable {
        let name = child.declare_var(v);
        proof {
            assert(name@ == declared_name(child0, v@));
            assert(declared_in(child0, child, v@));
        }
    }
    let ghost child_start = child;
    proof {
        assert(scope_start(*old(ctx), child_start, slice_view(loop_variable)));
    }
    let items = render_commands(body, 0, &mut child, return_tail);
    proof {
        assert(body@.subrange(0, body@.len() as int) =~= body@);
        assert(commands_rendered(body@, return_tail, child_start, child, items@));
    }
    let ghost child_end = child;
    ctx.merge_from_child(child);
    proof {
        assert(ctx.warnings@.subrange(0, old(ctx).warnings@.len() as int) =~= old(ctx).warnings@);
    }
    let b = BlockFragment::new(items, true);
    proof {
        assert(commands_rendered(body@, return_tail, child_start, child_end, b.statements@));
        assert(block_rendered(body@, return_tail, *old(ctx), slice_view(loop_variable), b)) by {
            reveal(block_rendered);
            reveal(commands_rendered);
        }
    }
    b
}

/// The characters of an optional slice.
pub open spec fn slice_view(v: Option<&[char]>) -> Option<Seq<char>> {
    match v {
        Some(x) => Some(x@),
        None => None,
    }
}

/// The body of a loop over `v`: rendered in a scope of `before` with `v` declared first in
/// `before` and again in the scope.
pub open spec fn loop_body_rendered(body: Seq<Command>, before: RenderContext, v: Seq<char>, b: BlockFragment) -> bool
    decreases body, 4nat,
{
    exists|p: RenderContext| #[trigger] declared_in(before, p, v) && block_rendered(body, false, p, Some(v), b)
}

/// `p` is `before` after an attempt at a ternary assignment that failed: `before` itself, or
/// `before` with the variable that the `then` branch assigns declared.
pub open spec fn ternary_tried(before: RenderContext, p: RenderContext, if_cmd: IfCommand) -> bool {
    ||| p == before
    ||| if_cmd.then_body@.len() > 0 && (if_cmd.then_body@[0] matches Command::Simple(s)
        && declared_in(before, p, word::assign_raw(s.words@)))
}

/// The branches of an `if` fragment rendered from `before`, after the attempt at a ternary.
pub open spec fn if_rendered_from(before: RenderContext, if_cmd: IfCommand, tail: bool, f: IfFragment) -> bool
    decreases if_cmd, 2nat,
{
    exists|p: RenderContext| #[trigger] ternary_tried(before, p, if_cmd) && if_bodies_rendered(if_cmd, tail, p, f)
}

/// The condition of an `if` fragment is that of `if_cmd` in `parent`, and its branches are
/// the branches of `if_cmd`, each rendered in a scope of `parent` of its own.
pub open spec fn if_bodies_rendered(if_cmd: IfCommand, tail: bool, parent: RenderContext, f: IfFragment) -> bool
    decreases if_cmd, 1nat,
{
    &&& render_kind(*f.condition, 0) == spec_expression_text(condition_text(*if_cmd.condition, parent))
    &&& block_rendered(if_cmd.then_body@, tail, parent, None, f.then_body)
    &&& match if_cmd.else_body {
        Some(b) => f.else_body matches Some(fb) && block_rendered(b@, tail, parent, None, fb),
        None => f.else_body is None,
    }
}

/// `if`: a ternary assignment when both branches assign one variable, else an `if` with both
/// branches rendered in scopes of their own.
fn render_if(command: &Command, if_cmd: &IfCommand, ctx: &mut RenderContext, tail_return: bool) -> (r: Vec<FragmentKind>)
    requires
        old(ctx).wf(),
        *command == Command::If(*if_cmd),
    ensures
        ctx_kept(*old(ctx), *final(ctx)),
        r@.len() == 1,
        if_cmd.else_body is None ==> (r@[0] matches FragmentKind::If(f)
            && render_kind(*f.condition, 0) == spec_expression_text(condition_text(*if_cmd.condition, *old(ctx)))
            && f.else_body is None),
        if_cmd.else_body is Some ==> ((r@[0] matches FragmentKind::Raw(x) && ternary_shape(x.value@, if_cmd.then_body@[0],
            *old(ctx), *final(ctx), spec_condition(*if_cmd.condition, *old(ctx)).unwrap()))
            || (r@[0] matches FragmentKind::If(f) && f.else_body is Some)),
        r@[0] matches FragmentKind::If(f) ==> if_rendered_from(*old(ctx), *if_cmd, tail_return, f),
        ternary_decided(*if_cmd, *old(ctx), r@[0]),
        r@[0] is Raw ==> context::same_but_vars(*old(ctx), *final(ctx)),
    decreases *if_cmd, 0nat,
{
    if let Some(ternary_assignment) = render_if_ternary_assignment(if_cmd, ctx) {
        proof {
            lemma_vars_kept(*old(ctx), *ctx);
        }
        return vec![raw(&ternary_assignment)];
    }
    proof {
        lemma_vars_kept(*old(ctx), *ctx);
    }
    let ghost c0 = *ctx;
    let condition = match render_condition_expr(&if_cmd.condition, ctx) {
        Some(c) => c,
        None => command_literal_from_command(&if_cmd.condition, ctx),
    };
    let mut then_ctx = ctx.with_child_scope();
    let ghost then_start = then_ctx;
    proof {
        assert(scope_start(c0, then_start, None));
    }
    let then_items = render_commands(&if_cmd.then_body, 0, &mut then_ctx, tail_return);
    proof {
        assert(if_cmd.then_body@.subrange(0, if_cmd.then_body@.len() as int) =~= if_cmd.then_body@);
        assert(commands_rendered(if_cmd.then_body@, tail_return, then_start, then_ctx, then_items@));
    }
    let ghost then_end = then_ctx;
    let ghost c1 = *ctx;
    ctx.move_warnings(&mut then_ctx);
    proof {
        assert(ctx.warnings@.subrange(0, c1.warnings@.len() as int) =~= c1.warnings@);
        lemma_ctx_kept_trans(*old(ctx), c1, *ctx);
    }
    let ghost c2 = *ctx;
    let else_body = match &if_cmd.else_body {
        Some(else_commands) => {
            let mut else_ctx = ctx.with_child_scope();
            let ghost else_start = else_ctx;
            proof {
                assert(context::child_of(c0, else_start));
                assert(scope_start(c0, else_start, None));
            }
            let rendered = render_commands(else_commands, 0, &mut else_ctx, tail_return);
            proof {
                assert(else_commands@.subrange(0, else_commands@.len() as int) =~= else_commands@);
                assert(commands_rendered(else_commands@, tail_return, else_start, else_ctx, rendered@));
            }
            let ghost else_end = else_ctx;
            ctx.merge_from_child(else_ctx);
            proof {
                assert(ctx.warnings@.subrange(0, c2.warnings@.len() as int) =~= c2.warnings@);
                lemma_ctx_kept_trans(*old(ctx), c2, *ctx);
            }
            let eb = BlockFragment::new(rendered, true);
            proof {
                assert(block_rendered(else_commands@, tail_return, c0, None, eb)) by {
                    reveal(block_rendered);
                    reveal(commands_rendered);
                    assert(commands_rendered(else_commands@, tail_return, else_start, else_end, eb.statements@));
                }
            }
            Some(eb)
        },
        None => None,
    };
    let ghost c3 = *ctx;
    ctx.merge_from_child(then_ctx);
    proof {
        assert(ctx.warnings@.subrange(0, c3.warnings@.len() as int) =~= c3.warnings@);
        lemma_ctx_kept_trans(*old(ctx), c3, *ctx);
    }
    let tb = BlockFragment::new(then_items, true);
    proof {
        assert(block_rendered(if_cmd.then_body@, tail_return, c0, None, tb)) by {
            reveal(block_rendered);
            reveal(commands_rendered);
            assert(commands_rendered(if_cmd.then_body@, tail_return, then_start, then_end, tb.statements@));
        }
    }
    let fr = IfFragment {
        condition: Box::new(render_expression_fragment(&condition)),
        then_body: tb,
        else_body,
    };
    proof {
        assert(if_bodies_rendered(*if_cmd, tail_return, c0, fr)) by {
            reveal(block_rendered);
        }
        assert(ternary_tried(*old(ctx), c0, *if_cmd));
    }
    vec![FragmentKind::If(fr)]
}

/// `for x in items`: an Amber `for` over the items, the variable declared before and in the
/// body's scope.
fn render_for(for_cmd: &ForCommand, ctx: &mut RenderContext) -> (r: Vec<FragmentKind>)
    requires
        old(ctx).wf(),
    ensures
        ctx_kept(*old(ctx), *final(ctx)),
        r@.len() == 1,
        r@[0] matches FragmentKind::For(f) && f.variable@ == declared_name(*old(ctx), for_cmd.variable@)
            && f.items@ == for_items_text(for_cmd.items@, *old(ctx)) && loop_body_rendered(for_cmd.body@, *old(ctx), for_cmd.variable@, f.body),
    decreases *for_cmd, 0nat,
{
    let items = match render_for_items(&for_cmd.items, ctx) {
        Some(i) => i,
        None => {
            let words = copy_strings(&for_cmd.items);
            command_literal_from_command(&Command::Simple(SimpleCommand { words }), ctx)
        },
    };
    let variable = chars_of(for_cmd.variable.as_str());
    let var_name = ctx.declare_var(&variable);
    let ghost c1 = *ctx;
    proof {
        lemma_vars_kept(*old(ctx), c1);
        assert(var_name@ == declared_name(*old(ctx), variable@));
        assert(declared_in(*old(ctx), c1, variable@));
    }
    let vs = variable.as_slice();
    let body = render_in_child(&for_cmd.body, ctx, false, Some(vs));
    proof {
        lemma_ctx_kept_trans(*old(ctx), c1, *ctx);
        assert(slice_view(Some(vs)) == Some(for_cmd.variable@));
        assert(loop_body_rendered(for_cmd.body@, *old(ctx), for_cmd.variable@, body)) by {
            reveal(block_rendered);
        }
    }
    vec![FragmentKind::For(ForFragment { variable: var_name, items: string_of(&items), body })]
}

/// `for (( .. ))` over a range as an Amber `for`, else a `trust` command.
fn render_c_style_for(command: &Command, for_cmd: &CStyleForCommand, ctx: &mut RenderContext) -> (r: Vec<FragmentKind>)
    requires
        old(ctx).wf(),
        *command == Command::CStyleFor(*for_cmd),
    ensures
        ctx_kept(*old(ctx), *final(ctx)),
        r@.len() == 1,
        match spec_c_range(for_cmd.init@, for_cmd.condition@, for_cmd.update@, *old(ctx)) {
            Some((v, s, e, inclusive)) => r@[0] matches FragmentKind::For(f) && f.variable@ == declared_name(*old(ctx), v)
                && f.items@ == c_range_text(s, e, inclusive) && loop_body_rendered(for_cmd.body@, *old(ctx), v, f.body),
            None => *final(ctx) == *old(ctx) && (r@[0] matches FragmentKind::Raw(x)
                && x.value@ == spec_literal_from_command(*command, *old(ctx))),
        },
    decreases *for_cmd, 0nat,
{
    proof {
        lemma_ctx_kept_refl(*ctx);
    }
    match parse_c_style_for_range(for_cmd, ctx) {
        Some(spec) => {
            let var_name = ctx.declare_var(&spec.variable);
            let ghost c1 = *ctx;
            proof {
                lemma_vars_kept(*old(ctx), c1);
                assert(var_name@ == declared_name(*old(ctx), spec.variable@));
                assert(declared_in(*old(ctx), c1, spec.variable@));
            }
            let mut items = spec.start;
            if spec.inclusive {
                push_str(&mut items, "..=");
            } else {
                push_str(&mut items, "..");
            }
            push_all(&mut items, &spec.end);
            let vs = spec.variable.as_slice();
            let body = render_in_child(&for_cmd.body, ctx, false, Some(vs));
            proof {
                lemma_ctx_kept_trans(*old(ctx), c1, *ctx);
                assert(slice_view(Some(vs)) == Some(spec.variable@));
                assert(loop_body_rendered(for_cmd.body@, *old(ctx), spec.variable@, body)) by {
                    reveal(block_rendered);
                }
            }
            vec![FragmentKind::For(ForFragment { variable: var_name, items: string_of(&items), body })]
        },
        None => vec![raw(&command_literal_from_command(command, ctx))],
    }
}

/// The statement among at most one, as an `Option`.
pub open spec fn first_of(r: Seq<FragmentKind>) -> Option<FragmentKind> {
    if r.len() == 0 {
        None
    } else {
        Some(r[0])
    }
}

/// What a simple command gives as the last command of a function that returns a value, for
/// `echo` with at most one word and for a command that does not assign the return variable:
/// `return` of what `echo` prints or of the value of a call of a known function, and else the
/// statement it gives anywhere.
pub open spec fn tail_simple_rendered(command: Command, simple: SimpleCommand, before: RenderContext, after: RenderContext, r: Seq<FragmentKind>) -> bool {
    let w = simple.words@;
    let is_echo = w.len() > 0 && w[0]@ == "echo"@;
    let value = if is_echo {
        if w.len() == 1 {
            Some("\"\""@)
        } else if w.len() == 2 {
            spec_word_to_expr(w[1]@, before)
        } else {
            None
        }
    } else if !assigns_return_var(w, before) {
        spec_function_call(w, before)
    } else {
        None
    };
    (is_echo && w.len() <= 2) || (!is_echo && !assigns_return_var(w, before)) ==> match value {
        Some(v) => after == before && r.len() == 1 && (r[0] matches FragmentKind::Raw(x) && x.value@ == "return "@ + v),
        None => simple_rendered(command, simple, before, after, first_of(r)),
    }
}

/// A simple command; with `tail_return`, a `return` of the value it gives when it gives one.
fn render_simple_statement(command: &Command, simple: &SimpleCommand, ctx: &mut RenderContext, tail_return: bool) -> (r: Vec<FragmentKind>)
    requires
        old(ctx).wf(),
        *command == Command::Simple(*simple),
    ensures
        ctx_kept(*old(ctx), *final(ctx)),
        context::same_but_vars(*old(ctx), *final(ctx)),
        r@.len() <= 1,
        !tail_return ==> simple_rendered(*command, *simple, *old(ctx), *final(ctx), first_of(r@)),
        tail_return ==> tail_simple_rendered(*command, *simple, *old(ctx), *final(ctx), r@),
{
    if tail_return {
        if let Some(expr) = render_tail_return_expr(simple, ctx) {
            proof {
                lemma_vars_kept(*old(ctx), *ctx);
            }
            let mut text = chars_of("return ");
            push_all(&mut text, &expr);
            proof {
                reveal_strlit("return ");
                assert(text@ =~= "return "@ + expr@);
            }
            return vec![raw(&text)];
        }
    }
    let ghost c1 = *ctx;
    let r = match render_simple(command, simple, ctx) {
        Some(f) => vec![f],
        None => Vec::new(),
    };
    proof {
        lemma_vars_kept(*old(ctx), *ctx);
    }
    r
}

/// Whether a command always renders to a statement with some text: `if`, loops, `&` and
/// `&&`/`||` lists.
pub open spec fn yields_text(c: Command) -> bool {
    c is If || c is While || c is For || c is CStyleFor || c is Background || c is Connection
}


/// The declarations and statements of a rendered sequence, in order: for each command, the
/// declarations made before it, then its statements.
pub open spec fn interleaved(decls: Seq<Seq<FragmentKind>>, outs: Seq<Seq<FragmentKind>>, n: int) -> Seq<FragmentKind>
    decreases n,
{
    if n <= 0 {
        seq![]
    } else {
        interleaved(decls, outs, n - 1) + decls[n - 1] + outs[n - 1]
    }
}

proof fn lemma_sequence_push(
    cs: Seq<Command>,
    c: Command,
    tail_index: int,
    ctxs: Seq<RenderContext>,
    decls: Seq<Seq<FragmentKind>>,
    outs: Seq<Seq<FragmentKind>>,
    next: RenderContext,
    d: Seq<FragmentKind>,
    o: Seq<FragmentKind>,
    sigs: RenderContext,
)
    requires
        sequence_rendered(cs, tail_index, ctxs, decls, outs, sigs),
        decls_before(c, sigs, ctxs.last(), d),
        command_rendered(c, ctxs.last(), next, cs.len() == tail_index, o),
        d.len() > 0 ==> c is Function,
        forall|j: int| 0 <= j < d.len() ==> (#[trigger] d[j] matches FragmentKind::VarStmt(v) && !v.is_reassignment),
    ensures
        sequence_rendered(cs.push(c), tail_index, ctxs.push(next), decls.push(d), outs.push(o), sigs),
        interleaved(decls.push(d), outs.push(o), decls.len() + 1int) == interleaved(decls, outs, decls.len() as int) + d + o,
{
    reveal(sequence_rendered);
    reveal(command_rendered);
    let cs1 = cs.push(c);
    let ctxs1 = ctxs.push(next);
    let decls1 = decls.push(d);
    let outs1 = outs.push(o);
    assert forall|i: int| 0 <= i < cs1.len() implies command_rendered(#[trigger] cs1[i], ctxs1[i], ctxs1[i + 1], i == tail_index, outs1[i]) by {
        if i < cs.len() {
            assert(cs1[i] == cs[i]);
        }
    }
    assert forall|i: int| 0 <= i < cs1.len() && (#[trigger] decls1[i]).len() > 0 implies cs1[i] is Function by {
        if i < cs.len() {
            assert(cs1[i] == cs[i]);
        }
    }
    assert forall|i: int| 0 <= i < cs1.len() implies decls_before(#[trigger] cs1[i], sigs, ctxs1[i], decls1[i]) by {
        if i < cs.len() {
            assert(cs1[i] == cs[i]);
            assert(decls1[i] == decls[i]);
        }
    }
    assert forall|i: int, j: int| 0 <= i < cs1.len() && 0 <= j < decls1[i].len() implies (#[trigger] decls1[i][j] matches FragmentKind::VarStmt(v)
        && !v.is_reassignment) by {
        if i < cs.len() {
            assert(decls1[i] == decls[i]);
        }
    }
    lemma_interleaved_prefix(decls, outs, d, o);
}

proof fn lemma_interleaved_prefix(decls: Seq<Seq<FragmentKind>>, outs: Seq<Seq<FragmentKind>>, d: Seq<FragmentKind>, o: Seq<FragmentKind>)
    requires
        decls.len() == outs.len(),
    ensures
        interleaved(decls.push(d), outs.push(o), decls.len() + 1int) == interleaved(decls, outs, decls.len() as int) + d + o,
{
    lemma_interleaved_same(decls, outs, decls.push(d), outs.push(o), decls.len() as int);
}

proof fn lemma_interleaved_same(d1: Seq<Seq<FragmentKind>>, o1: Seq<Seq<FragmentKind>>, d2: Seq<Seq<FragmentKind>>, o2: Seq<Seq<FragmentKind>>, n: int)
    requires
        n <= d1.len(),
        n <= o1.len(),
        n <= d2.len(),
        n <= o2.len(),
        forall|i: int| 0 <= i < n ==> d1[i] == d2[i] && o1[i] == o2[i],
    ensures
        interleaved(d1, o1, n) == interleaved(d2, o2, n),
    decreases n,
{
    if n > 0 {
        lemma_interleaved_same(d1, o1, d2, o2, n - 1);
    }
}

/// The value a global variable of type `t` starts with: `""` for text, `0` otherwise.
pub open spec fn global_default(t: GlobalVarType) -> Seq<char> {
    match t {
        GlobalVarType::Text => "\"\""@,
        _ => "0"@,
    }
}

/// The global variables and their types, as plain values.
pub open spec fn globals_view(g: Seq<(String, GlobalVarType)>) -> Seq<(Seq<char>, GlobalVarType)> {
    g.map_values(|p: (String, GlobalVarType)| (p.0@, p.1))
}

/// The global variables that the definition `c`, by its signature in `sigs`, leaves set;
/// none for other commands.
pub open spec fn globals_of(c: Command, sigs: RenderContext) -> Seq<(Seq<char>, GlobalVarType)> {
    match c {
        Command::Function(f) => match value_of(sigs.functions@, f.name@) {
            Some(s) => globals_view(s.global_vars@),
            None => seq![],
        },
        _ => seq![],
    }
}

/// The declarations rendered before `c`: a `let` of each global variable that `c` leaves set,
/// named as `ctx` resolves it (by its own name when `ctx` does not) and set to the default of
/// its type.
pub open spec fn decls_before(c: Command, sigs: RenderContext, ctx: RenderContext, d: Seq<FragmentKind>) -> bool {
    let vars = globals_of(c, sigs);
    &&& d.len() == vars.len()
    &&& forall|j: int| 0 <= j < d.len() ==> (#[trigger] d[j] matches FragmentKind::VarStmt(v) && !v.is_reassignment
        && v.name@ == (match context::var_of(ctx, vars[j].0) {
            Some(a) => a,
            None => vars[j].0,
        })
        && (*v.value matches FragmentKind::Raw(x) && x.value@ == global_default(vars[j].1)))
}

/// The context the first of `cs` is rendered from: `sigs`, which is `start` with the
/// signatures of the functions that `cs` define registered, then the global variables they
/// set declared; `start` itself when none of `cs` defines a function.
pub open spec fn prepared(cs: Seq<Command>, start: RenderContext, sigs: RenderContext, first: RenderContext) -> bool {
    &&& signatures_registered(start, sigs, cs, 0, cs.len() as int)
    &&& only_functions_changed(start, sigs)
    &&& context::same_but_vars(sigs, first)
    &&& (forall|i: int| 0 <= i < cs.len() ==> !(#[trigger] cs[i] is Function)) ==> first == start
}

/// `cs` rendered from `start` to `end` into `r`: one after another, from the context that
/// `prepared` describes, the last one returning its value when `tail`.
#[verifier::opaque]
pub open spec fn commands_rendered(cs: Seq<Command>, tail: bool, start: RenderContext, end: RenderContext, r: Seq<FragmentKind>) -> bool
    decreases cs, 2nat,
{
    exists|ctxs: Seq<RenderContext>, decls: Seq<Seq<FragmentKind>>, outs: Seq<Seq<FragmentKind>>, sigs: RenderContext|
        #![trigger prepared(cs, start, sigs, ctxs[0]), interleaved(decls, outs, decls.len() as int)]
        sequence_rendered(cs, tail_position(tail, cs.len() as int), ctxs, decls, outs, sigs)
        && ctx_kept(start, ctxs[0]) && ctxs.last() == end && r == interleaved(decls, outs, decls.len() as int)
        && prepared(cs, start, sigs, ctxs[0])
}

/// `b` is `a` after declaring the variable `v`: `v` resolves to the name `declared_name`
/// gives, the other variables keep their aliases, and nothing else changes.
pub open spec fn declared_in(a: RenderContext, b: RenderContext, v: Seq<char>) -> bool {
    &&& context::declared(a, b, v, declared_name(a, v))
    &&& context::same_but_vars(a, b)
    &&& forall|r: Seq<char>| r != v ==> #[trigger] context::value_of(b.var_aliases@, r) == context::value_of(a.var_aliases@, r)
    &&& forall|m: Seq<char>| #[trigger] context::has_name(b.declared_vars@, m) == (context::has_name(a.declared_vars@, m) || m == declared_name(a, v))
}

/// `start` is a scope of `parent` for a nested block: a child scope, with `var` declared in it
/// when there is one.
pub open spec fn scope_start(parent: RenderContext, start: RenderContext, var: Option<Seq<char>>) -> bool {
    exists|child: RenderContext| #[trigger] context::child_of(parent, child) && match var {
        None => start == child,
        Some(v) => declared_in(child, start, v),
    }
}

/// `cs` rendered, in a scope of `parent` of their own (with `var` declared in it), into the
/// statements of the block `b`.
#[verifier::opaque]
pub open spec fn block_rendered(cs: Seq<Command>, tail: bool, parent: RenderContext, var: Option<Seq<char>>, b: BlockFragment) -> bool
    decreases cs, 3nat,
{
    exists|start: RenderContext, end: RenderContext| #![trigger scope_start(parent, start, var), ctx_kept(start, end)]
        commands_rendered(cs, tail, start, end, b.statements@) && scope_start(parent, start, var) && ctx_kept(start, end)
}

/// `block_rendered`, with `end` the context the block's scope ends in.
#[verifier::opaque]
pub open spec fn block_rendered_to(cs: Seq<Command>, tail: bool, parent: RenderContext, b: BlockFragment, end: RenderContext) -> bool
    decreases cs, 3nat,
{
    exists|start: RenderContext| #[trigger] scope_start(parent, start, None) && commands_rendered(cs, tail, start, end, b.statements@)
}

/// The position of the command that returns its value among `n` commands: the last one
/// when `return_tail`, else none (-1).
pub open spec fn tail_position(return_tail: bool, n: int) -> int {
    if return_tail {
        n - 1
    } else {
        -1
    }
}

/// What rendering `command` gives, read against the context before and after: the
/// contract of `render_command`, the bodies of nested blocks included.
#[verifier::opaque]
pub open spec fn command_rendered(command: Command, before: RenderContext, after: RenderContext, tail: bool, r: Seq<FragmentKind>) -> bool
    decreases command, 0nat,
{
    &&& (ctx_kept(before, after))
    &&& (command is Simple ==> r.len() <= 1)
    &&& (command is Simple || command is Arithmetic ==> context::same_but_vars(before, after))
    &&& (!tail ==> (command matches Command::Simple(s) ==> simple_rendered(command, s, before, after, first_of(r))))
    &&& (tail ==> (command matches Command::Simple(s) ==> tail_simple_rendered(command, s, before, after, r)))
    &&& (!(command is Simple) && !(command is Group) ==> r.len() == 1)
    &&& (command is Background ==> after == before && (r[0] matches FragmentKind::Raw(x)
        && x.value@ == spec_literal_from_command(command, before)))
    &&& (command matches Command::Connection(c) ==> after == before && (r[0] matches FragmentKind::Raw(x)
        && x.value@ == match spec_echo_ternary(c, before) {
            Some(v) => v,
            None => spec_literal_from_command(command, before),
        }))
    &&& (command matches Command::While(w) ==> (r[0] matches FragmentKind::While(f)
        && render_kind(*f.condition, 0) == spec_expression_text(condition_text(*w.condition, before))))
    &&& (command matches Command::If(i) ==> {
        &&& i.else_body is None ==> (r[0] matches FragmentKind::If(f)
            && render_kind(*f.condition, 0) == spec_expression_text(condition_text(*i.condition, before))
            && f.else_body is None)
        &&& i.else_body is Some ==> ((r[0] matches FragmentKind::Raw(x) && ternary_shape(x.value@, i.then_body@[0],
            before, after, spec_condition(*i.condition, before).unwrap()))
            || (r[0] matches FragmentKind::If(f) && f.else_body is Some))
    })
    &&& (command matches Command::For(f) ==> (r[0] matches FragmentKind::For(ff)
        && ff.variable@ == declared_name(before, f.variable@) && ff.items@ == for_items_text(f.items@, before)))
    &&& (command matches Command::CStyleFor(f) ==> match spec_c_range(f.init@, f.condition@, f.update@, before) {
        Some((v, s, e, inclusive)) => r[0] matches FragmentKind::For(ff) && ff.variable@ == declared_name(before, v)
            && ff.items@ == c_range_text(s, e, inclusive),
        None => after == before && (r[0] matches FragmentKind::Raw(x)
            && x.value@ == spec_literal_from_command(command, before)),
    })
    &&& (command matches Command::Arithmetic(a) ==> (r[0] is Raw) && (spec_trim(a.expression@).len() == 0
        || !assignment_applies(spec_trim(a.expression@), before) ==> after == before
        && (r[0] matches FragmentKind::Raw(x) && x.value@ == arith_statement_text(command, a.expression@, before))))
    &&& (command matches Command::Case(c) ==> (spec_word_to_expr(c.word@, before) is None ==> after == before
        && (r[0] matches FragmentKind::Raw(x) && x.value@ == spec_literal_from_command(command, before))))
    &&& (command is Function ==> after.var_aliases == before.var_aliases
        && after.declared_vars == before.declared_vars && after.functions == before.functions
        && after.function_hint_cursors == before.function_hint_cursors)
    &&& (command matches Command::Function(f) ==> function_rendered(command, f, before, after, r[0]))
    &&& (yields_text(command) ==> renders_text(r[0]))
    &&& (command matches Command::If(i) ==> ternary_decided(i, before, r[0]))
    &&& (command is If && r[0] is Raw ==> context::same_but_vars(before, after))
    &&& (command matches Command::While(w) ==> (r[0] matches FragmentKind::While(f) && block_rendered(w.body@, false, before, None, f.body)))
    &&& (command matches Command::For(fc) ==> (r[0] matches FragmentKind::For(ff) && loop_body_rendered(fc.body@, before, fc.variable@, ff.body)))
    &&& (command matches Command::CStyleFor(fc) ==> (spec_c_range(fc.init@, fc.condition@, fc.update@, before) matches Some((v, _, _, _))
        ==> (r[0] matches FragmentKind::For(ff) && loop_body_rendered(fc.body@, before, v, ff.body))))
    &&& (command matches Command::If(i) ==> (r[0] matches FragmentKind::If(f) ==> if_rendered_from(before, i, tail, f)))
    &&& (command matches Command::Group(b) ==> commands_rendered(b@, tail, before, after, r))
    &&& (command matches Command::Case(c) ==> (r[0] matches FragmentKind::IfChain(ch) ==> case_bodies_rendered(c.clauses@, tail, before, ch)))
    &&& (command matches Command::Function(f) ==> (r[0] matches FragmentKind::Function(ff)
        ==> function_body_rendered(f, value_of(before.functions@, f.name@), before, ff)))
}

/// Whether an `if` becomes a ternary assignment: always when it has an `else`, a condition
/// Amber can state, and both branches reassign one bound variable to known values; never
/// when it lacks an `else` or a condition, or a branch is not one simple command.
pub open spec fn ternary_decided(i: IfCommand, before: RenderContext, r: FragmentKind) -> bool {
    &&& (i.else_body matches Some(eb) && spec_condition(*i.condition, before) is Some
        && known_reassignments(i.then_body@, eb@, before)) ==> r is Raw
    &&& (i.else_body is None || spec_condition(*i.condition, before) is None || !single_simple(i.then_body@)
        || (i.else_body matches Some(eb) && !single_simple(eb@))) ==> r is If
}

/// `cs` rendered one after another: command `i` from context `ctxs[i]` to `ctxs[i + 1]`, into
/// `outs[i]`, with a `return` of its value when `i` is `tail_index`; before a function
/// definition, declarations (`decls[i]`) of the global variables it sets.
#[verifier::opaque]
pub open spec fn sequence_rendered(cs: Seq<Command>, tail_index: int, ctxs: Seq<RenderContext>, decls: Seq<Seq<FragmentKind>>, outs: Seq<Seq<FragmentKind>>, sigs: RenderContext) -> bool
    decreases cs, 1nat,
{
    &&& ctxs.len() == cs.len() + 1
    &&& decls.len() == cs.len()
    &&& outs.len() == cs.len()
    &&& forall|i: int| 0 <= i < cs.len() ==> command_rendered(#[trigger] cs[i], ctxs[i], ctxs[i + 1], i == tail_index, outs[i])
    &&& forall|i: int| 0 <= i < cs.len() ==> ((#[trigger] decls[i]).len() > 0 ==> cs[i] is Function)
    &&& forall|i: int, j: int| 0 <= i < cs.len() && 0 <= j < decls[i].len() ==> (#[trigger] decls[i][j] matches FragmentKind::VarStmt(v)
        && !v.is_reassignment)
    &&& forall|i: int| 0 <= i < cs.len() ==> decls_before(#[trigger] cs[i], sigs, ctxs[i], decls[i])
}


/// Renders one command as Amber statements.
pub fn render_command(command: &Command, ctx: &mut RenderContext, tail_return: bool) -> (r: Vec<FragmentKind>)
    requires
        old(ctx).wf(),
    ensures
        ctx_kept(*old(ctx), *final(ctx)),
        command is Simple ==> r@.len() <= 1,
        command is Simple || command is Arithmetic ==> context::same_but_vars(*old(ctx), *final(ctx)),
        !tail_return ==> (*command matches Command::Simple(s) ==> simple_rendered(*command, s, *old(ctx), *final(ctx), first_of(r@))),
        tail_return ==> (*command matches Command::Simple(s) ==> tail_simple_rendered(*command, s, *old(ctx), *final(ctx), r@)),
        !(command is Simple) && !(command is Group) ==> r@.len() == 1,
        command is Background ==> *final(ctx) == *old(ctx) && (r@[0] matches FragmentKind::Raw(x)
            && x.value@ == spec_literal_from_command(*command, *old(ctx))),
        *command matches Command::Connection(c) ==> *final(ctx) == *old(ctx) && (r@[0] matches FragmentKind::Raw(x)
            && x.value@ == match spec_echo_ternary(c, *old(ctx)) {
                Some(v) => v,
                None => spec_literal_from_command(*command, *old(ctx)),
            }),
        *command matches Command::While(w) ==> (r@[0] matches FragmentKind::While(f)
            && render_kind(*f.condition, 0) == spec_expression_text(condition_text(*w.condition, *old(ctx)))),
        *command matches Command::If(i) ==> {
            &&& i.else_body is None ==> (r@[0] matches FragmentKind::If(f)
                && render_kind(*f.condition, 0) == spec_expression_text(condition_text(*i.condition, *old(ctx)))
                && f.else_body is None)
            &&& i.else_body is Some ==> ((r@[0] matches FragmentKind::Raw(x) && ternary_shape(x.value@, i.then_body@[0],
                *old(ctx), *final(ctx), spec_condition(*i.condition, *old(ctx)).unwrap()))
                || (r@[0] matches FragmentKind::If(f) && f.else_body is Some))
        },
        *command matches Command::For(f) ==> (r@[0] matches FragmentKind::For(ff)
            && ff.variable@ == declared_name(*old(ctx), f.variable@) && ff.items@ == for_items_text(f.items@, *old(ctx))),
        *command matches Command::CStyleFor(f) ==> match spec_c_range(f.init@, f.condition@, f.update@, *old(ctx)) {
            Some((v, s, e, inclusive)) => r@[0] matches FragmentKind::For(ff) && ff.variable@ == declared_name(*old(ctx), v)
                && ff.items@ == c_range_text(s, e, inclusive),
            None => *final(ctx) == *old(ctx) && (r@[0] matches FragmentKind::Raw(x)
                && x.value@ == spec_literal_from_command(*command, *old(ctx))),
        },
        *command matches Command::Arithmetic(a) ==> (r@[0] is Raw) && (spec_trim(a.expression@).len() == 0
            || !assignment_applies(spec_trim(a.expression@), *old(ctx)) ==> *final(ctx) == *old(ctx)
            && (r@[0] matches FragmentKind::Raw(x) && x.value@ == arith_statement_text(*command, a.expression@, *old(ctx)))),
        *command matches Command::Case(c) ==> (spec_word_to_expr(c.word@, *old(ctx)) is None ==> *final(ctx) == *old(ctx)
            && (r@[0] matches FragmentKind::Raw(x) && x.value@ == spec_literal_from_command(*command, *old(ctx)))),
        command is Function ==> final(ctx).var_aliases == old(ctx).var_aliases
            && final(ctx).declared_vars == old(ctx).declared_vars && final(ctx).functions == old(ctx).functions
            && final(ctx).function_hint_cursors == old(ctx).function_hint_cursors,
        *command matches Command::Function(f) ==> function_rendered(*command, f, *old(ctx), *final(ctx), r@[0]),
        yields_text(*command) ==> renders_text(r@[0]),
        *command matches Command::While(w) ==> (r@[0] matches FragmentKind::While(f) && block_rendered(w.body@, false, *old(ctx), None, f.body)),
        *command matches Command::For(fc) ==> (r@[0] matches FragmentKind::For(ff) && loop_body_rendered(fc.body@, *old(ctx), fc.variable@, ff.body)),
        *command matches Command::CStyleFor(fc) ==> (spec_c_range(fc.init@, fc.condition@, fc.update@, *old(ctx)) matches Some((v, _, _, _))
            ==> (r@[0] matches FragmentKind::For(ff) && loop_body_rendered(fc.body@, *old(ctx), v, ff.body))),
        *command matches Command::If(i) ==> (r@[0] matches FragmentKind::If(f) ==> if_rendered_from(*old(ctx), i, tail_return, f)),
        *command matches Command::Group(b) ==> commands_rendered(b@, tail_return, *old(ctx), *final(ctx), r@),
        *command matches Command::Case(c) ==> (r@[0] matches FragmentKind::IfChain(ch) ==> case_bodies_rendered(c.clauses@, tail_return, *old(ctx), ch)),
        *command matches Command::Function(f) ==> (r@[0] matches FragmentKind::Function(ff)
            ==> function_body_rendered(f, value_of(old(ctx).functions@, f.name@), *old(ctx), ff)),
        *command matches Command::If(i) ==> ternary_decided(i, *old(ctx), r@[0]),
        command is If && r@[0] is Raw ==> context::same_but_vars(*old(ctx), *final(ctx)),
    decreases *command, 0nat,
{
    proof {
        lemma_ctx_kept_refl(*ctx);
    }
    let ghost start = *ctx;
    let r = match command {
        Command::If(if_cmd) => render_if(command, if_cmd, ctx, tail_return),
        Command::While(while_cmd) => {
            let condition = match render_condition_expr(&while_cmd.condition, ctx) {
                Some(c) => c,
                None => command_literal_from_command(&while_cmd.condition, ctx),
            };
            let body = render_in_child(&while_cmd.body, ctx, false, None);
            vec![FragmentKind::While(WhileFragment { condition: Box::new(render_expression_fragment(&condition)), body })]
        },
        Command::For(for_cmd) => render_for(for_cmd, ctx),
        Command::CStyleFor(for_cmd) => render_c_style_for(command, for_cmd, ctx),
        Command::Arithmetic(arith) => {
            let r = match arithmetic::render_arithmetic_statement_expr(&chars_of(arith.expression.as_str()), ctx) {
                Some(rendered) => vec![raw(&rendered)],
                None => vec![raw(&command_literal_from_command(command, ctx))],
            };
            proof {
                lemma_vars_kept(*old(ctx), *ctx);
            }
            r
        },
        Command::Background(_) => vec![raw(&command_literal_from_command(command, ctx))],
        Command::Case(case_cmd) => vec![render_case(command, case_cmd, ctx, tail_return)],
        Command::Function(function) => {
            let rendered = render_function(command, function, ctx);
            proof {
                assert(function_rendered(*command, *function, *old(ctx), *ctx, rendered));
            }
            vec![rendered]
        },
        Command::Group(body) => {
            let r = render_commands(body, 0, ctx, tail_return);
            proof {
                assert(body@.subrange(0, body@.len() as int) =~= body@);
            }
            r
        },
        Command::Simple(simple) => render_simple_statement(command, simple, ctx, tail_return),
        Command::Connection(connection) => {
            match render_echo_ternary_connection(connection, ctx) {
                Some(rendered) => vec![raw(&rendered)],
                None => vec![raw(&command_literal_from_command(command, ctx))],
            }
        },
    };
    proof {
        reveal_strlit("trust $ ");
        reveal_strlit("echo(");
        reveal_strlit(" = ");
        if yields_text(*command) {
            lemma_renders_text(r@[0]);
        }
    }
    r
}

} // verus!
