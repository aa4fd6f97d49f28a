//! Bash functions: their signatures (arity, parameter names, typed returns, global output
//! variables) and their rendering as Amber functions.
use vstd::prelude::*;
use vstd::set_lib::lemma_len_subset;
use super::analysis::{assigned_in_commands, commands_reference_variable, references_in_commands};
use super::arithmetic::split_whitespace;
use crate::text::lemma_views_push;
use super::context::{
    has_key, keys_unique, numbered, value_of, FunctionRenderMode, FunctionSig, FunctionTypeHint,
    RenderContext, TypeCommentParam, TypeCommentReturnContract,
};
use super::fallback::{command_literal_from_command, spec_literal_from_command};
use super::syntax::{
    detect_function_traits, is_double_quoted, is_reserved_keyword, normalize_identifier,
    sanitize_function_name, spec_is_double_quoted, spec_is_reserved_keyword,
    spec_normalize_identifier, spec_sanitize_function_name, traits_of_commands, GlobalVarType,
};
use super::fragment_expr::string_views;
use super::{block_rendered, commands_rendered, ctx_kept, render_commands};
use crate::amber::fragments::{BlockFragment, FragmentKind, FunctionFragment, RawFragment};
use crate::bash::ast::{
    clause_trees, trees, CaseClause, CaseCommand, ClauseView, Command, CommandView, Connection, FunctionDef, IfCommand,
    Program, SimpleCommand, WhileCommand,
};
use crate::bash::parser::{fails_to_parse, parse, parsed_statements};
use super::arithmetic::ws_split;
use crate::text::{
    chars_of, decimal, is_identifier, join, join_lit, spec_trim, parse_usize, push_all, push_str, seq_eq, slice_vec,
    spec_is_identifier, spec_parse_usize, spec_split_once, spec_strip_prefix, spec_strip_suffix,
    split_once_lit, string_of, strip_prefix_lit, strip_suffix_lit, to_vec, trim, u128_to_decimal,
    usize_to_decimal, views,
};

verus! {

// ---------------------------------------------------------------------------
// Positional bindings `name=$1` at the start of a body
// ---------------------------------------------------------------------------

/// The index of `$k`, `${k}`, `"$k"` or `"${k}"`.
pub open spec fn spec_positional_index(value: Seq<char>) -> Option<usize> {
    let raw = if spec_is_double_quoted(value) { value.subrange(1, value.len() - 1) } else { value };
    if spec_strip_prefix(raw, "${"@) is Some && spec_strip_suffix(spec_strip_prefix(raw, "${"@).unwrap(), "}"@) is Some {
        spec_parse_usize(spec_strip_suffix(spec_strip_prefix(raw, "${"@).unwrap(), "}"@).unwrap())
    } else {
        match spec_strip_prefix(raw, "$"@) {
            Some(x) => spec_parse_usize(x),
            None => None,
        }
    }
}

fn parse_positional_index(value: &[char]) -> (r: Option<usize>)
    ensures
        r == spec_positional_index(value@),
{
    let raw = if is_double_quoted(value) { slice_vec(value, 1, value.len() - 1) } else { to_vec(value) };
    if let Some(a) = strip_prefix_lit(&raw, "${") {
        if let Some(inner) = strip_suffix_lit(&a, "}") {
            return parse_usize(&inner);
        }
    }
    match strip_prefix_lit(&raw, "$") {
        Some(x) => parse_usize(&x),
        None => None,
    }
}

/// `name=$k` alone in a command: the name and `k`.
pub open spec fn spec_positional_binding(c: Command) -> Option<(Seq<char>, usize)> {
    match c {
        Command::Simple(s) => if s.words@.len() != 1 {
            None
        } else {
            match spec_split_once(s.words@[0]@, "="@) {
                Some((n, v)) => if !spec_is_identifier(n) {
                    None
                } else {
                    match spec_positional_index(v) {
                        Some(i) => Some((n, i)),
                        None => None,
                    }
                },
                None => None,
            }
        },
        _ => None,
    }
}

fn parse_positional_binding(command: &Command) -> (r: Option<(Vec<char>, usize)>)
    ensures
        match r {
            Some((n, i)) => spec_positional_binding(*command) == Some((n@, i)),
            None => spec_positional_binding(*command) is None,
        },
{
    let simple = match command {
        Command::Simple(s) => s,
        _ => return None,
    };
    if simple.words.len() != 1 {
        return None;
    }
    let (raw_name, value) = match split_once_lit(&chars_of(simple.words[0].as_str()), "=") {
        Some(p) => p,
        None => return None,
    };
    if !is_identifier(&raw_name) {
        return None;
    }
    match parse_positional_index(&value) {
        Some(index) => Some((raw_name, index)),
        None => None,
    }
}

/// The bindings `name=$k` (`1 <= k <= arity`) that open a body, up to the first command
/// that is not one.
pub open spec fn bindings_from(cs: Seq<Command>, k: int, arity: usize) -> Seq<(Seq<char>, usize)>
    decreases cs.len() - k,
{
    if k < 0 || k >= cs.len() {
        seq![]
    } else {
        match spec_positional_binding(cs[k]) {
            None => seq![],
            Some((n, i)) => if i == 0 || i > arity {
                seq![]
            } else {
                seq![(n, i)] + bindings_from(cs, k + 1, arity)
            },
        }
    }
}

proof fn lemma_bindings_from_len(cs: Seq<Command>, k: int, arity: usize)
    requires
        0 <= k,
    ensures
        bindings_from(cs, k, arity).len() <= if k <= cs.len() { cs.len() - k } else { 0 },
    decreases cs.len() - k,
{
    if k < cs.len() {
        lemma_bindings_from_len(cs, k + 1, arity);
    }
}

/// The bindings that open a body are no more than its commands.
pub proof fn lemma_bindings_within(cs: Seq<Command>, arity: usize)
    ensures
        bindings_from(cs, 0, arity).len() <= cs.len(),
{
    lemma_bindings_from_len(cs, 0, arity);
}

pub open spec fn binding_views(b: Seq<(Vec<char>, usize)>) -> Seq<(Seq<char>, usize)> {
    b.map_values(|p: (Vec<char>, usize)| (p.0@, p.1))
}

pub fn infer_positional_bindings_prefix(commands: &Vec<Command>, arity: usize) -> (r: Vec<(Vec<char>, usize)>)
    ensures
        binding_views(r@) == bindings_from(commands@, 0, arity),
        r@.len() <= commands@.len(),
{
    let mut bindings: Vec<(Vec<char>, usize)> = Vec::new();
    let mut k: usize = 0;
    assert(binding_views(bindings@) + bindings_from(commands@, 0, arity) =~= bindings_from(commands@, 0, arity));
    while k < commands.len()
        invariant
            k <= commands@.len(),
            bindings@.len() == k,
            binding_views(bindings@) + bindings_from(commands@, k as int, arity) == bindings_from(commands@, 0, arity),
        decreases commands@.len() - k,
    {
        let (raw_name, index) = match parse_positional_binding(&commands[k]) {
            Some(p) => p,
            None => {
                assert(binding_views(bindings@) + bindings_from(commands@, k as int, arity) =~= binding_views(bindings@));
                return bindings;
            },
        };
        if index == 0 || index > arity {
            assert(binding_views(bindings@) + bindings_from(commands@, k as int, arity) =~= binding_views(bindings@));
            return bindings;
        }
        let ghost before = bindings@;
        bindings.push((raw_name, index));
        assert(binding_views(bindings@) =~= binding_views(before).push((raw_name@, index)));
        assert(binding_views(bindings@) + bindings_from(commands@, k + 1, arity) =~= binding_views(before) + bindings_from(commands@, k as int, arity));
        k += 1;
    }
    assert(binding_views(bindings@) + bindings_from(commands@, k as int, arity) =~= binding_views(bindings@));
    bindings
}

// ---------------------------------------------------------------------------
// Parameter names
// ---------------------------------------------------------------------------

/// A Bash name as an Amber parameter: an identifier, with `_param` added to a reserved word.
pub open spec fn spec_sanitize_param_name(raw: Seq<char>) -> Seq<char> {
    let c = spec_normalize_identifier(raw);
    let c = if !spec_is_identifier(c) { "_"@ + c } else { c };
    if spec_is_reserved_keyword(c) {
        c + "_param"@
    } else {
        c
    }
}

fn sanitize_param_name(raw_name: &[char]) -> (r: Vec<char>)
    ensures
        r@ == spec_sanitize_param_name(raw_name@),
{
    let mut candidate = normalize_identifier(raw_name);
    if !is_identifier(&candidate) {
        let mut c = chars_of("_");
        push_all(&mut c, &candidate);
        candidate = c;
    }
    if is_reserved_keyword(&candidate) {
        push_str(&mut candidate, "_param");
    }
    candidate
}

/// Whether `n` is one of `names` other than the one at `skip`.
pub open spec fn used_elsewhere(names: Seq<Seq<char>>, skip: int, n: Seq<char>) -> bool {
    exists|i: int| 0 <= i < names.len() && i != skip && #[trigger] names[i] == n
}

fn is_used_elsewhere(names: &Vec<Vec<char>>, skip: usize, n: &Vec<char>) -> (r: bool)
    ensures
        r == used_elsewhere(views(names@), skip as int, n@),
{
    let mut i: usize = 0;
    while i < names.len()
        invariant
            i <= names@.len(),
            forall|j: int| 0 <= j < i && j != skip ==> views(names@)[j] != n@,
        decreases names@.len() - i,
    {
        if i != skip && seq_eq(&names[i], n) {
            assert(views(names@)[i as int] == n@);
            return true;
        }
        i += 1;
    }
    false
}

/// Whether `k` (at least 2) is the first number whose alternative `base_k` is free.
pub open spec fn first_free_suffix(names: Seq<Seq<char>>, skip: int, base: Seq<char>, k: nat) -> bool {
    &&& k >= 2
    &&& !used_elsewhere(names, skip, numbered(base, k))
    &&& forall|j: nat| 2 <= j < k ==> used_elsewhere(names, skip, #[trigger] numbered(base, j))
}

/// The first of `base`, `base_2`, `base_3`, ... that none of `names` but the one at `skip`
/// holds.
pub open spec fn spec_free_name(names: Seq<Seq<char>>, skip: int, base: Seq<char>) -> Seq<char> {
    if !used_elsewhere(names, skip, base) {
        base
    } else {
        numbered(base, choose|k: nat| first_free_suffix(names, skip, base, k))
    }
}

proof fn lemma_first_free_suffix_unique(names: Seq<Seq<char>>, skip: int, base: Seq<char>, a: nat, b: nat)
    requires
        first_free_suffix(names, skip, base, a),
        first_free_suffix(names, skip, base, b),
    ensures
        a == b,
{
    if a < b {
        assert(used_elsewhere(names, skip, numbered(base, a)));
    } else if b < a {
        assert(used_elsewhere(names, skip, numbered(base, b)));
    }
}

fn free_name(base: &Vec<char>, names: &Vec<Vec<char>>, skip: usize) -> (r: Vec<char>)
    ensures
        !used_elsewhere(views(names@), skip as int, r@),
        r@ == spec_free_name(views(names@), skip as int, base@),
{
    if !is_used_elsewhere(names, skip, base) {
        return to_vec(base);
    }
    let ghost nv = views(names@);
    let ghost taken = nv.to_set();
    let n_names = names.len();
    proof {
        nv.lemma_cardinality_of_set();
    }
    let ghost mut used: Set<Seq<char>> = set![base@];
    let mut index: u128 = 2;
    loop
        invariant
            2 <= index,
            nv == views(names@),
            n_names == names@.len(),
            taken == nv.to_set(),
            taken.finite(),
            taken.len() <= n_names,
            used.finite(),
            used.len() == index - 1,
            used.subset_of(taken),
            forall|n: Seq<char>| #[trigger] used.contains(n) ==> n == base@ || exists|k: nat| 2 <= k < index && n == numbered(base@, k),
            used_elsewhere(nv, skip as int, base@),
            forall|j: nat| 2 <= j < index ==> used_elsewhere(nv, skip as int, #[trigger] numbered(base@, j)),
        decreases n_names + 2 - index,
    {
        let mut cand = to_vec(base);
        cand.push('_');
        push_all(&mut cand, &u128_to_decimal(index));
        assert(cand@ == numbered(base@, index as nat)) by {
            reveal_strlit("_");
        }
        if !is_used_elsewhere(names, skip, &cand) {
            proof {
                assert(first_free_suffix(nv, skip as int, base@, index as nat));
                let k = choose|k: nat| first_free_suffix(nv, skip as int, base@, k);
                lemma_first_free_suffix_unique(nv, skip as int, base@, k, index as nat);
            }
            return cand;
        }
        proof {
            let i = choose|i: int| 0 <= i < nv.len() && i != skip && #[trigger] nv[i] == cand@;
            assert(taken.contains(nv[i]));
            assert(!used.contains(cand@)) by {
                if used.contains(cand@) {
                    reveal_strlit("_");
                    if cand@ == base@ {
                        assert(cand@.len() > base@.len());
                    } else {
                        let k = choose|k: nat| 2 <= k < index && cand@ == #[trigger] numbered(base@, k);
                        assert(numbered(base@, k).subrange(base@.len() + 1int, numbered(base@, k).len() as int) =~= decimal(k));
                        assert(cand@.subrange(base@.len() + 1int, cand@.len() as int) =~= decimal(index as nat));
                        crate::text::lemma_decimal_injective(k, index as nat);
                    }
                }
            }
            let old_used = used;
            used = used.insert(cand@);
            lemma_len_subset(used, taken);
            assert forall|n: Seq<char>| #[trigger] used.contains(n) implies n == base@ || exists|k: nat| 2 <= k < index + 1 && n == numbered(base@, k) by {
                if old_used.contains(n) && n != base@ {
                    let k = choose|k: nat| 2 <= k < index && n == numbered(base@, k);
                    assert(2 <= k < index + 1 && n == numbered(base@, k));
                } else if n == cand@ {
                    assert(n == numbered(base@, index as nat));
                }
            }
        }
        index = index + 1;
    }
}

/// `arg1` .. `argN`.
pub open spec fn default_params(arity: nat) -> Seq<Seq<char>> {
    Seq::new(arity, |i: int| "arg"@ + decimal((i + 1) as nat))
}

/// The parameter names after the first `n` bindings: each renames its parameter to its
/// sanitized Bash name, made unique among the other parameters.
pub open spec fn params_after(arity: usize, bindings: Seq<(Seq<char>, usize)>, n: int) -> Seq<Seq<char>>
    decreases n,
{
    if n <= 0 || n > bindings.len() {
        default_params(arity as nat)
    } else {
        let p = params_after(arity, bindings, n - 1);
        let (raw, index) = bindings[n - 1];
        if index == 0 || index > arity || p.len() != arity {
            p
        } else {
            p.update(index - 1, spec_free_name(p, index - 1, spec_sanitize_param_name(raw)))
        }
    }
}

proof fn lemma_params_after_len(arity: usize, bindings: Seq<(Seq<char>, usize)>, n: int)
    ensures
        params_after(arity, bindings, n).len() == arity,
    decreases n,
{
    if n > 0 && n <= bindings.len() {
        lemma_params_after_len(arity, bindings, n - 1);
    }
}

/// The parameter names: `arg1` .. `argN`, each bound one renamed to its sanitized Bash name,
/// made unique among the others.
pub fn build_function_params(arity: usize, bindings: &Vec<(Vec<char>, usize)>) -> (r: Vec<Vec<char>>)
    ensures
        r@.len() == arity,
        views(r@) == params_after(arity, binding_views(bindings@), bindings@.len() as int),
{
    let mut params: Vec<Vec<char>> = Vec::new();
    while params.len() < arity
        invariant
            params@.len() <= arity,
            views(params@) == default_params(arity as nat).take(params@.len() as int),
        decreases arity - params@.len(),
    {
        let mut name = chars_of("arg");
        push_all(&mut name, &usize_to_decimal(params.len() + 1));
        let ghost before = params@;
        params.push(name);
        proof {
            lemma_views_push(before, name);
        }
        assert(views(params@) =~= default_params(arity as nat).take(params@.len() as int));
    }
    assert(views(params@) =~= default_params(arity as nat));
    let ghost bv = binding_views(bindings@);
    let mut k: usize = 0;
    while k < bindings.len()
        invariant
            k <= bindings@.len(),
            params@.len() == arity,
            bv == binding_views(bindings@),
            views(params@) == params_after(arity, bv, k as int),
        decreases bindings@.len() - k,
    {
        let (raw_name, index) = (&bindings[k].0, bindings[k].1);
        proof {
            lemma_params_after_len(arity, bv, k as int);
        }
        if index != 0 && index <= arity {
            let target = index - 1;
            let candidate = sanitize_param_name(raw_name);
            let unique = free_name(&candidate, &params, target);
            let ghost before = params@;
            params.set(target, unique);
            assert(views(params@) =~= views(before).update(target as int, unique@));
        }
        k += 1;
    }
    params
}

/// Adds the first free one of `candidate`, `candidate_2`, ... to `params` and returns it.
fn push_unique_param_name(params: &mut Vec<Vec<char>>, candidate: Vec<char>) -> (r: Vec<char>)
    ensures
        views(final(params)@) == views(old(params)@).push(r@),
        !used_elsewhere(views(old(params)@), -1, r@),
        r@ == spec_free_name(views(old(params)@), old(params)@.len() as int, candidate@),
{
    let n = params.len();
    let name = free_name(&candidate, params, n);
    proof {
        assert forall|i: int| 0 <= i < views(params@).len() && i != -1 implies #[trigger] views(params@)[i] != name@ by {
            assert(i != n as int);
        }
    }
    let ghost before = params@;
    params.push(to_vec(&name));
    proof {
        lemma_views_push(before, params@.last());
    }
    name
}

// ---------------------------------------------------------------------------
// Assignments of a variable
// ---------------------------------------------------------------------------

/// Whether a word assigns `name` (`name=...` with `name` an identifier).
pub open spec fn word_assigns(w: Seq<char>, name: Seq<char>) -> bool {
    spec_split_once(w, "="@) matches Some((n, _)) && n == name && spec_is_identifier(n)
}

/// Whether a command assigns `name` anywhere in its words, conditions and bodies.
pub open spec fn assigns_in_command(c: Command, name: Seq<char>) -> bool
    decreases c,
{
    match c {
        Command::Simple(s) => exists|k: int| 0 <= k < s.words@.len() && word_assigns(#[trigger] s.words@[k]@, name),
        Command::Background(inner) => assigns_in_command(*inner, name),
        Command::Connection(conn) => assigns_in_command(*conn.left, name) || assigns_in_command(*conn.right, name),
        Command::If(i) => assigns_in_command(*i.condition, name) || assigns_in_commands(i.then_body@, name) || match i.else_body {
            Some(b) => assigns_in_commands(b@, name),
            None => false,
        },
        Command::While(w) => assigns_in_command(*w.condition, name) || assigns_in_commands(w.body@, name),
        Command::For(f) => assigns_in_commands(f.body@, name),
        Command::CStyleFor(f) => assigns_in_commands(f.body@, name),
        Command::Case(cc) => assigns_in_clauses(cc.clauses@, name),
        Command::Function(f) => assigns_in_commands(f.body@, name),
        Command::Group(b) => assigns_in_commands(b@, name),
        Command::Arithmetic(_) => false,
    }
}

pub open spec fn assigns_in_commands(cs: Seq<Command>, name: Seq<char>) -> bool
    decreases cs,
{
    if cs.len() == 0 {
        false
    } else {
        assigns_in_commands(cs.drop_last(), name) || assigns_in_command(cs.last(), name)
    }
}

pub open spec fn assigns_in_clauses(cl: Seq<CaseClause>, name: Seq<char>) -> bool
    decreases cl,
{
    if cl.len() == 0 {
        false
    } else {
        assigns_in_clauses(cl.drop_last(), name) || assigns_in_commands(cl.last().body@, name)
    }
}

proof fn lemma_assigns_take(cs: Seq<Command>, k: int, name: Seq<char>)
    requires
        0 <= k <= cs.len(),
        assigns_in_commands(cs.take(k), name),
    ensures
        assigns_in_commands(cs, name),
    decreases cs.len() - k,
{
    if k < cs.len() {
        assert(cs.take(k + 1).drop_last() =~= cs.take(k));
        lemma_assigns_take(cs, k + 1, name);
    } else {
        assert(cs.take(k) =~= cs);
    }
}

proof fn lemma_assigns_clauses_take(cl: Seq<CaseClause>, k: int, name: Seq<char>)
    requires
        0 <= k <= cl.len(),
        assigns_in_clauses(cl.take(k), name),
    ensures
        assigns_in_clauses(cl, name),
    decreases cl.len() - k,
{
    if k < cl.len() {
        assert(cl.take(k + 1).drop_last() =~= cl.take(k));
        lemma_assigns_clauses_take(cl, k + 1, name);
    } else {
        assert(cl.take(k) =~= cl);
    }
}

fn word_assigns_exec(w: &String, name: &[char]) -> (r: bool)
    ensures
        r == word_assigns(w@, name@),
{
    match split_once_lit(&chars_of(w.as_str()), "=") {
        Some((n, _)) => seq_eq(&n, name) && is_identifier(&n),
        None => false,
    }
}

/// Whether any of the commands from `from` on assigns `variable_name`.
pub fn function_contains_assignment_target(commands: &Vec<Command>, variable_name: &[char]) -> (r: bool)
    ensures
        r == assigns_in_commands(commands@, variable_name@),
    decreases commands@,
{
    let mut k: usize = 0;
    while k < commands.len()
        invariant
            k <= commands@.len(),
            !assigns_in_commands(commands@.take(k as int), variable_name@),
        decreases commands@.len() - k,
    {
        assert(commands@.take(k + 1).drop_last() =~= commands@.take(k as int));
        if command_contains_assignment_target(&commands[k], variable_name) {
            proof {
                lemma_assigns_take(commands@, k + 1, variable_name@);
            }
            return true;
        }
        k += 1;
    }
    assert(commands@.take(k as int) =~= commands@);
    false
}

fn clauses_contain_assignment_target(clauses: &Vec<CaseClause>, variable_name: &[char]) -> (r: bool)
    ensures
        r == assigns_in_clauses(clauses@, variable_name@),
    decreases clauses@,
{
    let mut k: usize = 0;
    while k < clauses.len()
        invariant
            k <= clauses@.len(),
            !assigns_in_clauses(clauses@.take(k as int), variable_name@),
        decreases clauses@.len() - k,
    {
        assert(clauses@.take(k + 1).drop_last() =~= clauses@.take(k as int));
        if function_contains_assignment_target(&clauses[k].body, variable_name) {
            proof {
                lemma_assigns_clauses_take(clauses@, k + 1, variable_name@);
            }
            return true;
        }
        k += 1;
    }
    assert(clauses@.take(k as int) =~= clauses@);
    false
}

fn command_contains_assignment_target(command: &Command, variable_name: &[char]) -> (r: bool)
    ensures
        r == assigns_in_command(*command, variable_name@),
    decreases *command,
{
    match command {
        Command::Simple(simple) => {
            let mut k: usize = 0;
            while k < simple.words.len()
                invariant
                    *command == Command::Simple(*simple),
                    k <= simple.words@.len(),
                    forall|j: int| 0 <= j < k ==> !word_assigns(#[trigger] simple.words@[j]@, variable_name@),
                decreases simple.words@.len() - k,
            {
                if word_assigns_exec(&simple.words[k], variable_name) {
                    assert(word_assigns(simple.words@[k as int]@, variable_name@));
                    assert(exists|j: int| 0 <= j < simple.words@.len() && word_assigns(#[trigger] simple.words@[j]@, variable_name@));
                    assert(assigns_in_command(*command, variable_name@)) by {
                        reveal_with_fuel(assigns_in_command, 1);
                        assert(command->Simple_0.words@[k as int]@ == simple.words@[k as int]@);
                    }
                    return true;
                }
                k += 1;
            }
            false
        },
        Command::Background(inner) => command_contains_assignment_target(inner, variable_name),
        Command::Connection(connection) => command_contains_assignment_target(&connection.left, variable_name)
            || command_contains_assignment_target(&connection.right, variable_name),
        Command::If(if_cmd) => command_contains_assignment_target(&if_cmd.condition, variable_name)
            || function_contains_assignment_target(&if_cmd.then_body, variable_name) || match &if_cmd.else_body {
            Some(b) => function_contains_assignment_target(b, variable_name),
            None => false,
        },
        Command::While(while_cmd) => command_contains_assignment_target(&while_cmd.condition, variable_name)
            || function_contains_assignment_target(&while_cmd.body, variable_name),
        Command::For(for_cmd) => function_contains_assignment_target(&for_cmd.body, variable_name),
        Command::CStyleFor(for_cmd) => function_contains_assignment_target(&for_cmd.body, variable_name),
        Command::Case(case_cmd) => clauses_contain_assignment_target(&case_cmd.clauses, variable_name),
        Command::Function(function) => function_contains_assignment_target(&function.body, variable_name),
        Command::Group(body) => function_contains_assignment_target(body, variable_name),
        Command::Arithmetic(_) => false,
    }
}

// ---------------------------------------------------------------------------
// Command substitutions that call the function itself
// ---------------------------------------------------------------------------

/// The index of the `)` that closes a `$(` whose inside starts at `i`: `$(` opens, `)`
/// closes, quotes and backslashes are respected.
pub open spec fn subst_end_from(s: Seq<char>, i: int, depth: nat, sq: bool, dq: bool, esc: bool) -> Option<int>
    decreases s.len() - i,
{
    if i < 0 || i >= s.len() {
        None
    } else {
        let c = s[i];
        if esc {
            subst_end_from(s, i + 1, depth, sq, dq, false)
        } else if c == '\\' && !sq {
            subst_end_from(s, i + 1, depth, sq, dq, true)
        } else if c == '\'' && !dq {
            subst_end_from(s, i + 1, depth, !sq, dq, false)
        } else if c == '"' && !sq {
            subst_end_from(s, i + 1, depth, sq, !dq, false)
        } else if !sq && !dq && c == '$' && i + 1 < s.len() && s[i + 1] == '(' {
            subst_end_from(s, i + 2, depth + 1, sq, dq, false)
        } else if !sq && !dq && c == ')' {
            if depth <= 1 {
                Some(i)
            } else {
                subst_end_from(s, i + 1, (depth - 1) as nat, sq, dq, false)
            }
        } else {
            subst_end_from(s, i + 1, depth, sq, dq, false)
        }
    }
}

fn find_command_substitution_end(chars: &[char], start: usize) -> (r: Option<usize>)
    requires
        start <= chars@.len(),
    ensures
        match r {
            Some(e) => subst_end_from(chars@, start as int, 1, false, false, false) == Some(e as int) && start <= e < chars@.len(),
            None => subst_end_from(chars@, start as int, 1, false, false, false) is None,
        },
{
    let mut depth: usize = 1;
    let mut i = start;
    let mut in_single = false;
    let mut in_double = false;
    let mut escaped = false;
    while i < chars.len()
        invariant
            start <= i <= chars@.len(),
            1 <= depth <= i - start + 1,
            subst_end_from(chars@, start as int, 1, false, false, false) == subst_end_from(chars@, i as int, depth as nat, in_single, in_double, escaped),
        decreases chars@.len() - i,
    {
        let ch = chars[i];
        if escaped {
            escaped = false;
            i += 1;
        } else if ch == '\\' && !in_single {
            escaped = true;
            i += 1;
        } else if ch == '\'' && !in_double {
            in_single = !in_single;
            i += 1;
        } else if ch == '"' && !in_single {
            in_double = !in_double;
            i += 1;
        } else if !in_single && !in_double && ch == '$' && i + 1 < chars.len() && chars[i + 1] == '(' {
            depth += 1;
            i += 2;
        } else if !in_single && !in_double && ch == ')' {
            if depth <= 1 {
                return Some(i);
            }
            depth -= 1;
            i += 1;
        } else {
            i += 1;
        }
    }
    None
}

/// The insides of the command substitutions `$( .. )` of a text, arithmetic `$((` skipped,
/// up to the first one that is not closed.
pub open spec fn substitutions_from(s: Seq<char>, i: int) -> Seq<Seq<char>>
    decreases s.len() - i,
{
    if i < 0 || i + 1 >= s.len() {
        seq![]
    } else if s[i] == '$' && s[i + 1] == '(' {
        if i + 2 < s.len() && s[i + 2] == '(' {
            substitutions_from(s, i + 1)
        } else {
            match subst_end_from(s, i + 2, 1, false, false, false) {
                None => seq![],
                Some(end) => if end < i + 2 || end >= s.len() {
                    seq![]
                } else {
                    seq![s.subrange(i + 2, end)] + substitutions_from(s, end + 1)
                },
            }
        }
    } else {
        substitutions_from(s, i + 1)
    }
}

fn extract_command_substitutions(word: &[char]) -> (r: Vec<Vec<char>>)
    ensures
        views(r@) == substitutions_from(word@, 0),
{
    let chars = word;
    let n = chars.len();
    let mut substitutions: Vec<Vec<char>> = Vec::new();
    let mut i: usize = 0;
    assert(views(substitutions@) + substitutions_from(chars@, 0) =~= substitutions_from(chars@, 0));
    while i < n && i + 1 < n
        invariant
            chars == word,
            n == chars@.len(),
            i <= n,
            views(substitutions@) + substitutions_from(chars@, i as int) == substitutions_from(chars@, 0),
        decreases n - i,
    {
        if chars[i] == '$' && chars[i + 1] == '(' {
            if i + 2 < n && chars[i + 2] == '(' {
                i += 1;
                continue;
            }
            let start = i + 2;
            let end = match find_command_substitution_end(chars, start) {
                Some(e) => e,
                None => {
                    assert(views(substitutions@) + substitutions_from(chars@, i as int) =~= views(substitutions@));
                    return substitutions;
                },
            };
            let ghost before = substitutions@;
            substitutions.push(slice_vec(chars, start, end));
            proof {
                lemma_views_push(before, substitutions@.last());
            }
            assert(views(substitutions@) + substitutions_from(chars@, end + 1) =~= views(before) + substitutions_from(chars@, i as int));
            i = end + 1;
            continue;
        }
        i += 1;
    }
    assert(views(substitutions@) + substitutions_from(chars@, i as int) =~= views(substitutions@));
    substitutions
}

/// Three-valued "any": `Some(true)` when one of `rs` is, `Some(false)` when all are
/// `Some(false)`, and `None` (not known) otherwise.
#[verifier::opaque]
pub open spec fn any_true(rs: Seq<Option<bool>>) -> Option<bool> {
    if exists|j: int| 0 <= j < rs.len() && rs[j] == Some(true) {
        Some(true)
    } else if forall|j: int| 0 <= j < rs.len() ==> rs[j] == Some(false) {
        Some(false)
    } else {
        None
    }
}

/// Whether the command substitution `body` calls `name`: its first word when it does not
/// parse, else its statements, looked into with one level of substitutions less.
pub open spec fn substitution_call(body: Seq<char>, name: Seq<char>, fuel: nat) -> Option<bool>
    decreases fuel, 0int, body,
{
    let t = spec_trim(body);
    if fuel == 0 {
        Some(false)
    } else if fails_to_parse(t) {
        let ws = ws_split(body);
        Some(ws.len() > 0 && ws[0] == name)
    } else {
        match parsed_statements(t) {
            Some(vs) => any_true(statement_results(vs, name, (fuel - 1) as nat)),
            None => None,
        }
    }
}

/// Whether a command calls `name` inside a command substitution, looking `fuel` levels deep
/// into substitutions. The `None` (not known) of a substitution that neither fails to parse
/// nor has parsed statements never arises: a script that does not fail to parse has them.
pub open spec fn self_call_in(c: CommandView, name: Seq<char>, fuel: nat) -> Option<bool>
    decreases fuel, 2int, c,
{
    match c {
        CommandView::Simple(words) => if fuel == 0 {
            Some(false)
        } else {
            any_true(substitution_results(words, name, fuel))
        },
        CommandView::Arithmetic(_) => Some(false),
        CommandView::Background(inner) => self_call_in(*inner, name, fuel),
        CommandView::Connection(l, _, r) => any_true(seq![self_call_in(*l, name, fuel), self_call_in(*r, name, fuel)]),
        CommandView::If(cond, t, e) => any_true(seq![
            self_call_in(*cond, name, fuel),
            any_true(body_results(t, name, fuel)),
            else_result(e, name, fuel),
        ]),
        CommandView::While(cond, b) => any_true(seq![self_call_in(*cond, name, fuel), any_true(body_results(b, name, fuel))]),
        CommandView::For(_, _, b) => any_true(body_results(b, name, fuel)),
        CommandView::CStyleFor(_, _, _, b) => any_true(body_results(b, name, fuel)),
        CommandView::Case(_, clauses) => any_true(clause_results(clauses, name, fuel)),
        CommandView::Function(_, b) => any_true(body_results(b, name, fuel)),
        CommandView::Group(b) => any_true(body_results(b, name, fuel)),
    }
}

/// For each command substitution in the words of a simple command, whether it calls `name`.
pub open spec fn substitution_results(words: Seq<Seq<char>>, name: Seq<char>, fuel: nat) -> Seq<Option<bool>>
    decreases fuel, 1int, words,
{
    let bodies = substitutions_from(join(words, " "@), 0);
    Seq::new(bodies.len(), |i: int| if 0 <= i < bodies.len() {
        substitution_call(bodies[i], name, fuel)
    } else {
        Some(false)
    })
}

/// For each of `cs`, whether it calls `name` inside a command substitution.
pub open spec fn body_results(cs: Seq<CommandView>, name: Seq<char>, fuel: nat) -> Seq<Option<bool>>
    decreases fuel, 2int, cs,
{
    Seq::new(cs.len(), |i: int| if 0 <= i < cs.len() {
        self_call_in(cs[i], name, fuel)
    } else {
        Some(false)
    })
}

/// For each statement of a substitution, whether it calls `name`: directly as a simple
/// command, or in a substitution of its own.
pub open spec fn statement_results(vs: Seq<CommandView>, name: Seq<char>, fuel: nat) -> Seq<Option<bool>>
    decreases fuel, 2int, vs,
{
    Seq::new(vs.len(), |i: int| if !(0 <= i < vs.len()) {
        Some(false)
    } else if vs[i] matches CommandView::Simple(w) && w.len() > 0 && w[0] == name {
        Some(true)
    } else {
        self_call_in(vs[i], name, fuel)
    })
}

/// For each case clause, whether its body calls `name` inside a command substitution.
pub open spec fn clause_results(cls: Seq<ClauseView>, name: Seq<char>, fuel: nat) -> Seq<Option<bool>>
    decreases fuel, 2int, cls,
{
    Seq::new(cls.len(), |i: int| if 0 <= i < cls.len() {
        any_true(body_results(cls[i].body, name, fuel))
    } else {
        Some(false)
    })
}

/// Whether the `else` branch, when there is one, calls `name` inside a command substitution.
pub open spec fn else_result(e: Option<Seq<CommandView>>, name: Seq<char>, fuel: nat) -> Option<bool>
    decreases fuel, 2int, e,
{
    match e {
        Some(b) => any_true(body_results(b, name, fuel)),
        None => Some(false),
    }
}

proof fn lemma_any_true_known(rs: Seq<Option<bool>>)
    requires
        forall|j: int| 0 <= j < rs.len() ==> (#[trigger] rs[j]) is Some,
    ensures
        any_true(rs) is Some,
{
    reveal(any_true);
    if !(exists|j: int| 0 <= j < rs.len() && rs[j] == Some(true)) {
        assert forall|j: int| 0 <= j < rs.len() implies rs[j] == Some(false) by {
            if rs[j] != Some(false) {
                assert(rs[j] == Some(true));
            }
        }
    }
}

/// A script that does not fail to parse has statements.
proof fn lemma_parsed_when_not_failing(t: Seq<char>)
    requires
        !fails_to_parse(t),
    ensures
        parsed_statements(t) is Some,
{
}

/// Whether a command calls `name` inside a command substitution is always known.
pub proof fn lemma_self_call_known(c: CommandView, name: Seq<char>, fuel: nat)
    ensures
        self_call_in(c, name, fuel) is Some,
    decreases fuel, 2int, c,
{
    match c {
        CommandView::Simple(words) => if fuel > 0 {
            lemma_substitution_results_known(words, name, fuel);
            lemma_any_true_known(substitution_results(words, name, fuel));
        },
        CommandView::Arithmetic(_) => {},
        CommandView::Background(inner) => lemma_self_call_known(*inner, name, fuel),
        CommandView::Connection(l, _, r) => {
            lemma_self_call_known(*l, name, fuel);
            lemma_self_call_known(*r, name, fuel);
            lemma_any_true_known(seq![self_call_in(*l, name, fuel), self_call_in(*r, name, fuel)]);
        },
        CommandView::If(cond, t, e) => {
            lemma_self_call_known(*cond, name, fuel);
            lemma_body_results_known(t, name, fuel);
            lemma_any_true_known(body_results(t, name, fuel));
            if let Some(b) = e {
                lemma_body_results_known(b, name, fuel);
                lemma_any_true_known(body_results(b, name, fuel));
            }
            lemma_any_true_known(seq![self_call_in(*cond, name, fuel), any_true(body_results(t, name, fuel)), else_result(e, name, fuel)]);
        },
        CommandView::While(cond, b) => {
            lemma_self_call_known(*cond, name, fuel);
            lemma_body_results_known(b, name, fuel);
            lemma_any_true_known(body_results(b, name, fuel));
            lemma_any_true_known(seq![self_call_in(*cond, name, fuel), any_true(body_results(b, name, fuel))]);
        },
        CommandView::For(_, _, b) => {
            lemma_body_results_known(b, name, fuel);
            lemma_any_true_known(body_results(b, name, fuel));
        },
        CommandView::CStyleFor(_, _, _, b) => {
            lemma_body_results_known(b, name, fuel);
            lemma_any_true_known(body_results(b, name, fuel));
        },
        CommandView::Case(_, clauses) => {
            lemma_clause_results_known(clauses, name, fuel);
            lemma_any_true_known(clause_results(clauses, name, fuel));
        },
        CommandView::Function(_, b) => {
            lemma_body_results_known(b, name, fuel);
            lemma_any_true_known(body_results(b, name, fuel));
        },
        CommandView::Group(b) => {
            lemma_body_results_known(b, name, fuel);
            lemma_any_true_known(body_results(b, name, fuel));
        },
    }
}

proof fn lemma_body_results_known(cs: Seq<CommandView>, name: Seq<char>, fuel: nat)
    ensures
        forall|i: int| 0 <= i < cs.len() ==> (#[trigger] body_results(cs, name, fuel)[i]) is Some,
    decreases fuel, 2int, cs,
{
    assert forall|i: int| 0 <= i < cs.len() implies (#[trigger] body_results(cs, name, fuel)[i]) is Some by {
        lemma_self_call_known(cs[i], name, fuel);
    }
}

proof fn lemma_statement_results_known(vs: Seq<CommandView>, name: Seq<char>, fuel: nat)
    ensures
        forall|i: int| 0 <= i < vs.len() ==> (#[trigger] statement_results(vs, name, fuel)[i]) is Some,
    decreases fuel, 2int, vs,
{
    assert forall|i: int| 0 <= i < vs.len() implies (#[trigger] statement_results(vs, name, fuel)[i]) is Some by {
        lemma_self_call_known(vs[i], name, fuel);
    }
}

proof fn lemma_clause_results_known(cls: Seq<ClauseView>, name: Seq<char>, fuel: nat)
    ensures
        forall|i: int| 0 <= i < cls.len() ==> (#[trigger] clause_results(cls, name, fuel)[i]) is Some,
    decreases fuel, 2int, cls,
{
    assert forall|i: int| 0 <= i < cls.len() implies (#[trigger] clause_results(cls, name, fuel)[i]) is Some by {
        lemma_body_results_known(cls[i].body, name, fuel);
        lemma_any_true_known(body_results(cls[i].body, name, fuel));
    }
}

proof fn lemma_substitution_results_known(words: Seq<Seq<char>>, name: Seq<char>, fuel: nat)
    ensures
        forall|i: int| 0 <= i < substitution_results(words, name, fuel).len() ==> (#[trigger] substitution_results(words, name, fuel)[i]) is Some,
    decreases fuel, 1int, words,
{
    let bodies = substitutions_from(join(words, " "@), 0);
    assert forall|i: int| 0 <= i < substitution_results(words, name, fuel).len() implies (#[trigger] substitution_results(words, name, fuel)[i]) is Some by {
        lemma_substitution_call_known(bodies[i], name, fuel);
    }
}

proof fn lemma_substitution_call_known(body: Seq<char>, name: Seq<char>, fuel: nat)
    ensures
        substitution_call(body, name, fuel) is Some,
    decreases fuel, 0int, body,
{
    let t = spec_trim(body);
    if fuel > 0 && !fails_to_parse(t) {
        lemma_parsed_when_not_failing(t);
        let vs = parsed_statements(t).unwrap();
        lemma_statement_results_known(vs, name, (fuel - 1) as nat);
        lemma_any_true_known(statement_results(vs, name, (fuel - 1) as nat));
    }
}

proof fn lemma_any_true_pair(x: Option<bool>, y: Option<bool>)
    ensures
        any_true(seq![x, y]) == (if x == Some(true) || y == Some(true) {
            Some(true)
        } else if x == Some(false) && y == Some(false) {
            Some(false)
        } else {
            None
        }),
{
    reveal(any_true);
    let rs = seq![x, y];
    if x == Some(true) {
        assert(rs[0] == Some(true));
    } else if y == Some(true) {
        assert(rs[1] == Some(true));
    } else if x != Some(false) {
        assert(rs[0] != Some(false));
    } else if y != Some(false) {
        assert(rs[1] != Some(false));
    }
}

proof fn lemma_any_true_triple(x: Option<bool>, y: Option<bool>, z: Option<bool>)
    ensures
        any_true(seq![x, y, z]) == (if x == Some(true) || y == Some(true) || z == Some(true) {
            Some(true)
        } else if x == Some(false) && y == Some(false) && z == Some(false) {
            Some(false)
        } else {
            None
        }),
{
    reveal(any_true);
    let rs = seq![x, y, z];
    if x == Some(true) {
        assert(rs[0] == Some(true));
    } else if y == Some(true) {
        assert(rs[1] == Some(true));
    } else if z == Some(true) {
        assert(rs[2] == Some(true));
    } else if x != Some(false) {
        assert(rs[0] != Some(false));
    } else if y != Some(false) {
        assert(rs[1] != Some(false));
    } else if z != Some(false) {
        assert(rs[2] != Some(false));
    }
}

/// A search that stopped at `k` on an element that is not `Some(false)` agrees with
/// `any_true` on `true`; one that passed every element without a `Some(true)` agrees on `false`.
proof fn lemma_any_true_search(rs: Seq<Option<bool>>, k: int, found: bool)
    requires
        0 <= k <= rs.len(),
        forall|j: int| 0 <= j < k ==> rs[j] != Some(true),
        found ==> k < rs.len() && rs[k] != Some(false),
        !found ==> k == rs.len(),
    ensures
        any_true(rs) matches Some(b) ==> b == found,
{
    reveal(any_true);
    if found {
        assert(!(forall|j: int| 0 <= j < rs.len() ==> rs[j] == Some(false))) by {
            assert(rs[k] != Some(false));
        }
    }
}

fn parsed_statements_call(statements: &Vec<Command>, raw_function_name: &[char], fuel: usize) -> (r: bool)
    ensures
        any_true(statement_results(trees(statements@), raw_function_name@, fuel as nat)) matches Some(b) ==> r == b,
    decreases fuel, 1int, statements@,
{
    let ghost rs = statement_results(trees(statements@), raw_function_name@, fuel as nat);
    proof {
        crate::bash::ast::lemma_trees_index(statements@);
    }
    let mut k: usize = 0;
    while k < statements.len()
        invariant
            k <= statements@.len(),
            rs == statement_results(trees(statements@), raw_function_name@, fuel as nat),
            trees(statements@).len() == statements@.len(),
            forall|i: int| 0 <= i < statements@.len() ==> #[trigger] trees(statements@)[i] == statements@[i].tree(),
            forall|j: int| 0 <= j < k ==> rs[j] != Some(true),
        decreases statements@.len() - k,
    {
        let ghost v = trees(statements@)[k as int];
        if let Command::Simple(inner) = &statements[k] {
            if inner.words.len() > 0 && seq_eq(&chars_of(inner.words[0].as_str()), raw_function_name) {
                proof {
                    assert(v == CommandView::Simple(crate::text::string_texts(inner.words@)));
                    assert(rs[k as int] == Some(true));
                    lemma_any_true_search(rs, k as int, true);
                }
                return true;
            }
        }
        if command_contains_self_call(&statements[k], raw_function_name, fuel) {
            proof {
                if let Command::Simple(inner) = statements@[k as int] {
                    assert(v == CommandView::Simple(crate::text::string_texts(inner.words@)));
                }
                lemma_any_true_search(rs, k as int, true);
            }
            return true;
        }
        proof {
            if let Command::Simple(inner) = statements@[k as int] {
                assert(v == CommandView::Simple(crate::text::string_texts(inner.words@)));
            }
        }
        k += 1;
    }
    proof {
        lemma_any_true_search(rs, k as int, false);
    }
    false
}

/// Whether any of `commands` captures the output of a call of the function itself in a
/// command substitution, searching `fuel` levels of nested substitutions.
fn function_captures_self_call_value(commands: &Vec<Command>, raw_function_name: &[char], fuel: usize) -> (r: bool)
    ensures
        any_true(body_results(trees(commands@), raw_function_name@, fuel as nat)) matches Some(b) ==> r == b,
    decreases fuel, 1int, commands@,
{
    let ghost rs = body_results(trees(commands@), raw_function_name@, fuel as nat);
    proof {
        crate::bash::ast::lemma_trees_index(commands@);
    }
    let mut k: usize = 0;
    while k < commands.len()
        invariant
            k <= commands@.len(),
            rs == body_results(trees(commands@), raw_function_name@, fuel as nat),
            trees(commands@).len() == commands@.len(),
            forall|i: int| 0 <= i < commands@.len() ==> #[trigger] trees(commands@)[i] == commands@[i].tree(),
            forall|j: int| 0 <= j < k ==> rs[j] != Some(true),
        decreases commands@.len() - k,
    {
        if command_contains_self_call(&commands[k], raw_function_name, fuel) {
            proof {
                lemma_any_true_search(rs, k as int, true);
            }
            return true;
        }
        k += 1;
    }
    proof {
        lemma_any_true_search(rs, k as int, false);
    }
    false
}

fn clauses_capture_self_call_value(clauses: &Vec<CaseClause>, raw_function_name: &[char], fuel: usize) -> (r: bool)
    ensures
        any_true(clause_results(clause_trees(clauses@), raw_function_name@, fuel as nat)) matches Some(b) ==> r == b,
    decreases fuel, 1int, clauses@,
{
    let ghost rs = clause_results(clause_trees(clauses@), raw_function_name@, fuel as nat);
    proof {
        crate::bash::ast::lemma_clause_trees_index(clauses@);
    }
    let mut k: usize = 0;
    while k < clauses.len()
        invariant
            k <= clauses@.len(),
            rs == clause_results(clause_trees(clauses@), raw_function_name@, fuel as nat),
            clause_trees(clauses@).len() == clauses@.len(),
            forall|i: int| 0 <= i < clauses@.len() ==> (#[trigger] clause_trees(clauses@)[i]).body == trees(clauses@[i].body@),
            forall|j: int| 0 <= j < k ==> rs[j] != Some(true),
        decreases clauses@.len() - k,
    {
        if function_captures_self_call_value(&clauses[k].body, raw_function_name, fuel) {
            proof {
                assert(clause_trees(clauses@)[k as int].body == trees(clauses@[k as int].body@));
                lemma_any_true_search(rs, k as int, true);
            }
            return true;
        }
        proof {
            assert(clause_trees(clauses@)[k as int].body == trees(clauses@[k as int].body@));
        }
        k += 1;
    }
    proof {
        lemma_any_true_search(rs, k as int, false);
    }
    false
}

/// Parses the trimmed text of a command substitution.
fn parse_substitution(body: &Vec<char>) -> (r: Result<Program, String>)
    ensures
        match r {
            Ok(p) => !fails_to_parse(spec_trim(body@))
                && (parsed_statements(spec_trim(body@)) matches Some(vs) ==> trees(p.statements@) == vs),
            Err(_) => parsed_statements(spec_trim(body@)) is None,
        },
{
    let trimmed = string_of(&trim(body));
    parse(trimmed.as_str(), None)
}

/// Whether a simple command captures a call of `raw_function_name` in one of its command
/// substitutions.
#[verifier::rlimit(40)]
fn simple_contains_self_call(simple: &SimpleCommand, raw_function_name: &[char], fuel: usize) -> (r: bool)
    ensures
        self_call_in(CommandView::Simple(crate::text::string_texts(simple.words@)), raw_function_name@, fuel as nat) matches Some(b)
            ==> r == b,
    decreases fuel, 0int, *simple,
{
    let ghost name = raw_function_name@;
        let mut parts: Vec<Vec<char>> = Vec::new();
        let mut k: usize = 0;
        while k < simple.words.len()
            invariant
                k <= simple.words@.len(),
                views(parts@) == crate::text::string_texts(simple.words@).take(k as int),
            decreases simple.words@.len() - k,
        {
            let ghost before = parts@;
            let piece = chars_of(simple.words[k].as_str());
            parts.push(piece);
            proof {
                lemma_views_push(before, piece);
                assert(crate::text::string_texts(simple.words@).take(k + 1) =~= crate::text::string_texts(simple.words@).take(k as int).push(simple.words@[k as int]@));
            }
            k += 1;
        }
        proof {
            assert(crate::text::string_texts(simple.words@).take(k as int) =~= crate::text::string_texts(simple.words@));
        }
        let merged = join_lit(&parts, " ");
        let bodies = extract_command_substitutions(&merged);
        let ghost spec_bodies = substitutions_from(join(crate::text::string_texts(simple.words@), " "@), 0);
        let ghost rs = substitution_results(crate::text::string_texts(simple.words@), name, fuel as nat);
        assert(views(bodies@) == spec_bodies);
        let mut b: usize = 0;
        while b < bodies.len()
            invariant
                b <= bodies@.len(),
                views(bodies@) == spec_bodies,
                name == raw_function_name@,
                spec_bodies == substitutions_from(join(crate::text::string_texts(simple.words@), " "@), 0),
                rs == substitution_results(crate::text::string_texts(simple.words@), name, fuel as nat),
                rs.len() == spec_bodies.len(),
                forall|j: int| 0 <= j < b ==> rs[j] != Some(true),
            decreases bodies@.len() - b,
        {
            proof {
                assert(views(bodies@)[b as int] == bodies@[b as int]@);
            }
            if fuel > 0 {
                proof {
                    assert(rs[b as int] == substitution_call(spec_bodies[b as int], name, fuel as nat));
                }
                match parse_substitution(&bodies[b]) {
                    Ok(program) => {
                        if parsed_statements_call(&program.statements, raw_function_name, fuel - 1) {
                            proof {
                                lemma_any_true_search(rs, b as int, true);
                            }
                            return true;
                        }
                    },
                    Err(_) => {
                        let words = split_whitespace(&bodies[b]);
                        if words.len() > 0 && seq_eq(&words[0], raw_function_name) {
                            proof {
                                assert(views(words@)[0] == words@[0]@);
                                lemma_any_true_search(rs, b as int, true);
                            }
                            return true;
                        }
                        proof {
                            if words.len() > 0 {
                                assert(views(words@)[0] == words@[0]@);
                            }
                        }
                    },
                }
            }
            b += 1;
        }
        proof {
            if fuel > 0 {
                lemma_any_true_search(rs, b as int, false);
            }
        }
        false
}

fn connection_contains_self_call(command: &Command, connection: &Connection, raw_function_name: &[char], fuel: usize) -> (r: bool)
    requires
        *command == Command::Connection(*connection),
    ensures
        self_call_in(command.tree(), raw_function_name@, fuel as nat) matches Some(b) ==> r == b,
    decreases fuel, 1int, *connection,
{
    let r = command_contains_self_call(&connection.left, raw_function_name, fuel)
        || command_contains_self_call(&connection.right, raw_function_name, fuel);
    proof {
        lemma_any_true_pair(
            self_call_in(connection.left.tree(), raw_function_name@, fuel as nat),
            self_call_in(connection.right.tree(), raw_function_name@, fuel as nat),
        );
    }
    r
}

fn if_contains_self_call(command: &Command, if_cmd: &IfCommand, raw_function_name: &[char], fuel: usize) -> (r: bool)
    requires
        *command == Command::If(*if_cmd),
    ensures
        self_call_in(command.tree(), raw_function_name@, fuel as nat) matches Some(b) ==> r == b,
    decreases fuel, 1int, *if_cmd,
{
    let r = command_contains_self_call(&if_cmd.condition, raw_function_name, fuel)
        || function_captures_self_call_value(&if_cmd.then_body, raw_function_name, fuel) || match &if_cmd.else_body {
        Some(b) => function_captures_self_call_value(b, raw_function_name, fuel),
        None => false,
    };
    proof {
        let ev = match &if_cmd.else_body {
            Some(b) => Some(trees(b@)),
            None => None,
        };
        assert(command.tree() == CommandView::If(Box::new(if_cmd.condition.tree()), trees(if_cmd.then_body@), ev));
        lemma_any_true_triple(
            self_call_in(if_cmd.condition.tree(), raw_function_name@, fuel as nat),
            any_true(body_results(trees(if_cmd.then_body@), raw_function_name@, fuel as nat)),
            else_result(ev, raw_function_name@, fuel as nat),
        );
    }
    r
}

fn while_contains_self_call(command: &Command, while_cmd: &WhileCommand, raw_function_name: &[char], fuel: usize) -> (r: bool)
    requires
        *command == Command::While(*while_cmd),
    ensures
        self_call_in(command.tree(), raw_function_name@, fuel as nat) matches Some(b) ==> r == b,
    decreases fuel, 1int, *while_cmd,
{
    let r = command_contains_self_call(&while_cmd.condition, raw_function_name, fuel)
        || function_captures_self_call_value(&while_cmd.body, raw_function_name, fuel);
    proof {
        lemma_any_true_pair(
            self_call_in(while_cmd.condition.tree(), raw_function_name@, fuel as nat),
            any_true(body_results(trees(while_cmd.body@), raw_function_name@, fuel as nat)),
        );
    }
    r
}

fn case_contains_self_call(command: &Command, case_cmd: &CaseCommand, raw_function_name: &[char], fuel: usize) -> (r: bool)
    requires
        *command == Command::Case(*case_cmd),
    ensures
        self_call_in(command.tree(), raw_function_name@, fuel as nat) matches Some(b) ==> r == b,
    decreases fuel, 1int, *case_cmd,
{
    let r = clauses_capture_self_call_value(&case_cmd.clauses, raw_function_name, fuel);
    proof {
        assert(command.tree() == CommandView::Case(case_cmd.word@, clause_trees(case_cmd.clauses@)));
    }
    r
}

fn command_contains_self_call(command: &Command, raw_function_name: &[char], fuel: usize) -> (r: bool)
    ensures
        self_call_in(command.tree(), raw_function_name@, fuel as nat) == Some(r),
    decreases fuel, 1int, *command,
{
    proof {
        lemma_self_call_known(command.tree(), raw_function_name@, fuel as nat);
    }
    match command {
        Command::Simple(simple) => simple_contains_self_call(simple, raw_function_name, fuel),
        Command::Arithmetic(_) => false,
        Command::Background(inner) => command_contains_self_call(inner, raw_function_name, fuel),
        Command::Connection(connection) => connection_contains_self_call(command, connection, raw_function_name, fuel),
        Command::If(if_cmd) => if_contains_self_call(command, if_cmd, raw_function_name, fuel),
        Command::While(while_cmd) => while_contains_self_call(command, while_cmd, raw_function_name, fuel),
        Command::For(for_cmd) => function_captures_self_call_value(&for_cmd.body, raw_function_name, fuel),
        Command::CStyleFor(for_cmd) => function_captures_self_call_value(&for_cmd.body, raw_function_name, fuel),
        Command::Case(case_cmd) => case_contains_self_call(command, case_cmd, raw_function_name, fuel),
        Command::Function(function) => function_captures_self_call_value(&function.body, raw_function_name, fuel),
        Command::Group(body) => function_captures_self_call_value(body, raw_function_name, fuel),
    }
}

// ---------------------------------------------------------------------------
// Signatures
// ---------------------------------------------------------------------------

/// The order of names: by character, a prefix first.
pub open spec fn name_before(a: Seq<char>, b: Seq<char>) -> bool
    decreases a.len(),
{
    if a.len() == 0 {
        b.len() > 0
    } else if b.len() == 0 {
        false
    } else if a[0] < b[0] {
        true
    } else if a[0] > b[0] {
        false
    } else {
        name_before(a.drop_first(), b.drop_first())
    }
}

fn name_before_exec(a: &Vec<char>, b: &Vec<char>) -> (r: bool)
    ensures
        r == name_before(a@, b@),
{
    let mut i: usize = 0;
    assert(a@.subrange(0, a@.len() as int) =~= a@);
    assert(b@.subrange(0, b@.len() as int) =~= b@);
    while i < a.len() && i < b.len() && a[i] == b[i]
        invariant
            i <= a@.len(),
            i <= b@.len(),
            name_before(a@, b@) == name_before(a@.subrange(i as int, a@.len() as int), b@.subrange(i as int, b@.len() as int)),
        decreases a@.len() - i,
    {
        assert(a@.subrange(i as int, a@.len() as int).drop_first() =~= a@.subrange(i + 1, a@.len() as int));
        assert(b@.subrange(i as int, b@.len() as int).drop_first() =~= b@.subrange(i + 1, b@.len() as int));
        i += 1;
    }
    if i == a.len() {
        assert(a@.subrange(i as int, a@.len() as int).len() == 0);
        return i < b.len();
    }
    if i == b.len() {
        assert(b@.subrange(i as int, b@.len() as int).len() == 0);
        return false;
    }
    assert(a@.subrange(i as int, a@.len() as int)[0] == a@[i as int]);
    assert(b@.subrange(i as int, b@.len() as int)[0] == b@[i as int]);
    a[i] < b[i]
}

pub open spec fn global_views(v: Seq<(Vec<char>, GlobalVarType)>) -> Seq<(Seq<char>, GlobalVarType)> {
    v.map_values(|e: (Vec<char>, GlobalVarType)| (e.0@, e.1))
}

proof fn lemma_name_before_asymmetric(a: Seq<char>, b: Seq<char>)
    requires
        name_before(a, b),
    ensures
        !name_before(b, a),
    decreases a.len(),
{
    if a.len() > 0 && b.len() > 0 && a[0] == b[0] {
        lemma_name_before_asymmetric(a.drop_first(), b.drop_first());
    }
}

/// The entries of `v` ordered by name: no name before the one ahead of it, and the same
/// entries.
fn sort_by_name(v: &Vec<(Vec<char>, GlobalVarType)>) -> (r: Vec<(Vec<char>, GlobalVarType)>)
    ensures
        r@.len() == v@.len(),
        forall|i: int| 0 <= i < r@.len() - 1 ==> !name_before(#[trigger] r@[i + 1].0@, r@[i].0@),
        forall|e: (Seq<char>, GlobalVarType)| global_views(r@).contains(e) <==> global_views(v@).contains(e),
{
    let mut out: Vec<(Vec<char>, GlobalVarType)> = Vec::new();
    let mut k: usize = 0;
    while k < v.len()
        invariant
            k <= v@.len(),
            out@.len() == k,
            forall|i: int| 0 <= i < out@.len() - 1 ==> !name_before(#[trigger] out@[i + 1].0@, out@[i].0@),
            forall|e: (Seq<char>, GlobalVarType)| global_views(out@).contains(e) <==> global_views(v@.take(k as int)).contains(e),
        decreases v@.len() - k,
    {
        let entry = (to_vec(&v[k].0), v[k].1);
        let mut p: usize = 0;
        while p < out.len() && !name_before_exec(&entry.0, &out[p].0)
            invariant
                p <= out@.len(),
                forall|j: int| 0 <= j < p ==> !name_before(entry.0@, #[trigger] out@[j].0@),
            decreases out@.len() - p,
        {
            p += 1;
        }
        let ghost before = out@;
        out.insert(p, entry);
        proof {
            assert(out@ == before.insert(p as int, entry));
            assert forall|i: int| 0 <= i < out@.len() - 1 implies !name_before(#[trigger] out@[i + 1].0@, out@[i].0@) by {
                if i + 1 < p {
                    assert(out@[i] == before[i] && out@[i + 1] == before[i + 1]);
                    assert(!name_before(before[i + 1].0@, before[i].0@));
                } else if i + 1 == p {
                    assert(out@[i + 1] == entry && out@[i] == before[i]);
                } else if i == p {
                    assert(out@[i] == entry && out@[i + 1] == before[i]);
                    lemma_name_before_asymmetric(entry.0@, before[i].0@);
                } else {
                    assert(out@[i] == before[i - 1] && out@[i + 1] == before[i]);
                    assert(!name_before(before[(i - 1) + 1].0@, before[i - 1].0@));
                }
            }
            let ev = (entry.0@, entry.1);
            assert(global_views(v@.take(k + 1)) =~= global_views(v@.take(k as int)).push(ev));
            assert forall|e: (Seq<char>, GlobalVarType)| global_views(out@).contains(e) <==> global_views(v@.take(k + 1)).contains(e) by {
                if global_views(out@).contains(e) {
                    let i = choose|i: int| 0 <= i < global_views(out@).len() && #[trigger] global_views(out@)[i] == e;
                    if i < p {
                        assert(global_views(before)[i] == e);
                        assert(global_views(before).contains(e));
                        assert(global_views(v@.take(k as int)).contains(e));
                        let j = choose|j: int| 0 <= j < global_views(v@.take(k as int)).len() && #[trigger] global_views(v@.take(k as int))[j] == e;
                        assert(global_views(v@.take(k + 1))[j] == e);
                    } else if i == p {
                        assert(e == ev);
                        assert(global_views(v@.take(k + 1))[k as int] == e);
                    } else {
                        assert(global_views(before)[i - 1] == e);
                        assert(global_views(before).contains(e));
                        assert(global_views(v@.take(k as int)).contains(e));
                        let j = choose|j: int| 0 <= j < global_views(v@.take(k as int)).len() && #[trigger] global_views(v@.take(k as int))[j] == e;
                        assert(global_views(v@.take(k + 1))[j] == e);
                    }
                }
                if global_views(v@.take(k + 1)).contains(e) {
                    let i = choose|i: int| 0 <= i < global_views(v@.take(k + 1)).len() && #[trigger] global_views(v@.take(k + 1))[i] == e;
                    if i < k {
                        assert(global_views(v@.take(k as int))[i] == e);
                        assert(global_views(v@.take(k as int)).contains(e));
                        assert(global_views(before).contains(e));
                        let j = choose|j: int| 0 <= j < global_views(before).len() && #[trigger] global_views(before)[j] == e;
                        if j < p {
                            assert(global_views(out@)[j] == e);
                        } else {
                            assert(global_views(out@)[j + 1] == e);
                        }
                    } else {
                        assert(global_views(out@)[p as int] == e);
                    }
                }
            }
        }
        k += 1;
    }
    assert(v@.take(k as int) =~= v@);
    out
}

/// Whether any command of `body` from `from` on assigns `v`.
fn body_assigns_from(body: &Vec<Command>, from: usize, v: &[char]) -> (r: bool)
    ensures
        r == exists|k: int| from <= k < body@.len() && assigns_in_command(#[trigger] body@[k], v@),
{
    let mut k = from;
    while k < body.len()
        invariant
            from <= k <= body@.len() || (from > body@.len() && k == from),
            forall|j: int| from <= j < k ==> !assigns_in_command(#[trigger] body@[j], v@),
        decreases body@.len() - k,
    {
        if command_contains_assignment_target(&body[k], v) {
            return true;
        }
        k += 1;
    }
    false
}

/// The commands of `body` from `from` on.
pub open spec fn commands_from(body: Seq<Command>, from: int) -> Seq<CommandView> {
    if from <= body.len() {
        trees(body).skip(from)
    } else {
        seq![]
    }
}

/// Whether any command of `body` from `from` on captures a call of `name`.
fn body_captures_self_call_from(body: &Vec<Command>, from: usize, name: &[char]) -> (r: bool)
    ensures
        any_true(body_results(commands_from(body@, from as int), name@, usize::MAX as nat)) == Some(r),
{
    let ghost rs = body_results(commands_from(body@, from as int), name@, usize::MAX as nat);
    proof {
        crate::bash::ast::lemma_trees_index(body@);
        lemma_body_results_known(commands_from(body@, from as int), name@, usize::MAX as nat);
        lemma_any_true_known(rs);
    }
    if from >= body.len() {
        proof {
            lemma_any_true_search(rs, 0, false);
        }
        return false;
    }
    let mut k = from;
    while k < body.len()
        invariant
            from <= k <= body@.len(),
            from < body@.len(),
            rs == body_results(commands_from(body@, from as int), name@, usize::MAX as nat),
            any_true(rs) is Some,
            rs.len() == body@.len() - from,
            trees(body@).len() == body@.len(),
            forall|i: int| 0 <= i < body@.len() ==> #[trigger] trees(body@)[i] == body@[i].tree(),
            forall|j: int| 0 <= j < k - from ==> rs[j] != Some(true),
        decreases body@.len() - k,
    {
        proof {
            assert(commands_from(body@, from as int)[k - from] == trees(body@)[k as int]);
        }
        if command_contains_self_call(&body[k], name, usize::MAX) {
            proof {
                lemma_any_true_search(rs, k - from, true);
            }
            return true;
        }
        k += 1;
    }
    proof {
        lemma_any_true_search(rs, k - from, false);
    }
    false
}

/// What the body of a function, from `from` on, last assigns to `name` outside `local`:
/// `None` when it does not, `Some(None)` when its assignments disagree in type.
pub open spec fn body_assignment(body: Seq<Command>, from: int, name: Seq<char>) -> Option<Option<GlobalVarType>> {
    if from <= body.len() {
        assigned_in_commands(body.subrange(from, body.len() as int), name, None)
    } else {
        None
    }
}

/// Whether `name` is bound to a positional parameter.
pub open spec fn is_bound(bindings: Seq<(Vec<char>, usize)>, name: Seq<char>) -> bool {
    exists|b: int| 0 <= b < bindings.len() && (#[trigger] bindings[b]).0@ == name
}

/// Whether the commands after the one at `index` read `name`.
pub open spec fn read_after(commands: Seq<Command>, index: int, name: Seq<char>) -> bool {
    references_in_commands(commands.subrange(index + 1, commands.len() as int), "$"@ + name, "${"@ + name + "}"@)
}

/// Whether `name` is a global output of the function defined at `index`: assigned in its
/// body outside `local`, not a positional binding, and read by the commands after it.
pub open spec fn global_output(commands: Seq<Command>, index: int, body: Seq<Command>, from: int, bindings: Seq<(Vec<char>, usize)>, name: Seq<char>) -> bool {
    &&& body_assignment(body, from, name) is Some
    &&& !is_bound(bindings, name)
    &&& read_after(commands, index, name)
}

/// The type of a global output: the assigned type, `Unknown` where assignments disagree.
pub open spec fn output_type(a: Option<Option<GlobalVarType>>) -> GlobalVarType {
    match a {
        Some(Some(t)) => t,
        _ => GlobalVarType::Unknown,
    }
}

/// The variables that the body (from `body_from` on) assigns outside `local` and that the
/// commands after the definition at `index` read, with their types, leaving out the
/// positional bindings, each once; and whether one of them was assigned conflicting types.
fn referenced_globals(
    commands: &Vec<Command>,
    index: usize,
    body: &Vec<Command>,
    body_from: usize,
    bindings: &Vec<(Vec<char>, usize)>,
) -> (r: (Vec<(Vec<char>, GlobalVarType)>, bool))
    requires
        index < commands@.len(),
    ensures
        forall|i: int| 0 <= i < r.0@.len() ==> global_output(commands@, index as int, body@, body_from as int, bindings@, (#[trigger] r.0@[i]).0@)
            && r.0@[i].1 == output_type(body_assignment(body@, body_from as int, r.0@[i].0@)),
        forall|name: Seq<char>| #[trigger] global_output(commands@, index as int, body@, body_from as int, bindings@, name)
            ==> exists|i: int| 0 <= i < r.0@.len() && (#[trigger] r.0@[i]).0@ == name,
        forall|i: int, k: int| 0 <= i < r.0@.len() && 0 <= k < r.0@.len() && (#[trigger] r.0@[i]).0@ == (#[trigger] r.0@[k]).0@ ==> i == k,
        r.1 == exists|name: Seq<char>| #[trigger] global_output(commands@, index as int, body@, body_from as int, bindings@, name)
            && body_assignment(body@, body_from as int, name) == Some(None::<GlobalVarType>),
{
    let n_commands = commands.len();
    let mut non_local: Vec<(String, Option<GlobalVarType>)> = Vec::new();
    let mut k = body_from;
    while k < body.len()
        invariant
            keys_unique(non_local@),
            body_from <= k,
            body_from < body@.len() ==> k <= body@.len(),
            body_from >= body@.len() ==> k == body_from,
            forall|name: Seq<char>| #[trigger] value_of(non_local@, name) == (if body_from <= body@.len() && body_from <= k {
                assigned_in_commands(body@.subrange(body_from as int, k as int), name, None)
            } else {
                None
            }),
        decreases body@.len() - k,
    {
        let ghost before = non_local@;
        super::analysis::collect_non_local_assignments_from_command(&body[k], &mut non_local);
        proof {
            assert forall|name: Seq<char>| #[trigger] value_of(non_local@, name)
                == assigned_in_commands(body@.subrange(body_from as int, k + 1), name, None) by {
                let sub = body@.subrange(body_from as int, k + 1);
                assert(sub.drop_last() =~= body@.subrange(body_from as int, k as int));
                assert(sub.last() == body@[k as int]);
            }
        }
        k += 1;
    }
    proof {
        assert forall|name: Seq<char>| #[trigger] value_of(non_local@, name) == body_assignment(body@, body_from as int, name) by {
            if body_from <= body@.len() {
                assert(k == body@.len() || body_from >= body@.len());
                if body_from == body@.len() {
                    assert(body@.subrange(body_from as int, k as int) =~= Seq::<Command>::empty());
                    assert(body@.subrange(body_from as int, body@.len() as int) =~= Seq::<Command>::empty());
                }
            }
        }
    }
    let mut referenced: Vec<(Vec<char>, GlobalVarType)> = Vec::new();
    let ghost mut origin: Seq<int> = seq![];
    let mut conflict = false;
    let mut j: usize = 0;
    while j < non_local.len()
        invariant
            j <= non_local@.len(),
            index < commands@.len(),
            n_commands == commands@.len(),
            keys_unique(non_local@),
            forall|name: Seq<char>| #[trigger] value_of(non_local@, name) == body_assignment(body@, body_from as int, name),
            origin.len() == referenced@.len(),
            forall|i: int| 0 <= i < referenced@.len() ==> 0 <= #[trigger] origin[i] < j
                && non_local@[origin[i]].0@ == referenced@[i].0@,
            forall|i: int, i2: int| 0 <= i < i2 < referenced@.len() ==> #[trigger] origin[i] < #[trigger] origin[i2],
            forall|i: int| 0 <= i < referenced@.len() ==> global_output(commands@, index as int, body@, body_from as int, bindings@, (#[trigger] referenced@[i]).0@)
                && referenced@[i].1 == output_type(body_assignment(body@, body_from as int, referenced@[i].0@)),
            forall|jj: int| 0 <= jj < j && global_output(commands@, index as int, body@, body_from as int, bindings@, (#[trigger] non_local@[jj]).0@)
                ==> exists|i: int| 0 <= i < referenced@.len() && (#[trigger] referenced@[i]).0@ == non_local@[jj].0@,
            conflict == exists|jj: int| 0 <= jj < j && global_output(commands@, index as int, body@, body_from as int, bindings@, (#[trigger] non_local@[jj]).0@)
                && non_local@[jj].1 is None,
        decreases non_local@.len() - j,
    {
        let name = chars_of(non_local[j].0.as_str());
        proof {
            crate::amber::render::context::lemma_value_at(non_local@, name@, j as int);
        }
        let mut is_binding = false;
        let mut b: usize = 0;
        while b < bindings.len()
            invariant
                b <= bindings@.len(),
                is_binding == exists|bb: int| 0 <= bb < b && (#[trigger] bindings@[bb]).0@ == name@,
            decreases bindings@.len() - b,
        {
            if seq_eq(&bindings[b].0, &name) {
                is_binding = true;
            }
            b += 1;
        }
        let ghost ref_before = referenced@;
        let ghost conflict_before = conflict;
        if !is_binding && commands_reference_variable(commands, index + 1, &name) {
            let ty = match non_local[j].1 {
                Some(ty) => ty,
                None => {
                    conflict = true;
                    GlobalVarType::Unknown
                },
            };
            referenced.push((name, ty));
            proof {
                origin = origin.push(j as int);
                assert(referenced@.last().0@ == non_local@[j as int].0@);
            }
        }
        proof {
            assert(is_bound(bindings@, name@) == is_binding);
            let g = global_output(commands@, index as int, body@, body_from as int, bindings@, non_local@[j as int].0@);
            assert forall|i: int| 0 <= i < referenced@.len() implies global_output(commands@, index as int, body@, body_from as int, bindings@, (#[trigger] referenced@[i]).0@)
                && referenced@[i].1 == output_type(body_assignment(body@, body_from as int, referenced@[i].0@)) by {
                if i < ref_before.len() {
                    assert(referenced@[i] == ref_before[i]);
                }
            }
            assert forall|jj: int| 0 <= jj < j + 1 && global_output(commands@, index as int, body@, body_from as int, bindings@, (#[trigger] non_local@[jj]).0@)
                implies exists|i: int| 0 <= i < referenced@.len() && (#[trigger] referenced@[i]).0@ == non_local@[jj].0@ by {
                if jj < j {
                    let i = choose|i: int| 0 <= i < ref_before.len() && (#[trigger] ref_before[i]).0@ == non_local@[jj].0@;
                    assert(referenced@[i] == ref_before[i]);
                } else {
                    assert(referenced@[referenced@.len() - 1].0@ == non_local@[jj].0@);
                }
            }
            if conflict {
                if conflict_before {
                    let jj = choose|jj: int| 0 <= jj < j && global_output(commands@, index as int, body@, body_from as int, bindings@, (#[trigger] non_local@[jj]).0@)
                        && non_local@[jj].1 is None;
                    assert(0 <= jj < j + 1);
                } else {
                    assert(global_output(commands@, index as int, body@, body_from as int, bindings@, non_local@[j as int].0@));
                }
            } else {
                assert forall|jj: int| 0 <= jj < j + 1 && global_output(commands@, index as int, body@, body_from as int, bindings@, (#[trigger] non_local@[jj]).0@)
                    implies !(non_local@[jj].1 is None) by {
                    if jj == j {
                        assert(g);
                    }
                }
            }
        }
        j += 1;
    }
    proof {
        assert forall|name: Seq<char>| #[trigger] global_output(commands@, index as int, body@, body_from as int, bindings@, name)
            implies exists|i: int| 0 <= i < referenced@.len() && (#[trigger] referenced@[i]).0@ == name by {
            assert(value_of(non_local@, name) == body_assignment(body@, body_from as int, name));
            assert(has_key(non_local@, name));
            let jj = choose|jj: int| 0 <= jj < non_local@.len() && (#[trigger] non_local@[jj]).0@ == name;
            assert(global_output(commands@, index as int, body@, body_from as int, bindings@, non_local@[jj].0@));
        }
        assert forall|i: int, i2: int| 0 <= i < referenced@.len() && 0 <= i2 < referenced@.len() && (#[trigger] referenced@[i]).0@ == (#[trigger] referenced@[i2]).0@
            implies i == i2 by {
            assert(non_local@[origin[i]].0@ == non_local@[origin[i2]].0@);
            if i < i2 {
                assert(origin[i] < origin[i2]);
            } else if i2 < i {
                assert(origin[i2] < origin[i]);
            }
        }
        if conflict {
            let jj = choose|jj: int| 0 <= jj < j && global_output(commands@, index as int, body@, body_from as int, bindings@, (#[trigger] non_local@[jj]).0@)
                && non_local@[jj].1 is None;
            crate::amber::render::context::lemma_value_at(non_local@, non_local@[jj].0@, jj);
            assert(body_assignment(body@, body_from as int, non_local@[jj].0@) == Some(None::<GlobalVarType>));
        } else {
            assert forall|name: Seq<char>| #[trigger] global_output(commands@, index as int, body@, body_from as int, bindings@, name)
                implies body_assignment(body@, body_from as int, name) != Some(None::<GlobalVarType>) by {
                assert(value_of(non_local@, name) == body_assignment(body@, body_from as int, name));
                assert(has_key(non_local@, name));
                let jj = choose|jj: int| 0 <= jj < non_local@.len() && (#[trigger] non_local@[jj]).0@ == name;
                crate::amber::render::context::lemma_value_at(non_local@, name, jj);
                assert(global_output(commands@, index as int, body@, body_from as int, bindings@, non_local@[jj].0@));
            }
        }
    }
    (referenced, conflict)
}

/// `Function 'name' at line N<problem>`, without the line when it is 0.
pub open spec fn spec_fallback_warning(name: Seq<char>, line: usize, problem: Seq<char>) -> Seq<char> {
    "Function '"@ + name + "'"@ + (if line > 0 {
        " at line "@ + decimal(line as nat)
    } else {
        seq![]
    }) + problem
}

/// The warning text for a function that falls back to a `trust` literal.
fn fallback_warning(name: &[char], line: usize, problem: &str) -> (r: Vec<char>)
    ensures
        r@ == spec_fallback_warning(name@, line, problem@),
{
    let mut m = chars_of("Function '");
    push_all(&mut m, name);
    push_str(&mut m, "'");
    let ghost head = m@;
    if line > 0 {
        push_str(&mut m, " at line ");
        push_all(&mut m, &usize_to_decimal(line));
    }
    let ghost mid = m@;
    push_str(&mut m, problem);
    proof {
        if line > 0 {
            assert(mid =~= head + (" at line "@ + decimal(line as nat)));
        } else {
            assert(mid =~= head + Seq::<char>::empty());
        }
        assert(m@ =~= spec_fallback_warning(name@, line, problem@));
    }
    m
}

/// `ctx` after `a` has at most new functions, cursors and warnings.
pub open spec fn only_functions_changed(a: RenderContext, b: RenderContext) -> bool {
    &&& b.wf()
    &&& b.var_aliases == a.var_aliases
    &&& b.declared_vars == a.declared_vars
    &&& b.positional_scopes == a.positional_scopes
    &&& b.function_hints == a.function_hints
    &&& b.return_var_stack == a.return_var_stack
    &&& b.source_path == a.source_path
    &&& a.warnings@.len() <= b.warnings@.len()
    &&& b.warnings@.subrange(0, a.warnings@.len() as int) == a.warnings@
}

/// The last definition of the function `name` among `cs[from..end]`.
pub open spec fn last_definition(cs: Seq<Command>, from: int, end: int, name: Seq<char>) -> Option<FunctionDef>
    decreases end - from,
{
    if end <= from {
        None
    } else {
        match cs[end - 1] {
            Command::Function(f) => if f.name@ == name {
                Some(f)
            } else {
                last_definition(cs, from, end - 1, name)
            },
            _ => last_definition(cs, from, end - 1, name),
        }
    }
}

/// The last definition among `cs[from..end]` is the last among the same commands taken on
/// their own.
pub proof fn lemma_last_definition_shift(cs: Seq<Command>, from: int, end: int, name: Seq<char>)
    requires
        0 <= from <= end <= cs.len(),
    ensures
        last_definition(cs.subrange(from, cs.len() as int), 0, end - from, name) == last_definition(cs, from, end, name),
    decreases end - from,
{
    if end > from {
        assert(cs.subrange(from, cs.len() as int)[end - from - 1] == cs[end - 1]);
        lemma_last_definition_shift(cs, from, end - 1, name);
    }
}

/// The signature of `k` after registering its definition `def`, if any: known under its
/// sanitized name with the arity its body uses, rendered with shell fallbacks in its body
/// exactly when it reads `$@` or `$*` and does not fall back whole, returning a value only
/// through a type comment of its arity, and not falling back whole when it has one; else as
/// it was.
pub open spec fn registered_as(before: RenderContext, after: RenderContext, def: Option<FunctionDef>, k: Seq<char>) -> bool {
    match def {
        Some(f) => value_of(after.functions@, k) matches Some(s) && signature_fits(s, k, f),
        None => value_of(after.functions@, k) == value_of(before.functions@, k),
    }
}

/// What a registered signature `s` of the function `k` keeps of its definition `f`.
pub open spec fn signature_fits(s: FunctionSig, k: Seq<char>, f: FunctionDef) -> bool {
    let traits = traits_of_commands(f.body@);
    &&& s.amber_name@ == spec_sanitize_function_name(k)
    &&& s.arity == traits.arity
    &&& (s.render_mode == FunctionRenderMode::ShallowFallback) == (traits.is_variadic
        && s.render_mode != FunctionRenderMode::FullFallback)
    &&& s.returns_value ==> s.typed_signature is Some
    &&& (s.typed_signature matches Some(ts) ==> ts.params@.len() == s.arity)
    &&& (s.render_mode == FunctionRenderMode::FullFallback ==> s.typed_signature is None)
    &&& signature_outputs_fit(s, k, f)
}

/// Whether `name` is bound to a positional parameter by one of `bs`.
pub open spec fn bound_in(bs: Seq<(Seq<char>, usize)>, name: Seq<char>) -> bool {
    exists|b: int| 0 <= b < bs.len() && (#[trigger] bs[b]).0 == name
}

/// What a registered signature keeps of the analysis of the body after the positional
/// bindings: a type comment that names an output variable makes the function return a value;
/// a function with no type comment that captures a call of itself falls back to a
/// `trust` literal; its global output variables, when it has any, come with a native
/// function without a type comment, each assigned in the body outside `local`, not a
/// positional binding, with its assigned type, sorted by name.
pub open spec fn signature_outputs_fit(s: FunctionSig, k: Seq<char>, f: FunctionDef) -> bool {
    let traits = traits_of_commands(f.body@);
    let bindings = bindings_from(f.body@, 0, traits.arity);
    let from = bindings.len() as int;
    let gv = s.global_vars@;
    &&& (s.typed_signature is None && any_true(body_results(commands_from(f.body@, from), k, usize::MAX as nat)) == Some(true))
        ==> s.render_mode == FunctionRenderMode::FullFallback
    &&& (s.typed_signature matches Some(ts) ==> (ts.return_contract is TypedVariable <==> s.returns_value))
    &&& gv.len() > 0 ==> s.render_mode == FunctionRenderMode::Native && s.typed_signature is None && !s.returns_value
    &&& forall|i: int| 0 <= i < gv.len() ==> body_assignment(f.body@, from, (#[trigger] gv[i]).0@) is Some
        && !bound_in(bindings, gv[i].0@) && gv[i].1 == output_type(body_assignment(f.body@, from, gv[i].0@))
    &&& forall|i: int| 0 <= i < gv.len() - 1 ==> !name_before(#[trigger] gv[i + 1].0@, gv[i].0@)
}

/// Every function defined in `cs[from..end]` is registered as its last definition says;
/// the others are as they were.
pub open spec fn signatures_registered(before: RenderContext, after: RenderContext, cs: Seq<Command>, from: int, end: int) -> bool {
    forall|k: Seq<char>| #[trigger] registered_as(before, after, last_definition(cs, from, end, k), k)
}

/// Registers the signature of every function defined among `commands` from `from` on: its
/// Amber name, arity, typed return, how it is rendered, and the global variables it leaves
/// for the commands after it.
pub fn preregister_function_signatures(commands: &Vec<Command>, from: usize, ctx: &mut RenderContext)
    requires
        old(ctx).wf(),
        from <= commands@.len(),
    ensures
        only_functions_changed(*old(ctx), *final(ctx)),
        signatures_registered(*old(ctx), *final(ctx), commands@, from as int, commands@.len() as int),
        (forall|j: int| from <= j < commands@.len() ==> !(#[trigger] commands@[j] is Function)) ==> *final(ctx) == *old(ctx),
{
    let ghost start = *ctx;
    let n_commands = commands.len();
    assert(start.warnings@.subrange(0, start.warnings@.len() as int) =~= start.warnings@);
    let mut index = from;
    while index < commands.len()
        invariant
            from <= index <= commands@.len(),
            n_commands == commands@.len(),
            only_functions_changed(start, *ctx),
            signatures_registered(start, *ctx, commands@, from as int, index as int),
            (forall|j: int| from <= j < index ==> !(#[trigger] commands@[j] is Function)) ==> *ctx == start,
        decreases commands@.len() - index,
    {
        let ghost before = *ctx;
        if let Command::Function(function) = &commands[index] {
            let fname = chars_of(function.name.as_str());
            let amber_name = sanitize_function_name(&fname);
            let traits = detect_function_traits(&function.body);
            let arity = traits.arity;
            let bindings = infer_positional_bindings_prefix(&function.body, arity);
            let body_from = bindings.len();
            let hint = ctx.next_function_hint(&fname);
            let hint_line: usize = match &hint {
                Some(h) => h.function_line,
                None => 0,
            };
            let mut sig = FunctionSig {
                amber_name: string_of(&amber_name),
                arity,
                returns_value: false,
                render_mode: if traits.is_variadic {
                    FunctionRenderMode::ShallowFallback
                } else {
                    FunctionRenderMode::Native
                },
                typed_signature: None,
                global_vars: Vec::new(),
            };
            let mut done = false;
            if let Some(h) = &hint {
                if let FunctionTypeHint::Typed(type_signature) = &h.type_hint {
                    if type_signature.params.len() == arity {
                        match &type_signature.return_contract {
                            TypeCommentReturnContract::TypedVariable { variable_name, .. } => {
                                let v = chars_of(variable_name.as_str());
                                let found = body_assigns_from(&function.body, body_from, &v);
                                if found {
                                    sig.returns_value = true;
                                    sig.typed_signature = Some(type_signature.copy());
                                    done = true;
                                }
                            },
                            TypeCommentReturnContract::Null => {
                                sig.typed_signature = Some(type_signature.copy());
                                done = true;
                            },
                        }
                    }
                }
            }
            proof {
                assert(binding_views(bindings@).len() == bindings@.len());
            }
            if !done {
                let captures = body_captures_self_call_from(&function.body, body_from, &fname);
                if captures {
                    sig.render_mode = FunctionRenderMode::FullFallback;
                    let m = fallback_warning(&fname, hint_line, " is unsupported without explicit type comment. Falling back to trust literal.");
                    let reason = chars_of("function captures return value from recursive call but has no type comment");
                    ctx.warn(&m, Some(&reason));
                    done = true;
                }
            }
            if !done && sig.render_mode == FunctionRenderMode::Native && !sig.returns_value {
                let (referenced, conflict) = referenced_globals(commands, index, &function.body, body_from, &bindings);
                if conflict {
                    let m = fallback_warning(&fname, hint_line, " has conflicting global variable types. Falling back to trust literal.");
                    let reason = chars_of("global output variable has conflicting types (Int vs Text) across branches");
                    ctx.warn(&m, Some(&reason));
                    sig.render_mode = FunctionRenderMode::FullFallback;
                } else {
                    let sorted = sort_by_name(&referenced);
                    let ghost bs = bindings_from(function.body@, 0, arity);
                    proof {
                        assert forall|n: Seq<char>| bound_in(bs, n) implies is_bound(bindings@, n) by {
                            let b = choose|b: int| 0 <= b < bs.len() && (#[trigger] bs[b]).0 == n;
                            assert(binding_views(bindings@)[b] == (bindings@[b].0@, bindings@[b].1));
                            assert(bindings@[b].0@ == n);
                        }
                    }
                    let mut globals: Vec<(String, GlobalVarType)> = Vec::new();
                    let mut g: usize = 0;
                    while g < sorted.len()
                        invariant
                            g <= sorted@.len(),
                            globals@.len() == g,
                            forall|i: int| 0 <= i < g ==> (#[trigger] globals@[i]).0@ == sorted@[i].0@ && globals@[i].1 == sorted@[i].1,
                        decreases sorted@.len() - g,
                    {
                        globals.push((string_of(&sorted[g].0), sorted[g].1));
                        g += 1;
                    }
                    proof {
                        let gv = globals@;
                        assert forall|i: int| 0 <= i < gv.len() implies body_assignment(function.body@, body_from as int, (#[trigger] gv[i]).0@) is Some
                            && !bound_in(bs, gv[i].0@) && gv[i].1 == output_type(body_assignment(function.body@, body_from as int, gv[i].0@)) by {
                            assert(gv[i].0@ == sorted@[i].0@);
                            assert(global_views(sorted@)[i] == (sorted@[i].0@, sorted@[i].1));
                            assert(global_views(sorted@).contains((sorted@[i].0@, sorted@[i].1)));
                            assert(global_views(referenced@).contains((sorted@[i].0@, sorted@[i].1)));
                            let j = choose|j: int| 0 <= j < global_views(referenced@).len() && global_views(referenced@)[j] == (sorted@[i].0@, sorted@[i].1);
                            assert(global_views(referenced@)[j] == (referenced@[j].0@, referenced@[j].1));
                            assert(global_output(commands@, index as int, function.body@, body_from as int, bindings@, referenced@[j].0@));
                        }
                        assert forall|i: int| 0 <= i < gv.len() - 1 implies !name_before(#[trigger] gv[i + 1].0@, gv[i].0@) by {
                            assert(gv[i + 1].0@ == sorted@[i + 1].0@);
                            assert(gv[i].0@ == sorted@[i].0@);
                        }
                    }
                    sig.global_vars = globals;
                }
            }
            let ghost registered = sig;
            proof {
                assert(signature_fits(registered, function.name@, *function));
            }
            let ghost mid = *ctx;
            ctx.register_function(&fname, sig);
            proof {
                assert forall|k: Seq<char>| #[trigger] registered_as(start, *ctx, last_definition(commands@, from as int, index + 1, k), k) by {
                    if k != function.name@ {
                        assert(last_definition(commands@, from as int, index + 1, k) == last_definition(commands@, from as int, index as int, k));
                        assert(registered_as(start, before, last_definition(commands@, from as int, index as int, k), k));
                        assert(value_of(mid.functions@, k) == value_of(before.functions@, k));
                    }
                }
            }
        } else {
            proof {
                assert forall|k: Seq<char>| #[trigger] registered_as(start, *ctx, last_definition(commands@, from as int, index + 1, k), k) by {
                    assert(last_definition(commands@, from as int, index + 1, k) == last_definition(commands@, from as int, index as int, k));
                    assert(registered_as(start, before, last_definition(commands@, from as int, index as int, k), k));
                }
            }
        }
        proof {
            assert forall|i: int| 0 <= i < start.warnings@.len() implies ctx.warnings@[i] == start.warnings@[i] by {
                assert(before.warnings@.subrange(0, start.warnings@.len() as int)[i] == start.warnings@[i]);
            }
            assert(ctx.warnings@.subrange(0, start.warnings@.len() as int) =~= start.warnings@);
        }
        index += 1;
    }
}

/// The name bound to the position `position` by the first of `bindings` from `k` on that binds
/// it.
pub open spec fn bound_name(bindings: Seq<(Seq<char>, usize)>, k: int, position: int) -> Option<Seq<char>>
    decreases bindings.len() - k,
{
    if k < 0 || k >= bindings.len() {
        None
    } else if bindings[k].1 == position {
        Some(bindings[k].0)
    } else {
        bound_name(bindings, k + 1, position)
    }
}

/// The name the parameter at `index` of a type comment asks for: its own name, else the name
/// bound to its position, else `argN`, sanitized.
pub open spec fn typed_param_candidate(name: Option<String>, index: int, bindings: Seq<(Seq<char>, usize)>) -> Seq<char> {
    match name {
        Some(n) => spec_sanitize_param_name(n@),
        None => match bound_name(bindings, 0, index + 1) {
            Some(b) => spec_sanitize_param_name(b),
            None => "arg"@ + decimal((index + 1) as nat),
        },
    }
}

/// The names of the first `k` parameters of a type comment, each made unique among those
/// before it.
pub open spec fn typed_param_names(params: Seq<TypeCommentParam>, bindings: Seq<(Seq<char>, usize)>, k: int) -> Seq<Seq<char>>
    decreases k,
{
    if k <= 0 {
        seq![]
    } else {
        let before = typed_param_names(params, bindings, k - 1);
        before.push(spec_free_name(before, before.len() as int, typed_param_candidate(params[k - 1].name, k - 1, bindings)))
    }
}

/// The parameters of a type comment as the Amber function shows them: `name: Type`.
pub open spec fn typed_params_text(params: Seq<TypeCommentParam>, bindings: Seq<(Seq<char>, usize)>) -> Seq<Seq<char>> {
    Seq::new(params.len(), |k: int| typed_param_names(params, bindings, params.len() as int)[k] + ": "@ + params[k].type_label@)
}

proof fn lemma_typed_param_names_len(params: Seq<TypeCommentParam>, bindings: Seq<(Seq<char>, usize)>, k: int)
    requires
        0 <= k,
    ensures
        typed_param_names(params, bindings, k).len() == k,
    decreases k,
{
    if k > 0 {
        lemma_typed_param_names_len(params, bindings, k - 1);
    }
}

proof fn lemma_typed_param_names_prefix(params: Seq<TypeCommentParam>, bindings: Seq<(Seq<char>, usize)>, j: int, k: int)
    requires
        0 <= j < k,
    ensures
        typed_param_names(params, bindings, k)[j] == typed_param_names(params, bindings, j + 1)[j],
    decreases k,
{
    lemma_typed_param_names_len(params, bindings, k - 1);
    if j < k - 1 {
        lemma_typed_param_names_prefix(params, bindings, j, k - 1);
    }
}

/// A name that is not yet among `names`, made from the parameter of a type comment: its name,
/// else the name bound to its position, else `argN`.
fn typed_param_name(param_name: &Option<String>, index: usize, bindings: &Vec<(Vec<char>, usize)>) -> (r: Vec<char>)
    requires
        index < usize::MAX,
    ensures
        r@ == typed_param_candidate(*param_name, index as int, binding_views(bindings@)),
{
    if let Some(n) = param_name {
        sanitize_param_name(&chars_of(n.as_str()))
    } else {
        {
            let ghost bv = binding_views(bindings@);
            let mut b: usize = 0;
            while b < bindings.len()
                invariant
                    b <= bindings@.len(),
                    index < usize::MAX,
                    bv == binding_views(bindings@),
                    param_name.is_none(),
                    bound_name(bv, b as int, index + 1) == bound_name(bv, 0, index + 1),
                decreases bindings@.len() - b,
            {
                assert(bv[b as int] == (bindings@[b as int].0@, bindings@[b as int].1));
                if bindings[b].1 == index + 1 {
                    return sanitize_param_name(&bindings[b].0);
                }
                b += 1;
            }
            let mut name = chars_of("arg");
            push_all(&mut name, &usize_to_decimal(index + 1));
            name
        }
    }
}

fn strings_of(v: &Vec<Vec<char>>) -> (r: Vec<String>)
    ensures
        r@.len() == v@.len(),
        forall|i: int| 0 <= i < v@.len() ==> (#[trigger] r@[i])@ == v@[i]@,
{
    let mut out: Vec<String> = Vec::new();
    let mut k: usize = 0;
    while k < v.len()
        invariant
            k <= v@.len(),
            out@.len() == k,
            forall|i: int| 0 <= i < k ==> (#[trigger] out@[i])@ == v@[i]@,
        decreases v@.len() - k,
    {
        out.push(string_of(&v[k]));
        k += 1;
    }
    out
}

/// The parameter names of a function with `arity` parameters and no type comment.
pub open spec fn untyped_params(body: Seq<Command>, arity: usize) -> Seq<Seq<char>> {
    let b = bindings_from(body, 0, arity);
    params_after(arity, b, b.len() as int)
}

/// What `render_function` gives for a definition, read against the context before the call
/// and after it: the `trust` literal for a function that falls back, else an Amber function
/// with the registered name, parameters and return type.
pub open spec fn function_rendered(command: Command, function: FunctionDef, before: RenderContext, after: RenderContext, r: FragmentKind) -> bool {
    match value_of(before.functions@, function.name@) {
        Some(s) => if s.render_mode == FunctionRenderMode::FullFallback {
            after == before && (r matches FragmentKind::Raw(x)
                && x.value@ == spec_literal_from_command(command, before))
        } else {
            r matches FragmentKind::Function(f) && f.name@ == s.amber_name@ && match s.typed_signature {
                None => string_views(f.params@) == untyped_params(function.body@, s.arity) && f.return_type is None,
                Some(t) => string_views(f.params@) == typed_params_text(t.params@, bindings_from(function.body@, 0, s.arity))
                    && match t.return_contract {
                    TypeCommentReturnContract::Null => f.return_type is None,
                    TypeCommentReturnContract::TypedVariable { type_label, .. } => f.return_type matches Some(rt)
                        && rt@ == type_label@,
                },
            }
        },
        None => r matches FragmentKind::Function(f) && f.name@ == spec_sanitize_function_name(function.name@)
            && string_views(f.params@) == untyped_params(function.body@, traits_of_commands(function.body@).arity)
            && f.return_type is None,
    }
}

/// The scope a function body is rendered in: a child scope of `parent` with a positional
/// scope of the parameters `names` on top, the return variable pushed when there is one, and
/// only the variables bound to positional parameters aliased anew.
pub open spec fn function_scope(parent: RenderContext, start: RenderContext, names: Seq<Seq<char>>, return_var: Option<Seq<char>>, bindings: Seq<(Seq<char>, usize)>) -> bool {
    exists|child: RenderContext| #[trigger] super::context::child_of(parent, child) && {
        &&& start.functions == child.functions
        &&& start.function_hints == child.function_hints
        &&& start.function_hint_cursors == child.function_hint_cursors
        &&& start.positional_scopes@.len() == child.positional_scopes@.len() + 1
        &&& start.positional_scopes@.drop_last() == child.positional_scopes@
        &&& string_views(start.positional_scopes@.last()@) == names
        &&& match return_var {
            Some(v) => start.return_var_stack@.len() == child.return_var_stack@.len() + 1
                && start.return_var_stack@.drop_last() == child.return_var_stack@ && start.return_var_stack@.last()@ == v,
            None => start.return_var_stack@ == child.return_var_stack@,
        }
        &&& forall|r: Seq<char>| !bound_in(bindings, r) ==> #[trigger] value_of(start.var_aliases@, r) == value_of(child.var_aliases@, r)
    }
}

/// The arity a function is rendered with: its registered one, else the one its body uses.
pub open spec fn rendered_arity(function: FunctionDef, sig: Option<FunctionSig>) -> usize {
    match sig {
        Some(s) => s.arity,
        None => traits_of_commands(function.body@).arity,
    }
}

/// The variable a typed function returns, when its type comment names one.
pub open spec fn return_variable(sig: Option<FunctionSig>) -> Option<Seq<char>> {
    match sig {
        Some(s) => match s.typed_signature {
            Some(t) => match t.return_contract {
                TypeCommentReturnContract::TypedVariable { variable_name, .. } => Some(variable_name@),
                TypeCommentReturnContract::Null => None,
            },
            None => None,
        },
        None => None,
    }
}

/// Whether the last command of the body returns its value: for a function whose type comment
/// names its output, or that returns a value without a type comment.
pub open spec fn body_returns(sig: Option<FunctionSig>) -> bool {
    match sig {
        Some(s) => match s.typed_signature {
            Some(t) => t.return_contract is TypedVariable,
            None => s.returns_value,
        },
        None => false,
    }
}

/// The names of the positional parameters inside the body: the type comment's names, else the
/// parameters the function shows.
pub open spec fn scope_names(function: FunctionDef, sig: Option<FunctionSig>, f: FunctionFragment) -> Seq<Seq<char>> {
    match sig {
        Some(s) => match s.typed_signature {
            Some(t) => typed_param_names(t.params@, bindings_from(function.body@, 0, rendered_arity(function, sig)), t.params@.len() as int),
            None => string_views(f.params@),
        },
        None => string_views(f.params@),
    }
}

/// The body of a function rendered: its commands after the positional bindings, in the scope
/// `function_scope` describes, the last one returning its value when `body_returns`.
pub open spec fn function_body_rendered(function: FunctionDef, sig: Option<FunctionSig>, parent: RenderContext, f: FunctionFragment) -> bool
    decreases function, 0nat,
{
    let bindings = bindings_from(function.body@, 0, rendered_arity(function, sig));
    let body = function.body@.subrange(bindings.len() as int, function.body@.len() as int);
    proof {
        lemma_bindings_within(function.body@, rendered_arity(function, sig));
        if bindings.len() == 0 {
            assert(body =~= function.body@);
        } else {
            vstd::seq::axiom_seq_subrange_decreases(function.body@, bindings.len() as int, function.body@.len() as int);
        }
    }
    exists|start: RenderContext, end: RenderContext|
        #![trigger function_scope(parent, start, scope_names(function, sig, f), return_variable(sig), bindings), ctx_kept(start, end)]
        commands_rendered(body, body_returns(sig), start, end, f.body.statements@)
        && function_scope(parent, start, scope_names(function, sig, f), return_variable(sig), bindings) && ctx_kept(start, end)
}

/// A function definition as an Amber function (or, for a function that falls back, as a
/// `trust $ .. $` command): parameters named from the type comment or the positional
/// bindings, the body rendered in a scope of its own, the return value last when it returns
/// one. The definition's own variables stay in its scope; its warnings are kept.
pub fn render_function(command: &Command, function: &FunctionDef, ctx: &mut RenderContext) -> (r: FragmentKind)
    requires
        old(ctx).wf(),
        *command == Command::Function(*function),
    ensures
        ctx_kept(*old(ctx), *final(ctx)),
        final(ctx).var_aliases == old(ctx).var_aliases,
        final(ctx).declared_vars == old(ctx).declared_vars,
        final(ctx).functions == old(ctx).functions,
        final(ctx).function_hint_cursors == old(ctx).function_hint_cursors,
        r matches FragmentKind::Function(ff) ==> function_body_rendered(*function, value_of(old(ctx).functions@, function.name@), *old(ctx), ff),
        match value_of(old(ctx).functions@, function.name@) {
            Some(s) => if s.render_mode == FunctionRenderMode::FullFallback {
                *final(ctx) == *old(ctx) && (r matches FragmentKind::Raw(x)
                    && x.value@ == spec_literal_from_command(*command, *old(ctx)))
            } else {
                r matches FragmentKind::Function(f) && f.name@ == s.amber_name@ && match s.typed_signature {
                    None => string_views(f.params@) == untyped_params(function.body@, s.arity) && f.return_type is None,
                    Some(t) => string_views(f.params@) == typed_params_text(t.params@, bindings_from(function.body@, 0, s.arity))
                        && match t.return_contract {
                        TypeCommentReturnContract::Null => f.return_type is None,
                        TypeCommentReturnContract::TypedVariable { type_label, .. } => f.return_type matches Some(rt)
                            && rt@ == type_label@,
                    },
                }
            },
            None => r matches FragmentKind::Function(f) && f.name@ == spec_sanitize_function_name(function.name@)
                && string_views(f.params@) == untyped_params(function.body@, traits_of_commands(function.body@).arity)
                && f.return_type is None,
        },
    decreases *function, 0nat,
{
    proof {
        super::lemma_ctx_kept_refl(*ctx);
    }
    let fname = chars_of(function.name.as_str());
    let sig: Option<FunctionSig> = match ctx.resolve_function(&fname) {
        Some(s) => Some(s.copy()),
        None => None,
    };
    if let Some(s) = &sig {
        if s.render_mode == FunctionRenderMode::FullFallback {
            return FragmentKind::Raw(RawFragment { value: string_of(&command_literal_from_command(command, ctx)) });
        }
    }
    let fun_name: Vec<char> = match &sig {
        Some(s) => chars_of(s.amber_name.as_str()),
        None => sanitize_function_name(&fname),
    };
    let arity: usize = match &sig {
        Some(s) => s.arity,
        None => detect_function_traits(&function.body).arity,
    };
    let bindings = infer_positional_bindings_prefix(&function.body, arity);
    let mut params = build_function_params(arity, &bindings);
    let mut typed_params: Option<Vec<Vec<char>>> = None;
    let mut return_type: Option<Vec<char>> = None;
    let mut return_var_name: Option<Vec<char>> = None;
    let mut return_tail = false;
    let mut typed = false;
    if let Some(s) = &sig {
        if let Some(type_comment) = &s.typed_signature {
            typed = true;
            let mut comment_names: Vec<Vec<char>> = Vec::new();
            let mut rendered_typed: Vec<Vec<char>> = Vec::new();
            let ghost ps = type_comment.params@;
            let ghost bv = binding_views(bindings@);
            assert(views(comment_names@) =~= typed_param_names(ps, bv, 0));
            let mut k: usize = 0;
            while k < type_comment.params.len()
                invariant
                    k <= type_comment.params@.len(),
                    rendered_typed@.len() == k,
                    ps == type_comment.params@,
                    bv == binding_views(bindings@),
                    views(comment_names@) == typed_param_names(ps, bv, k as int),
                    forall|j: int| 0 <= j < k ==> (#[trigger] rendered_typed@[j])@
                        == typed_param_names(ps, bv, j + 1)[j] + ": "@ + ps[j].type_label@,
                decreases type_comment.params@.len() - k,
            {
                let param = &type_comment.params[k];
                let candidate = typed_param_name(&param.name, k, &bindings);
                proof {
                    lemma_typed_param_names_len(ps, bv, k as int);
                }
                let name = push_unique_param_name(&mut comment_names, candidate);
                assert(views(comment_names@) =~= typed_param_names(ps, bv, k + 1));
                let mut text = name;
                push_str(&mut text, ": ");
                push_all(&mut text, &chars_of(param.type_label.as_str()));
                rendered_typed.push(text);
                proof {
                    lemma_typed_param_names_len(ps, bv, k + 1);
                }
                k += 1;
            }
            proof {
                assert forall|j: int| 0 <= j < ps.len() implies views(rendered_typed@)[j] == typed_params_text(ps, bv)[j] by {
                    lemma_typed_param_names_prefix(ps, bv, j, ps.len() as int);
                }
                assert(views(rendered_typed@) =~= typed_params_text(ps, bv));
            }
            params = comment_names;
            typed_params = Some(rendered_typed);
            if let TypeCommentReturnContract::TypedVariable { type_label, variable_name } = &type_comment.return_contract {
                return_type = Some(chars_of(type_label.as_str()));
                return_var_name = Some(chars_of(variable_name.as_str()));
                return_tail = true;
            }
        }
        if !typed && s.returns_value {
            return_tail = true;
        }
    }
    let param_strings = strings_of(&params);
    let mut fn_ctx = ctx.with_child_scope();
    let ghost child = fn_ctx;
    if let Some(v) = &return_var_name {
        fn_ctx.push_return_var(&string_of(v));
    }
    fn_ctx.push_positional_scope_with_names(&param_strings);
    let ghost pushed = fn_ctx;
    let mut b: usize = 0;
    while b < bindings.len()
        invariant
            fn_ctx.wf(),
            b <= bindings@.len(),
            fn_ctx.functions == pushed.functions,
            fn_ctx.function_hints == pushed.function_hints,
            fn_ctx.function_hint_cursors == pushed.function_hint_cursors,
            fn_ctx.positional_scopes == pushed.positional_scopes,
            fn_ctx.return_var_stack == pushed.return_var_stack,
            forall|r: Seq<char>| !(exists|j: int| 0 <= j < b && (#[trigger] bindings@[j]).0@ == r)
                ==> #[trigger] value_of(fn_ctx.var_aliases@, r) == value_of(pushed.var_aliases@, r),
        decreases bindings@.len() - b,
    {
        let index = bindings[b].1;
        let slot = if index > 0 { index - 1 } else { 0 };
        if slot < param_strings.len() {
            fn_ctx.bind_var_alias(&bindings[b].0, &param_strings[slot]);
        }
        proof {
            assert forall|r: Seq<char>| !(exists|j: int| 0 <= j < b + 1 && (#[trigger] bindings@[j]).0@ == r)
                implies #[trigger] value_of(fn_ctx.var_aliases@, r) == value_of(pushed.var_aliases@, r) by {
                assert(bindings@[b as int].0@ != r);
            }
        }
        b += 1;
    }
    let ghost fn_start = fn_ctx;
    let body = render_commands(&function.body, bindings.len(), &mut fn_ctx, return_tail);
    let ghost fn_end = fn_ctx;
    let ghost body_from: int = bindings@.len() as int;
    ctx.move_warnings(&mut fn_ctx);
    proof {
        assert(ctx.warnings@.subrange(0, old(ctx).warnings@.len() as int) =~= old(ctx).warnings@);
    }
    let shown_params = match typed_params {
        Some(t) => strings_of(&t),
        None => param_strings,
    };
    let fb = BlockFragment::new(body, true);
    proof {
        assert(0 <= body_from <= function.body@.len());
        assert(commands_rendered(function.body@.subrange(body_from, function.body@.len() as int), return_tail, fn_start, fn_end, fb.statements@));
    }
    let ff = FunctionFragment {
        name: string_of(&fun_name),
        params: shown_params,
        return_type: match return_type {
            Some(t) => Some(string_of(&t)),
            None => None,
        },
        body: fb,
    };
    proof {
        let rs = value_of(old(ctx).functions@, function.name@);
        let bspec = bindings_from(function.body@, 0, rendered_arity(*function, rs));
        assert(rendered_arity(*function, rs) == arity);
        assert(bspec.len() == bindings@.len()) by {
            assert(binding_views(bindings@).len() == bindings@.len());
        }
        assert(body_returns(rs) == return_tail);
        let rv = return_variable(rs);
        assert(rv == match return_var_name {
            Some(v) => Some(v@),
            None => None::<Seq<char>>,
        });
        assert(string_views(param_strings@) =~= views(params@));
        assert(scope_names(*function, rs, ff) == views(params@));
        assert(string_views(fn_start.positional_scopes@.last()@) == scope_names(*function, rs, ff));
        assert forall|r: Seq<char>| !bound_in(bspec, r) implies #[trigger] value_of(fn_start.var_aliases@, r) == value_of(child.var_aliases@, r) by {
            if exists|j: int| 0 <= j < bindings@.len() && (#[trigger] bindings@[j]).0@ == r {
                let j = choose|j: int| 0 <= j < bindings@.len() && (#[trigger] bindings@[j]).0@ == r;
                assert(binding_views(bindings@)[j] == (bindings@[j].0@, bindings@[j].1));
                assert(bspec[j].0 == r);
            }
        }
        assert(super::context::child_of(*old(ctx), child));
        assert(fn_start.functions == child.functions);
        assert(fn_start.function_hints == child.function_hints);
        assert(fn_start.function_hint_cursors == child.function_hint_cursors);
        assert(fn_start.positional_scopes@.len() == child.positional_scopes@.len() + 1);
        assert(fn_start.positional_scopes@.drop_last() == child.positional_scopes@);
        assert(match rv {
            Some(v) => fn_start.return_var_stack@.len() == child.return_var_stack@.len() + 1
                && fn_start.return_var_stack@.drop_last() == child.return_var_stack@ && fn_start.return_var_stack@.last()@ == v,
            None => fn_start.return_var_stack@ == child.return_var_stack@,
        });
        assert(function_scope(*old(ctx), fn_start, scope_names(*function, rs, ff), rv, bspec));
        assert(function.body@.subrange(bspec.len() as int, function.body@.len() as int) == function.body@.subrange(body_from, function.body@.len() as int));
        assert(commands_rendered(function.body@.subrange(bspec.len() as int, function.body@.len() as int), body_returns(rs), fn_start, fn_end, ff.body.statements@));
        assert(function_body_rendered(*function, rs, *old(ctx), ff)) by {
            reveal(commands_rendered);
        }
    }
    FragmentKind::Function(ff)
}

} // verus!
