//! What a function body assigns, and whether later commands read a variable.
use vstd::prelude::*;

use super::context::{keys_unique, set_key, value_of};
use super::syntax::{classify_assignment_rhs, spec_classify_assignment_rhs, GlobalVarType};
use crate::bash::ast::{CaseClause, Command};
use crate::text::{
    chars_of, contains, eq_lit, is_identifier, push_all, push_str, spec_contains,
    spec_is_identifier, spec_split_once, split_once_lit,
};

verus! {

// ---------------------------------------------------------------------------
// Assignments outside `local`
// ---------------------------------------------------------------------------

/// One more assignment of a value of type `t` to a variable whose types so far are `prior`:
/// the first fixes the type, later ones merge with it (see [`GlobalVarType::spec_merge`]),
/// and a conflict stays a conflict (`Some(None)`).
pub open spec fn note_assignment(prior: Option<Option<GlobalVarType>>, t: GlobalVarType) -> Option<Option<GlobalVarType>> {
    match prior {
        None => Some(t.spec_merge(t)),
        Some(None) => Some(None),
        Some(Some(e)) => Some(e.spec_merge(t)),
    }
}

/// The variable that a simple command assigns and the type of the value, unless it is a
/// `local` declaration.
pub open spec fn simple_assignment(words: Seq<String>) -> Option<(Seq<char>, GlobalVarType)> {
    if words.len() == 0 || words[0]@ == "local"@ {
        None
    } else {
        match spec_split_once(words[0]@, "="@) {
            Some((n, v)) => if spec_is_identifier(n) {
                Some((n, spec_classify_assignment_rhs(v)))
            } else {
                None
            },
            None => None,
        }
    }
}

/// The types assigned to `name` in a command, outside `local` and nested functions, after
/// those of `prior`.
pub open spec fn assigned_in_command(c: Command, name: Seq<char>, prior: Option<Option<GlobalVarType>>) -> Option<Option<GlobalVarType>>
    decreases c,
{
    match c {
        Command::Simple(s) => match simple_assignment(s.words@) {
            Some((n, t)) => if n == name {
                note_assignment(prior, t)
            } else {
                prior
            },
            None => prior,
        },
        Command::If(i) => {
            let after_then = assigned_in_commands(i.then_body@, name, prior);
            match i.else_body {
                Some(b) => assigned_in_commands(b@, name, after_then),
                None => after_then,
            }
        },
        Command::While(w) => assigned_in_commands(w.body@, name, prior),
        Command::For(f) => assigned_in_commands(f.body@, name, prior),
        Command::CStyleFor(f) => assigned_in_commands(f.body@, name, prior),
        Command::Case(cc) => assigned_in_clauses(cc.clauses@, name, prior),
        Command::Group(b) => assigned_in_commands(b@, name, prior),
        _ => prior,
    }
}

pub open spec fn assigned_in_commands(cs: Seq<Command>, name: Seq<char>, prior: Option<Option<GlobalVarType>>) -> Option<Option<GlobalVarType>>
    decreases cs,
{
    if cs.len() == 0 {
        prior
    } else {
        assigned_in_command(cs.last(), name, assigned_in_commands(cs.drop_last(), name, prior))
    }
}

pub open spec fn assigned_in_clauses(cl: Seq<CaseClause>, name: Seq<char>, prior: Option<Option<GlobalVarType>>) -> Option<Option<GlobalVarType>>
    decreases cl,
{
    if cl.len() == 0 {
        prior
    } else {
        assigned_in_commands(cl.last().body@, name, assigned_in_clauses(cl.drop_last(), name, prior))
    }
}

fn collect_from_simple(words: &Vec<String>, out: &mut Vec<(String, Option<GlobalVarType>)>)
    requires
        keys_unique(old(out)@),
    ensures
        keys_unique(final(out)@),
        forall|name: Seq<char>| #[trigger] value_of(final(out)@, name) == match simple_assignment(words@) {
            Some((n, t)) => if n == name {
                note_assignment(value_of(old(out)@, name), t)
            } else {
                value_of(old(out)@, name)
            },
            None => value_of(old(out)@, name),
        },
{
    if words.len() == 0 {
        return;
    }
    let first = chars_of(words[0].as_str());
    if eq_lit(&first, "local") {
        return;
    }
    let (name, value) = match split_once_lit(&first, "=") {
        Some(p) => p,
        None => return,
    };
    if !is_identifier(&name) {
        return;
    }
    let rhs_type = classify_assignment_rhs(&value);
    let updated = match super::context::find_key(out, &name) {
        None => rhs_type.merge(rhs_type),
        Some(i) => match out[i].1 {
            None => None,
            Some(existing) => existing.merge(rhs_type),
        },
    };
    set_key(out, crate::text::string_of(&name), updated);
}

/// Records the types of the values that `commands` assign to variables outside `local` and
/// nested functions, after what `out` holds.
pub fn collect_non_local_assignments(commands: &Vec<Command>, out: &mut Vec<(String, Option<GlobalVarType>)>)
    requires
        keys_unique(old(out)@),
    ensures
        keys_unique(final(out)@),
        forall|name: Seq<char>| #[trigger] value_of(final(out)@, name) == assigned_in_commands(commands@, name, value_of(old(out)@, name)),
    decreases commands@,
{
    let ghost start = out@;
    let mut k: usize = 0;
    while k < commands.len()
        invariant
            k <= commands@.len(),
            keys_unique(out@),
            forall|name: Seq<char>| #[trigger] value_of(out@, name) == assigned_in_commands(commands@.take(k as int), name, value_of(start, name)),
        decreases commands@.len() - k,
    {
        assert(commands@.take(k + 1).drop_last() =~= commands@.take(k as int));
        collect_non_local_assignments_from_command(&commands[k], out);
        k += 1;
    }
    assert(commands@.take(k as int) =~= commands@);
}

fn collect_from_clauses(clauses: &Vec<CaseClause>, out: &mut Vec<(String, Option<GlobalVarType>)>)
    requires
        keys_unique(old(out)@),
    ensures
        keys_unique(final(out)@),
        forall|name: Seq<char>| #[trigger] value_of(final(out)@, name) == assigned_in_clauses(clauses@, name, value_of(old(out)@, name)),
    decreases clauses@,
{
    let ghost start = out@;
    let mut k: usize = 0;
    while k < clauses.len()
        invariant
            k <= clauses@.len(),
            keys_unique(out@),
            forall|name: Seq<char>| #[trigger] value_of(out@, name) == assigned_in_clauses(clauses@.take(k as int), name, value_of(start, name)),
        decreases clauses@.len() - k,
    {
        assert(clauses@.take(k + 1).drop_last() =~= clauses@.take(k as int));
        collect_non_local_assignments(&clauses[k].body, out);
        k += 1;
    }
    assert(clauses@.take(k as int) =~= clauses@);
}

pub fn collect_non_local_assignments_from_command(command: &Command, out: &mut Vec<(String, Option<GlobalVarType>)>)
    requires
        keys_unique(old(out)@),
    ensures
        keys_unique(final(out)@),
        forall|name: Seq<char>| #[trigger] value_of(final(out)@, name) == assigned_in_command(*command, name, value_of(old(out)@, name)),
    decreases *command,
{
    match command {
        Command::Simple(simple) => collect_from_simple(&simple.words, out),
        Command::If(if_cmd) => {
            collect_non_local_assignments(&if_cmd.then_body, out);
            match &if_cmd.else_body {
                Some(b) => collect_non_local_assignments(b, out),
                None => {},
            }
        },
        Command::While(while_cmd) => collect_non_local_assignments(&while_cmd.body, out),
        Command::For(for_cmd) => collect_non_local_assignments(&for_cmd.body, out),
        Command::CStyleFor(for_cmd) => collect_non_local_assignments(&for_cmd.body, out),
        Command::Case(case_cmd) => collect_from_clauses(&case_cmd.clauses, out),
        Command::Group(body) => collect_non_local_assignments(body, out),
        _ => {},
    }
}

// ---------------------------------------------------------------------------
// References
// ---------------------------------------------------------------------------

/// Whether a text holds `$name` or `${name}`.
pub open spec fn mentions(text: Seq<char>, dollar: Seq<char>, braced: Seq<char>) -> bool {
    spec_contains(text, dollar) || spec_contains(text, braced)
}

pub open spec fn words_mention(ws: Seq<String>, dollar: Seq<char>, braced: Seq<char>) -> bool {
    exists|k: int| 0 <= k < ws.len() && mentions(#[trigger] ws[k]@, dollar, braced)
}

/// Whether a command reads the variable through `$name` or `${name}`: in its words,
/// conditions, bodies, loop items, case subject and arithmetic.
pub open spec fn references_in_command(c: Command, dollar: Seq<char>, braced: Seq<char>) -> bool
    decreases c,
{
    match c {
        Command::Simple(s) => words_mention(s.words@, dollar, braced),
        Command::If(i) => references_in_command(*i.condition, dollar, braced) || references_in_commands(i.then_body@, dollar, braced)
            || match i.else_body {
            Some(b) => references_in_commands(b@, dollar, braced),
            None => false,
        },
        Command::While(w) => references_in_command(*w.condition, dollar, braced) || references_in_commands(w.body@, dollar, braced),
        Command::For(f) => words_mention(f.items@, dollar, braced) || references_in_commands(f.body@, dollar, braced),
        Command::CStyleFor(f) => references_in_commands(f.body@, dollar, braced),
        Command::Case(cc) => mentions(cc.word@, dollar, braced) || references_in_clauses(cc.clauses@, dollar, braced),
        Command::Group(b) => references_in_commands(b@, dollar, braced),
        Command::Function(f) => references_in_commands(f.body@, dollar, braced),
        Command::Background(inner) => references_in_command(*inner, dollar, braced),
        Command::Connection(conn) => references_in_command(*conn.left, dollar, braced) || references_in_command(*conn.right, dollar, braced),
        Command::Arithmetic(a) => mentions(a.expression@, dollar, braced),
    }
}

pub open spec fn references_in_commands(cs: Seq<Command>, dollar: Seq<char>, braced: Seq<char>) -> bool
    decreases cs,
{
    if cs.len() == 0 {
        false
    } else {
        references_in_commands(cs.drop_last(), dollar, braced) || references_in_command(cs.last(), dollar, braced)
    }
}

pub open spec fn references_in_clauses(cl: Seq<CaseClause>, dollar: Seq<char>, braced: Seq<char>) -> bool
    decreases cl,
{
    if cl.len() == 0 {
        false
    } else {
        references_in_clauses(cl.drop_last(), dollar, braced) || references_in_commands(cl.last().body@, dollar, braced)
    }
}

fn text_mentions(text: &String, dollar: &Vec<char>, braced: &Vec<char>) -> (r: bool)
    ensures
        r == mentions(text@, dollar@, braced@),
{
    let t = chars_of(text.as_str());
    contains(&t, dollar) || contains(&t, braced)
}

fn any_word_mentions(ws: &Vec<String>, dollar: &Vec<char>, braced: &Vec<char>) -> (r: bool)
    ensures
        r == words_mention(ws@, dollar@, braced@),
{
    let mut k: usize = 0;
    while k < ws.len()
        invariant
            k <= ws@.len(),
            forall|j: int| 0 <= j < k ==> !mentions(#[trigger] ws@[j]@, dollar@, braced@),
        decreases ws@.len() - k,
    {
        if text_mentions(&ws[k], dollar, braced) {
            return true;
        }
        k += 1;
    }
    false
}

fn reference_in_commands(commands: &Vec<Command>, dollar: &Vec<char>, braced: &Vec<char>) -> (r: bool)
    ensures
        r == references_in_commands(commands@, dollar@, braced@),
    decreases commands@,
{
    let mut k: usize = 0;
    while k < commands.len()
        invariant
            k <= commands@.len(),
            !references_in_commands(commands@.take(k as int), dollar@, braced@),
        decreases commands@.len() - k,
    {
        assert(commands@.take(k + 1).drop_last() =~= commands@.take(k as int));
        if command_references_variable(&commands[k], dollar, braced) {
            proof {
                lemma_references_prefix(commands@, k + 1, dollar@, braced@);
            }
            return true;
        }
        k += 1;
    }
    assert(commands@.take(k as int) =~= commands@);
    false
}

proof fn lemma_references_prefix(cs: Seq<Command>, k: int, dollar: Seq<char>, braced: Seq<char>)
    requires
        0 <= k <= cs.len(),
        references_in_commands(cs.take(k), dollar, braced),
    ensures
        references_in_commands(cs, dollar, braced),
    decreases cs.len() - k,
{
    if k < cs.len() {
        assert(cs.take(k + 1).drop_last() =~= cs.take(k));
        lemma_references_prefix(cs, k + 1, dollar, braced);
    } else {
        assert(cs.take(k) =~= cs);
    }
}

proof fn lemma_clause_references_prefix(cl: Seq<CaseClause>, k: int, dollar: Seq<char>, braced: Seq<char>)
    requires
        0 <= k <= cl.len(),
        references_in_clauses(cl.take(k), dollar, braced),
    ensures
        references_in_clauses(cl, dollar, braced),
    decreases cl.len() - k,
{
    if k < cl.len() {
        assert(cl.take(k + 1).drop_last() =~= cl.take(k));
        lemma_clause_references_prefix(cl, k + 1, dollar, braced);
    } else {
        assert(cl.take(k) =~= cl);
    }
}

fn reference_in_clauses(clauses: &Vec<CaseClause>, dollar: &Vec<char>, braced: &Vec<char>) -> (r: bool)
    ensures
        r == references_in_clauses(clauses@, dollar@, braced@),
    decreases clauses@,
{
    let mut k: usize = 0;
    while k < clauses.len()
        invariant
            k <= clauses@.len(),
            !references_in_clauses(clauses@.take(k as int), dollar@, braced@),
        decreases clauses@.len() - k,
    {
        assert(clauses@.take(k + 1).drop_last() =~= clauses@.take(k as int));
        if reference_in_commands(&clauses[k].body, dollar, braced) {
            proof {
                lemma_clause_references_prefix(clauses@, k + 1, dollar@, braced@);
            }
            return true;
        }
        k += 1;
    }
    assert(clauses@.take(k as int) =~= clauses@);
    false
}

fn command_references_variable(command: &Command, dollar: &Vec<char>, braced: &Vec<char>) -> (r: bool)
    ensures
        r == references_in_command(*command, dollar@, braced@),
    decreases *command,
{
    match command {
        Command::Simple(simple) => any_word_mentions(&simple.words, dollar, braced),
        Command::If(if_cmd) => {
            command_references_variable(&if_cmd.condition, dollar, braced) || reference_in_commands(&if_cmd.then_body, dollar, braced)
                || match &if_cmd.else_body {
                Some(b) => reference_in_commands(b, dollar, braced),
                None => false,
            }
        },
        Command::While(while_cmd) => command_references_variable(&while_cmd.condition, dollar, braced)
            || reference_in_commands(&while_cmd.body, dollar, braced),
        Command::For(for_cmd) => any_word_mentions(&for_cmd.items, dollar, braced) || reference_in_commands(&for_cmd.body, dollar, braced),
        Command::CStyleFor(for_cmd) => reference_in_commands(&for_cmd.body, dollar, braced),
        Command::Case(case_cmd) => text_mentions(&case_cmd.word, dollar, braced) || reference_in_clauses(&case_cmd.clauses, dollar, braced),
        Command::Group(body) => reference_in_commands(body, dollar, braced),
        Command::Function(function) => reference_in_commands(&function.body, dollar, braced),
        Command::Background(inner) => command_references_variable(inner, dollar, braced),
        Command::Connection(connection) => command_references_variable(&connection.left, dollar, braced)
            || command_references_variable(&connection.right, dollar, braced),
        Command::Arithmetic(arith) => text_mentions(&arith.expression, dollar, braced),
    }
}

/// Whether any of the commands from index `from` on reads `var_name` as `$var_name` or
/// `${var_name}`.
pub fn commands_reference_variable(commands: &Vec<Command>, from: usize, var_name: &[char]) -> (r: bool)
    requires
        from <= commands@.len(),
    ensures
        r == references_in_commands(commands@.subrange(from as int, commands@.len() as int), "$"@ + var_name@, "${"@ + var_name@ + "}"@),
{
    let mut dollar = chars_of("$");
    push_all(&mut dollar, var_name);
    let mut braced = chars_of("${");
    push_all(&mut braced, var_name);
    push_str(&mut braced, "}");
    let ghost rest = commands@.subrange(from as int, commands@.len() as int);
    let mut k = from;
    while k < commands.len()
        invariant
            from <= k <= commands@.len(),
            rest == commands@.subrange(from as int, commands@.len() as int),
            dollar@ == "$"@ + var_name@,
            braced@ == "${"@ + var_name@ + "}"@,
            !references_in_commands(rest.take(k - from), dollar@, braced@),
        decreases commands@.len() - k,
    {
        assert(rest.take(k - from + 1).drop_last() =~= rest.take(k - from));
        assert(rest.take(k - from + 1).last() == commands@[k as int]);
        if command_references_variable(&commands[k], &dollar, &braced) {
            proof {
                lemma_references_prefix(rest, k - from + 1, dollar@, braced@);
            }
            return true;
        }
        k += 1;
    }
    assert(rest.take(k - from) =~= rest);
    false
}

} // verus!
