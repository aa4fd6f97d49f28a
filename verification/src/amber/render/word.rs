//! Bash words, tests and conditions as Amber expressions.
use vstd::prelude::*;

use super::arithmetic::{
    parse_arithmetic_expansion, render_arithmetic_condition_expr,
    spec_arith_condition, spec_arith_expansion,
};
use super::context::{
    pos_of, same_but_vars, value_of, var_of, FunctionRenderMode, FunctionSig, RenderContext,
};
use super::substitution::{
    parse_and_or_command_substitution_expression,
    parse_function_call_command_substitution_expression,
    parse_generic_command_substitution_expression, parse_if_command_substitution_expression,
    substitution_inner,
};
use super::syntax::{
    is_double_quoted, is_single_quoted, spec_is_double_quoted, spec_is_single_quoted,
    spec_strip_outer_double_quotes, strip_outer_double_quotes,
};
use super::fallback::spec_literal_from_shell;
use crate::bash::ast::{Command, Connector, SimpleCommand};
use crate::bash::parser::fails_to_parse;
use crate::text::{
    lemma_views_push, chars_of, digits_end, digits_end_exec, ends_with_lit, eq_lit, find_char_exec, find_char_from,
    is_ascii_digit, is_identifier, is_number, is_whitespace, is_word_start, join, join_lit,
    parse_usize, push_all, push_str, slice_vec, spec_ends_with, spec_is_ascii_digit,
    spec_is_identifier, spec_is_number, spec_is_whitespace, spec_is_word_start, spec_parse_usize,
    spec_split_once, spec_starts_with, spec_strip_prefix, spec_strip_suffix, spec_trim,
    spec_trim_start, split_once_lit, starts_with_lit, trim_start,
    strip_prefix_lit, strip_suffix_lit, to_vec, trim, views, word_end, word_end_exec,
};

verus! {

// ---------------------------------------------------------------------------
// Escaping and interpolation
// ---------------------------------------------------------------------------

/// How a character of plain text is written inside an Amber string.
pub open spec fn escape_char(c: char) -> Seq<char> {
    if c == '\\' {
        seq!['\\', '\\']
    } else if c == '"' {
        seq!['\\', '"']
    } else if c == '{' || c == '}' {
        seq!['\\', c]
    } else {
        seq![c]
    }
}

/// Plain text as the inside of an Amber string: backslash, quote and braces escaped.
pub open spec fn spec_escape_plain_text(s: Seq<char>) -> Seq<char>
    decreases s.len(),
{
    if s.len() == 0 {
        seq![]
    } else {
        spec_escape_plain_text(s.drop_last()) + escape_char(s.last())
    }
}

fn push_escaped(out: &mut Vec<char>, c: char)
    ensures
        final(out)@ == old(out)@ + escape_char(c),
{
    if c == '\\' {
        out.push('\\');
        out.push('\\');
    } else if c == '"' {
        out.push('\\');
        out.push('"');
    } else if c == '{' || c == '}' {
        out.push('\\');
        out.push(c);
    } else {
        out.push(c);
    }
}

pub fn escape_plain_text(text: &[char]) -> (r: Vec<char>)
    ensures
        r@ == spec_escape_plain_text(text@),
{
    let mut out: Vec<char> = Vec::new();
    let mut i: usize = 0;
    while i < text.len()
        invariant
            i <= text@.len(),
            out@ == spec_escape_plain_text(text@.take(i as int)),
        decreases text@.len() - i,
    {
        assert(text@.take(i + 1).drop_last() =~= text@.take(i as int));
        push_escaped(&mut out, text[i]);
        i += 1;
    }
    assert(text@.take(text@.len() as int) =~= text@);
    out
}

proof fn lemma_escape_plain_text_concat(a: Seq<char>, b: Seq<char>)
    ensures
        spec_escape_plain_text(a + b) == spec_escape_plain_text(a) + spec_escape_plain_text(b),
    decreases b.len(),
{
    if b.len() == 0 {
        assert(a + b =~= a);
    } else {
        lemma_escape_plain_text_concat(a, b.drop_last());
        assert((a + b).drop_last() =~= a + b.drop_last());
    }
}

/// Escaping plain text for an Amber string loses nothing: dropping each escaping backslash
/// gives the text back.
pub proof fn lemma_escape_plain_text_reversible(s: Seq<char>)
    ensures
        crate::text::spec_unescape(spec_escape_plain_text(s)) == s,
    decreases s.len(),
{
    if s.len() > 0 {
        let c = s[0];
        let rest = s.drop_first();
        assert(s =~= seq![c] + rest);
        lemma_escape_plain_text_concat(seq![c], rest);
        assert(spec_escape_plain_text(seq![c]) == escape_char(c)) by {
            assert(seq![c].drop_last() =~= Seq::<char>::empty());
            assert(spec_escape_plain_text(Seq::<char>::empty()) == Seq::<char>::empty());
            assert(Seq::<char>::empty() + escape_char(c) =~= escape_char(c));
        }
        lemma_escape_plain_text_reversible(rest);
        crate::text::lemma_unescape_step(c, escape_char(c), spec_escape_plain_text(rest));
    }
}

/// `'text'` as an Amber string.
pub open spec fn spec_render_single_quoted(word: Seq<char>) -> Seq<char> {
    "\""@ + spec_escape_plain_text(word.subrange(1, word.len() - 1)) + "\""@
}

pub fn render_single_quoted(word: &[char]) -> (r: Vec<char>)
    requires
        word@.len() >= 2,
    ensures
        r@ == spec_render_single_quoted(word@),
{
    let inner = slice_vec(word, 1, word.len() - 1);
    let mut out = chars_of("\"");
    push_all(&mut out, &escape_plain_text(&inner));
    push_str(&mut out, "\"");
    out
}

/// The variable that `$` at `i` names, when it is declared, and the index after the name:
/// `${name}` or `${k}`, `$name`, or `$k`.
pub open spec fn interp_subst(s: Seq<char>, i: int, ctx: RenderContext) -> Option<(Seq<char>, int)> {
    if i + 1 < s.len() && s[i + 1] == '{' {
        let j = find_char_from(s, i + 2, '}');
        if i + 2 <= j < s.len() {
            let name = s.subrange(i + 2, j);
            let r = match spec_parse_usize(name) {
                Some(index) => pos_of(ctx, index),
                None => var_of(ctx, name),
            };
            match r {
                Some(a) => Some((a, j + 1)),
                None => None,
            }
        } else {
            None
        }
    } else if i + 1 < s.len() && spec_is_word_start(s[i + 1]) {
        let j = word_end(s, i + 2);
        if i + 2 <= j <= s.len() {
            match var_of(ctx, s.subrange(i + 1, j)) {
                Some(a) => Some((a, j)),
                None => None,
            }
        } else {
            None
        }
    } else if i + 1 < s.len() && spec_is_ascii_digit(s[i + 1]) {
        let j = digits_end(s, i + 2);
        if i + 2 <= j <= s.len() {
            match spec_parse_usize(s.subrange(i + 1, j)) {
                Some(index) => match pos_of(ctx, index) {
                    Some(a) => Some((a, j)),
                    None => None,
                },
                None => None,
            }
        } else {
            None
        }
    } else {
        None
    }
}

/// Text with Bash variables as Amber interpolations `{name}` and everything else escaped.
pub open spec fn interp_from(s: Seq<char>, i: int, ctx: RenderContext) -> Seq<char>
    decreases s.len() - i,
{
    if i < 0 || i >= s.len() {
        seq![]
    } else if s[i] == '$' && interp_subst(s, i, ctx) is Some && interp_subst(s, i, ctx).unwrap().1 > i {
        let (alias, next) = interp_subst(s, i, ctx).unwrap();
        "{"@ + alias + "}"@ + interp_from(s, next, ctx)
    } else {
        escape_char(s[i]) + interp_from(s, i + 1, ctx)
    }
}

pub open spec fn spec_interpolated(s: Seq<char>, ctx: RenderContext) -> Seq<char> {
    interp_from(s, 0, ctx)
}

fn interp_subst_exec(s: &[char], i: usize, ctx: &RenderContext) -> (r: Option<(Vec<char>, usize)>)
    requires
        ctx.wf(),
        i < s@.len(),
    ensures
        match r {
            Some((a, next)) => interp_subst(s@, i as int, *ctx) == Some((a@, next as int)) && i < next <= s@.len(),
            None => interp_subst(s@, i as int, *ctx) is None,
        },
{
    let n = s.len();
    if i + 1 < n && s[i + 1] == '{' {
        let j = find_char_exec(s, i + 2, '}');
        if j < s.len() {
            let name = slice_vec(s, i + 2, j);
            let r = match parse_usize(&name) {
                Some(index) => ctx.pos_chars(index),
                None => ctx.var_chars(&name),
            };
            return match r {
                Some(a) => Some((a, j + 1)),
                None => None,
            };
        }
        return None;
    }
    if i + 1 < s.len() && is_word_start(s[i + 1]) {
        let j = word_end_exec(s, i + 2);
        let name = slice_vec(s, i + 1, j);
        return match ctx.var_chars(&name) {
            Some(a) => Some((a, j)),
            None => None,
        };
    }
    if i + 1 < s.len() && is_ascii_digit(s[i + 1]) {
        let j = digits_end_exec(s, i + 2);
        let digits = slice_vec(s, i + 1, j);
        return match parse_usize(&digits) {
            Some(index) => match ctx.pos_chars(index) {
                Some(a) => Some((a, j)),
                None => None,
            },
            None => None,
        };
    }
    None
}

/// Text as the inside of an Amber string, with declared variables interpolated.
pub fn render_interpolated_text(text: &[char], ctx: &RenderContext) -> (r: Vec<char>)
    requires
        ctx.wf(),
    ensures
        r@ == spec_interpolated(text@, *ctx),
{
    let mut out: Vec<char> = Vec::new();
    let mut i: usize = 0;
    while i < text.len()
        invariant
            ctx.wf(),
            i <= text@.len(),
            out@ + interp_from(text@, i as int, *ctx) == interp_from(text@, 0, *ctx),
        decreases text@.len() - i,
    {
        let ghost o = out@;
        if text[i] == '$' {
            if let Some((alias, next)) = interp_subst_exec(text, i, ctx) {
                out.push('{');
                push_all(&mut out, &alias);
                out.push('}');
                assert(out@ + interp_from(text@, next as int, *ctx) =~= o + ("{"@ + alias@ + "}"@ + interp_from(text@, next as int, *ctx))) by {
                    reveal_strlit("{");
                    reveal_strlit("}");
                }
                i = next;
                continue;
            }
        }
        push_escaped(&mut out, text[i]);
        assert(out@ + interp_from(text@, i + 1, *ctx) =~= o + (escape_char(text@[i as int]) + interp_from(text@, i + 1, *ctx)));
        i += 1;
    }
    assert(out@ + interp_from(text@, i as int, *ctx) =~= out@);
    out
}

/// `"text"` as an Amber string.
pub open spec fn spec_render_double_quoted(word: Seq<char>, ctx: RenderContext) -> Seq<char> {
    "\""@ + spec_interpolated(word.subrange(1, word.len() - 1), ctx) + "\""@
}

pub fn render_double_quoted(word: &[char], ctx: &RenderContext) -> (r: Vec<char>)
    requires
        ctx.wf(),
        word@.len() >= 2,
    ensures
        r@ == spec_render_double_quoted(word@, *ctx),
{
    let inner = slice_vec(word, 1, word.len() - 1);
    let mut out = chars_of("\"");
    push_all(&mut out, &render_interpolated_text(&inner, ctx));
    push_str(&mut out, "\"");
    out
}

// ---------------------------------------------------------------------------
// Variable references
// ---------------------------------------------------------------------------

/// The Amber name of a word that is exactly one variable reference (`$name`, `${name}`,
/// `$k`, `${k}`, possibly in double quotes), when that variable is declared.
pub open spec fn spec_var_ref(word: Seq<char>, ctx: RenderContext) -> Option<Seq<char>> {
    let raw = spec_strip_outer_double_quotes(word);
    if spec_strip_prefix(raw, "${"@) is Some && spec_strip_suffix(spec_strip_prefix(raw, "${"@).unwrap(), "}"@) is Some {
        let inner = spec_strip_suffix(spec_strip_prefix(raw, "${"@).unwrap(), "}"@).unwrap();
        match spec_parse_usize(inner) {
            Some(index) => if index > 0 {
                pos_of(ctx, index)
            } else {
                None
            },
            None => if spec_is_identifier(inner) {
                var_of(ctx, inner)
            } else {
                None
            },
        }
    } else if spec_strip_prefix(raw, "$"@) is Some {
        let inner = spec_strip_prefix(raw, "$"@).unwrap();
        if spec_is_identifier(inner) {
            var_of(ctx, inner)
        } else {
            match spec_parse_usize(inner) {
                Some(index) => if index > 0 {
                    pos_of(ctx, index)
                } else {
                    None
                },
                None => None,
            }
        }
    } else {
        None
    }
}

pub fn parse_variable_reference(word: &[char], ctx: &RenderContext) -> (r: Option<Vec<char>>)
    requires
        ctx.wf(),
    ensures
        match r {
            Some(v) => spec_var_ref(word@, *ctx) == Some(v@),
            None => spec_var_ref(word@, *ctx) is None,
        },
{
    let raw = strip_outer_double_quotes(word);
    if let Some(a) = strip_prefix_lit(&raw, "${") {
        if let Some(inner) = strip_suffix_lit(&a, "}") {
            return match parse_usize(&inner) {
                Some(index) => if index > 0 {
                    ctx.pos_chars(index)
                } else {
                    None
                },
                None => if is_identifier(&inner) {
                    ctx.var_chars(&inner)
                } else {
                    None
                },
            };
        }
    }
    if let Some(inner) = strip_prefix_lit(&raw, "$") {
        if is_identifier(&inner) {
            return ctx.var_chars(&inner);
        }
        return match parse_usize(&inner) {
            Some(index) => if index > 0 {
                ctx.pos_chars(index)
            } else {
                None
            },
            None => None,
        };
    }
    None
}

/// The index of the `))` that closes `$((` when scanning from `j` at nesting `depth`
/// (`((` opens, `))` closes).
pub open spec fn arith_close(s: Seq<char>, j: int, depth: nat) -> Option<int>
    decreases s.len() - j,
{
    if j < 0 || j + 1 >= s.len() {
        None
    } else if s[j] == '(' && s[j + 1] == '(' {
        arith_close(s, j + 2, depth + 1)
    } else if s[j] == ')' && s[j + 1] == ')' {
        if depth <= 1 {
            Some(j)
        } else {
            arith_close(s, j + 2, (depth - 1) as nat)
        }
    } else {
        arith_close(s, j + 1, depth)
    }
}

/// Whether the text from `i` holds a `$` expansion that cannot be written in Amber: a
/// variable that is not declared, a positional parameter without a name, a `$((` without
/// its `))` (or with such an expansion inside), or any other `$` form.
pub open spec fn unresolved_from(s: Seq<char>, i: int, ctx: RenderContext) -> bool
    decreases s.len(), s.len() - i,
{
    if i < 0 || i >= s.len() {
        false
    } else if s[i] != '$' {
        unresolved_from(s, i + 1, ctx)
    } else if i + 1 >= s.len() {
        true
    } else if i + 2 < s.len() && s[i + 1] == '(' && s[i + 2] == '(' {
        match arith_close(s, i + 3, 1) {
            None => true,
            Some(j) => if j < i + 3 || j + 2 > s.len() {
                true
            } else {
                unresolved_from(s.subrange(i + 3, j), 0, ctx) || unresolved_from(s, j + 2, ctx)
            },
        }
    } else if s[i + 1] == '{' {
        let j = find_char_from(s, i + 2, '}');
        if j >= s.len() || j < i + 2 {
            true
        } else {
            let name = s.subrange(i + 2, j);
            let resolved = match spec_parse_usize(name) {
                Some(index) => index > 0 && pos_of(ctx, index) is Some,
                None => spec_is_identifier(name) && var_of(ctx, name) is Some,
            };
            if !resolved {
                true
            } else {
                unresolved_from(s, j + 1, ctx)
            }
        }
    } else if spec_is_word_start(s[i + 1]) {
        let j = word_end(s, i + 2);
        if j < i + 2 || j > s.len() || var_of(ctx, s.subrange(i + 1, j)) is None {
            true
        } else {
            unresolved_from(s, j, ctx)
        }
    } else if spec_is_ascii_digit(s[i + 1]) {
        let j = digits_end(s, i + 2);
        if j < i + 2 || j > s.len() {
            true
        } else {
            match spec_parse_usize(s.subrange(i + 1, j)) {
                None => true,
                Some(index) => if index == 0 || pos_of(ctx, index) is None {
                    true
                } else {
                    unresolved_from(s, j, ctx)
                },
            }
        }
    } else {
        true
    }
}

/// A text that resolves in `c1` resolves in any `c2` that binds at least the variables and
/// positional parameters of `c1`: more declarations never leave an expansion unresolved.
pub proof fn lemma_resolved_stays_resolved(s: Seq<char>, i: int, c1: RenderContext, c2: RenderContext)
    requires
        forall|n: Seq<char>| var_of(c1, n) is Some ==> #[trigger] var_of(c2, n) is Some,
        forall|k: usize| pos_of(c1, k) is Some ==> #[trigger] pos_of(c2, k) is Some,
        !unresolved_from(s, i, c1),
    ensures
        !unresolved_from(s, i, c2),
    decreases s.len(), s.len() - i,
{
    if i < 0 || i >= s.len() {
    } else if s[i] != '$' {
        lemma_resolved_stays_resolved(s, i + 1, c1, c2);
    } else if i + 1 >= s.len() {
    } else if i + 2 < s.len() && s[i + 1] == '(' && s[i + 2] == '(' {
        if let Some(j) = arith_close(s, i + 3, 1) {
            if !(j < i + 3 || j + 2 > s.len()) {
                lemma_resolved_stays_resolved(s.subrange(i + 3, j), 0, c1, c2);
                lemma_resolved_stays_resolved(s, j + 2, c1, c2);
            }
        }
    } else if s[i + 1] == '{' {
        let j = find_char_from(s, i + 2, '}');
        if !(j >= s.len() || j < i + 2) {
            let name = s.subrange(i + 2, j);
            if let Some(index) = spec_parse_usize(name) {
                assert(pos_of(c2, index) is Some);
            } else {
                assert(var_of(c2, name) is Some);
            }
            lemma_resolved_stays_resolved(s, j + 1, c1, c2);
        }
    } else if spec_is_word_start(s[i + 1]) {
        let j = word_end(s, i + 2);
        if !(j < i + 2 || j > s.len()) {
            assert(var_of(c2, s.subrange(i + 1, j)) is Some);
            lemma_resolved_stays_resolved(s, j, c1, c2);
        }
    } else if spec_is_ascii_digit(s[i + 1]) {
        let j = digits_end(s, i + 2);
        if !(j < i + 2 || j > s.len()) {
            if let Some(index) = spec_parse_usize(s.subrange(i + 1, j)) {
                assert(pos_of(c2, index) is Some);
                lemma_resolved_stays_resolved(s, j, c1, c2);
            }
        }
    }
}

fn arith_close_exec(s: &[char], start: usize) -> (r: Option<usize>)
    requires
        start <= s@.len(),
    ensures
        match r {
            Some(j) => arith_close(s@, start as int, 1) == Some(j as int) && start <= j && j + 2 <= s@.len(),
            None => arith_close(s@, start as int, 1) is None,
        },
{
    let mut depth: usize = 1;
    let mut j = start;
    while j < s.len() && j + 1 < s.len()
        invariant
            start <= j <= s@.len(),
            1 <= depth <= j - start + 1,
            arith_close(s@, start as int, 1) == arith_close(s@, j as int, depth as nat),
        decreases s@.len() - j,
    {
        if s[j] == '(' && s[j + 1] == '(' {
            depth += 1;
            j += 2;
        } else if s[j] == ')' && s[j + 1] == ')' {
            if depth <= 1 {
                return Some(j);
            }
            depth -= 1;
            j += 2;
        } else {
            j += 1;
        }
    }
    None
}

/// Whether `text` holds a `$` expansion that cannot be written in Amber (see
/// [`unresolved_from`]).
pub fn contains_unresolved_shell_expansion(text: &[char], ctx: &RenderContext) -> (r: bool)
    requires
        ctx.wf(),
    ensures
        r == unresolved_from(text@, 0, *ctx),
    decreases text@.len(),
{
    let s = text;
    let mut i: usize = 0;
    while i < s.len()
        invariant
            ctx.wf(),
            s == text,
            i <= s@.len(),
            unresolved_from(s@, 0, *ctx) == unresolved_from(s@, i as int, *ctx),
        decreases s@.len() - i,
    {
        if s[i] != '$' {
            i += 1;
            continue;
        }
        if i + 1 >= s.len() {
            return true;
        }
        if i + 2 < s.len() && s[i + 1] == '(' && s[i + 2] == '(' {
            let j = match arith_close_exec(s, i + 3) {
                Some(j) => j,
                None => return true,
            };
            let inner = slice_vec(s, i + 3, j);
            if contains_unresolved_shell_expansion(&inner, ctx) {
                return true;
            }
            i = j + 2;
            continue;
        }
        if s[i + 1] == '{' {
            let j = find_char_exec(s, i + 2, '}');
            if j >= s.len() {
                return true;
            }
            let name = slice_vec(s, i + 2, j);
            let resolved = match parse_usize(&name) {
                Some(index) => index > 0 && ctx.pos_chars(index).is_some(),
                None => is_identifier(&name) && ctx.var_chars(&name).is_some(),
            };
            if !resolved {
                return true;
            }
            i = j + 1;
            continue;
        }
        if is_word_start(s[i + 1]) {
            let j = word_end_exec(s, i + 2);
            let name = slice_vec(s, i + 1, j);
            if ctx.var_chars(&name).is_none() {
                return true;
            }
            i = j;
            continue;
        }
        if is_ascii_digit(s[i + 1]) {
            let j = digits_end_exec(s, i + 2);
            let digits = slice_vec(s, i + 1, j);
            match parse_usize(&digits) {
                None => return true,
                Some(index) => {
                    if index == 0 || ctx.pos_chars(index).is_none() {
                        return true;
                    }
                },
            }
            i = j;
            continue;
        }
        return true;
    }
    false
}

pub open spec fn spec_has_unresolved(word: Seq<char>, ctx: RenderContext) -> bool {
    unresolved_from(spec_strip_outer_double_quotes(word), 0, ctx)
}

/// Whether the word (inside its double quotes, if any) holds an expansion that cannot be
/// written in Amber.
pub fn has_unresolved_shell_var(word: &[char], ctx: &RenderContext) -> (r: bool)
    requires
        ctx.wf(),
    ensures
        r == spec_has_unresolved(word@, *ctx),
{
    let raw = strip_outer_double_quotes(word);
    contains_unresolved_shell_expansion(&raw, ctx)
}

// ---------------------------------------------------------------------------
// Words as expressions
// ---------------------------------------------------------------------------

/// The Amber expression for a Bash word: a declared variable, an arithmetic expansion, a
/// quoted string, a number, or else the word as an interpolated string; `None` when it
/// holds an expansion that cannot be written in Amber.
pub open spec fn spec_word_to_expr(word: Seq<char>, ctx: RenderContext) -> Option<Seq<char>> {
    if spec_var_ref(word, ctx) is Some {
        spec_var_ref(word, ctx)
    } else if spec_arith_expansion(word, ctx) is Some {
        spec_arith_expansion(word, ctx)
    } else if spec_has_unresolved(word, ctx) {
        None
    } else if spec_is_double_quoted(word) {
        Some(spec_render_double_quoted(word, ctx))
    } else if spec_is_single_quoted(word) {
        Some(spec_render_single_quoted(word))
    } else if spec_is_number(word) {
        Some(word)
    } else {
        Some("\""@ + spec_interpolated(word, ctx) + "\""@)
    }
}

pub fn word_to_expr(word: &[char], ctx: &RenderContext) -> (r: Option<Vec<char>>)
    requires
        ctx.wf(),
    ensures
        match r {
            Some(v) => spec_word_to_expr(word@, *ctx) == Some(v@),
            None => spec_word_to_expr(word@, *ctx) is None,
        },
{
    if let Some(v) = parse_variable_reference(word, ctx) {
        return Some(v);
    }
    if let Some(e) = parse_arithmetic_expansion(word, ctx) {
        return Some(e);
    }
    if has_unresolved_shell_var(word, ctx) {
        return None;
    }
    if is_double_quoted(word) {
        return Some(render_double_quoted(word, ctx));
    }
    if is_single_quoted(word) {
        return Some(render_single_quoted(word));
    }
    if is_number(word) {
        return Some(to_vec(word));
    }
    let mut out = chars_of("\"");
    push_all(&mut out, &render_interpolated_text(word, ctx));
    push_str(&mut out, "\"");
    Some(out)
}

/// [`word_to_expr`] on a string.
pub fn string_to_expr(word: &String, ctx: &RenderContext) -> (r: Option<Vec<char>>)
    requires
        ctx.wf(),
    ensures
        match r {
            Some(v) => spec_word_to_expr(word@, *ctx) == Some(v@),
            None => spec_word_to_expr(word@, *ctx) is None,
        },
{
    word_to_expr(&chars_of(word.as_str()), ctx)
}

// ---------------------------------------------------------------------------
// Tests and conditions
// ---------------------------------------------------------------------------

/// The Amber comparison for a `test` operator.
pub open spec fn spec_test_operator(op: Seq<char>) -> Option<Seq<char>> {
    if op == "="@ || op == "=="@ || op == "-eq"@ {
        Some("=="@)
    } else if op == "!="@ || op == "-ne"@ {
        Some("!="@)
    } else if op == "-gt"@ {
        Some(">"@)
    } else if op == "-lt"@ {
        Some("<"@)
    } else if op == "-ge"@ {
        Some(">="@)
    } else if op == "-le"@ {
        Some("<="@)
    } else {
        None
    }
}

fn test_operator(op: &String) -> (r: Option<Vec<char>>)
    ensures
        match r {
            Some(v) => spec_test_operator(op@) == Some(v@),
            None => spec_test_operator(op@) is None,
        },
{
    let o = chars_of(op.as_str());
    if eq_lit(&o, "=") || eq_lit(&o, "==") || eq_lit(&o, "-eq") {
        Some(chars_of("=="))
    } else if eq_lit(&o, "!=") || eq_lit(&o, "-ne") {
        Some(chars_of("!="))
    } else if eq_lit(&o, "-gt") {
        Some(chars_of(">"))
    } else if eq_lit(&o, "-lt") {
        Some(chars_of("<"))
    } else if eq_lit(&o, "-ge") {
        Some(chars_of(">="))
    } else if eq_lit(&o, "-le") {
        Some(chars_of("<="))
    } else {
        None
    }
}

/// What a numeric `test` operator asks of two integers in Bash: `-eq`, `-ne`, `-gt`, `-lt`,
/// `-ge`, `-le`; `None` for any other word.
pub open spec fn bash_numeric_test(op: Seq<char>, x: int, y: int) -> Option<bool> {
    if op == "-eq"@ {
        Some(x == y)
    } else if op == "-ne"@ {
        Some(x != y)
    } else if op == "-gt"@ {
        Some(x > y)
    } else if op == "-lt"@ {
        Some(x < y)
    } else if op == "-ge"@ {
        Some(x >= y)
    } else if op == "-le"@ {
        Some(x <= y)
    } else {
        None
    }
}

/// What an Amber comparison operator asks of two numbers: `==`, `!=`, `>`, `<`, `>=`, `<=`;
/// `None` for any other text.
pub open spec fn amber_comparison(op: Seq<char>, x: int, y: int) -> Option<bool> {
    if op == "=="@ {
        Some(x == y)
    } else if op == "!="@ {
        Some(x != y)
    } else if op == ">"@ {
        Some(x > y)
    } else if op == "<"@ {
        Some(x < y)
    } else if op == ">="@ {
        Some(x >= y)
    } else if op == "<="@ {
        Some(x <= y)
    } else {
        None
    }
}

/// A numeric `test` operator becomes an Amber comparison that holds of exactly the same
/// pairs of numbers: `-gt` is strict, `-ge` is not, and so on.
pub proof fn lemma_test_operator_keeps_meaning(op: Seq<char>)
    requires
        bash_numeric_test(op, 0, 0) is Some,
    ensures
        spec_test_operator(op) matches Some(a) && forall|x: int, y: int|
            #[trigger] amber_comparison(a, x, y) == bash_numeric_test(op, x, y),
{
    reveal_strlit("-eq");
    reveal_strlit("-ne");
    reveal_strlit("-gt");
    reveal_strlit("-lt");
    reveal_strlit("-ge");
    reveal_strlit("-le");
    reveal_strlit("=");
    reveal_strlit("==");
    reveal_strlit("!=");
    reveal_strlit(">");
    reveal_strlit("<");
    reveal_strlit(">=");
    reveal_strlit("<=");
    assert(op.len() == 3 && op[0] == '-');
    assert(op != "="@ && op != "=="@ && op != "!="@);
    let a = if op == "-eq"@ {
        "=="@
    } else if op == "-ne"@ {
        assert(op != "-eq"@);
        "!="@
    } else if op == "-gt"@ {
        ">"@
    } else if op == "-lt"@ {
        "<"@
    } else if op == "-ge"@ {
        ">="@
    } else {
        "<="@
    };
    assert(spec_test_operator(op) == Some(a));
    assert forall|x: int, y: int| #[trigger] amber_comparison(a, x, y) == bash_numeric_test(op, x, y) by {
        assert("=="@.len() == 2 && "=="@[0] == '=');
        assert("!="@.len() == 2 && "!="@[0] == '!');
        assert(">"@.len() == 1 && ">"@[0] == '>');
        assert("<"@.len() == 1 && "<"@[0] == '<');
        assert(">="@.len() == 2 && ">="@[0] == '>');
        assert("<="@.len() == 2 && "<="@[0] == '<');
    }
}

/// The condition of `[ a op b ]` (or `[[ a op b ]]`) with a numeric operator is the Amber
/// form of `a`, an Amber comparison, and the Amber form of `b`, and the comparison holds of
/// exactly the numbers for which the `test` does.
pub proof fn lemma_numeric_test_condition(words: Seq<String>, ctx: RenderContext)
    requires
        words.len() == 5,
        spec_test_expression(words, ctx) is Some,
        bash_numeric_test(words[2]@, 0, 0) is Some,
    ensures
        exists|a: Seq<char>| {
            &&& spec_test_expression(words, ctx) == Some(spec_word_to_expr(words[1]@, ctx).unwrap() + " "@ + a + " "@
                + spec_word_to_expr(words[3]@, ctx).unwrap())
            &&& forall|x: int, y: int| #[trigger] amber_comparison(a, x, y) == bash_numeric_test(words[2]@, x, y)
        },
{
    lemma_test_operator_keeps_meaning(words[2]@);
    let a = spec_test_operator(words[2]@).unwrap();
    assert(spec_test_expression(words, ctx) == Some(spec_word_to_expr(words[1]@, ctx).unwrap() + " "@ + a + " "@
        + spec_word_to_expr(words[3]@, ctx).unwrap()));
}

/// What a string `test` operator asks of two texts in Bash: `=` and `==` equality, `!=`
/// difference; `None` for any other word.
pub open spec fn bash_string_test(op: Seq<char>, a: Seq<char>, b: Seq<char>) -> Option<bool> {
    if op == "="@ || op == "=="@ {
        Some(a == b)
    } else if op == "!="@ {
        Some(a != b)
    } else {
        None
    }
}

/// What Amber's `==` and `!=` ask of two texts; `None` for any other text.
pub open spec fn amber_text_comparison(op: Seq<char>, a: Seq<char>, b: Seq<char>) -> Option<bool> {
    if op == "=="@ {
        Some(a == b)
    } else if op == "!="@ {
        Some(a != b)
    } else {
        None
    }
}

/// A string `test` operator becomes the Amber comparison that holds of exactly the same
/// pairs of texts.
pub proof fn lemma_string_test_keeps_meaning(op: Seq<char>)
    requires
        bash_string_test(op, seq![], seq![]) is Some,
    ensures
        spec_test_operator(op) matches Some(t) && forall|a: Seq<char>, b: Seq<char>|
            #[trigger] amber_text_comparison(t, a, b) == bash_string_test(op, a, b),
{
    reveal_strlit("=");
    reveal_strlit("==");
    reveal_strlit("!=");
    reveal_strlit("-eq");
    reveal_strlit("-ne");
    assert("="@.len() == 1 && "="@[0] == '=');
    assert("=="@.len() == 2 && "=="@[0] == '=');
    assert("!="@.len() == 2 && "!="@[0] == '!');
    assert("-eq"@.len() == 3);
    assert("-ne"@.len() == 3);
}

/// `[ -z w ]` and `[ -n w ]` become a test on the length of `w`'s Amber form that holds of
/// exactly the lengths for which Bash's test does: zero for `-z`, more than zero for `-n`.
pub proof fn lemma_emptiness_test_keeps_meaning(words: Seq<String>, ctx: RenderContext)
    requires
        words.len() == 4,
        words[1]@ == "-z"@ || words[1]@ == "-n"@,
        spec_test_expression(words, ctx) is Some,
    ensures
        exists|op: Seq<char>| {
            &&& spec_test_expression(words, ctx) == Some("len("@ + spec_word_to_expr(words[2]@, ctx).unwrap() + ") "@ + op + " 0"@)
            &&& forall|len: nat| #[trigger] amber_comparison(op, len as int, 0) == Some(if words[1]@ == "-z"@ {
                len == 0
            } else {
                len > 0
            })
        },
{
    reveal_strlit("-z");
    reveal_strlit("-n");
    reveal_strlit("len(");
    reveal_strlit(") ");
    reveal_strlit(" 0");
    reveal_strlit(") == 0");
    reveal_strlit(") > 0");
    reveal_strlit("==");
    reveal_strlit(">");
    reveal_strlit("!=");
    reveal_strlit("<");
    assert("-z"@[1] == 'z' && "-n"@[1] == 'n');
    assert("=="@.len() == 2 && "=="@[0] == '=');
    assert(">"@.len() == 1 && ">"@[0] == '>');
    assert("!="@.len() == 2 && "!="@[0] == '!');
    assert("<"@.len() == 1 && "<"@[0] == '<');
    let e = spec_word_to_expr(words[2]@, ctx).unwrap();
    if words[1]@ == "-z"@ {
        assert(("len("@ + e + ") == 0"@) =~= ("len("@ + e + ") "@ + "=="@ + " 0"@));
        assert forall|len: nat| #[trigger] amber_comparison("=="@, len as int, 0) == Some(len == 0) by {}
    } else {
        assert(words[1]@ != "-z"@);
        assert(("len("@ + e + ") > 0"@) =~= ("len("@ + e + ") "@ + ">"@ + " 0"@));
        assert forall|len: nat| #[trigger] amber_comparison(">"@, len as int, 0) == Some(len > 0) by {}
    }
}

/// The Amber condition for `[ a op b ]`, `[[ a op b ]]`, `[ -z a ]` or `[ -n a ]`.
pub open spec fn spec_test_expression(words: Seq<String>, ctx: RenderContext) -> Option<Seq<char>> {
    let n = words.len();
    if n < 3 {
        None
    } else if !((words[0]@ == "["@ && words[n - 1]@ == "]"@) || (words[0]@ == "[["@ && words[n - 1]@ == "]]"@)) {
        None
    } else if n == 5 {
        if spec_has_unresolved(words[1]@, ctx) || spec_has_unresolved(words[3]@, ctx) {
            None
        } else {
            match (spec_word_to_expr(words[1]@, ctx), spec_word_to_expr(words[3]@, ctx), spec_test_operator(words[2]@)) {
                (Some(l), Some(r), Some(op)) => Some(l + " "@ + op + " "@ + r),
                _ => None,
            }
        }
    } else if n == 4 && words[1]@ == "-z"@ {
        match spec_word_to_expr(words[2]@, ctx) {
            Some(e) => Some("len("@ + e + ") == 0"@),
            None => None,
        }
    } else if n == 4 && words[1]@ == "-n"@ {
        match spec_word_to_expr(words[2]@, ctx) {
            Some(e) => Some("len("@ + e + ") > 0"@),
            None => None,
        }
    } else {
        None
    }
}

fn is_lit(s: &String, lit: &str) -> (r: bool)
    ensures
        r == (s@ == lit@),
{
    eq_lit(&chars_of(s.as_str()), lit)
}

fn parse_test_expression(words: &Vec<String>, ctx: &RenderContext) -> (r: Option<Vec<char>>)
    requires
        ctx.wf(),
    ensures
        match r {
            Some(v) => spec_test_expression(words@, *ctx) == Some(v@),
            None => spec_test_expression(words@, *ctx) is None,
        },
{
    let n = words.len();
    if n < 3 {
        return None;
    }
    let is_bracket = is_lit(&words[0], "[") && is_lit(&words[n - 1], "]");
    let is_double_bracket = is_lit(&words[0], "[[") && is_lit(&words[n - 1], "]]");
    if !(is_bracket || is_double_bracket) {
        return None;
    }
    if n == 5 {
        let a = chars_of(words[1].as_str());
        let b = chars_of(words[3].as_str());
        if has_unresolved_shell_var(&a, ctx) || has_unresolved_shell_var(&b, ctx) {
            return None;
        }
        let lhs = match word_to_expr(&a, ctx) {
            Some(e) => e,
            None => return None,
        };
        let rhs = match word_to_expr(&b, ctx) {
            Some(e) => e,
            None => return None,
        };
        let op = match test_operator(&words[2]) {
            Some(o) => o,
            None => return None,
        };
        let mut out = lhs;
        push_str(&mut out, " ");
        push_all(&mut out, &op);
        push_str(&mut out, " ");
        push_all(&mut out, &rhs);
        return Some(out);
    }
    if n == 4 {
        if is_lit(&words[1], "-z") {
            let e = match string_to_expr(&words[2], ctx) {
                Some(e) => e,
                None => return None,
            };
            let mut out = chars_of("len(");
            push_all(&mut out, &e);
            push_str(&mut out, ") == 0");
            return Some(out);
        }
        if is_lit(&words[1], "-n") {
            let e = match string_to_expr(&words[2], ctx) {
                Some(e) => e,
                None => return None,
            };
            let mut out = chars_of("len(");
            push_all(&mut out, &e);
            push_str(&mut out, ") > 0");
            return Some(out);
        }
    }
    None
}

/// The Amber condition for a command used as a condition: `&&` and `||` of conditions, an
/// arithmetic command, or a test.
pub open spec fn spec_condition(command: Command, ctx: RenderContext) -> Option<Seq<char>>
    decreases command,
{
    match command {
        Command::Connection(c) => match c.op {
            Connector::And => match (spec_condition(*c.left, ctx), spec_condition(*c.right, ctx)) {
                (Some(l), Some(r)) => Some("("@ + l + ") and ("@ + r + ")"@),
                _ => None,
            },
            Connector::Or => match (spec_condition(*c.left, ctx), spec_condition(*c.right, ctx)) {
                (Some(l), Some(r)) => Some("("@ + l + ") or ("@ + r + ")"@),
                _ => None,
            },
            Connector::Pipe => None,
        },
        Command::Arithmetic(a) => spec_arith_condition(a.expression@, ctx),
        Command::Simple(s) => spec_test_expression(s.words@, ctx),
        _ => None,
    }
}

pub fn render_condition_expr(command: &Command, ctx: &RenderContext) -> (r: Option<Vec<char>>)
    requires
        ctx.wf(),
    ensures
        match r {
            Some(v) => spec_condition(*command, *ctx) == Some(v@),
            None => spec_condition(*command, *ctx) is None,
        },
    decreases command,
{
    match command {
        Command::Connection(connection) => {
            let word = match connection.op {
                Connector::And => ") and (",
                Connector::Or => ") or (",
                Connector::Pipe => return None,
            };
            let l = match render_condition_expr(&connection.left, ctx) {
                Some(l) => l,
                None => return None,
            };
            let r = match render_condition_expr(&connection.right, ctx) {
                Some(r) => r,
                None => return None,
            };
            let mut out = chars_of("(");
            push_all(&mut out, &l);
            push_str(&mut out, word);
            push_all(&mut out, &r);
            push_str(&mut out, ")");
            Some(out)
        },
        Command::Arithmetic(arith) => render_arithmetic_condition_expr(&chars_of(arith.expression.as_str()), ctx),
        Command::Simple(simple) => parse_test_expression(&simple.words, ctx),
        _ => None,
    }
}

// ---------------------------------------------------------------------------
// Loops over words and arrays
// ---------------------------------------------------------------------------

/// The array that `${name[@]}` or `${name[*]}` (possibly quoted) iterates, when declared.
pub open spec fn spec_array_iteration(word: Seq<char>, ctx: RenderContext) -> Option<Seq<char>> {
    let raw = spec_strip_outer_double_quotes(word);
    match spec_strip_prefix(raw, "${"@) {
        Some(a) => match spec_strip_suffix(a, "}"@) {
            Some(inside) => if spec_strip_suffix(inside, "[@]"@) is Some {
                var_of(ctx, spec_strip_suffix(inside, "[@]"@).unwrap())
            } else if spec_strip_suffix(inside, "[*]"@) is Some {
                var_of(ctx, spec_strip_suffix(inside, "[*]"@).unwrap())
            } else {
                None
            },
            None => None,
        },
        None => None,
    }
}

fn parse_array_iteration(word: &[char], ctx: &RenderContext) -> (r: Option<Vec<char>>)
    requires
        ctx.wf(),
    ensures
        match r {
            Some(v) => spec_array_iteration(word@, *ctx) == Some(v@),
            None => spec_array_iteration(word@, *ctx) is None,
        },
{
    let raw = strip_outer_double_quotes(word);
    let a = match strip_prefix_lit(&raw, "${") {
        Some(a) => a,
        None => return None,
    };
    let inside = match strip_suffix_lit(&a, "}") {
        Some(x) => x,
        None => return None,
    };
    if let Some(name) = strip_suffix_lit(&inside, "[@]") {
        return ctx.var_chars(&name);
    }
    if let Some(name) = strip_suffix_lit(&inside, "[*]") {
        return ctx.var_chars(&name);
    }
    None
}

/// The expressions of all `words`, when every one renders.
pub open spec fn spec_exprs(words: Seq<Seq<char>>, ctx: RenderContext) -> Option<Seq<Seq<char>>>
    decreases words.len(),
{
    if words.len() == 0 {
        Some(seq![])
    } else {
        match (spec_exprs(words.drop_last(), ctx), spec_word_to_expr(words.last(), ctx)) {
            (Some(a), Some(e)) => Some(a.push(e)),
            _ => None,
        }
    }
}

pub open spec fn string_views(words: Seq<String>) -> Seq<Seq<char>> {
    words.map_values(|w: String| w@)
}

fn exprs_of(words: &Vec<String>, ctx: &RenderContext) -> (r: Option<Vec<Vec<char>>>)
    requires
        ctx.wf(),
    ensures
        match r {
            Some(v) => spec_exprs(string_views(words@), *ctx) == Some(views(v@)),
            None => spec_exprs(string_views(words@), *ctx) is None,
        },
{
    let ghost w = string_views(words@);
    let mut out: Vec<Vec<char>> = Vec::new();
    let mut k: usize = 0;
    while k < words.len()
        invariant
            ctx.wf(),
            k <= words@.len(),
            w == string_views(words@),
            spec_exprs(w.take(k as int), *ctx) == Some(views(out@)),
        decreases words@.len() - k,
    {
        assert(w.take(k + 1).drop_last() =~= w.take(k as int));
        let ghost before = out@;
        match string_to_expr(&words[k], ctx) {
            Some(e) => {
                out.push(e);
                proof {
                    lemma_views_push(before, e);
                }
            },
            None => {
                proof {
                    lemma_exprs_none(w, k as int, *ctx);
                }
                return None;
            },
        }
        k += 1;
    }
    assert(w.take(k as int) =~= w);
    Some(out)
}

proof fn lemma_exprs_none(w: Seq<Seq<char>>, k: int, ctx: RenderContext)
    requires
        0 <= k < w.len(),
        spec_word_to_expr(w[k], ctx) is None,
    ensures
        spec_exprs(w, ctx) is None,
    decreases w.len(),
{
    if k < w.len() - 1 {
        assert(w.drop_last()[k] == w[k]);
        lemma_exprs_none(w.drop_last(), k, ctx);
    }
}

/// The Amber list that a `for` loop iterates: `[]` for no words, a declared array or
/// variable for one word that names it, or else the list of the words' expressions.
pub open spec fn spec_for_items(items: Seq<String>, ctx: RenderContext) -> Option<Seq<char>> {
    if items.len() == 0 {
        Some("[]"@)
    } else if items.len() == 1 && spec_array_iteration(items[0]@, ctx) is Some {
        spec_array_iteration(items[0]@, ctx)
    } else if items.len() == 1 && spec_var_ref(items[0]@, ctx) is Some {
        spec_var_ref(items[0]@, ctx)
    } else if items.len() == 1 && spec_has_unresolved(items[0]@, ctx) {
        None
    } else {
        match spec_exprs(string_views(items), ctx) {
            Some(e) => Some("["@ + join(e, ", "@) + "]"@),
            None => None,
        }
    }
}

pub fn render_for_items(items: &Vec<String>, ctx: &RenderContext) -> (r: Option<Vec<char>>)
    requires
        ctx.wf(),
    ensures
        match r {
            Some(v) => spec_for_items(items@, *ctx) == Some(v@),
            None => spec_for_items(items@, *ctx) is None,
        },
{
    if items.len() == 0 {
        return Some(chars_of("[]"));
    }
    if items.len() == 1 {
        let w = chars_of(items[0].as_str());
        if let Some(v) = parse_array_iteration(&w, ctx) {
            return Some(v);
        }
        if let Some(v) = parse_variable_reference(&w, ctx) {
            return Some(v);
        }
        if has_unresolved_shell_var(&w, ctx) {
            return None;
        }
    }
    let entries = match exprs_of(items, ctx) {
        Some(e) => e,
        None => return None,
    };
    let mut out = chars_of("[");
    push_all(&mut out, &join_lit(&entries, ", "));
    push_str(&mut out, "]");
    Some(out)
}

/// The words of a Bash array literal: separated by commas or whitespace outside quotes, a
/// backslash keeping the next character; each word trimmed, empty ones dropped.
pub open spec fn array_items_from(s: Seq<char>, i: int, cur: Seq<char>, sq: bool, dq: bool, esc: bool) -> Seq<Seq<char>>
    decreases s.len() - i,
{
    if i < 0 || i >= s.len() {
        if spec_trim(cur).len() > 0 {
            seq![spec_trim(cur)]
        } else {
            seq![]
        }
    } else {
        let c = s[i];
        if esc {
            array_items_from(s, i + 1, cur.push(c), sq, dq, false)
        } else if c == '\\' {
            array_items_from(s, i + 1, cur.push(c), sq, dq, true)
        } else if c == '\'' && !dq {
            array_items_from(s, i + 1, cur.push(c), !sq, dq, false)
        } else if c == '"' && !sq {
            array_items_from(s, i + 1, cur.push(c), sq, !dq, false)
        } else if !sq && !dq && (c == ',' || spec_is_whitespace(c)) {
            (if spec_trim(cur).len() > 0 {
                seq![spec_trim(cur)]
            } else {
                seq![]
            }) + array_items_from(s, i + 1, seq![], sq, dq, false)
        } else {
            array_items_from(s, i + 1, cur.push(c), sq, dq, false)
        }
    }
}

fn tokenize_bash_array_items(inner: &[char]) -> (r: Vec<Vec<char>>)
    ensures
        views(r@) == array_items_from(inner@, 0, seq![], false, false, false),
{
    let mut result: Vec<Vec<char>> = Vec::new();
    let mut current: Vec<char> = Vec::new();
    let mut in_single = false;
    let mut in_double = false;
    let mut escaped = false;
    let mut i: usize = 0;
    assert(views(result@) + array_items_from(inner@, 0, current@, false, false, false)
        =~= array_items_from(inner@, 0, seq![], false, false, false));
    while i < inner.len()
        invariant
            i <= inner@.len(),
            views(result@) + array_items_from(inner@, i as int, current@, in_single, in_double, escaped)
                == array_items_from(inner@, 0, seq![], false, false, false),
        decreases inner@.len() - i,
    {
        let ch = inner[i];
        let ghost before = result@;
        if escaped {
            current.push(ch);
            escaped = false;
        } else if ch == '\\' {
            current.push(ch);
            escaped = true;
        } else if ch == '\'' && !in_double {
            in_single = !in_single;
            current.push(ch);
        } else if ch == '"' && !in_single {
            in_double = !in_double;
            current.push(ch);
        } else if !in_single && !in_double && (ch == ',' || is_whitespace(ch)) {
            let t = trim(&current);
            if t.len() > 0 {
                result.push(t);
                proof {
                    lemma_views_push(before, result@.last());
                }
                assert(views(result@) + array_items_from(inner@, i + 1, seq![], in_single, in_double, false)
                    =~= views(before) + (seq![spec_trim(current@)] + array_items_from(inner@, i + 1, seq![], in_single, in_double, false)));
            } else {
                assert(seq![] + array_items_from(inner@, i + 1, seq![], in_single, in_double, false)
                    =~= array_items_from(inner@, i + 1, seq![], in_single, in_double, false));
            }
            current = Vec::new();
        } else {
            current.push(ch);
        }
        i += 1;
    }
    let t = trim(&current);
    if t.len() > 0 {
        let ghost before = result@;
        result.push(t);
        proof {
            lemma_views_push(before, result@.last());
        }
        assert(views(result@) =~= views(before) + seq![spec_trim(current@)]);
    } else {
        assert(views(result@) + seq![] =~= views(result@));
    }
    result
}

/// The expressions of the non-empty trimmed words.
pub open spec fn spec_item_exprs(tokens: Seq<Seq<char>>, ctx: RenderContext) -> Option<Seq<Seq<char>>>
    decreases tokens.len(),
{
    if tokens.len() == 0 {
        Some(seq![])
    } else {
        let t = spec_trim(tokens.last());
        match spec_item_exprs(tokens.drop_last(), ctx) {
            Some(a) => if t.len() == 0 {
                Some(a)
            } else {
                match spec_word_to_expr(t, ctx) {
                    Some(e) => Some(a.push(e)),
                    None => None,
                }
            },
            None => None,
        }
    }
}

/// The element expressions of a Bash array literal `( a b "c d" )`.
pub open spec fn spec_array_items(value: Seq<char>, ctx: RenderContext) -> Option<Seq<Seq<char>>> {
    let t = spec_trim(value);
    if !(t.len() > 0 && t[0] == '(' && t.last() == ')') || t.len() < 2 {
        None
    } else {
        spec_item_exprs(array_items_from(t.subrange(1, t.len() - 1), 0, seq![], false, false, false), ctx)
    }
}

proof fn lemma_item_exprs_none(w: Seq<Seq<char>>, k: int, ctx: RenderContext)
    requires
        0 <= k < w.len(),
        spec_trim(w[k]).len() > 0,
        spec_word_to_expr(spec_trim(w[k]), ctx) is None,
    ensures
        spec_item_exprs(w, ctx) is None,
    decreases w.len(),
{
    if k < w.len() - 1 {
        assert(w.drop_last()[k] == w[k]);
        lemma_item_exprs_none(w.drop_last(), k, ctx);
    }
}

pub fn parse_bash_array_items(value: &[char], ctx: &RenderContext) -> (r: Option<Vec<Vec<char>>>)
    requires
        ctx.wf(),
    ensures
        match r {
            Some(v) => spec_array_items(value@, *ctx) == Some(views(v@)),
            None => spec_array_items(value@, *ctx) is None,
        },
{
    let trimmed = trim(value);
    if !(trimmed.len() > 0 && trimmed[0] == '(' && trimmed[trimmed.len() - 1] == ')') || trimmed.len() < 2 {
        return None;
    }
    let inner = slice_vec(&trimmed, 1, trimmed.len() - 1);
    let tokens = tokenize_bash_array_items(&inner);
    let ghost w = views(tokens@);
    let mut rendered: Vec<Vec<char>> = Vec::new();
    let mut k: usize = 0;
    while k < tokens.len()
        invariant
            ctx.wf(),
            k <= tokens@.len(),
            w == views(tokens@),
            w == array_items_from(inner@, 0, seq![], false, false, false),
            inner@ == spec_trim(value@).subrange(1, spec_trim(value@).len() - 1),
            spec_item_exprs(w.take(k as int), *ctx) == Some(views(rendered@)),
        decreases tokens@.len() - k,
    {
        assert(w.take(k + 1).drop_last() =~= w.take(k as int));
        let t = trim(&tokens[k]);
        if t.len() == 0 {
            k += 1;
            continue;
        }
        let ghost before = rendered@;
        match word_to_expr(&t, ctx) {
            Some(e) => {
                rendered.push(e);
                proof {
                    lemma_views_push(before, e);
                }
            },
            None => {
                proof {
                    lemma_item_exprs_none(w, k as int, *ctx);
                }
                return None;
            },
        }
        k += 1;
    }
    assert(w.take(k as int) =~= w);
    Some(rendered)
}

// ---------------------------------------------------------------------------
// Function calls
// ---------------------------------------------------------------------------

/// How many `$((` open and are not closed by `))` in the text from `i`.
pub open spec fn arith_depth_from(s: Seq<char>, i: int) -> int
    decreases s.len() - i,
{
    if i < 0 || i >= s.len() {
        0
    } else if i + 2 < s.len() && s[i] == '$' && s[i + 1] == '(' && s[i + 2] == '(' {
        1 + arith_depth_from(s, i + 3)
    } else if i + 1 < s.len() && s[i] == ')' && s[i + 1] == ')' {
        arith_depth_from(s, i + 2) - 1
    } else {
        arith_depth_from(s, i + 1)
    }
}

pub open spec fn spec_arith_depth(s: Seq<char>) -> int {
    arith_depth_from(s, 0)
}

fn count_arith_depth(text: &[char]) -> (r: i64)
    ensures
        r == spec_arith_depth(text@),
{
    let mut depth: i64 = 0;
    let mut i: usize = 0;
    while i < text.len()
        invariant
            i <= text@.len(),
            3 * depth <= i as int,
            -2 * depth <= i as int,
            depth + arith_depth_from(text@, i as int) == arith_depth_from(text@, 0),
        decreases text@.len() - i,
    {
        if text.len() - i > 2 && text[i] == '$' && text[i + 1] == '(' && text[i + 2] == '(' {
            depth += 1;
            i += 3;
        } else if text.len() - i > 1 && text[i] == ')' && text[i + 1] == ')' {
            depth -= 1;
            i += 2;
        } else {
            i += 1;
        }
    }
    depth
}

/// From word `i` on, the words joined with spaces while the text opens more `$((` than it
/// closes; the joined text and the index of the next word.
pub open spec fn gather_arith(ws: Seq<Seq<char>>, i: int, combined: Seq<char>) -> (Seq<char>, int)
    decreases ws.len() - i,
{
    if i < 0 || i >= ws.len() || spec_arith_depth(combined) <= 0 {
        (combined, i)
    } else {
        gather_arith(ws, i + 1, combined + " "@ + ws[i])
    }
}

/// Function-call arguments: words that hold an unfinished `$((` are joined with the words
/// that finish it.
pub open spec fn group_args_from(ws: Seq<Seq<char>>, i: int) -> Seq<Seq<char>>
    decreases ws.len() - i,
{
    if i < 0 || i >= ws.len() {
        seq![]
    } else if spec_starts_with(ws[i], "$(("@) && !(spec_ends_with(ws[i], "))"@) && spec_arith_depth(ws[i]) == 0) {
        let (combined, next) = gather_arith(ws, i + 1, ws[i]);
        if next <= i || next > ws.len() {
            seq![]
        } else {
            seq![combined] + group_args_from(ws, next)
        }
    } else {
        seq![ws[i]] + group_args_from(ws, i + 1)
    }
}

proof fn lemma_gather_bounds(ws: Seq<Seq<char>>, i: int, combined: Seq<char>)
    requires
        0 <= i <= ws.len(),
    ensures
        i <= gather_arith(ws, i, combined).1 <= ws.len(),
    decreases ws.len() - i,
{
    if i < ws.len() && spec_arith_depth(combined) > 0 {
        lemma_gather_bounds(ws, i + 1, combined + " "@ + ws[i]);
    }
}

fn group_function_call_args(words: &Vec<String>, from: usize) -> (r: Vec<Vec<char>>)
    requires
        from <= words@.len(),
    ensures
        views(r@) == group_args_from(string_views(words@), from as int),
{
    let ghost ws = string_views(words@);
    let mut result: Vec<Vec<char>> = Vec::new();
    let mut i = from;
    assert(views(result@) + group_args_from(ws, i as int) =~= group_args_from(ws, from as int));
    while i < words.len()
        invariant
            from <= i <= words@.len(),
            ws == string_views(words@),
            views(result@) + group_args_from(ws, i as int) == group_args_from(ws, from as int),
        decreases words@.len() - i,
    {
        let word = chars_of(words[i].as_str());
        let ghost before = result@;
        if starts_with_lit(&word, "$((") && !(ends_with_lit(&word, "))") && count_arith_depth(&word) == 0) {
            let mut combined = word;
            let mut depth = count_arith_depth(&combined);
            let ghost start = i;
            i += 1;
            proof {
                lemma_gather_bounds(ws, i as int, combined@);
            }
            while i < words.len() && depth > 0
                invariant
                    start < i <= words@.len(),
                    ws == string_views(words@),
                    depth == spec_arith_depth(combined@),
                    gather_arith(ws, start + 1, ws[start as int]) == gather_arith(ws, i as int, combined@),
                decreases words@.len() - i,
            {
                let ghost prev = combined@;
                combined.push(' ');
                push_all(&mut combined, &chars_of(words[i].as_str()));
                assert(combined@ =~= prev + " "@ + ws[i as int]) by {
                    reveal_strlit(" ");
                }
                depth = count_arith_depth(&combined);
                i += 1;
            }
            result.push(combined);
            proof {
                lemma_views_push(before, result@.last());
                lemma_gather_bounds(ws, start + 1, ws[start as int]);
                assert(views(result@) + group_args_from(ws, i as int) =~= views(before) + (seq![result@.last()@] + group_args_from(ws, i as int)));
            }
            continue;
        }
        result.push(word);
        proof {
            lemma_views_push(before, result@.last());
            assert(views(result@) + group_args_from(ws, i + 1) =~= views(before) + (seq![word@] + group_args_from(ws, i + 1)));
        }
        i += 1;
    }
    assert(views(result@) + group_args_from(ws, i as int) =~= views(result@));
    result
}

/// The Amber call for a call of a known function with the right number of arguments.
pub open spec fn spec_function_call(words: Seq<String>, ctx: RenderContext) -> Option<Seq<char>> {
    if words.len() == 0 {
        None
    } else {
        match value_of(ctx.functions@, words[0]@) {
            None => None,
            Some(sig) => if sig.render_mode == FunctionRenderMode::FullFallback {
                None
            } else {
                let args = group_args_from(string_views(words), 1);
                if args.len() != sig.arity {
                    None
                } else {
                    match spec_exprs(args, ctx) {
                        Some(e) => Some(sig.amber_name@ + "("@ + join(e, ", "@) + ")"@),
                        None => None,
                    }
                }
            },
        }
    }
}

fn exprs_of_chars(words: &Vec<Vec<char>>, ctx: &RenderContext) -> (r: Option<Vec<Vec<char>>>)
    requires
        ctx.wf(),
    ensures
        match r {
            Some(v) => spec_exprs(views(words@), *ctx) == Some(views(v@)),
            None => spec_exprs(views(words@), *ctx) is None,
        },
{
    let ghost w = views(words@);
    let mut out: Vec<Vec<char>> = Vec::new();
    let mut k: usize = 0;
    while k < words.len()
        invariant
            ctx.wf(),
            k <= words@.len(),
            w == views(words@),
            spec_exprs(w.take(k as int), *ctx) == Some(views(out@)),
        decreases words@.len() - k,
    {
        assert(w.take(k + 1).drop_last() =~= w.take(k as int));
        let ghost before = out@;
        match word_to_expr(&words[k], ctx) {
            Some(e) => {
                out.push(e);
                proof {
                    lemma_views_push(before, e);
                }
            },
            None => {
                proof {
                    lemma_exprs_none(w, k as int, *ctx);
                }
                return None;
            },
        }
        k += 1;
    }
    assert(w.take(k as int) =~= w);
    Some(out)
}

pub fn render_simple_function_call_expr(simple: &SimpleCommand, ctx: &RenderContext) -> (r: Option<Vec<char>>)
    requires
        ctx.wf(),
    ensures
        match r {
            Some(v) => spec_function_call(simple.words@, *ctx) == Some(v@),
            None => spec_function_call(simple.words@, *ctx) is None,
        },
{
    if simple.words.len() == 0 {
        return None;
    }
    let name = chars_of(simple.words[0].as_str());
    let sig: &FunctionSig = match ctx.resolve_function(&name) {
        Some(s) => s,
        None => return None,
    };
    if sig.render_mode == FunctionRenderMode::FullFallback {
        return None;
    }
    let grouped = group_function_call_args(&simple.words, 1);
    if grouped.len() != sig.arity {
        return None;
    }
    let args = match exprs_of_chars(&grouped, ctx) {
        Some(a) => a,
        None => return None,
    };
    let mut out = chars_of(sig.amber_name.as_str());
    push_str(&mut out, "(");
    push_all(&mut out, &join_lit(&args, ", "));
    push_str(&mut out, ")");
    Some(out)
}

// ---------------------------------------------------------------------------
// Assignments
// ---------------------------------------------------------------------------

/// An assignment `name=value` (or `local name=value`) rendered for Amber.
pub struct AssignmentRender {
    /// The Bash name.
    pub raw_name: Vec<char>,
    /// The Amber name it is bound to.
    pub name: Vec<char>,
    /// The Amber expression of the value.
    pub value: Vec<char>,
    /// Whether the variable was declared before (and not by `local`).
    pub is_reassignment: bool,
}

/// The index of the assignment word: 1 after `local`, else 0.
pub open spec fn assignment_index(words: Seq<String>) -> Option<int> {
    if words.len() == 0 {
        None
    } else if words[0]@ == "local"@ {
        if words.len() < 2 {
            None
        } else {
            Some(1)
        }
    } else {
        Some(0)
    }
}

/// The name and the first part of the value of an assignment command.
pub open spec fn assignment_sides(words: Seq<String>) -> Option<(Seq<char>, Seq<char>)> {
    match assignment_index(words) {
        Some(i) => spec_split_once(words[i]@, "="@),
        None => None,
    }
}

pub open spec fn assign_raw(words: Seq<String>) -> Seq<char> {
    assignment_sides(words).unwrap().0
}

pub open spec fn assign_first(words: Seq<String>) -> Seq<char> {
    assignment_sides(words).unwrap().1
}

/// The value of a one-word assignment, once arithmetic expansion and command substitution
/// are ruled out: `None` for an expansion Amber cannot write, `""` for nothing, a declared
/// variable, a number, a quoted string, or else the word as an interpolated string.
pub open spec fn spec_plain_value(v: Seq<char>, ctx: RenderContext) -> Option<Seq<char>> {
    if spec_has_unresolved(v, ctx) {
        None
    } else if v.len() == 0 {
        Some("\"\""@)
    } else if spec_var_ref(v, ctx) is Some {
        spec_var_ref(v, ctx)
    } else if spec_is_number(v) {
        Some(v)
    } else if spec_is_double_quoted(v) {
        Some(spec_render_double_quoted(v, ctx))
    } else if spec_is_single_quoted(v) {
        Some(spec_render_single_quoted(v))
    } else {
        Some("\""@ + spec_interpolated(v, ctx) + "\""@)
    }
}

/// The words from `from` on, each after a space.
pub open spec fn spaced_tail(words: Seq<String>, from: int) -> Seq<char>
    decreases words.len() - from,
{
    if from < 0 || from >= words.len() {
        seq![]
    } else {
        " "@ + words[from]@ + spaced_tail(words, from + 1)
    }
}

fn join_value_words(first: &Vec<char>, words: &Vec<String>, from: usize) -> (r: Vec<char>)
    requires
        from <= words@.len(),
    ensures
        r@ == first@ + spaced_tail(words@, from as int),
{
    let mut out = to_vec(first);
    let mut k = from;
    while k < words.len()
        invariant
            from <= k <= words@.len(),
            out@ + spaced_tail(words@, k as int) == first@ + spaced_tail(words@, from as int),
        decreases words@.len() - k,
    {
        let ghost o = out@;
        out.push(' ');
        push_all(&mut out, &chars_of(words[k].as_str()));
        assert(out@ + spaced_tail(words@, k + 1) =~= o + spaced_tail(words@, k as int)) by {
            reveal_strlit(" ");
        }
        k += 1;
    }
    assert(out@ + spaced_tail(words@, k as int) =~= out@);
    out
}

fn plain_value(value: &Vec<char>, ctx: &RenderContext) -> (r: Option<Vec<char>>)
    requires
        ctx.wf(),
    ensures
        match r {
            Some(v) => spec_plain_value(value@, *ctx) == Some(v@),
            None => spec_plain_value(value@, *ctx) is None,
        },
{
    if has_unresolved_shell_var(value, ctx) {
        return None;
    }
    if value.len() == 0 {
        return Some(chars_of("\"\""));
    }
    if let Some(v) = parse_variable_reference(value, ctx) {
        return Some(v);
    }
    if is_number(value) {
        return Some(to_vec(value));
    }
    if is_double_quoted(value) {
        return Some(render_double_quoted(value, ctx));
    }
    if is_single_quoted(value) {
        return Some(render_single_quoted(value));
    }
    let mut out = chars_of("\"");
    push_all(&mut out, &render_interpolated_text(value, ctx));
    push_str(&mut out, "\"");
    Some(out)
}

/// The value of an assignment as an expression: arithmetic, then the command substitutions
/// Amber can compute, then a plain value.
/// What the right-hand side `v` of an assignment becomes, as far as it can be told without
/// parsing a command substitution that parses: `Some(Some(e))` for the expression `e`,
/// `Some(None)` when it has none, `None` when it is not known here. An arithmetic expansion is
/// its expression; a value with no substitution is a plain value (when `plain`) or nothing; a
/// substitution whose command does not parse is a `trust` literal of its text.
pub open spec fn known_value(v: Seq<char>, plain: bool, ctx: RenderContext) -> Option<Option<Seq<char>>> {
    match spec_arith_expansion(v, ctx) {
        Some(e) => Some(Some(e)),
        None => match substitution_inner(v) {
            None => Some(if plain {
                spec_plain_value(v, ctx)
            } else {
                None
            }),
            Some(inner) => if inner.len() > 0 && fails_to_parse(inner) {
                Some(Some(spec_literal_from_shell(inner)))
            } else {
                None
            },
        },
    }
}

fn value_expression(value: &Vec<char>, plain: bool, ctx: &RenderContext) -> (r: Option<Vec<char>>)
    requires
        ctx.wf(),
    ensures
        known_value(value@, plain, *ctx) matches Some(k) ==> match k {
            Some(e) => r matches Some(v) && v@ == e,
            None => r is None,
        },
        spec_arith_expansion(value@, *ctx) matches Some(e) ==> r matches Some(v) && v@ == e,
        spec_arith_expansion(value@, *ctx) is None && substitution_inner(value@) is None ==> (
            if plain {
                match spec_plain_value(value@, *ctx) {
                    Some(e) => r matches Some(v) && v@ == e,
                    None => r is None,
                }
            } else {
                r is None
            }),
{
    if let Some(e) = parse_arithmetic_expansion(value, ctx) {
        return Some(e);
    }
    if let Some(e) = parse_if_command_substitution_expression(value, ctx) {
        return Some(e);
    }
    if let Some(e) = parse_and_or_command_substitution_expression(value, ctx) {
        return Some(e);
    }
    if let Some(e) = parse_function_call_command_substitution_expression(value, ctx) {
        return Some(e);
    }
    if let Some(e) = parse_generic_command_substitution_expression(value, ctx) {
        return Some(e);
    }
    if plain {
        plain_value(value, ctx)
    } else {
        None
    }
}

/// An assignment command as an Amber variable statement. The name must be an identifier; a
/// value of several words is an array literal `( .. )` or an expression; `local` always
/// binds a fresh Amber name. Nothing changes in `ctx` when `None` comes back.
pub fn parse_assignment(simple: &SimpleCommand, ctx: &mut RenderContext) -> (r: Option<AssignmentRender>)
    requires
        old(ctx).wf(),
    ensures
        final(ctx).wf(),
        same_but_vars(*old(ctx), *final(ctx)),
        r is None ==> *final(ctx) == *old(ctx),
        assignment_sides(simple.words@) is None ==> r is None,
        assignment_sides(simple.words@) is Some && !spec_is_identifier(assign_raw(simple.words@)) ==> r is None,
        r matches Some(a) ==> {
            let raw = assign_raw(simple.words@);
            let is_local = simple.words@[0]@ == "local"@;
            &&& a.raw_name@ == raw
            &&& spec_is_identifier(raw)
            &&& var_of(*final(ctx), raw) == Some(a.name@)
            &&& a.is_reassignment == (!is_local && var_of(*old(ctx), raw) is Some)
            &&& is_local ==> !super::context::name_taken(*old(ctx), a.name@)
                && a.name@ == super::context::fresh_var_name(*old(ctx), raw)
            &&& !is_local ==> a.name@ == super::context::declared_name(*old(ctx), raw)
            &&& forall|n: Seq<char>| n != raw ==> #[trigger] value_of(final(ctx).var_aliases@, n) == value_of(old(ctx).var_aliases@, n)
            &&& forall|m: Seq<char>| #[trigger] super::context::has_name(final(ctx).declared_vars@, m)
                == (super::context::has_name(old(ctx).declared_vars@, m) || m == a.name@)
            &&& !is_local ==> match value_of(old(ctx).var_aliases@, raw) {
                Some(al) => a.name@ == al@,
                None => !super::context::name_taken(*old(ctx), a.name@),
            }
        },
        assignment_sides(simple.words@) is Some && spec_is_identifier(assign_raw(simple.words@))
            && simple.words@.len() == assignment_index(simple.words@).unwrap() + 1 ==> (known_value(
            assign_first(simple.words@),
            true,
            *old(ctx),
        ) matches Some(k) ==> match k {
            Some(e) => r is Some && r.unwrap().value@ == e,
            None => r is None,
        }),
        assignment_sides(simple.words@) is Some && spec_is_identifier(assign_raw(simple.words@))
            && simple.words@.len() > assignment_index(simple.words@).unwrap() + 1
            && !spec_starts_with(spec_trim_start(assign_first(simple.words@)), "("@) ==> (known_value(
            assign_first(simple.words@) + spaced_tail(simple.words@, assignment_index(simple.words@).unwrap() + 1),
            false,
            *old(ctx),
        ) matches Some(k) ==> match k {
            Some(e) => r is Some && r.unwrap().value@ == e,
            None => r is None,
        }),
        assignment_sides(simple.words@) is Some && spec_is_identifier(assign_raw(simple.words@))
            && simple.words@.len() > assignment_index(simple.words@).unwrap() + 1
            && spec_starts_with(spec_trim_start(assign_first(simple.words@)), "("@) ==> match spec_array_items(
            assign_first(simple.words@) + spaced_tail(simple.words@, assignment_index(simple.words@).unwrap() + 1),
            *old(ctx),
        ) {
            Some(items) => r is Some && r.unwrap().value@ == "["@ + join(items, ", "@) + "]"@,
            None => r is None,
        },
{
    let words = &simple.words;
    if words.len() == 0 {
        return None;
    }
    let is_local = eq_lit(&chars_of(words[0].as_str()), "local");
    let index: usize = if is_local {
        if words.len() < 2 {
            return None;
        }
        1
    } else {
        0
    };
    let (raw_name, first_value) = match split_once_lit(&chars_of(words[index].as_str()), "=") {
        Some(p) => p,
        None => return None,
    };
    if !is_identifier(&raw_name) {
        return None;
    }
    let is_reassignment = !is_local && ctx.var_chars(&raw_name).is_some();
    let value: Vec<char>;
    if words.len() > index + 1 {
        let full_value = join_value_words(&first_value, words, index + 1);
        if !starts_with_lit(&trim_start(&first_value), "(") {
            value = match value_expression(&full_value, false, ctx) {
                Some(v) => v,
                None => return None,
            };
        } else {
            let items = match parse_bash_array_items(&full_value, ctx) {
                Some(items) => items,
                None => return None,
            };
            let mut out = chars_of("[");
            push_all(&mut out, &join_lit(&items, ", "));
            push_str(&mut out, "]");
            value = out;
        }
    } else {
        value = match value_expression(&first_value, true, ctx) {
            Some(v) => v,
            None => return None,
        };
    }
    let name = if is_local {
        ctx.declare_local_var(&raw_name)
    } else {
        ctx.declare_var(&raw_name)
    };
    proof {
        assert(var_of(*ctx, raw_name@) == Some(name@));
    }
    Some(AssignmentRender { raw_name, name: chars_of(name.as_str()), value, is_reassignment })
}

} // verus!
