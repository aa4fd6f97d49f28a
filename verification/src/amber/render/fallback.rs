//! Commands that Amber cannot express, kept as shell text in a `trust $ .. $` command, with
//! declared variables referred to by `{nameof ..}`.
use vstd::prelude::*;

use crate::text::lemma_views_push;
use super::context::{var_of, RenderContext};
use crate::bash::ast::{CaseClause, CaseClauseTerminator, Command, Connector};
use crate::text::{
    chars_of, ends_with_lit, find_char_exec, find_char_from, find_from, is_word_start, join,
    join_lit, lemma_find_from_bounds, push_all, push_str, slice_vec, spec_ends_with,
    spec_find_from, spec_is_word_start, spec_trim, spec_trim_end, to_vec, trim, trim_end, views,
    word_end, word_end_exec,
};

verus! {

// ---------------------------------------------------------------------------
// Escaping and placeholders
// ---------------------------------------------------------------------------

/// How a character is written inside `trust $ .. $`: backslash, `$` and `{` escaped.
pub open spec fn literal_escape_char(c: char) -> Seq<char> {
    if c == '\\' {
        seq!['\\', '\\']
    } else if c == '$' {
        seq!['\\', '$']
    } else if c == '{' {
        seq!['\\', '{']
    } else {
        seq![c]
    }
}

pub open spec fn spec_escape_for_command_literal(s: Seq<char>) -> Seq<char>
    decreases s.len(),
{
    if s.len() == 0 {
        seq![]
    } else {
        spec_escape_for_command_literal(s.drop_last()) + literal_escape_char(s.last())
    }
}

proof fn lemma_literal_escape_concat(a: Seq<char>, b: Seq<char>)
    ensures
        spec_escape_for_command_literal(a + b) == spec_escape_for_command_literal(a) + spec_escape_for_command_literal(b),
    decreases b.len(),
{
    if b.len() == 0 {
        assert(a + b =~= a);
    } else {
        lemma_literal_escape_concat(a, b.drop_last());
        assert((a + b).drop_last() =~= a + b.drop_last());
    }
}

/// Escaping shell text for a `trust $ .. $` command loses nothing: dropping each escaping
/// backslash gives the text back.
pub proof fn lemma_escape_for_command_literal_reversible(s: Seq<char>)
    ensures
        crate::text::spec_unescape(spec_escape_for_command_literal(s)) == s,
    decreases s.len(),
{
    if s.len() > 0 {
        let c = s[0];
        let rest = s.drop_first();
        assert(s =~= seq![c] + rest);
        lemma_literal_escape_concat(seq![c], rest);
        assert(spec_escape_for_command_literal(seq![c]) == literal_escape_char(c)) by {
            assert(seq![c].drop_last() =~= Seq::<char>::empty());
            assert(spec_escape_for_command_literal(Seq::<char>::empty()) == Seq::<char>::empty());
            assert(Seq::<char>::empty() + literal_escape_char(c) =~= literal_escape_char(c));
        }
        lemma_escape_for_command_literal_reversible(rest);
        crate::text::lemma_unescape_step(c, literal_escape_char(c), spec_escape_for_command_literal(rest));
    }
}

/// A command that Amber cannot express is kept whole: when its escaped text holds no
/// variable marker, the literal is `trust $ `, the escaped text, and ` $`.
pub proof fn lemma_literal_keeps_shell(shell: Seq<char>)
    requires
        spec_find_from(spec_escape_for_command_literal(shell), "__B2A_NAMEOF_"@, 0) is None,
    ensures
        spec_literal_from_shell(shell) == "trust $ "@ + spec_escape_for_command_literal(shell) + " $"@,
{
    let t = spec_escape_for_command_literal(shell);
    assert(t.subrange(0, t.len() as int) =~= t);
}

fn escape_for_command_literal(shell: &[char]) -> (r: Vec<char>)
    ensures
        r@ == spec_escape_for_command_literal(shell@),
{
    let mut out: Vec<char> = Vec::new();
    let mut i: usize = 0;
    while i < shell.len()
        invariant
            i <= shell@.len(),
            out@ == spec_escape_for_command_literal(shell@.take(i as int)),
        decreases shell@.len() - i,
    {
        assert(shell@.take(i + 1).drop_last() =~= shell@.take(i as int));
        let c = shell[i];
        if c == '\\' || c == '$' || c == '{' {
            out.push('\\');
        }
        out.push(c);
        assert(out@ =~= spec_escape_for_command_literal(shell@.take(i + 1)));
        i += 1;
    }
    assert(shell@.take(shell@.len() as int) =~= shell@);
    out
}

/// The marker that stands for the Amber name `alias` until the text is escaped.
pub open spec fn spec_placeholder(alias: Seq<char>) -> Seq<char> {
    "__B2A_NAMEOF_"@ + alias + "__"@
}

fn nameof_placeholder(alias: &[char]) -> (r: Vec<char>)
    ensures
        r@ == spec_placeholder(alias@),
{
    let mut out = chars_of("__B2A_NAMEOF_");
    push_all(&mut out, alias);
    push_str(&mut out, "__");
    out
}

/// The text from `cursor` with every marker `__B2A_NAMEOF_alias__` as `{nameof alias}`.
pub open spec fn expand_from(t: Seq<char>, cursor: int) -> Seq<char>
    decreases t.len() - cursor,
{
    if cursor < 0 || cursor > t.len() {
        seq![]
    } else {
        match spec_find_from(t, "__B2A_NAMEOF_"@, cursor) {
            None => t.subrange(cursor, t.len() as int),
            Some(start) => {
                let after = start + "__B2A_NAMEOF_"@.len();
                match spec_find_from(t, "__"@, after) {
                    Some(end) => if start < cursor || end < after || end + 2 > t.len() {
                        seq![]
                    } else {
                        t.subrange(cursor, start) + "{nameof "@ + t.subrange(after, end) + "}"@ + expand_from(t, end + 2)
                    },
                    None => t.subrange(cursor, t.len() as int),
                }
            },
        }
    }
}

fn expand_nameof_placeholders(text: &[char]) -> (r: Vec<char>)
    ensures
        r@ == expand_from(text@, 0),
{
    let prefix = chars_of("__B2A_NAMEOF_");
    let close = chars_of("__");
    let mut out: Vec<char> = Vec::new();
    let mut cursor: usize = 0;
    proof {
        reveal_strlit("__B2A_NAMEOF_");
        reveal_strlit("__");
    }
    while cursor <= text.len()
        invariant
            cursor <= text@.len(),
            prefix@ == "__B2A_NAMEOF_"@,
            close@ == "__"@,
            prefix@.len() == 13,
            close@.len() == 2,
            out@ + expand_from(text@, cursor as int) == expand_from(text@, 0),
        decreases text@.len() - cursor,
    {
        let ghost o = out@;
        let start = match find_from(text, &prefix, cursor) {
            Some(s) => s,
            None => {
                push_all(&mut out, &slice_vec(text, cursor, text.len()));
                assert(out@ =~= o + expand_from(text@, cursor as int));
                return out;
            },
        };
        proof {
            lemma_find_from_bounds(text@, prefix@, cursor as int);
        }
        let after = start + 13;
        let end = match find_from(text, &close, after) {
            Some(e) => e,
            None => {
                push_all(&mut out, &slice_vec(text, cursor, text.len()));
                assert(out@ =~= o + expand_from(text@, cursor as int));
                return out;
            },
        };
        proof {
            lemma_find_from_bounds(text@, close@, after as int);
        }
        push_all(&mut out, &slice_vec(text, cursor, start));
        push_str(&mut out, "{nameof ");
        push_all(&mut out, &slice_vec(text, after, end));
        push_str(&mut out, "}");
        assert(out@ + expand_from(text@, end + 2) =~= o + expand_from(text@, cursor as int));
        cursor = end + 2;
    }
    out
}

/// `trust $ shell $`, with the shell text escaped and markers expanded.
pub open spec fn spec_literal_from_shell(shell: Seq<char>) -> Seq<char> {
    "trust $ "@ + expand_from(spec_escape_for_command_literal(shell), 0) + " $"@
}

pub fn command_literal_from_shell(shell: &[char]) -> (r: Vec<char>)
    ensures
        r@ == spec_literal_from_shell(shell@),
{
    let escaped = escape_for_command_literal(shell);
    let expanded = expand_nameof_placeholders(&escaped);
    let mut out = chars_of("trust $ ");
    push_all(&mut out, &expanded);
    push_str(&mut out, " $");
    out
}

// ---------------------------------------------------------------------------
// Commands as shell text
// ---------------------------------------------------------------------------

/// A word that is a declared variable's Bash name, as a marker; other words as they are.
pub open spec fn rewrite_word(w: Seq<char>, ctx: RenderContext) -> Seq<char> {
    match var_of(ctx, w) {
        Some(a) => spec_placeholder(a),
        None => w,
    }
}

pub open spec fn rewrite_words(ws: Seq<String>, ctx: RenderContext) -> Seq<Seq<char>> {
    ws.map_values(|w: String| rewrite_word(w@, ctx))
}

fn rewrite_shell_word(word: &[char], ctx: &RenderContext) -> (r: Vec<char>)
    requires
        ctx.wf(),
    ensures
        r@ == rewrite_word(word@, *ctx),
{
    match ctx.var_chars(word) {
        Some(alias) => nameof_placeholder(&alias),
        None => to_vec(word),
    }
}

fn rewrite_joined(words: &Vec<String>, sep: &str, ctx: &RenderContext) -> (r: Vec<char>)
    requires
        ctx.wf(),
    ensures
        r@ == join(rewrite_words(words@, *ctx), sep@),
{
    let mut parts: Vec<Vec<char>> = Vec::new();
    let mut k: usize = 0;
    while k < words.len()
        invariant
            ctx.wf(),
            k <= words@.len(),
            views(parts@) == rewrite_words(words@, *ctx).take(k as int),
        decreases words@.len() - k,
    {
        let ghost before = parts@;
        parts.push(rewrite_shell_word(&chars_of(words[k].as_str()), ctx));
        proof {
            lemma_views_push(before, parts@.last());
        }
        assert(views(parts@) =~= rewrite_words(words@, *ctx).take(k + 1));
        k += 1;
    }
    assert(rewrite_words(words@, *ctx).take(k as int) =~= rewrite_words(words@, *ctx));
    join_lit(&parts, sep)
}

/// Arithmetic text with variable names, `$name` and `${name}` of declared variables as
/// markers, quoted parts and escaped characters left alone.
pub open spec fn rewrite_arith_from(s: Seq<char>, i: int, ctx: RenderContext, sq: bool, dq: bool, esc: bool) -> Seq<char>
    decreases s.len() - i,
{
    if i < 0 || i >= s.len() {
        seq![]
    } else {
        let c = s[i];
        if esc {
            seq![c] + rewrite_arith_from(s, i + 1, ctx, sq, dq, false)
        } else if c == '\\' {
            seq![c] + rewrite_arith_from(s, i + 1, ctx, sq, dq, true)
        } else if c == '\'' && !dq {
            seq![c] + rewrite_arith_from(s, i + 1, ctx, !sq, dq, false)
        } else if c == '"' && !sq {
            seq![c] + rewrite_arith_from(s, i + 1, ctx, sq, !dq, false)
        } else if sq || dq {
            seq![c] + rewrite_arith_from(s, i + 1, ctx, sq, dq, false)
        } else if c == '$' && i + 1 < s.len() && s[i + 1] == '{' && i + 2 <= find_char_from(s, i + 2, '}') < s.len() {
            let j = find_char_from(s, i + 2, '}');
            let name = s.subrange(i + 2, j);
            (match var_of(ctx, name) {
                Some(a) => spec_placeholder(a),
                None => "${"@ + name + "}"@,
            }) + rewrite_arith_from(s, j + 1, ctx, sq, dq, false)
        } else if c == '$' && i + 1 < s.len() && spec_is_word_start(s[i + 1]) && i + 2 <= word_end(s, i + 2) <= s.len() {
            let j = word_end(s, i + 2);
            let name = s.subrange(i + 1, j);
            (match var_of(ctx, name) {
                Some(a) => spec_placeholder(a),
                None => "$"@ + name,
            }) + rewrite_arith_from(s, j, ctx, sq, dq, false)
        } else if spec_is_word_start(c) && i + 1 <= word_end(s, i + 1) <= s.len() {
            let j = word_end(s, i + 1);
            rewrite_word(s.subrange(i, j), ctx) + rewrite_arith_from(s, j, ctx, sq, dq, false)
        } else {
            seq![c] + rewrite_arith_from(s, i + 1, ctx, sq, dq, false)
        }
    }
}

proof fn lemma_find_char_hits(s: Seq<char>, i: int, c: char)
    requires
        0 <= i,
    ensures
        find_char_from(s, i, c) < s.len() ==> s[find_char_from(s, i, c)] == c,
    decreases s.len() - i,
{
    if i < s.len() && s[i] != c {
        lemma_find_char_hits(s, i + 1, c);
    }
}

/// With no variable declared, rewriting words leaves each as it is.
pub proof fn lemma_rewrite_words_unchanged(ws: Seq<String>, ctx: RenderContext)
    requires
        forall|n: Seq<char>| #[trigger] var_of(ctx, n) is None,
    ensures
        rewrite_words(ws, ctx).len() == ws.len(),
        forall|k: int| 0 <= k < ws.len() ==> #[trigger] rewrite_words(ws, ctx)[k] == ws[k]@,
{
    assert forall|k: int| 0 <= k < ws.len() implies #[trigger] rewrite_words(ws, ctx)[k] == ws[k]@ by {
        assert(var_of(ctx, ws[k]@) is None);
    }
}

/// With no variable declared, rewriting arithmetic text leaves it as it is.
pub proof fn lemma_rewrite_arith_unchanged(s: Seq<char>, i: int, ctx: RenderContext, sq: bool, dq: bool, esc: bool)
    requires
        forall|n: Seq<char>| #[trigger] var_of(ctx, n) is None,
        0 <= i <= s.len(),
    ensures
        rewrite_arith_from(s, i, ctx, sq, dq, esc) == s.subrange(i, s.len() as int),
    decreases s.len() - i,
{
    let n = s.len() as int;
    if i < n {
        let c = s[i];
        if esc {
            lemma_rewrite_arith_unchanged(s, i + 1, ctx, sq, dq, false);
            assert(seq![c] + s.subrange(i + 1, n) =~= s.subrange(i, n));
        } else if c == '\\' {
            lemma_rewrite_arith_unchanged(s, i + 1, ctx, sq, dq, true);
            assert(seq![c] + s.subrange(i + 1, n) =~= s.subrange(i, n));
        } else if c == '\'' && !dq {
            lemma_rewrite_arith_unchanged(s, i + 1, ctx, !sq, dq, false);
            assert(seq![c] + s.subrange(i + 1, n) =~= s.subrange(i, n));
        } else if c == '"' && !sq {
            lemma_rewrite_arith_unchanged(s, i + 1, ctx, sq, !dq, false);
            assert(seq![c] + s.subrange(i + 1, n) =~= s.subrange(i, n));
        } else if sq || dq {
            lemma_rewrite_arith_unchanged(s, i + 1, ctx, sq, dq, false);
            assert(seq![c] + s.subrange(i + 1, n) =~= s.subrange(i, n));
        } else if c == '$' && i + 1 < n && s[i + 1] == '{' && i + 2 <= find_char_from(s, i + 2, '}') < n {
            let j = find_char_from(s, i + 2, '}');
            let name = s.subrange(i + 2, j);
            lemma_find_char_hits(s, i + 2, '}');
            lemma_rewrite_arith_unchanged(s, j + 1, ctx, sq, dq, false);
            assert(var_of(ctx, name) is None);
            reveal_strlit("${");
            reveal_strlit("}");
            assert(("${"@ + name + "}"@) + s.subrange(j + 1, n) =~= s.subrange(i, n));
        } else if c == '$' && i + 1 < n && spec_is_word_start(s[i + 1]) && i + 2 <= word_end(s, i + 2) <= n {
            let j = word_end(s, i + 2);
            let name = s.subrange(i + 1, j);
            lemma_rewrite_arith_unchanged(s, j, ctx, sq, dq, false);
            assert(var_of(ctx, name) is None);
            reveal_strlit("$");
            assert(("$"@ + name) + s.subrange(j, n) =~= s.subrange(i, n));
        } else if spec_is_word_start(c) && i + 1 <= word_end(s, i + 1) <= n {
            let j = word_end(s, i + 1);
            lemma_rewrite_arith_unchanged(s, j, ctx, sq, dq, false);
            assert(var_of(ctx, s.subrange(i, j)) is None);
            assert(s.subrange(i, j) + s.subrange(j, n) =~= s.subrange(i, n));
        } else {
            lemma_rewrite_arith_unchanged(s, i + 1, ctx, sq, dq, false);
            assert(seq![c] + s.subrange(i + 1, n) =~= s.subrange(i, n));
        }
    }
}

fn rewrite_arithmetic_expression(expression: &[char], ctx: &RenderContext) -> (r: Vec<char>)
    requires
        ctx.wf(),
    ensures
        r@ == rewrite_arith_from(expression@, 0, *ctx, false, false, false),
{
    let s = expression;
    let n = s.len();
    let mut out: Vec<char> = Vec::new();
    let mut i: usize = 0;
    let mut in_single = false;
    let mut in_double = false;
    let mut escaped = false;
    while i < n
        invariant
            ctx.wf(),
            s == expression,
            n == s@.len(),
            i <= n,
            out@ + rewrite_arith_from(s@, i as int, *ctx, in_single, in_double, escaped)
                == rewrite_arith_from(s@, 0, *ctx, false, false, false),
        decreases n - i,
    {
        let ghost o = out@;
        let ghost (sq0, dq0, esc0, i0) = (in_single, in_double, escaped, i as int);
        let ch = s[i];
        if escaped {
            out.push(ch);
            escaped = false;
            i += 1;
        } else if ch == '\\' {
            out.push(ch);
            escaped = true;
            i += 1;
        } else if ch == '\'' && !in_double {
            in_single = !in_single;
            out.push(ch);
            i += 1;
        } else if ch == '"' && !in_single {
            in_double = !in_double;
            out.push(ch);
            i += 1;
        } else if in_single || in_double {
            out.push(ch);
            i += 1;
        } else if ch == '$' && i + 1 < n && s[i + 1] == '{' && find_char_exec(s, i + 2, '}') < n {
            let j = find_char_exec(s, i + 2, '}');
            let name = slice_vec(s, i + 2, j);
            match ctx.var_chars(&name) {
                Some(alias) => push_all(&mut out, &nameof_placeholder(&alias)),
                None => {
                    push_str(&mut out, "${");
                    push_all(&mut out, &name);
                    push_str(&mut out, "}");
                },
            }
            i = j + 1;
        } else if ch == '$' && i + 1 < n && is_word_start(s[i + 1]) {
            let j = word_end_exec(s, i + 2);
            let name = slice_vec(s, i + 1, j);
            match ctx.var_chars(&name) {
                Some(alias) => push_all(&mut out, &nameof_placeholder(&alias)),
                None => {
                    push_str(&mut out, "$");
                    push_all(&mut out, &name);
                },
            }
            i = j;
        } else if is_word_start(ch) {
            let j = word_end_exec(s, i + 1);
            let name = slice_vec(s, i, j);
            push_all(&mut out, &rewrite_shell_word(&name, ctx));
            i = j;
        } else {
            out.push(ch);
            i += 1;
        }
        assert(out@ + rewrite_arith_from(s@, i as int, *ctx, in_single, in_double, escaped)
            =~= o + rewrite_arith_from(s@, i0, *ctx, sq0, dq0, esc0)) by {
            reveal_strlit("${");
            reveal_strlit("}");
            reveal_strlit("$");
        }
    }
    assert(out@ + rewrite_arith_from(s@, i as int, *ctx, in_single, in_double, escaped) =~= out@);
    out
}

/// The separator that follows a rendered command in a block: a space after a background
/// command, else `; `.
pub open spec fn block_separator(prev: Seq<char>) -> Seq<char> {
    if spec_ends_with(spec_trim_end(prev), "&"@) {
        " "@
    } else {
        "; "@
    }
}

/// Rendered commands of a block, each followed by its separator but the last.
pub open spec fn join_shell(parts: Seq<Seq<char>>) -> Seq<char>
    decreases parts.len(),
{
    if parts.len() == 0 {
        seq![]
    } else if parts.len() == 1 {
        parts[0]
    } else {
        join_shell(parts.drop_last()) + block_separator(parts[parts.len() - 2]) + parts.last()
    }
}

/// The case terminator as written after a clause.
pub open spec fn terminator_text(t: CaseClauseTerminator) -> Seq<char> {
    match t {
        CaseClauseTerminator::Break => " ;;"@,
        CaseClauseTerminator::Fallthrough => " ;&"@,
        CaseClauseTerminator::TestNext => " ;;&"@,
        CaseClauseTerminator::End => seq![],
    }
}

/// `patterns)` or `patterns) body`, followed by the terminator.
pub open spec fn clause_text(patterns: Seq<char>, body: Seq<char>, t: CaseClauseTerminator) -> Seq<char> {
    if body.len() == 0 {
        patterns + ")"@ + terminator_text(t)
    } else {
        patterns + ") "@ + body + terminator_text(t)
    }
}

/// The shell text of a command, with declared variables as markers.
pub open spec fn shell_of(c: Command, ctx: RenderContext) -> Seq<char>
    decreases c,
{
    match c {
        Command::Simple(s) => join(rewrite_words(s.words@, ctx), " "@),
        Command::Background(inner) => shell_of(*inner, ctx) + " &"@,
        Command::Arithmetic(a) => "(( "@ + rewrite_arith_from(a.expression@, 0, ctx, false, false, false) + " ))"@,
        Command::Connection(conn) => shell_of(*conn.left, ctx) + " "@ + (match conn.op {
            Connector::Pipe => "|"@,
            Connector::And => "&&"@,
            Connector::Or => "||"@,
        }) + " "@ + shell_of(*conn.right, ctx),
        Command::If(i) => match i.else_body {
            Some(b) => "if "@ + shell_of(*i.condition, ctx) + "; then "@ + join_shell(shell_list(i.then_body@, ctx)) + "; else "@
                + join_shell(shell_list(b@, ctx)) + "; fi"@,
            None => "if "@ + shell_of(*i.condition, ctx) + "; then "@ + join_shell(shell_list(i.then_body@, ctx)) + "; fi"@,
        },
        Command::While(w) => "while "@ + shell_of(*w.condition, ctx) + "; do "@ + join_shell(shell_list(w.body@, ctx)) + "; done"@,
        Command::For(f) => "for "@ + f.variable@ + " in "@ + join(rewrite_words(f.items@, ctx), " "@) + "; do "@
            + join_shell(shell_list(f.body@, ctx)) + "; done"@,
        Command::CStyleFor(f) => "for (( "@ + f.init@ + "; "@ + f.condition@ + "; "@ + f.update@ + " )); do "@
            + join_shell(shell_list(f.body@, ctx)) + "; done"@,
        Command::Case(cc) => "case "@ + rewrite_word(cc.word@, ctx) + " in "@ + join(clause_list(cc.clauses@, ctx), " "@) + " esac"@,
        Command::Function(f) => f.name@ + "() { "@ + join_shell(shell_list(f.body@, ctx)) + "; }"@,
        Command::Group(b) => "{ "@ + join_shell(shell_list(b@, ctx)) + "; }"@,
    }
}

pub open spec fn shell_list(cs: Seq<Command>, ctx: RenderContext) -> Seq<Seq<char>>
    decreases cs,
{
    if cs.len() == 0 {
        seq![]
    } else {
        shell_list(cs.drop_last(), ctx).push(shell_of(cs.last(), ctx))
    }
}

pub open spec fn clause_list(cl: Seq<CaseClause>, ctx: RenderContext) -> Seq<Seq<char>>
    decreases cl,
{
    if cl.len() == 0 {
        seq![]
    } else {
        let c = cl.last();
        clause_list(cl.drop_last(), ctx).push(
            clause_text(join(rewrite_words(c.patterns@, ctx), "|"@), join_shell(shell_list(c.body@, ctx)), c.terminator),
        )
    }
}

fn join_shell_exec(parts: &Vec<Vec<char>>) -> (r: Vec<char>)
    ensures
        r@ == join_shell(views(parts@)),
{
    let mut out: Vec<char> = Vec::new();
    let mut k: usize = 0;
    while k < parts.len()
        invariant
            k <= parts@.len(),
            out@ == join_shell(views(parts@).take(k as int)),
        decreases parts@.len() - k,
    {
        assert(views(parts@).take(k + 1).drop_last() =~= views(parts@).take(k as int));
        if k > 0 {
            let prev = trim_end(&parts[k - 1]);
            if ends_with_lit(&prev, "&") {
                push_str(&mut out, " ");
            } else {
                push_str(&mut out, "; ");
            }
        } else {
            assert(views(parts@).take(0) =~= seq![]);
        }
        push_all(&mut out, &parts[k]);
        k += 1;
    }
    assert(views(parts@).take(k as int) =~= views(parts@));
    out
}

fn render_shell_block_with_nameof(commands: &Vec<Command>, ctx: &RenderContext) -> (r: Vec<char>)
    requires
        ctx.wf(),
    ensures
        r@ == join_shell(shell_list(commands@, *ctx)),
    decreases commands@,
{
    let mut parts: Vec<Vec<char>> = Vec::new();
    let mut k: usize = 0;
    while k < commands.len()
        invariant
            ctx.wf(),
            k <= commands@.len(),
            views(parts@) == shell_list(commands@.take(k as int), *ctx),
        decreases commands@.len() - k,
    {
        assert(commands@.take(k + 1).drop_last() =~= commands@.take(k as int));
        let ghost before = parts@;
        parts.push(render_shell_command_with_nameof(&commands[k], ctx));
        proof {
            lemma_views_push(before, parts@.last());
        }
        k += 1;
    }
    assert(commands@.take(k as int) =~= commands@);
    join_shell_exec(&parts)
}

fn render_case_clauses(clauses: &Vec<CaseClause>, ctx: &RenderContext) -> (r: Vec<char>)
    requires
        ctx.wf(),
    ensures
        r@ == join(clause_list(clauses@, *ctx), " "@),
    decreases clauses@,
{
    let mut parts: Vec<Vec<char>> = Vec::new();
    let mut k: usize = 0;
    while k < clauses.len()
        invariant
            ctx.wf(),
            k <= clauses@.len(),
            views(parts@) == clause_list(clauses@.take(k as int), *ctx),
        decreases clauses@.len() - k,
    {
        assert(clauses@.take(k + 1).drop_last() =~= clauses@.take(k as int));
        let clause = &clauses[k];
        let patterns = rewrite_joined(&clause.patterns, "|", ctx);
        let body = render_shell_block_with_nameof(&clause.body, ctx);
        let mut text = patterns;
        if body.len() == 0 {
            push_str(&mut text, ")");
        } else {
            push_str(&mut text, ") ");
            push_all(&mut text, &body);
        }
        match clause.terminator {
            CaseClauseTerminator::Break => push_str(&mut text, " ;;"),
            CaseClauseTerminator::Fallthrough => push_str(&mut text, " ;&"),
            CaseClauseTerminator::TestNext => push_str(&mut text, " ;;&"),
            CaseClauseTerminator::End => {},
        }
        let ghost before = parts@;
        parts.push(text);
        proof {
            lemma_views_push(before, parts@.last());
            assert(parts@.last()@ =~= clause_text(join(rewrite_words(clause.patterns@, *ctx), "|"@), body@, clause.terminator));
        }
        k += 1;
    }
    assert(clauses@.take(k as int) =~= clauses@);
    join_lit(&parts, " ")
}

pub fn render_shell_command_with_nameof(command: &Command, ctx: &RenderContext) -> (r: Vec<char>)
    requires
        ctx.wf(),
    ensures
        r@ == shell_of(*command, *ctx),
    decreases *command,
{
    match command {
        Command::Simple(simple) => rewrite_joined(&simple.words, " ", ctx),
        Command::Background(inner) => {
            let mut out = render_shell_command_with_nameof(inner, ctx);
            push_str(&mut out, " &");
            out
        },
        Command::Arithmetic(arith) => {
            let mut out = chars_of("(( ");
            push_all(&mut out, &rewrite_arithmetic_expression(&chars_of(arith.expression.as_str()), ctx));
            push_str(&mut out, " ))");
            out
        },
        Command::Connection(connection) => {
            let mut out = render_shell_command_with_nameof(&connection.left, ctx);
            match connection.op {
                Connector::Pipe => push_str(&mut out, " | "),
                Connector::And => push_str(&mut out, " && "),
                Connector::Or => push_str(&mut out, " || "),
            }
            push_all(&mut out, &render_shell_command_with_nameof(&connection.right, ctx));
            proof {
                reveal_strlit(" ");
                reveal_strlit(" | ");
                reveal_strlit(" && ");
                reveal_strlit(" || ");
                reveal_strlit("|");
                reveal_strlit("&&");
                reveal_strlit("||");
            }
            out
        },
        Command::If(if_cmd) => {
            let mut out = chars_of("if ");
            push_all(&mut out, &render_shell_command_with_nameof(&if_cmd.condition, ctx));
            push_str(&mut out, "; then ");
            push_all(&mut out, &render_shell_block_with_nameof(&if_cmd.then_body, ctx));
            match &if_cmd.else_body {
                Some(else_body) => {
                    push_str(&mut out, "; else ");
                    push_all(&mut out, &render_shell_block_with_nameof(else_body, ctx));
                    push_str(&mut out, "; fi");
                },
                None => push_str(&mut out, "; fi"),
            }
            out
        },
        Command::While(while_cmd) => {
            let mut out = chars_of("while ");
            push_all(&mut out, &render_shell_command_with_nameof(&while_cmd.condition, ctx));
            push_str(&mut out, "; do ");
            push_all(&mut out, &render_shell_block_with_nameof(&while_cmd.body, ctx));
            push_str(&mut out, "; done");
            out
        },
        Command::For(for_cmd) => {
            let mut out = chars_of("for ");
            push_all(&mut out, &chars_of(for_cmd.variable.as_str()));
            push_str(&mut out, " in ");
            push_all(&mut out, &rewrite_joined(&for_cmd.items, " ", ctx));
            push_str(&mut out, "; do ");
            push_all(&mut out, &render_shell_block_with_nameof(&for_cmd.body, ctx));
            push_str(&mut out, "; done");
            out
        },
        Command::CStyleFor(for_cmd) => {
            let mut out = chars_of("for (( ");
            push_all(&mut out, &chars_of(for_cmd.init.as_str()));
            push_str(&mut out, "; ");
            push_all(&mut out, &chars_of(for_cmd.condition.as_str()));
            push_str(&mut out, "; ");
            push_all(&mut out, &chars_of(for_cmd.update.as_str()));
            push_str(&mut out, " )); do ");
            push_all(&mut out, &render_shell_block_with_nameof(&for_cmd.body, ctx));
            push_str(&mut out, "; done");
            out
        },
        Command::Case(case_cmd) => {
            let mut out = chars_of("case ");
            push_all(&mut out, &rewrite_shell_word(&chars_of(case_cmd.word.as_str()), ctx));
            push_str(&mut out, " in ");
            push_all(&mut out, &render_case_clauses(&case_cmd.clauses, ctx));
            push_str(&mut out, " esac");
            out
        },
        Command::Function(function) => {
            let mut out = chars_of(function.name.as_str());
            push_str(&mut out, "() { ");
            push_all(&mut out, &render_shell_block_with_nameof(&function.body, ctx));
            push_str(&mut out, "; }");
            out
        },
        Command::Group(body) => {
            let mut out = chars_of("{ ");
            push_all(&mut out, &render_shell_block_with_nameof(body, ctx));
            push_str(&mut out, "; }");
            out
        },
    }
}

/// The `trust $ .. $` command that runs `command` as shell text.
pub open spec fn spec_literal_from_command(command: Command, ctx: RenderContext) -> Seq<char> {
    spec_literal_from_shell(spec_trim(shell_of(command, ctx)))
}

pub fn command_literal_from_command(command: &Command, ctx: &RenderContext) -> (r: Vec<char>)
    requires
        ctx.wf(),
    ensures
        r@ == spec_literal_from_command(*command, *ctx),
{
    let shell = render_shell_command_with_nameof(command, ctx);
    command_literal_from_shell(&trim(&shell))
}

} // verus!
