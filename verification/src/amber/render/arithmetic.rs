//! Bash arithmetic (`(( .. ))` and `$(( .. ))`) as Amber expressions.
use vstd::prelude::*;

use super::context::{pos_of, same_but_vars, var_of, RenderContext};
use crate::text::{
    lemma_views_push, chars_of, digits_end, digits_end_exec, eq_lit, find_char_exec, find_char_from,
    is_ascii_digit, is_identifier, is_whitespace, is_word_start, join, join_lit, parse_usize,
    push_all, push_str, slice_vec, spec_is_ascii_digit, spec_is_identifier, spec_is_whitespace,
    spec_is_word_start, spec_parse_usize, spec_split_once, spec_strip_prefix, spec_strip_suffix,
    spec_strip_whitespace, spec_trim, split_once_lit, strip_prefix_lit, strip_suffix_lit,
    strip_whitespace, to_vec, trim, views, word_end, word_end_exec,
};

verus! {

// ---------------------------------------------------------------------------
// Tokens
// ---------------------------------------------------------------------------

/// The first index at or after `i` that holds neither a digit nor `.`, or the length.
pub open spec fn number_end(s: Seq<char>, i: int) -> int
    decreases s.len() - i,
{
    if i >= s.len() {
        s.len() as int
    } else if !(spec_is_ascii_digit(s[i]) || s[i] == '.') {
        i
    } else {
        number_end(s, i + 1)
    }
}

proof fn lemma_number_end(s: Seq<char>, i: int, j: int)
    requires
        0 <= i <= j <= s.len(),
        forall|k: int| i <= k < j ==> spec_is_ascii_digit(s[k]) || s[k] == '.',
        j == s.len() || !(spec_is_ascii_digit(s[j]) || s[j] == '.'),
    ensures
        number_end(s, i) == j,
    decreases j - i,
{
    if i < j {
        lemma_number_end(s, i + 1, j);
    }
}

/// A two-character operator that Bash arithmetic knows.
pub open spec fn is_pair_operator(p: Seq<char>) -> bool {
    p == "++"@ || p == "--"@ || p == "**"@ || p == "<<"@ || p == ">>"@ || p == "<="@ || p == ">="@
        || p == "=="@ || p == "!="@ || p == "&&"@ || p == "||"@ || p == "+="@ || p == "-="@
        || p == "*="@ || p == "/="@ || p == "%="@ || p == "&="@ || p == "|="@ || p == "^="@
}

/// A one-character operator that Bash arithmetic knows.
pub open spec fn is_single_operator(p: Seq<char>) -> bool {
    p == "+"@ || p == "-"@ || p == "*"@ || p == "/"@ || p == "%"@ || p == "("@ || p == ")"@
        || p == "<"@ || p == ">"@ || p == "="@ || p == "!"@ || p == "&"@ || p == "|"@ || p == "^"@
        || p == "~"@ || p == "?"@ || p == ":"@ || p == ","@
}

/// The length of the longest operator at `i` (three, two or one characters), or 0.
pub open spec fn operator_len(s: Seq<char>, i: int) -> int {
    if 0 <= i && i + 3 <= s.len() && (s.subrange(i, i + 3) == "<<="@ || s.subrange(i, i + 3) == ">>="@) {
        3
    } else if 0 <= i && i + 2 <= s.len() && is_pair_operator(s.subrange(i, i + 2)) {
        2
    } else if 0 <= i && i + 1 <= s.len() && is_single_operator(s.subrange(i, i + 1)) {
        1
    } else {
        0
    }
}

/// The Amber form of a Bash arithmetic operator, where Amber has one.
pub open spec fn spec_normalize_operator(op: Seq<char>) -> Option<Seq<char>> {
    if op == "+"@ || op == "-"@ || op == "*"@ || op == "/"@ || op == "%"@ || op == "("@ || op == ")"@
        || op == "<"@ || op == ">"@ || op == "<="@ || op == ">="@ || op == "=="@ || op == "!="@
        || op == "?"@ || op == ":"@ {
        Some(op)
    } else if op == "&&"@ {
        Some("and"@)
    } else if op == "||"@ {
        Some("or"@)
    } else if op == "!"@ {
        Some("not"@)
    } else {
        None
    }
}

/// What a Bash arithmetic `&&` or `||` makes of two truth values; `None` for other text.
pub open spec fn bash_logic(op: Seq<char>, a: bool, b: bool) -> Option<bool> {
    if op == "&&"@ {
        Some(a && b)
    } else if op == "||"@ {
        Some(a || b)
    } else {
        None
    }
}

/// What an Amber `and` or `or` makes of two truth values; `None` for other text.
pub open spec fn amber_logic(op: Seq<char>, a: bool, b: bool) -> Option<bool> {
    if op == "and"@ {
        Some(a && b)
    } else if op == "or"@ {
        Some(a || b)
    } else {
        None
    }
}

/// What a Bash arithmetic comparison asks of two integers; `None` for other text.
pub open spec fn bash_arith_comparison(op: Seq<char>, x: int, y: int) -> Option<bool> {
    if op == "<"@ {
        Some(x < y)
    } else if op == ">"@ {
        Some(x > y)
    } else if op == "<="@ {
        Some(x <= y)
    } else if op == ">="@ {
        Some(x >= y)
    } else if op == "=="@ {
        Some(x == y)
    } else if op == "!="@ {
        Some(x != y)
    } else {
        None
    }
}

proof fn lemma_operator_literals()
    ensures
        "&&"@.len() == 2 && "&&"@[0] == '&',
        "||"@.len() == 2 && "||"@[0] == '|',
        "and"@.len() == 3 && "and"@[0] == 'a',
        "or"@.len() == 2 && "or"@[0] == 'o',
        "not"@.len() == 3 && "not"@[0] == 'n',
        "!"@.len() == 1 && "!"@[0] == '!',
        "<"@.len() == 1 && "<"@[0] == '<',
        ">"@.len() == 1 && ">"@[0] == '>',
        "<="@.len() == 2 && "<="@[0] == '<',
        ">="@.len() == 2 && ">="@[0] == '>',
        "=="@.len() == 2 && "=="@[0] == '=',
        "!="@.len() == 2 && "!="@[0] == '!',
        "+"@.len() == 1 && "+"@[0] == '+',
        "-"@.len() == 1 && "-"@[0] == '-',
        "*"@.len() == 1 && "*"@[0] == '*',
        "/"@.len() == 1 && "/"@[0] == '/',
        "%"@.len() == 1 && "%"@[0] == '%',
        "("@.len() == 1 && "("@[0] == '(',
        ")"@.len() == 1 && ")"@[0] == ')',
        "?"@.len() == 1 && "?"@[0] == '?',
        ":"@.len() == 1 && ":"@[0] == ':',
{
    reveal_strlit("&&");
    reveal_strlit("||");
    reveal_strlit("and");
    reveal_strlit("or");
    reveal_strlit("not");
    reveal_strlit("!");
    reveal_strlit("<");
    reveal_strlit(">");
    reveal_strlit("<=");
    reveal_strlit(">=");
    reveal_strlit("==");
    reveal_strlit("!=");
    reveal_strlit("+");
    reveal_strlit("-");
    reveal_strlit("*");
    reveal_strlit("/");
    reveal_strlit("%");
    reveal_strlit("(");
    reveal_strlit(")");
    reveal_strlit("?");
    reveal_strlit(":");
}

/// Bash's `&&` and `||` become the Amber operators that combine truth values the same way:
/// `&&` is `and`, `||` is `or`.
pub proof fn lemma_logic_operator_keeps_meaning(op: Seq<char>)
    requires
        bash_logic(op, true, true) is Some,
    ensures
        spec_normalize_operator(op) matches Some(t) && forall|a: bool, b: bool|
            #[trigger] amber_logic(t, a, b) == bash_logic(op, a, b),
{
    lemma_operator_literals();
    assert(op.len() == 2);
}

/// Bash's `!` becomes Amber's `not`, which negates.
pub proof fn lemma_negation_keeps_meaning(op: Seq<char>)
    requires
        op.len() == 1 && op[0] == '!',
    ensures
        spec_normalize_operator(op) matches Some(t) && t.len() == 3 && t[0] == 'n' && t[1] == 'o' && t[2] == 't',
{
    lemma_operator_literals();
    reveal_strlit("not");
    assert(op == "!"@);
}

/// A Bash arithmetic comparison stays an Amber comparison that holds of exactly the same
/// pairs of numbers.
pub proof fn lemma_arith_comparison_keeps_meaning(op: Seq<char>)
    requires
        bash_arith_comparison(op, 0, 0) is Some,
    ensures
        spec_normalize_operator(op) matches Some(t) && forall|x: int, y: int|
            #[trigger] super::word::amber_comparison(t, x, y) == bash_arith_comparison(op, x, y),
{
    lemma_operator_literals();
    assert(spec_normalize_operator(op) == Some(op));
}

/// The operators that Bash arithmetic and Amber write alike stay as they are.
pub proof fn lemma_shared_operators_unchanged(op: Seq<char>)
    requires
        op == "+"@ || op == "-"@ || op == "*"@ || op == "/"@ || op == "%"@ || op == "("@ || op == ")"@
            || op == "?"@ || op == ":"@ || bash_arith_comparison(op, 0, 0) is Some,
    ensures
        spec_normalize_operator(op) == Some(op),
{
    lemma_operator_literals();
}

/// `Some(seq![t] + rest)` when `rest` is there.
pub open spec fn cons_token(t: Seq<char>, rest: Option<Seq<Seq<char>>>) -> Option<Seq<Seq<char>>> {
    match rest {
        Some(r) => Some(seq![t] + r),
        None => None,
    }
}

/// `Some(p + rest)` when `rest` is there.
pub open spec fn prefix_tokens(p: Seq<Seq<char>>, rest: Option<Seq<Seq<char>>>) -> Option<Seq<Seq<char>>> {
    match rest {
        Some(r) => Some(p + r),
        None => None,
    }
}

/// The Amber tokens of the arithmetic text `s` from index `i`: numbers as they are, names
/// and `$name`, `${name}`, `$k`, `${k}` by their Amber names, `and`/`or`/`not` as they are,
/// operators in Amber form. `None` when a name is not declared or a character has no meaning.
pub open spec fn arith_tokens_from(s: Seq<char>, i: int, ctx: RenderContext) -> Option<Seq<Seq<char>>>
    decreases s.len() - i,
{
    if i < 0 || i >= s.len() {
        Some(seq![])
    } else if spec_is_whitespace(s[i]) {
        arith_tokens_from(s, i + 1, ctx)
    } else if spec_is_ascii_digit(s[i]) {
        let j = number_end(s, i + 1);
        if j <= i || j > s.len() {
            None
        } else {
            cons_token(s.subrange(i, j), arith_tokens_from(s, j, ctx))
        }
    } else if spec_is_word_start(s[i]) {
        let j = word_end(s, i + 1);
        let name = s.subrange(i, j);
        let tok = if name == "and"@ || name == "or"@ || name == "not"@ {
            Some(name)
        } else {
            var_of(ctx, name)
        };
        if j <= i || j > s.len() {
            None
        } else {
            match tok {
                Some(t) => cons_token(t, arith_tokens_from(s, j, ctx)),
                None => None,
            }
        }
    } else if s[i] == '$' {
        if i + 1 >= s.len() {
            None
        } else if s[i + 1] == '{' {
            let j = find_char_from(s, i + 2, '}');
            if j >= s.len() || j <= i {
                None
            } else {
                let name = s.subrange(i + 2, j);
                let r = match spec_parse_usize(name) {
                    Some(index) => if index == 0 {
                        None
                    } else {
                        pos_of(ctx, index)
                    },
                    None => var_of(ctx, name),
                };
                match r {
                    Some(t) => cons_token(t, arith_tokens_from(s, j + 1, ctx)),
                    None => None,
                }
            }
        } else if spec_is_word_start(s[i + 1]) {
            let j = word_end(s, i + 2);
            if j <= i || j > s.len() {
                None
            } else {
                match var_of(ctx, s.subrange(i + 1, j)) {
                    Some(t) => cons_token(t, arith_tokens_from(s, j, ctx)),
                    None => None,
                }
            }
        } else if spec_is_ascii_digit(s[i + 1]) {
            let j = digits_end(s, i + 2);
            if j <= i || j > s.len() {
                None
            } else {
                match spec_parse_usize(s.subrange(i + 1, j)) {
                    Some(index) => if index == 0 {
                        None
                    } else {
                        match pos_of(ctx, index) {
                            Some(t) => cons_token(t, arith_tokens_from(s, j, ctx)),
                            None => None,
                        }
                    },
                    None => None,
                }
            }
        } else {
            None
        }
    } else {
        let k = operator_len(s, i);
        if k == 0 {
            None
        } else {
            match spec_normalize_operator(s.subrange(i, i + k)) {
                Some(t) => cons_token(t, arith_tokens_from(s, i + k, ctx)),
                None => None,
            }
        }
    }
}

fn normalize_arithmetic_operator(op: &[char]) -> (r: Option<Vec<char>>)
    ensures
        match r {
            Some(v) => spec_normalize_operator(op@) == Some(v@),
            None => spec_normalize_operator(op@) is None,
        },
{
    if eq_lit(op, "+") || eq_lit(op, "-") || eq_lit(op, "*") || eq_lit(op, "/") || eq_lit(op, "%")
        || eq_lit(op, "(") || eq_lit(op, ")") || eq_lit(op, "<") || eq_lit(op, ">") || eq_lit(op, "<=")
        || eq_lit(op, ">=") || eq_lit(op, "==") || eq_lit(op, "!=") || eq_lit(op, "?") || eq_lit(op, ":") {
        Some(to_vec(op))
    } else if eq_lit(op, "&&") {
        Some(chars_of("and"))
    } else if eq_lit(op, "||") {
        Some(chars_of("or"))
    } else if eq_lit(op, "!") {
        Some(chars_of("not"))
    } else {
        None
    }
}

/// The operator at `start`: its length, or 0 when none starts there.
fn parse_arithmetic_operator(chars: &[char], start: usize) -> (r: usize)
    requires
        start < chars@.len(),
    ensures
        r == operator_len(chars@, start as int),
{
    let remaining = chars.len() - start;
    if remaining >= 3 {
        let triple = slice_vec(chars, start, start + 3);
        if eq_lit(&triple, "<<=") || eq_lit(&triple, ">>=") {
            return 3;
        }
    }
    if remaining >= 2 {
        let p = slice_vec(chars, start, start + 2);
        if eq_lit(&p, "++") || eq_lit(&p, "--") || eq_lit(&p, "**") || eq_lit(&p, "<<") || eq_lit(&p, ">>")
            || eq_lit(&p, "<=") || eq_lit(&p, ">=") || eq_lit(&p, "==") || eq_lit(&p, "!=") || eq_lit(&p, "&&")
            || eq_lit(&p, "||") || eq_lit(&p, "+=") || eq_lit(&p, "-=") || eq_lit(&p, "*=") || eq_lit(&p, "/=")
            || eq_lit(&p, "%=") || eq_lit(&p, "&=") || eq_lit(&p, "|=") || eq_lit(&p, "^=") {
            return 2;
        }
    }
    let c = slice_vec(chars, start, start + 1);
    if eq_lit(&c, "+") || eq_lit(&c, "-") || eq_lit(&c, "*") || eq_lit(&c, "/") || eq_lit(&c, "%")
        || eq_lit(&c, "(") || eq_lit(&c, ")") || eq_lit(&c, "<") || eq_lit(&c, ">") || eq_lit(&c, "=")
        || eq_lit(&c, "!") || eq_lit(&c, "&") || eq_lit(&c, "|") || eq_lit(&c, "^") || eq_lit(&c, "~")
        || eq_lit(&c, "?") || eq_lit(&c, ":") || eq_lit(&c, ",") {
        return 1;
    }
    0
}

proof fn lemma_number_end_bounds(s: Seq<char>, i: int)
    requires
        0 <= i <= s.len(),
    ensures
        i <= number_end(s, i) <= s.len(),
    decreases s.len() - i,
{
    if i < s.len() {
        lemma_number_end_bounds(s, i + 1);
    }
}

fn number_end_exec(s: &[char], i: usize) -> (j: usize)
    requires
        i <= s@.len(),
    ensures
        j == number_end(s@, i as int),
        i <= j <= s@.len(),
{
    let mut j = i;
    while j < s.len() && (is_ascii_digit(s[j]) || s[j] == '.')
        invariant
            i <= j <= s@.len(),
            forall|k: int| i <= k < j ==> spec_is_ascii_digit(s@[k]) || s@[k] == '.',
        decreases s@.len() - j,
    {
        j += 1;
    }
    proof {
        lemma_number_end(s@, i as int, j as int);
    }
    j
}

/// The token that starts at `i`, which is not whitespace, and the index after it.
fn arith_token_at(s: &[char], i: usize, ctx: &RenderContext) -> (r: Option<(Vec<char>, usize)>)
    requires
        ctx.wf(),
        i < s@.len(),
        !spec_is_whitespace(s@[i as int]),
    ensures
        match r {
            Some((tok, next)) => i < next <= s@.len() && arith_tokens_from(s@, i as int, *ctx)
                == cons_token(tok@, arith_tokens_from(s@, next as int, *ctx)),
            None => arith_tokens_from(s@, i as int, *ctx) is None,
        },
{
    let ch = s[i];
    let mut tok: Vec<char> = Vec::new();
    let next: usize;
    if is_ascii_digit(ch) {
        let j = number_end_exec(s, i + 1);
        tok = slice_vec(s, i, j);
        next = j;
    } else if is_word_start(ch) {
        let j = word_end_exec(s, i + 1);
        let name = slice_vec(s, i, j);
        if eq_lit(&name, "and") || eq_lit(&name, "or") || eq_lit(&name, "not") {
            tok = name;
        } else {
            match ctx.var_chars(&name) {
                Some(t) => tok = t,
                None => {
                    assert(name@ == s@.subrange(i as int, j as int));
                    assert(j > i && j <= s@.len());
                    assert(arith_tokens_from(s@, i as int, *ctx) is None);
                    return None;
                },
            }
        }
        next = j;
    } else if ch == '$' {
        if i + 1 >= s.len() {
            return None;
        }
        if s[i + 1] == '{' {
            let j = find_char_exec(s, i + 2, '}');
            if j >= s.len() {
                return None;
            }
            let name = slice_vec(s, i + 2, j);
            let resolved = match parse_usize(&name) {
                Some(index) => if index == 0 {
                    None
                } else {
                    ctx.pos_chars(index)
                },
                None => ctx.var_chars(&name),
            };
            match resolved {
                Some(t) => tok = t,
                None => return None,
            }
            next = j + 1;
        } else if is_word_start(s[i + 1]) {
            let j = word_end_exec(s, i + 2);
            let name = slice_vec(s, i + 1, j);
            match ctx.var_chars(&name) {
                Some(t) => tok = t,
                None => return None,
            }
            next = j;
        } else if is_ascii_digit(s[i + 1]) {
            let j = digits_end_exec(s, i + 2);
            let digits = slice_vec(s, i + 1, j);
            match parse_usize(&digits) {
                Some(index) => {
                    if index == 0 {
                        return None;
                    }
                    match ctx.pos_chars(index) {
                        Some(t) => tok = t,
                        None => return None,
                    }
                },
                None => return None,
            }
            next = j;
        } else {
            return None;
        }
    } else {
        let k = parse_arithmetic_operator(s, i);
        if k == 0 {
            assert(!spec_is_whitespace(s@[i as int]));
            assert(arith_tokens_from(s@, i as int, *ctx) is None);
            return None;
        }
        let op = slice_vec(s, i, i + k);
        match normalize_arithmetic_operator(&op) {
            Some(t) => tok = t,
            None => return None,
        }
        next = i + k;
    }
    Some((tok, next))
}

/// The Amber tokens of an arithmetic text (see [`arith_tokens_from`]).
fn parse_arithmetic_tokens(value: &[char], ctx: &RenderContext) -> (r: Option<Vec<Vec<char>>>)
    requires
        ctx.wf(),
    ensures
        match r {
            Some(t) => arith_tokens_from(value@, 0, *ctx) == Some(views(t@)),
            None => arith_tokens_from(value@, 0, *ctx) is None,
        },
{
    let s = value;
    let mut tokens: Vec<Vec<char>> = Vec::new();
    let mut i: usize = 0;
    proof {
        assert(views(tokens@) =~= seq![]);
        assert(prefix_tokens(seq![], arith_tokens_from(s@, 0, *ctx)) == arith_tokens_from(s@, 0, *ctx)) by {
            match arith_tokens_from(s@, 0, *ctx) {
                Some(r) => assert(Seq::<Seq<char>>::empty() + r =~= r),
                None => {},
            }
        }
    }
    while i < s.len()
        invariant
            ctx.wf(),
            s == value,
            i <= s@.len(),
            arith_tokens_from(s@, 0, *ctx) == prefix_tokens(views(tokens@), arith_tokens_from(s@, i as int, *ctx)),
        decreases s@.len() - i,
    {
        if is_whitespace(s[i]) {
            i += 1;
            continue;
        }
        let ghost before = tokens@;
        let (tok, next) = match arith_token_at(s, i, ctx) {
            Some(p) => p,
            None => return None,
        };
        tokens.push(tok);
        proof {
            lemma_views_push(before, tok);
            match arith_tokens_from(s@, next as int, *ctx) {
                Some(r) => assert(views(before) + (seq![tok@] + r) =~= (views(before) + seq![tok@]) + r),
                None => {},
            }
        }
        i = next;
    }
    proof {
        match arith_tokens_from(s@, 0, *ctx) {
            Some(r) => assert(views(tokens@) + Seq::<Seq<char>>::empty() =~= views(tokens@)),
            None => {},
        }
    }
    Some(tokens)
}

// ---------------------------------------------------------------------------
// C-style ternaries
// ---------------------------------------------------------------------------

/// The first `?` at or after `i` outside parentheses, counting from nesting `depth`.
pub open spec fn top_question_from(t: Seq<Seq<char>>, i: int, depth: nat) -> Option<int>
    decreases t.len() - i,
{
    if i < 0 || i >= t.len() {
        None
    } else if t[i] == "("@ {
        top_question_from(t, i + 1, depth + 1)
    } else if t[i] == ")"@ {
        top_question_from(t, i + 1, if depth > 0 { (depth - 1) as nat } else { 0 })
    } else if t[i] == "?"@ && depth == 0 {
        Some(i)
    } else {
        top_question_from(t, i + 1, depth)
    }
}

/// The `:` at or after `i` that closes the `?` before it, counting parentheses and nested `?`.
pub open spec fn matching_colon_from(t: Seq<Seq<char>>, i: int, depth: nat, nested: nat) -> Option<int>
    decreases t.len() - i,
{
    if i < 0 || i >= t.len() {
        None
    } else if t[i] == "("@ {
        matching_colon_from(t, i + 1, depth + 1, nested)
    } else if t[i] == ")"@ {
        matching_colon_from(t, i + 1, if depth > 0 { (depth - 1) as nat } else { 0 }, nested)
    } else if t[i] == "?"@ && depth == 0 {
        matching_colon_from(t, i + 1, depth, nested + 1)
    } else if t[i] == ":"@ && depth == 0 {
        if nested == 0 {
            Some(i)
        } else {
            matching_colon_from(t, i + 1, depth, (nested - 1) as nat)
        }
    } else {
        matching_colon_from(t, i + 1, depth, nested)
    }
}

/// `c ? a : b` rewritten, at every level, as `c then a else b`; `None` when a `?` has no
/// condition, no branch, or no matching `:`.
pub open spec fn spec_convert_ternary(t: Seq<Seq<char>>) -> Option<Seq<Seq<char>>>
    decreases t.len(),
{
    if !t.contains("?"@) {
        Some(t)
    } else {
        match top_question_from(t, 0, 0) {
            None => None,
            Some(q) => match matching_colon_from(t, q + 1, 0, 0) {
                None => None,
                Some(c) => if q < 1 || c <= q + 1 || c + 1 >= t.len() {
                    None
                } else {
                    match (
                        spec_convert_ternary(t.subrange(0, q)),
                        spec_convert_ternary(t.subrange(q + 1, c)),
                        spec_convert_ternary(t.subrange(c + 1, t.len() as int)),
                    ) {
                        (Some(a), Some(b), Some(d)) => Some(a + seq!["then"@] + b + seq!["else"@] + d),
                        _ => None,
                    }
                },
            },
        }
    }
}

fn sub_tokens(t: &Vec<Vec<char>>, from: usize, to: usize) -> (r: Vec<Vec<char>>)
    requires
        from <= to <= t@.len(),
    ensures
        views(r@) == views(t@).subrange(from as int, to as int),
{
    let mut r: Vec<Vec<char>> = Vec::new();
    let mut k = from;
    while k < to
        invariant
            from <= k <= to <= t@.len(),
            views(r@) == views(t@).subrange(from as int, k as int),
        decreases to - k,
    {
        let ghost before = r@;
        r.push(to_vec(&t[k]));
        proof {
            lemma_views_push(before, r@.last());
        }
        assert(views(r@) =~= views(t@).subrange(from as int, k + 1));
        k += 1;
    }
    r
}

fn contains_token(t: &Vec<Vec<char>>, lit: &str) -> (r: bool)
    ensures
        r == views(t@).contains(lit@),
{
    let mut k: usize = 0;
    while k < t.len()
        invariant
            k <= t@.len(),
            forall|j: int| 0 <= j < k ==> views(t@)[j] != lit@,
        decreases t@.len() - k,
    {
        if eq_lit(&t[k], lit) {
            assert(views(t@)[k as int] == lit@);
            return true;
        }
        k += 1;
    }
    false
}

fn find_top_level_question(t: &Vec<Vec<char>>) -> (r: Option<usize>)
    ensures
        match r {
            Some(q) => top_question_from(views(t@), 0, 0) == Some(q as int) && q < t@.len(),
            None => top_question_from(views(t@), 0, 0) is None,
        },
{
    let ghost v = views(t@);
    let mut depth: usize = 0;
    let mut k: usize = 0;
    while k < t.len()
        invariant
            k <= t@.len(),
            depth <= k,
            v == views(t@),
            top_question_from(v, 0, 0) == top_question_from(v, k as int, depth as nat),
        decreases t@.len() - k,
    {
        if eq_lit(&t[k], "(") {
            depth += 1;
        } else if eq_lit(&t[k], ")") {
            if depth > 0 {
                depth -= 1;
            }
        } else if eq_lit(&t[k], "?") && depth == 0 {
            return Some(k);
        }
        k += 1;
    }
    None
}

fn find_matching_colon(t: &Vec<Vec<char>>, question: usize) -> (r: Option<usize>)
    requires
        question < t@.len(),
    ensures
        match r {
            Some(c) => matching_colon_from(views(t@), question + 1, 0, 0) == Some(c as int) && question < c < t@.len(),
            None => matching_colon_from(views(t@), question + 1, 0, 0) is None,
        },
{
    let ghost v = views(t@);
    let n = t.len();
    let mut depth: usize = 0;
    let mut nested: usize = 0;
    let mut k: usize = question + 1;
    while k < t.len()
        invariant
            question < k <= t@.len(),
            depth < k,
            nested < k,
            v == views(t@),
            matching_colon_from(v, question + 1, 0, 0) == matching_colon_from(v, k as int, depth as nat, nested as nat),
        decreases t@.len() - k,
    {
        if eq_lit(&t[k], "(") {
            depth += 1;
        } else if eq_lit(&t[k], ")") {
            if depth > 0 {
                depth -= 1;
            }
        } else if eq_lit(&t[k], "?") && depth == 0 {
            nested += 1;
        } else if eq_lit(&t[k], ":") && depth == 0 {
            if nested == 0 {
                return Some(k);
            }
            nested -= 1;
        }
        k += 1;
    }
    None
}

/// Rewrites C-style ternaries (see [`spec_convert_ternary`]).
fn convert_c_style_ternary_tokens(tokens: &Vec<Vec<char>>) -> (r: Option<Vec<Vec<char>>>)
    ensures
        match r {
            Some(u) => spec_convert_ternary(views(tokens@)) == Some(views(u@)),
            None => spec_convert_ternary(views(tokens@)) is None,
        },
    decreases tokens@.len(),
{
    let ghost v = views(tokens@);
    let n = tokens.len();
    if !contains_token(tokens, "?") {
        return Some(sub_tokens(tokens, 0, tokens.len()));
    }
    let question = match find_top_level_question(tokens) {
        Some(q) => q,
        None => return None,
    };
    let colon = match find_matching_colon(tokens, question) {
        Some(c) => c,
        None => return None,
    };
    if question == 0 || colon <= question + 1 || colon + 1 >= tokens.len() {
        return None;
    }
    let left = sub_tokens(tokens, 0, question);
    let middle = sub_tokens(tokens, question + 1, colon);
    let right = sub_tokens(tokens, colon + 1, tokens.len());
    assert(left@.len() == views(left@).len());
    assert(middle@.len() == views(middle@).len());
    assert(right@.len() == views(right@).len());
    let condition = match convert_c_style_ternary_tokens(&left) {
        Some(x) => x,
        None => return None,
    };
    let when_true = match convert_c_style_ternary_tokens(&middle) {
        Some(x) => x,
        None => return None,
    };
    let when_false = match convert_c_style_ternary_tokens(&right) {
        Some(x) => x,
        None => return None,
    };
    let mut result: Vec<Vec<char>> = Vec::new();
    let mut k: usize = 0;
    while k < condition.len()
        invariant
            k <= condition@.len(),
            views(result@) == views(condition@).take(k as int),
        decreases condition@.len() - k,
    {
        let ghost before = result@;
        result.push(to_vec(&condition[k]));
        proof {
            lemma_views_push(before, result@.last());
        }
        assert(views(result@) =~= views(condition@).take(k + 1));
        k += 1;
    }
    let ghost before = result@;
    result.push(chars_of("then"));
    proof {
        lemma_views_push(before, result@.last());
    }
    let ghost after_then = views(result@);
    let mut k: usize = 0;
    while k < when_true.len()
        invariant
            k <= when_true@.len(),
            views(result@) == after_then + views(when_true@).take(k as int),
        decreases when_true@.len() - k,
    {
        let ghost before = result@;
        result.push(to_vec(&when_true[k]));
        proof {
            lemma_views_push(before, result@.last());
        }
        assert(views(result@) =~= after_then + views(when_true@).take(k + 1));
        k += 1;
    }
    let ghost before = result@;
    result.push(chars_of("else"));
    proof {
        lemma_views_push(before, result@.last());
    }
    let ghost after_else = views(result@);
    let mut k: usize = 0;
    while k < when_false.len()
        invariant
            k <= when_false@.len(),
            views(result@) == after_else + views(when_false@).take(k as int),
        decreases when_false@.len() - k,
    {
        let ghost before = result@;
        result.push(to_vec(&when_false[k]));
        proof {
            lemma_views_push(before, result@.last());
        }
        assert(views(result@) =~= after_else + views(when_false@).take(k + 1));
        k += 1;
    }
    proof {
        assert(views(condition@).take(condition@.len() as int) =~= views(condition@));
        assert(views(when_true@).take(when_true@.len() as int) =~= views(when_true@));
        assert(views(when_false@).take(when_false@.len() as int) =~= views(when_false@));
        assert(views(result@) =~= views(condition@) + seq!["then"@] + views(when_true@) + seq!["else"@] + views(when_false@));
    }
    Some(result)
}

// ---------------------------------------------------------------------------
// Expressions
// ---------------------------------------------------------------------------

/// The Amber expression for the arithmetic text `s`: its tokens, ternaries rewritten,
/// separated by spaces; `None` when there are none or one cannot be rendered.
pub open spec fn spec_arith_expr(s: Seq<char>, ctx: RenderContext) -> Option<Seq<char>> {
    match arith_tokens_from(s, 0, ctx) {
        Some(t) => match spec_convert_ternary(t) {
            Some(u) => if u.len() == 0 {
                None
            } else {
                Some(join(u, " "@))
            },
            None => None,
        },
        None => None,
    }
}

pub fn parse_arithmetic_expression(value: &[char], ctx: &RenderContext) -> (r: Option<Vec<char>>)
    requires
        ctx.wf(),
    ensures
        match r {
            Some(v) => spec_arith_expr(value@, *ctx) == Some(v@),
            None => spec_arith_expr(value@, *ctx) is None,
        },
{
    let tokens = match parse_arithmetic_tokens(value, ctx) {
        Some(t) => t,
        None => return None,
    };
    let tokens = match convert_c_style_ternary_tokens(&tokens) {
        Some(t) => t,
        None => return None,
    };
    if tokens.len() == 0 {
        return None;
    }
    Some(join_lit(&tokens, " "))
}

/// The inside of `$(( .. ))`, trimmed, when `value` (trimmed) is one and it is not empty.
pub open spec fn arith_expansion_inner(value: Seq<char>) -> Option<Seq<char>> {
    match spec_strip_prefix(spec_trim(value), "$(("@) {
        Some(a) => match spec_strip_suffix(a, "))"@) {
            Some(b) => if spec_trim(b).len() == 0 {
                None
            } else {
                Some(spec_trim(b))
            },
            None => None,
        },
        None => None,
    }
}

pub open spec fn spec_arith_expansion(value: Seq<char>, ctx: RenderContext) -> Option<Seq<char>> {
    match arith_expansion_inner(value) {
        Some(inner) => spec_arith_expr(inner, ctx),
        None => None,
    }
}

/// The Amber expression for `$(( .. ))`.
pub fn parse_arithmetic_expansion(value: &[char], ctx: &RenderContext) -> (r: Option<Vec<char>>)
    requires
        ctx.wf(),
    ensures
        match r {
            Some(v) => spec_arith_expansion(value@, *ctx) == Some(v@),
            None => spec_arith_expansion(value@, *ctx) is None,
        },
{
    let trimmed = trim(value);
    let a = match strip_prefix_lit(&trimmed, "$((") {
        Some(a) => a,
        None => return None,
    };
    let b = match strip_suffix_lit(&a, "))") {
        Some(b) => b,
        None => return None,
    };
    let inner = trim(&b);
    if inner.len() == 0 {
        return None;
    }
    parse_arithmetic_expression(&inner, ctx)
}

// ---------------------------------------------------------------------------
// Whitespace-separated words
// ---------------------------------------------------------------------------

/// `str::split_whitespace` from index `i`, with `cur` the word begun so far.
pub open spec fn ws_split_from(s: Seq<char>, i: int, cur: Seq<char>) -> Seq<Seq<char>>
    decreases s.len() - i,
{
    if i < 0 || i >= s.len() {
        if cur.len() > 0 {
            seq![cur]
        } else {
            seq![]
        }
    } else if spec_is_whitespace(s[i]) {
        if cur.len() > 0 {
            seq![cur] + ws_split_from(s, i + 1, seq![])
        } else {
            ws_split_from(s, i + 1, seq![])
        }
    } else {
        ws_split_from(s, i + 1, cur.push(s[i]))
    }
}

/// `str::split_whitespace`.
pub open spec fn ws_split(s: Seq<char>) -> Seq<Seq<char>> {
    ws_split_from(s, 0, seq![])
}

pub fn split_whitespace(s: &[char]) -> (r: Vec<Vec<char>>)
    ensures
        views(r@) == ws_split(s@),
{
    let mut out: Vec<Vec<char>> = Vec::new();
    let mut cur: Vec<char> = Vec::new();
    let mut i: usize = 0;
    assert(views(out@) =~= seq![]);
    assert(ws_split(s@) =~= views(out@) + ws_split_from(s@, 0, cur@));
    while i < s.len()
        invariant
            i <= s@.len(),
            ws_split(s@) == views(out@) + ws_split_from(s@, i as int, cur@),
        decreases s@.len() - i,
    {
        let ghost o = views(out@);
        if is_whitespace(s[i]) {
            if cur.len() > 0 {
                let w = cur;
                cur = Vec::new();
                out.push(w);
                assert(views(out@) =~= o + seq![w@]);
                assert(o + (seq![w@] + ws_split_from(s@, i + 1, seq![])) =~= views(out@) + ws_split_from(s@, i + 1, cur@));
            } else {
                assert(cur@ =~= seq![]);
            }
        } else {
            cur.push(s[i]);
        }
        i += 1;
    }
    if cur.len() > 0 {
        let ghost o = views(out@);
        out.push(cur);
        assert(views(out@) =~= o + ws_split_from(s@, i as int, out@.last()@));
    } else {
        assert(views(out@) + ws_split_from(s@, i as int, cur@) =~= views(out@));
    }
    out
}

/// A comparison or logical token of Amber.
pub open spec fn is_boolean_token(t: Seq<char>) -> bool {
    t == "=="@ || t == "!="@ || t == "<"@ || t == "<="@ || t == ">"@ || t == ">="@ || t == "and"@
        || t == "or"@ || t == "not"@
}

/// Whether an Amber expression already yields a boolean: it holds a comparison or logical
/// word and is not a `then`/`else` choice.
pub open spec fn spec_is_boolean_expression(e: Seq<char>) -> bool {
    let t = ws_split(e);
    &&& !(exists|k: int| 0 <= k < t.len() && (t[k] == "then"@ || t[k] == "else"@))
    &&& exists|k: int| 0 <= k < t.len() && is_boolean_token(#[trigger] t[k])
}

fn arithmetic_expression_is_boolean(expression: &[char]) -> (r: bool)
    ensures
        r == spec_is_boolean_expression(expression@),
{
    let tokens = split_whitespace(expression);
    let ghost t = views(tokens@);
    let mut k: usize = 0;
    while k < tokens.len()
        invariant
            k <= tokens@.len(),
            t == views(tokens@),
            t == ws_split(expression@),
            forall|j: int| 0 <= j < k ==> !(t[j] == "then"@ || t[j] == "else"@),
        decreases tokens@.len() - k,
    {
        if eq_lit(&tokens[k], "then") || eq_lit(&tokens[k], "else") {
            assert(t[k as int] == tokens@[k as int]@);
            return false;
        }
        k += 1;
    }
    let mut k: usize = 0;
    while k < tokens.len()
        invariant
            k <= tokens@.len(),
            t == views(tokens@),
            t == ws_split(expression@),
            !(exists|j: int| 0 <= j < t.len() && (t[j] == "then"@ || t[j] == "else"@)),
            forall|j: int| 0 <= j < k ==> !is_boolean_token(#[trigger] t[j]),
        decreases tokens@.len() - k,
    {
        let w = &tokens[k];
        if eq_lit(w, "==") || eq_lit(w, "!=") || eq_lit(w, "<") || eq_lit(w, "<=") || eq_lit(w, ">")
            || eq_lit(w, ">=") || eq_lit(w, "and") || eq_lit(w, "or") || eq_lit(w, "not") {
            assert(is_boolean_token(t[k as int]));
            return true;
        }
        k += 1;
    }
    false
}

pub open spec fn spec_arith_condition(expression: Seq<char>, ctx: RenderContext) -> Option<Seq<char>> {
    match spec_arith_expr(expression, ctx) {
        Some(e) => if spec_is_boolean_expression(e) {
            Some(e)
        } else {
            Some("("@ + e + ") != 0"@)
        },
        None => None,
    }
}

/// The Amber condition for `(( expression ))`: the expression itself when it is already
/// boolean, else the test that it is not 0.
pub fn render_arithmetic_condition_expr(expression: &[char], ctx: &RenderContext) -> (r: Option<Vec<char>>)
    requires
        ctx.wf(),
    ensures
        match r {
            Some(v) => spec_arith_condition(expression@, *ctx) == Some(v@),
            None => spec_arith_condition(expression@, *ctx) is None,
        },
{
    let rendered = match parse_arithmetic_expression(expression, ctx) {
        Some(e) => e,
        None => return None,
    };
    if arithmetic_expression_is_boolean(&rendered) {
        return Some(rendered);
    }
    let mut out = chars_of("(");
    push_all(&mut out, &rendered);
    push_str(&mut out, ") != 0");
    Some(out)
}

// ---------------------------------------------------------------------------
// Statements
// ---------------------------------------------------------------------------

/// `expression` split at the first `op` into trimmed, non-empty sides; for `=`, not when it
/// is part of `<=`, `>=`, `!=` or `==`.
pub open spec fn assignment_split(expression: Seq<char>, op: Seq<char>) -> Option<(Seq<char>, Seq<char>)> {
    match spec_split_once(expression, op) {
        Some((l, r)) => {
            let lhs = spec_trim(l);
            let rhs = spec_trim(r);
            if lhs.len() == 0 || rhs.len() == 0 {
                None
            } else if op == "="@ && (lhs.last() == '<' || lhs.last() == '>' || lhs.last() == '!' || lhs.last() == '=') {
                None
            } else if op == "="@ && rhs[0] == '=' {
                None
            } else {
                Some((lhs, rhs))
            }
        },
        None => None,
    }
}

/// The first of `+=`, `-=`, `*=`, `/=`, `%=`, `=` that splits `expression`, with its sides.
pub open spec fn spec_assignment_parts(expression: Seq<char>) -> Option<(Seq<char>, Seq<char>, Seq<char>)> {
    if let Some((l, r)) = assignment_split(expression, "+="@) {
        Some((l, "+="@, r))
    } else if let Some((l, r)) = assignment_split(expression, "-="@) {
        Some((l, "-="@, r))
    } else if let Some((l, r)) = assignment_split(expression, "*="@) {
        Some((l, "*="@, r))
    } else if let Some((l, r)) = assignment_split(expression, "/="@) {
        Some((l, "/="@, r))
    } else if let Some((l, r)) = assignment_split(expression, "%="@) {
        Some((l, "%="@, r))
    } else if let Some((l, r)) = assignment_split(expression, "="@) {
        Some((l, "="@, r))
    } else {
        None
    }
}

fn split_assignment_with(expression: &[char], op: &str) -> (r: Option<(Vec<char>, Vec<char>)>)
    ensures
        match r {
            Some((l, x)) => assignment_split(expression@, op@) == Some((l@, x@)),
            None => assignment_split(expression@, op@) is None,
        },
{
    let (l, x) = match split_once_lit(expression, op) {
        Some(p) => p,
        None => return None,
    };
    let lhs = trim(&l);
    let rhs = trim(&x);
    if lhs.len() == 0 || rhs.len() == 0 {
        return None;
    }
    let is_plain = eq_lit(&chars_of(op), "=");
    if is_plain {
        let tail = lhs[lhs.len() - 1];
        if tail == '<' || tail == '>' || tail == '!' || tail == '=' {
            return None;
        }
        if rhs[0] == '=' {
            return None;
        }
    }
    Some((lhs, rhs))
}

fn parse_arithmetic_assignment_parts(expression: &[char]) -> (r: Option<(Vec<char>, Vec<char>, Vec<char>)>)
    ensures
        match r {
            Some((l, o, x)) => spec_assignment_parts(expression@) == Some((l@, o@, x@)),
            None => spec_assignment_parts(expression@) is None,
        },
{
    if let Some((l, x)) = split_assignment_with(expression, "+=") {
        return Some((l, chars_of("+="), x));
    }
    if let Some((l, x)) = split_assignment_with(expression, "-=") {
        return Some((l, chars_of("-="), x));
    }
    if let Some((l, x)) = split_assignment_with(expression, "*=") {
        return Some((l, chars_of("*="), x));
    }
    if let Some((l, x)) = split_assignment_with(expression, "/=") {
        return Some((l, chars_of("/="), x));
    }
    if let Some((l, x)) = split_assignment_with(expression, "%=") {
        return Some((l, chars_of("%="), x));
    }
    if let Some((l, x)) = split_assignment_with(expression, "=") {
        return Some((l, chars_of("="), x));
    }
    None
}

/// The arithmetic operator of a compound assignment.
pub open spec fn spec_compound_operator(op: Seq<char>) -> Option<Seq<char>> {
    if op == "+="@ {
        Some("+"@)
    } else if op == "-="@ {
        Some("-"@)
    } else if op == "*="@ {
        Some("*"@)
    } else if op == "/="@ {
        Some("/"@)
    } else if op == "%="@ {
        Some("%"@)
    } else {
        None
    }
}

fn parse_compound_assignment_operator(op: &[char]) -> (r: Option<Vec<char>>)
    ensures
        match r {
            Some(v) => spec_compound_operator(op@) == Some(v@),
            None => spec_compound_operator(op@) is None,
        },
{
    if eq_lit(op, "+=") {
        Some(chars_of("+"))
    } else if eq_lit(op, "-=") {
        Some(chars_of("-"))
    } else if eq_lit(op, "*=") {
        Some(chars_of("*"))
    } else if eq_lit(op, "/=") {
        Some(chars_of("/"))
    } else if eq_lit(op, "%=") {
        Some(chars_of("%"))
    } else {
        None
    }
}

/// Whether [`parse_arithmetic_assignment_statement`] renders `expression`.
pub open spec fn assignment_applies(expression: Seq<char>, ctx: RenderContext) -> bool {
    match spec_assignment_parts(expression) {
        Some((lhs, op, rhs)) => spec_is_identifier(lhs) && spec_arith_expr(rhs, ctx) is Some && (op == "="@
            || (spec_compound_operator(op) is Some && var_of(ctx, lhs) is Some)),
        None => false,
    }
}

/// The Amber statement for an arithmetic assignment `name op= rhs` or `name = rhs`, when the
/// left side is an identifier and the right side renders. A compound assignment needs a
/// declared variable; a plain one declares it when it is new (`let`).
pub fn parse_arithmetic_assignment_statement(expression: &[char], ctx: &mut RenderContext) -> (r: Option<Vec<char>>)
    requires
        old(ctx).wf(),
    ensures
        final(ctx).wf(),
        same_but_vars(*old(ctx), *final(ctx)),
        r is Some == assignment_applies(expression@, *old(ctx)),
        match spec_assignment_parts(expression@) {
            Some((lhs, op, rhs)) => if !spec_is_identifier(lhs) {
                r is None && *final(ctx) == *old(ctx)
            } else {
                match spec_arith_expr(rhs, *old(ctx)) {
                    None => r is None && *final(ctx) == *old(ctx),
                    Some(e) => if op == "="@ {
                        match var_of(*old(ctx), lhs) {
                            Some(name) => r matches Some(v) && v@ == name + " = "@ + e && *final(ctx) == *old(ctx),
                            None => exists|name: Seq<char>| #[trigger] var_of(*final(ctx), lhs) == Some(name)
                                && (r matches Some(v) && v@ == "let "@ + name + " = "@ + e),
                        }
                    } else {
                        *final(ctx) == *old(ctx) && match (spec_compound_operator(op), var_of(*old(ctx), lhs)) {
                            (Some(b), Some(name)) => r matches Some(v) && v@ == name + " = "@ + name + " "@ + b + " "@ + e,
                            _ => r is None,
                        }
                    },
                }
            },
            None => r is None && *final(ctx) == *old(ctx),
        },
{
    let (lhs, op, rhs_raw) = match parse_arithmetic_assignment_parts(expression) {
        Some(p) => p,
        None => return None,
    };
    if !is_identifier(&lhs) {
        return None;
    }
    let rhs = match parse_arithmetic_expression(&rhs_raw, ctx) {
        Some(e) => e,
        None => return None,
    };
    let existing = ctx.var_chars(&lhs);
    if eq_lit(&op, "=") {
        match existing {
            Some(name) => {
                let mut out = name;
                push_str(&mut out, " = ");
                push_all(&mut out, &rhs);
                return Some(out);
            },
            None => {
                let name = ctx.declare_var(&lhs);
                let mut out = chars_of("let ");
                push_all(&mut out, &chars_of(name.as_str()));
                push_str(&mut out, " = ");
                push_all(&mut out, &rhs);
                proof {
                    assert(var_of(*ctx, lhs@) == Some(name@));
                }
                return Some(out);
            },
        }
    }
    let base = match parse_compound_assignment_operator(&op) {
        Some(b) => b,
        None => return None,
    };
    let name = match existing {
        Some(n) => n,
        None => return None,
    };
    let mut out = to_vec(&name);
    push_str(&mut out, " = ");
    push_all(&mut out, &name);
    push_str(&mut out, " ");
    push_all(&mut out, &base);
    push_str(&mut out, " ");
    push_all(&mut out, &rhs);
    Some(out)
}

/// `x++`, `++x`, `x--`, `--x` (spaces ignored) on a declared variable, as an Amber update.
pub open spec fn spec_arith_increment(expression: Seq<char>, ctx: RenderContext) -> Option<Seq<char>> {
    let c = spec_strip_whitespace(expression);
    let (raw, tail) = if spec_strip_suffix(c, "++"@) is Some && spec_is_identifier(spec_strip_suffix(c, "++"@).unwrap()) {
        (spec_strip_suffix(c, "++"@), " + 1"@)
    } else if spec_strip_prefix(c, "++"@) is Some && spec_is_identifier(spec_strip_prefix(c, "++"@).unwrap()) {
        (spec_strip_prefix(c, "++"@), " + 1"@)
    } else if spec_strip_suffix(c, "--"@) is Some && spec_is_identifier(spec_strip_suffix(c, "--"@).unwrap()) {
        (spec_strip_suffix(c, "--"@), " - 1"@)
    } else if spec_strip_prefix(c, "--"@) is Some && spec_is_identifier(spec_strip_prefix(c, "--"@).unwrap()) {
        (spec_strip_prefix(c, "--"@), " - 1"@)
    } else {
        (None, seq![])
    };
    match raw {
        Some(x) => match var_of(ctx, x) {
            Some(n) => Some(n + " = "@ + n + tail),
            None => None,
        },
        None => None,
    }
}

fn update_of(name: &Vec<char>, tail: &str) -> (r: Vec<char>)
    ensures
        r@ == name@ + " = "@ + name@ + tail@,
{
    let mut out = to_vec(name);
    push_str(&mut out, " = ");
    push_all(&mut out, name);
    push_str(&mut out, tail);
    out
}

pub fn parse_arithmetic_increment_statement(expression: &[char], ctx: &RenderContext) -> (r: Option<Vec<char>>)
    requires
        ctx.wf(),
    ensures
        match r {
            Some(v) => spec_arith_increment(expression@, *ctx) == Some(v@),
            None => spec_arith_increment(expression@, *ctx) is None,
        },
{
    let compact = strip_whitespace(expression);
    if let Some(raw) = strip_suffix_lit(&compact, "++") {
        if is_identifier(&raw) {
            return match ctx.var_chars(&raw) {
                Some(n) => Some(update_of(&n, " + 1")),
                None => None,
            };
        }
    }
    if let Some(raw) = strip_prefix_lit(&compact, "++") {
        if is_identifier(&raw) {
            return match ctx.var_chars(&raw) {
                Some(n) => Some(update_of(&n, " + 1")),
                None => None,
            };
        }
    }
    if let Some(raw) = strip_suffix_lit(&compact, "--") {
        if is_identifier(&raw) {
            return match ctx.var_chars(&raw) {
                Some(n) => Some(update_of(&n, " - 1")),
                None => None,
            };
        }
    }
    if let Some(raw) = strip_prefix_lit(&compact, "--") {
        if is_identifier(&raw) {
            return match ctx.var_chars(&raw) {
                Some(n) => Some(update_of(&n, " - 1")),
                None => None,
            };
        }
    }
    None
}

/// The Amber statement for `(( expression ))`: an assignment, an increment, or else the
/// expression itself.
pub fn render_arithmetic_statement_expr(expression: &[char], ctx: &mut RenderContext) -> (r: Option<Vec<char>>)
    requires
        old(ctx).wf(),
    ensures
        final(ctx).wf(),
        same_but_vars(*old(ctx), *final(ctx)),
        spec_trim(expression@).len() == 0 ==> r is None && *final(ctx) == *old(ctx),
        spec_trim(expression@).len() > 0 && assignment_applies(spec_trim(expression@), *old(ctx)) ==> r is Some,
        spec_trim(expression@).len() > 0 && !assignment_applies(spec_trim(expression@), *old(ctx)) ==> {
            *final(ctx) == *old(ctx) && match spec_arith_increment(spec_trim(expression@), *old(ctx)) {
                Some(v) => r matches Some(w) && w@ == v,
                None => match spec_arith_expr(spec_trim(expression@), *old(ctx)) {
                    Some(v) => r matches Some(w) && w@ == v,
                    None => r is None,
                },
            }
        },
{
    let trimmed = trim(expression);
    if trimmed.len() == 0 {
        return None;
    }
    if let Some(rendered) = parse_arithmetic_assignment_statement(&trimmed, ctx) {
        return Some(rendered);
    }
    if let Some(rendered) = parse_arithmetic_increment_statement(&trimmed, ctx) {
        return Some(rendered);
    }
    parse_arithmetic_expression(&trimmed, ctx)
}

} // verus!
