//! Rendered Amber expressions as fragments: `+` chains and whitespace-separated tokens
//! become lists, quoted strings become interpolable strings, names become variables.
use vstd::prelude::*;

use crate::text::lemma_views_push;
use super::syntax::{is_double_quoted, spec_is_double_quoted};
use crate::amber::fragments::{
    interp_concat, render_interpolable, render_items, render_kind, FragmentKind,
    InterpolableFragment, ListFragment, RawFragment, VarExprFragment,
};
use crate::text::{
    chars_of, eq_lit, find_char_exec, find_char_from, is_identifier, is_whitespace, join, push_all,
    slice_vec, spec_is_whitespace, spec_trim, string_of, trim, views,
};

verus! {

// ---------------------------------------------------------------------------
// Words of an expression
// ---------------------------------------------------------------------------

pub open spec fn spec_is_expression_operator(t: Seq<char>) -> bool {
    t == "+"@ || t == "-"@ || t == "*"@ || t == "/"@ || t == "%"@ || t == "=="@ || t == "!="@
        || t == "<"@ || t == "<="@ || t == ">"@ || t == ">="@ || t == ".."@ || t == "..="@
}

pub open spec fn spec_is_expression_keyword(t: Seq<char>) -> bool {
    t == "and"@ || t == "or"@ || t == "then"@ || t == "else"@ || t == "not"@
}

fn is_expression_operator(t: &[char]) -> (r: bool)
    ensures
        r == spec_is_expression_operator(t@),
{
    eq_lit(t, "+") || eq_lit(t, "-") || eq_lit(t, "*") || eq_lit(t, "/") || eq_lit(t, "%") || eq_lit(t, "==")
        || eq_lit(t, "!=") || eq_lit(t, "<") || eq_lit(t, "<=") || eq_lit(t, ">") || eq_lit(t, ">=")
        || eq_lit(t, "..") || eq_lit(t, "..=")
}

fn is_expression_keyword(t: &[char]) -> (r: bool)
    ensures
        r == spec_is_expression_keyword(t@),
{
    eq_lit(t, "and") || eq_lit(t, "or") || eq_lit(t, "then") || eq_lit(t, "else") || eq_lit(t, "not")
}

/// The words of an expression, split at whitespace outside quotes (a backslash keeps the
/// next character), each trimmed.
pub open spec fn expr_tokens_from(s: Seq<char>, i: int, cur: Seq<char>, sq: bool, dq: bool, esc: bool) -> Seq<Seq<char>>
    decreases s.len() - i,
{
    if i < 0 || i >= s.len() {
        if spec_trim(cur).len() > 0 {
            seq![spec_trim(cur)]
        } else {
            seq![]
        }
    } else {
        let c = s[i];
        if esc {
            expr_tokens_from(s, i + 1, cur.push(c), sq, dq, false)
        } else if c == '\\' {
            expr_tokens_from(s, i + 1, cur.push(c), sq, dq, true)
        } else if !dq && c == '\'' {
            expr_tokens_from(s, i + 1, cur.push(c), !sq, dq, false)
        } else if !sq && c == '"' {
            expr_tokens_from(s, i + 1, cur.push(c), sq, !dq, false)
        } else if !sq && !dq && spec_is_whitespace(c) {
            if cur.len() > 0 {
                seq![spec_trim(cur)] + expr_tokens_from(s, i + 1, seq![], sq, dq, false)
            } else {
                expr_tokens_from(s, i + 1, seq![], sq, dq, false)
            }
        } else {
            expr_tokens_from(s, i + 1, cur.push(c), sq, dq, false)
        }
    }
}

fn tokenize_expression_by_whitespace(value: &[char]) -> (r: Vec<Vec<char>>)
    ensures
        views(r@) == expr_tokens_from(value@, 0, seq![], false, false, false),
{
    let mut tokens: Vec<Vec<char>> = Vec::new();
    let mut current: Vec<char> = Vec::new();
    let mut in_single = false;
    let mut in_double = false;
    let mut escaped = false;
    let mut i: usize = 0;
    assert(views(tokens@) + expr_tokens_from(value@, 0, current@, false, false, false)
        =~= expr_tokens_from(value@, 0, seq![], false, false, false));
    while i < value.len()
        invariant
            i <= value@.len(),
            views(tokens@) + expr_tokens_from(value@, i as int, current@, in_single, in_double, escaped)
                == expr_tokens_from(value@, 0, seq![], false, false, false),
        decreases value@.len() - i,
    {
        let ch = value[i];
        let ghost before = tokens@;
        if escaped {
            current.push(ch);
            escaped = false;
        } else if ch == '\\' {
            current.push(ch);
            escaped = true;
        } else if !in_double && ch == '\'' {
            in_single = !in_single;
            current.push(ch);
        } else if !in_single && ch == '"' {
            in_double = !in_double;
            current.push(ch);
        } else if !in_single && !in_double && is_whitespace(ch) {
            if current.len() > 0 {
                tokens.push(trim(&current));
                proof {
                    lemma_views_push(before, tokens@.last());
                }
                assert(views(tokens@) + expr_tokens_from(value@, i + 1, seq![], in_single, in_double, false)
                    =~= views(before) + (seq![spec_trim(current@)] + expr_tokens_from(value@, i + 1, seq![], in_single, in_double, false)));
                current = Vec::new();
            } else {
                assert(current@ =~= seq![]);
            }
        } else {
            current.push(ch);
        }
        i += 1;
    }
    let t = trim(&current);
    if t.len() > 0 {
        let ghost before = tokens@;
        tokens.push(t);
        proof {
            lemma_views_push(before, tokens@.last());
        }
        assert(views(tokens@) =~= views(before) + seq![spec_trim(current@)]);
    } else {
        assert(views(tokens@) + seq![] =~= views(tokens@));
    }
    tokens
}

/// The operands of a `+` chain outside quotes and brackets, each trimmed; `None` when one of
/// them is empty.
pub open spec fn plus_parts_from(
    s: Seq<char>,
    i: int,
    cur: Seq<char>,
    sq: bool,
    dq: bool,
    esc: bool,
    paren: nat,
    bracket: nat,
    brace: nat,
) -> Option<Seq<Seq<char>>>
    decreases s.len() - i,
{
    if i < 0 || i >= s.len() {
        if spec_trim(cur).len() == 0 {
            None
        } else {
            Some(seq![spec_trim(cur)])
        }
    } else {
        let c = s[i];
        let dec = |n: nat| if n > 0 { (n - 1) as nat } else { 0 };
        if esc {
            plus_parts_from(s, i + 1, cur.push(c), sq, dq, false, paren, bracket, brace)
        } else if c == '\\' {
            plus_parts_from(s, i + 1, cur.push(c), sq, dq, true, paren, bracket, brace)
        } else if !dq && c == '\'' {
            plus_parts_from(s, i + 1, cur.push(c), !sq, dq, false, paren, bracket, brace)
        } else if !sq && c == '"' {
            plus_parts_from(s, i + 1, cur.push(c), sq, !dq, false, paren, bracket, brace)
        } else if !sq && !dq && c == '(' {
            plus_parts_from(s, i + 1, cur.push(c), sq, dq, false, paren + 1, bracket, brace)
        } else if !sq && !dq && c == ')' {
            plus_parts_from(s, i + 1, cur.push(c), sq, dq, false, dec(paren), bracket, brace)
        } else if !sq && !dq && c == '[' {
            plus_parts_from(s, i + 1, cur.push(c), sq, dq, false, paren, bracket + 1, brace)
        } else if !sq && !dq && c == ']' {
            plus_parts_from(s, i + 1, cur.push(c), sq, dq, false, paren, dec(bracket), brace)
        } else if !sq && !dq && c == '{' {
            plus_parts_from(s, i + 1, cur.push(c), sq, dq, false, paren, bracket, brace + 1)
        } else if !sq && !dq && c == '}' {
            plus_parts_from(s, i + 1, cur.push(c), sq, dq, false, paren, bracket, dec(brace))
        } else if !sq && !dq && c == '+' && paren == 0 && bracket == 0 && brace == 0 {
            if spec_trim(cur).len() == 0 {
                None
            } else {
                match plus_parts_from(s, i + 1, seq![], sq, dq, false, paren, bracket, brace) {
                    Some(rest) => Some(seq![spec_trim(cur)] + rest),
                    None => None,
                }
            }
        } else {
            plus_parts_from(s, i + 1, cur.push(c), sq, dq, false, paren, bracket, brace)
        }
    }
}

/// The operands of a `+` chain of at least two.
pub open spec fn spec_split_plus(value: Seq<char>) -> Option<Seq<Seq<char>>> {
    match plus_parts_from(value, 0, seq![], false, false, false, 0, 0, 0) {
        Some(parts) => if parts.len() > 1 {
            Some(parts)
        } else {
            None
        },
        None => None,
    }
}

fn split_plus_expression(value: &[char]) -> (r: Option<Vec<Vec<char>>>)
    ensures
        match r {
            Some(v) => spec_split_plus(value@) == Some(views(v@)),
            None => spec_split_plus(value@) is None,
        },
{
    let mut parts: Vec<Vec<char>> = Vec::new();
    let mut current: Vec<char> = Vec::new();
    let mut in_single = false;
    let mut in_double = false;
    let mut escaped = false;
    let mut paren: usize = 0;
    let mut bracket: usize = 0;
    let mut brace: usize = 0;
    let mut i: usize = 0;
    let ghost whole = plus_parts_from(value@, 0, seq![], false, false, false, 0, 0, 0);
    assert(whole == match plus_parts_from(value@, 0, current@, false, false, false, 0, 0, 0) {
        Some(rest) => Some(views(parts@) + rest),
        None => None::<Seq<Seq<char>>>,
    }) by {
        match whole {
            Some(rest) => assert(views(parts@) + rest =~= rest),
            None => {},
        }
    }
    while i < value.len()
        invariant
            i <= value@.len(),
            paren <= i,
            bracket <= i,
            brace <= i,
            whole == plus_parts_from(value@, 0, seq![], false, false, false, 0, 0, 0),
            whole == match plus_parts_from(value@, i as int, current@, in_single, in_double, escaped, paren as nat, bracket as nat, brace as nat) {
                Some(rest) => Some(views(parts@) + rest),
                None => None::<Seq<Seq<char>>>,
            },
        decreases value@.len() - i,
    {
        let ch = value[i];
        let ghost before = parts@;
        if escaped {
            current.push(ch);
            escaped = false;
        } else if ch == '\\' {
            current.push(ch);
            escaped = true;
        } else if !in_double && ch == '\'' {
            in_single = !in_single;
            current.push(ch);
        } else if !in_single && ch == '"' {
            in_double = !in_double;
            current.push(ch);
        } else if !in_single && !in_double && ch == '(' {
            paren += 1;
            current.push(ch);
        } else if !in_single && !in_double && ch == ')' {
            if paren > 0 {
                paren -= 1;
            }
            current.push(ch);
        } else if !in_single && !in_double && ch == '[' {
            bracket += 1;
            current.push(ch);
        } else if !in_single && !in_double && ch == ']' {
            if bracket > 0 {
                bracket -= 1;
            }
            current.push(ch);
        } else if !in_single && !in_double && ch == '{' {
            brace += 1;
            current.push(ch);
        } else if !in_single && !in_double && ch == '}' {
            if brace > 0 {
                brace -= 1;
            }
            current.push(ch);
        } else if !in_single && !in_double && ch == '+' && paren == 0 && bracket == 0 && brace == 0 {
            let part = trim(&current);
            if part.len() == 0 {
                return None;
            }
            parts.push(part);
            proof {
                lemma_views_push(before, parts@.last());
                match plus_parts_from(value@, i + 1, seq![], in_single, in_double, false, 0, 0, 0) {
                    Some(rest) => assert(views(before) + (seq![spec_trim(current@)] + rest) =~= views(parts@) + rest),
                    None => {},
                }
            }
            current = Vec::new();
        } else {
            current.push(ch);
        }
        i += 1;
    }
    let tail = trim(&current);
    if tail.len() == 0 {
        return None;
    }
    let ghost before = parts@;
    parts.push(tail);
    proof {
        lemma_views_push(before, parts@.last());
        assert(views(before) + seq![spec_trim(current@)] =~= views(parts@));
    }
    if parts.len() > 1 {
        Some(parts)
    } else {
        None
    }
}

// ---------------------------------------------------------------------------
// Interpolated strings
// ---------------------------------------------------------------------------

/// `interp_concat` over character sequences.
pub open spec fn seg_concat(segs: Seq<Seq<char>>, interps: Seq<Seq<char>>, n: nat) -> Seq<char>
    decreases n,
{
    if n == 0 {
        seq![]
    } else {
        let k = (n - 1) as nat;
        let tail = if k < interps.len() { "{"@ + interps[k as int] + "}"@ } else { seq![] };
        seg_concat(segs, interps, k) + segs[k as int] + tail
    }
}

pub open spec fn string_views(v: Seq<String>) -> Seq<Seq<char>> {
    v.map_values(|s: String| s@)
}

proof fn lemma_interp_concat_views(strings: Seq<String>, interps: Seq<String>, n: nat)
    requires
        n <= strings.len(),
    ensures
        interp_concat(strings, interps, n) == seg_concat(string_views(strings), string_views(interps), n),
    decreases n,
{
    if n > 0 {
        lemma_interp_concat_views(strings, interps, (n - 1) as nat);
    }
}

proof fn lemma_seg_concat_quoted(segs: Seq<Seq<char>>, q: Seq<Seq<char>>, interps: Seq<Seq<char>>, n: nat)
    requires
        1 <= n <= segs.len(),
        segs.len() == q.len(),
        q[0] == "\""@ + segs[0],
        forall|k: int| 1 <= k < segs.len() ==> q[k] == segs[k],
    ensures
        seg_concat(q, interps, n) == "\""@ + seg_concat(segs, interps, n),
    decreases n,
{
    if n == 1 {
        assert(seg_concat(q, interps, 0) =~= seq![]);
        assert(seg_concat(segs, interps, 0) =~= seq![]);
    } else {
        lemma_seg_concat_quoted(segs, q, interps, (n - 1) as nat);
    }
}

proof fn lemma_seg_concat_same(a: Seq<Seq<char>>, b: Seq<Seq<char>>, interps: Seq<Seq<char>>, n: nat)
    requires
        n <= a.len(),
        n <= b.len(),
        forall|k: int| 0 <= k < n ==> a[k] == b[k],
    ensures
        seg_concat(a, interps, n) == seg_concat(b, interps, n),
    decreases n,
{
    if n > 0 {
        lemma_seg_concat_same(a, b, interps, (n - 1) as nat);
    }
}

/// A double-quoted Amber string as text segments and `{..}` interpolations; it renders as
/// the string it was made from.
pub fn parse_interpolable_literal(value: &[char]) -> (r: InterpolableFragment)
    requires
        spec_is_double_quoted(value@),
    ensures
        render_interpolable(r) == value@,
{
    let inner = slice_vec(value, 1, value.len() - 1);
    let mut segs: Vec<Vec<char>> = Vec::new();
    let mut interps: Vec<Vec<char>> = Vec::new();
    let mut cursor: usize = 0;
    while cursor < inner.len()
        invariant
            cursor <= inner@.len(),
            segs@.len() == interps@.len(),
            seg_concat(views(segs@), views(interps@), segs@.len() as nat) == inner@.subrange(0, cursor as int),
        decreases inner@.len() - cursor,
    {
        let open = find_char_exec(&inner, cursor, '{');
        if open >= inner.len() {
            break;
        }
        let close = find_char_exec(&inner, open + 1, '}');
        if close >= inner.len() {
            break;
        }
        proof {
            lemma_find_char_hit(inner@, cursor as int, '{');
            lemma_find_char_hit(inner@, open + 1, '}');
        }
        let ghost (s0, i0) = (segs@, interps@);
        segs.push(slice_vec(&inner, cursor, open));
        interps.push(slice_vec(&inner, open + 1, close));
        proof {
            lemma_views_push(s0, segs@.last());
            lemma_views_push(i0, interps@.last());
            lemma_seg_concat_same(views(segs@), views(s0), views(interps@), s0.len() as nat);
            lemma_seg_concat_prefix_interps(views(s0), views(i0), views(interps@), s0.len() as nat);
            assert(seg_concat(views(segs@), views(interps@), segs@.len() as nat) =~= inner@.subrange(0, close + 1)) by {
                reveal_strlit("{");
                reveal_strlit("}");
            }
        }
        cursor = close + 1;
    }
    if interps.len() == 0 {
        let mut strings: Vec<String> = Vec::new();
        strings.push(string_of(value));
        return InterpolableFragment { strings, interpolations: Vec::new() };
    }
    let ghost (s0, i0) = (segs@, interps@);
    segs.push(slice_vec(&inner, cursor, inner.len()));
    proof {
        lemma_views_push(s0, segs@.last());
        lemma_seg_concat_same(views(segs@), views(s0), views(interps@), s0.len() as nat);
        assert(seg_concat(views(segs@), views(interps@), segs@.len() as nat) =~= inner@);
    }
    let n = segs.len();
    let mut strings: Vec<String> = Vec::new();
    let mut k: usize = 0;
    while k < n
        invariant
            n == segs@.len(),
            n >= 2,
            k <= n,
            strings@.len() == k,
            forall|j: int| 0 <= j < k ==> (#[trigger] strings@[j])@ == (if j == 0 {
                "\""@ + views(segs@)[j]
            } else {
                views(segs@)[j]
            }) + (if j == n - 1 {
                "\""@
            } else {
                seq![]
            }),
        decreases n - k,
    {
        let mut text: Vec<char> = Vec::new();
        if k == 0 {
            text.push('"');
        }
        push_all(&mut text, &segs[k]);
        if k == n - 1 {
            text.push('"');
        }
        assert(text@ =~= (if k == 0 {
            "\""@ + views(segs@)[k as int]
        } else {
            views(segs@)[k as int]
        }) + (if k == n - 1 {
            "\""@
        } else {
            seq![]
        })) by {
            reveal_strlit("\"");
        }
        strings.push(string_of(&text));
        k += 1;
    }
    let mut interpolations: Vec<String> = Vec::new();
    let mut k: usize = 0;
    while k < interps.len()
        invariant
            k <= interps@.len(),
            interpolations@.len() == k,
            forall|j: int| 0 <= j < k ==> (#[trigger] interpolations@[j])@ == views(interps@)[j],
        decreases interps@.len() - k,
    {
        interpolations.push(string_of(&interps[k]));
        k += 1;
    }
    let r = InterpolableFragment { strings, interpolations };
    proof {
        let sv = string_views(strings@);
        let iv = string_views(interpolations@);
        assert(iv =~= views(interps@));
        lemma_interp_concat_views(strings@, interpolations@, n as nat);
        // the first n - 1 segments, the first quoted
        let plain = views(segs@);
        lemma_seg_concat_quoted(plain, sv.update(n - 1, plain[n - 1]), iv, (n - 1) as nat);
        lemma_seg_concat_same(sv, sv.update(n - 1, plain[n - 1]), iv, (n - 1) as nat);
        assert(seg_concat(sv, iv, n as nat) == seg_concat(sv, iv, (n - 1) as nat) + sv[n - 1]);
        assert(seg_concat(plain, iv, n as nat) == seg_concat(plain, iv, (n - 1) as nat) + plain[n - 1]);
        assert(render_interpolable(r) =~= value@) by {
            reveal_strlit("\"");
            assert(value@ =~= seq!['"'] + inner@ + seq!['"']);
        }
    }
    r
}

proof fn lemma_find_char_hit(s: Seq<char>, i: int, c: char)
    requires
        0 <= i,
        find_char_from(s, i, c) < s.len(),
    ensures
        s[find_char_from(s, i, c)] == c,
    decreases s.len() - i,
{
    if i < s.len() && s[i] != c {
        lemma_find_char_hit(s, i + 1, c);
    }
}

proof fn lemma_seg_concat_prefix_interps(segs: Seq<Seq<char>>, a: Seq<Seq<char>>, b: Seq<Seq<char>>, n: nat)
    requires
        n <= a.len(),
        n <= b.len(),
        forall|k: int| 0 <= k < a.len() ==> a[k] == b[k],
    ensures
        seg_concat(segs, a, n) == seg_concat(segs, b, n),
    decreases n,
{
    if n > 0 {
        lemma_seg_concat_prefix_interps(segs, a, b, (n - 1) as nat);
    }
}

// ---------------------------------------------------------------------------
// Fragments
// ---------------------------------------------------------------------------

/// The text an expression operand renders to: `""` for nothing, else the operand trimmed.
pub open spec fn atom_text(value: Seq<char>) -> Seq<char> {
    if spec_trim(value).len() == 0 {
        "\"\""@
    } else {
        spec_trim(value)
    }
}

/// An operand as a fragment: an interpolable string, a variable, or raw text.
fn render_value_atom_fragment(value: &[char]) -> (r: FragmentKind)
    ensures
        render_kind(r, 0) == atom_text(value@),
{
    let trimmed = trim(value);
    if trimmed.len() == 0 {
        return FragmentKind::Raw(RawFragment { value: string_of(&chars_of("\"\"")) });
    }
    if is_double_quoted(&trimmed) {
        return FragmentKind::Interpolable(parse_interpolable_literal(&trimmed));
    }
    if is_identifier(&trimmed) {
        if is_expression_keyword(&trimmed) {
            return FragmentKind::Raw(RawFragment { value: string_of(&trimmed) });
        }
        return FragmentKind::VarExpr(VarExprFragment { name: string_of(&trimmed) });
    }
    FragmentKind::Raw(RawFragment { value: string_of(&trimmed) })
}

/// The text a word of an expression renders to.
pub open spec fn token_text(token: Seq<char>) -> Seq<char> {
    if spec_is_expression_operator(token) || spec_is_expression_keyword(token) {
        token
    } else {
        atom_text(token)
    }
}

fn render_expression_token_fragment(token: &[char]) -> (r: FragmentKind)
    ensures
        render_kind(r, 0) == token_text(token@),
{
    if is_expression_operator(token) || is_expression_keyword(token) {
        return FragmentKind::Raw(RawFragment { value: string_of(token) });
    }
    render_value_atom_fragment(token)
}

/// The operands of a `+` chain with `+` between them.
pub open spec fn plus_items(parts: Seq<Seq<char>>) -> Seq<Seq<char>>
    decreases parts.len(),
{
    if parts.len() == 0 {
        seq![]
    } else if parts.len() == 1 {
        seq![atom_text(parts[0])]
    } else {
        plus_items(parts.drop_last()) + seq!["+"@, atom_text(parts.last())]
    }
}

/// The text an Amber expression renders to: a `+` chain of operands, a list of words, or one
/// operand.
pub open spec fn spec_expression_text(value: Seq<char>) -> Seq<char> {
    match spec_split_plus(value) {
        Some(parts) => join(plus_items(parts), " "@),
        None => {
            let tokens = expr_tokens_from(value, 0, seq![], false, false, false);
            if tokens.len() > 1 {
                join(tokens.map_values(|t: Seq<char>| token_text(t)), " "@)
            } else {
                atom_text(value)
            }
        },
    }
}

pub fn render_expression_fragment(value: &[char]) -> (r: FragmentKind)
    ensures
        render_kind(r, 0) == spec_expression_text(value@),
{
    if let Some(parts) = split_plus_expression(value) {
        let ghost pv = views(parts@);
        let mut items: Vec<FragmentKind> = Vec::new();
        let mut k: usize = 0;
        while k < parts.len()
            invariant
                k <= parts@.len(),
                pv == views(parts@),
                render_items(items@) == plus_items(pv.take(k as int)),
            decreases parts@.len() - k,
        {
            let ghost before = items@;
            if k > 0 {
                items.push(FragmentKind::Raw(RawFragment { value: string_of(&chars_of("+")) }));
            }
            items.push(render_value_atom_fragment(&parts[k]));
            proof {
                assert(pv.take(k + 1).drop_last() =~= pv.take(k as int));
                if k > 0 {
                    assert(items@.drop_last() =~= before.push(items@[before.len() as int]));
                    assert(items@.drop_last().drop_last() =~= before);
                    assert(render_kind(items@[before.len() as int], 0) =~= "+"@);
                    assert(render_items(items@.drop_last()) == render_items(before).push("+"@));
                    assert(render_items(items@) == render_items(before).push("+"@).push(atom_text(pv[k as int])));
                    assert(render_items(items@) =~= render_items(before) + seq!["+"@, atom_text(pv[k as int])]);
                } else {
                    assert(items@.drop_last() =~= before);
                    assert(render_items(before) =~= seq![]);
                    assert(render_items(items@) =~= seq![atom_text(pv[0])]);
                }
            }
            k += 1;
        }
        assert(pv.take(k as int) =~= pv);
        return FragmentKind::List(ListFragment { items });
    }
    let tokens = tokenize_expression_by_whitespace(value);
    if tokens.len() > 1 {
        let ghost tv = views(tokens@);
        let mut items: Vec<FragmentKind> = Vec::new();
        let mut k: usize = 0;
        while k < tokens.len()
            invariant
                k <= tokens@.len(),
                tv == views(tokens@),
                render_items(items@) == tv.take(k as int).map_values(|t: Seq<char>| token_text(t)),
            decreases tokens@.len() - k,
        {
            let ghost before = items@;
            items.push(render_expression_token_fragment(&tokens[k]));
            proof {
                assert(items@.drop_last() =~= before);
                assert(tv.take(k + 1).map_values(|t: Seq<char>| token_text(t)) =~= tv.take(k as int).map_values(|t: Seq<char>| token_text(t)).push(token_text(tv[k as int])));
            }
            k += 1;
        }
        assert(tv.take(k as int) =~= tv);
        return FragmentKind::List(ListFragment { items });
    }
    render_value_atom_fragment(value)
}

} // verus!
