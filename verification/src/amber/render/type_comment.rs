//! `## (name: Type, ...): Return(variable)` comments above Bash functions, and where the
//! functions of a script are defined.
use vstd::prelude::*;

use super::context::{
    find_key, keys_unique, params_view, set_key, value_of, FunctionHint, FunctionTypeHint, HintView,
    ReturnView, TypeCommentParam, TypeCommentReturnContract, TypeCommentSignature,
};
use crate::text::{
    eq_lit, find_char_exec, find_char_from, is_ascii_alnum, is_ascii_alpha, is_identifier,
    is_word_start, lines, rfind_char, slice_vec, spec_is_ascii_alnum, spec_is_ascii_alpha,
    spec_is_identifier, spec_is_word_start, spec_lines, spec_rfind_char, spec_split_char,
    spec_split_once, spec_starts_with, spec_strip_prefix, spec_trim, spec_trim_start, split_char,
    split_once_lit, starts_with_lit, string_of, strip_prefix_lit, trim, trim_start, views, word_end,
    word_end_exec,
};

verus! {

// ---------------------------------------------------------------------------
// Types
// ---------------------------------------------------------------------------

/// Whether the rest of a type from `i` keeps its brackets balanced and uses only letters,
/// digits, `_`, `|`, spaces and brackets; `alpha` records a letter seen so far.
pub open spec fn hint_scan(s: Seq<char>, i: int, depth: nat, alpha: bool) -> bool
    decreases s.len() - i,
{
    if i < 0 || i >= s.len() {
        depth == 0 && alpha
    } else {
        let c = s[i];
        if c == '[' {
            hint_scan(s, i + 1, depth + 1, alpha)
        } else if c == ']' {
            if depth == 0 {
                false
            } else {
                hint_scan(s, i + 1, (depth - 1) as nat, alpha)
            }
        } else if c == '|' || c == ' ' || c == '_' {
            hint_scan(s, i + 1, depth, alpha)
        } else if spec_is_ascii_alnum(c) {
            hint_scan(s, i + 1, depth, alpha || spec_is_ascii_alpha(c))
        } else {
            false
        }
    }
}

/// An Amber type as a type comment writes it, such as `Text`, `[Num]` or `Int | Null`.
pub open spec fn spec_valid_type_hint(raw: Seq<char>) -> bool {
    let t = spec_trim(raw);
    t.len() > 0 && hint_scan(t, 0, 0, false)
}

fn is_valid_type_hint(raw: &[char]) -> (r: bool)
    ensures
        r == spec_valid_type_hint(raw@),
{
    let t = trim(raw);
    if t.len() == 0 {
        return false;
    }
    let mut depth: usize = 0;
    let mut alpha = false;
    let mut i: usize = 0;
    while i < t.len()
        invariant
            i <= t@.len(),
            t@ == spec_trim(raw@),
            t@.len() > 0,
            depth <= i,
            hint_scan(t@, 0, 0, false) == hint_scan(t@, i as int, depth as nat, alpha),
        decreases t@.len() - i,
    {
        let c = t[i];
        if c == '[' {
            depth += 1;
        } else if c == ']' {
            if depth == 0 {
                return false;
            }
            depth -= 1;
        } else if c == '|' || c == ' ' || c == '_' {
        } else if is_ascii_alnum(c) {
            if is_ascii_alpha(c) {
                alpha = true;
            }
        } else {
            return false;
        }
        i += 1;
    }
    depth == 0 && alpha
}

// ---------------------------------------------------------------------------
// Type comments
// ---------------------------------------------------------------------------

/// `Null`, or `Type(variable)`: the function returns the value it leaves in `variable`.
pub open spec fn spec_return_contract(raw: Seq<char>) -> Option<ReturnView> {
    if raw == "Null"@ {
        Some(ReturnView::Null)
    } else {
        let open = find_char_from(raw, 0, '(');
        if open >= raw.len() {
            None
        } else {
            match spec_rfind_char(raw, ')') {
                None => None,
                Some(close) => if close <= open || close >= raw.len() {
                    None
                } else if spec_trim(raw.subrange(close + 1, raw.len() as int)).len() > 0 {
                    None
                } else {
                    let ty = spec_trim(raw.subrange(0, open));
                    let v = spec_trim(raw.subrange(open + 1, close));
                    if !spec_valid_type_hint(ty) || !spec_is_identifier(v) {
                        None
                    } else {
                        Some(ReturnView::TypedVariable(ty, v))
                    }
                },
            }
        }
    }
}

fn parse_type_comment_return_contract(raw: &[char]) -> (r: Option<TypeCommentReturnContract>)
    ensures
        match r {
            Some(c) => spec_return_contract(raw@) == Some(c.view_of()),
            None => spec_return_contract(raw@) is None,
        },
{
    if eq_lit(raw, "Null") {
        return Some(TypeCommentReturnContract::Null);
    }
    let open = find_char_exec(raw, 0, '(');
    if open >= raw.len() {
        return None;
    }
    let close = match rfind_char(raw, ')') {
        Some(c) => c,
        None => return None,
    };
    if close <= open {
        return None;
    }
    if trim(&slice_vec(raw, close + 1, raw.len())).len() > 0 {
        return None;
    }
    let ty = trim(&slice_vec(raw, 0, open));
    let v = trim(&slice_vec(raw, open + 1, close));
    if !is_valid_type_hint(&ty) || !is_identifier(&v) {
        return None;
    }
    Some(TypeCommentReturnContract::TypedVariable { type_label: string_of(&ty), variable_name: string_of(&v) })
}

/// One parameter of a type comment: `name: Type` or `Type`.
pub open spec fn spec_param(part: Seq<char>) -> Option<(Option<Seq<char>>, Seq<char>)> {
    let p = spec_trim(part);
    match spec_split_once(p, ":"@) {
        Some((n, t)) => if !spec_is_identifier(spec_trim(n)) || !spec_valid_type_hint(spec_trim(t)) {
            None
        } else {
            Some((Some(spec_trim(n)), spec_trim(t)))
        },
        None => if spec_valid_type_hint(p) {
            Some((None, p))
        } else {
            None
        },
    }
}

/// All parameters, when each is well formed.
pub open spec fn spec_params(parts: Seq<Seq<char>>) -> Option<Seq<(Option<Seq<char>>, Seq<char>)>>
    decreases parts.len(),
{
    if parts.len() == 0 {
        Some(seq![])
    } else {
        match (spec_params(parts.drop_last()), spec_param(parts.last())) {
            (Some(a), Some(p)) => Some(a.push(p)),
            _ => None,
        }
    }
}

/// `(params): Return`, as parameters and return contract.
pub open spec fn spec_signature(raw: Seq<char>) -> Option<(Seq<(Option<Seq<char>>, Seq<char>)>, ReturnView)> {
    let r = spec_trim(raw);
    if !(r.len() > 0 && r[0] == '(') {
        None
    } else {
        let close = find_char_from(r, 0, ')');
        if close >= r.len() || close < 1 {
            None
        } else {
            let params_raw = spec_trim(r.subrange(1, close));
            let rest = spec_trim(r.subrange(close + 1, r.len() as int));
            match spec_strip_prefix(rest, ":"@) {
                None => None,
                Some(x) => match spec_return_contract(spec_trim(x)) {
                    None => None,
                    Some(rc) => if params_raw.len() == 0 {
                        Some((seq![], rc))
                    } else {
                        match spec_params(spec_split_char(params_raw, ',')) {
                            Some(ps) => Some((ps, rc)),
                            None => None,
                        }
                    },
                },
            }
        }
    }
}

fn parse_param(part: &[char]) -> (r: Option<TypeCommentParam>)
    ensures
        match r {
            Some(p) => spec_param(part@) == Some(p.view_of()),
            None => spec_param(part@) is None,
        },
{
    let p = trim(part);
    match split_once_lit(&p, ":") {
        Some((n, t)) => {
            let n = trim(&n);
            let t = trim(&t);
            if !is_identifier(&n) || !is_valid_type_hint(&t) {
                return None;
            }
            Some(TypeCommentParam { name: Some(string_of(&n)), type_label: string_of(&t) })
        },
        None => {
            if is_valid_type_hint(&p) {
                Some(TypeCommentParam { name: None, type_label: string_of(&p) })
            } else {
                None
            }
        },
    }
}

proof fn lemma_params_none(parts: Seq<Seq<char>>, k: int)
    requires
        0 <= k < parts.len(),
        spec_param(parts[k]) is None,
    ensures
        spec_params(parts) is None,
    decreases parts.len(),
{
    if k < parts.len() - 1 {
        assert(parts.drop_last()[k] == parts[k]);
        lemma_params_none(parts.drop_last(), k);
    }
}

fn parse_type_comment_signature(raw: &[char]) -> (r: Option<TypeCommentSignature>)
    ensures
        match r {
            Some(sig) => spec_signature(raw@) == Some((params_view(sig.params@), sig.return_contract.view_of())),
            None => spec_signature(raw@) is None,
        },
{
    let r = trim(raw);
    if !(r.len() > 0 && r[0] == '(') {
        return None;
    }
    let close = find_char_exec(&r, 0, ')');
    if close >= r.len() || close < 1 {
        return None;
    }
    let params_raw = trim(&slice_vec(&r, 1, close));
    let rest = trim(&slice_vec(&r, close + 1, r.len()));
    let x = match strip_prefix_lit(&rest, ":") {
        Some(x) => x,
        None => return None,
    };
    let return_contract = match parse_type_comment_return_contract(&trim(&x)) {
        Some(c) => c,
        None => return None,
    };
    let mut params: Vec<TypeCommentParam> = Vec::new();
    if params_raw.len() > 0 {
        let parts = split_char(&params_raw, ',');
        let ghost pv = views(parts@);
        let mut k: usize = 0;
        while k < parts.len()
            invariant
                k <= parts@.len(),
                pv == views(parts@),
                pv == spec_split_char(params_raw@, ','),
                r@ == spec_trim(raw@),
                r@.len() > 0 && r@[0] == '(',
                close == find_char_from(r@, 0, ')'),
                1 <= close < r@.len(),
                params_raw@ == spec_trim(r@.subrange(1, close as int)),
                params_raw@.len() > 0,
                rest@ == spec_trim(r@.subrange(close + 1, r@.len() as int)),
                spec_strip_prefix(rest@, ":"@) == Some(x@),
                spec_return_contract(spec_trim(x@)) == Some(return_contract.view_of()),
                spec_params(pv.take(k as int)) == Some(params_view(params@)),
            decreases parts@.len() - k,
        {
            assert(pv.take(k + 1).drop_last() =~= pv.take(k as int));
            match parse_param(&parts[k]) {
                Some(p) => {
                    let ghost before = params@;
                    params.push(p);
                    assert(params_view(params@) =~= params_view(before).push(p.view_of()));
                },
                None => {
                    proof {
                        lemma_params_none(pv, k as int);
                    }
                    return None;
                },
            }
            k += 1;
        }
        assert(pv.take(k as int) =~= pv);
    } else {
        assert(params_view(params@) =~= seq![]);
    }
    Some(TypeCommentSignature { params, return_contract })
}

/// What a `##` comment line says.
pub open spec fn spec_type_comment(line: Seq<char>) -> HintView {
    let t = spec_trim(line);
    let raw = spec_trim(
        match spec_strip_prefix(t, "##"@) {
            Some(x) => x,
            None => t,
        },
    );
    match spec_signature(raw) {
        Some((ps, rc)) => HintView::Typed(ps, rc),
        None => HintView::Invalid,
    }
}

fn parse_type_comment(line: &[char]) -> (r: FunctionTypeHint)
    ensures
        r.view_of() == spec_type_comment(line@),
{
    let t = trim(line);
    let raw = match strip_prefix_lit(&t, "##") {
        Some(x) => trim(&x),
        None => trim(&t),
    };
    match parse_type_comment_signature(&raw) {
        Some(sig) => FunctionTypeHint::Typed(sig),
        None => FunctionTypeHint::Invalid,
    }
}

/// The type comment of the function defined on line `scan` (0-based): the nearest `##` line
/// above it, blank lines and other comments skipped; `Missing` when code comes first.
pub open spec fn preceding_hint(lines: Seq<Seq<char>>, scan: int) -> HintView
    decreases scan,
{
    if scan <= 0 || scan > lines.len() {
        HintView::Missing
    } else {
        let t = spec_trim(lines[scan - 1]);
        if t.len() == 0 {
            preceding_hint(lines, scan - 1)
        } else if t[0] != '#' {
            HintView::Missing
        } else if !spec_starts_with(t, "##"@) {
            preceding_hint(lines, scan - 1)
        } else {
            spec_type_comment(t)
        }
    }
}

fn find_preceding_type_hint(lines: &Vec<Vec<char>>, function_line_index: usize) -> (r: FunctionTypeHint)
    requires
        function_line_index <= lines@.len(),
    ensures
        r.view_of() == preceding_hint(views(lines@), function_line_index as int),
{
    let ghost lv = views(lines@);
    let mut scan = function_line_index;
    while scan > 0
        invariant
            scan <= function_line_index <= lines@.len(),
            lv == views(lines@),
            preceding_hint(lv, function_line_index as int) == preceding_hint(lv, scan as int),
        decreases scan,
    {
        scan -= 1;
        let t = trim(&lines[scan]);
        if t.len() == 0 {
            continue;
        }
        if t[0] != '#' {
            return FunctionTypeHint::Missing;
        }
        if !starts_with_lit(&t, "##") {
            continue;
        }
        return parse_type_comment(&t);
    }
    FunctionTypeHint::Missing
}

// ---------------------------------------------------------------------------
// Function definitions
// ---------------------------------------------------------------------------

/// The identifier at the start of `text` and what follows it.
pub open spec fn spec_identifier_prefix(text: Seq<char>) -> Option<(Seq<char>, Seq<char>)> {
    if text.len() > 0 && spec_is_word_start(text[0]) && 1 <= word_end(text, 1) <= text.len() {
        let j = word_end(text, 1);
        Some((text.subrange(0, j), text.subrange(j, text.len() as int)))
    } else {
        None
    }
}

fn split_identifier_prefix(text: &[char]) -> (r: Option<(Vec<char>, Vec<char>)>)
    ensures
        match r {
            Some((a, b)) => spec_identifier_prefix(text@) == Some((a@, b@)),
            None => spec_identifier_prefix(text@) is None,
        },
{
    if text.len() == 0 || !is_word_start(text[0]) {
        return None;
    }
    let j = word_end_exec(text, 1);
    Some((slice_vec(text, 0, j), slice_vec(text, j, text.len())))
}

/// `name()` followed by nothing or `{`.
pub open spec fn plain_definition_name(t: Seq<char>) -> Option<Seq<char>> {
    match spec_identifier_prefix(t) {
        None => None,
        Some((name, tail)) => match spec_strip_prefix(spec_trim_start(tail), "()"@) {
            None => None,
            Some(a) => if spec_trim_start(a).len() == 0 || spec_trim_start(a)[0] == '{' {
                Some(name)
            } else {
                None
            },
        },
    }
}

/// The function a line defines: `function name [()] [{]` or `name() [{]`.
pub open spec fn spec_function_name(line: Seq<char>) -> Option<Seq<char>> {
    let t = spec_trim_start(line);
    if t.len() > 0 && t[0] == '#' {
        None
    } else if spec_strip_prefix(t, "function "@) is Some {
        let rest = spec_trim_start(spec_strip_prefix(t, "function "@).unwrap());
        match spec_identifier_prefix(rest) {
            None => None,
            Some((name, tail)) => {
                let t1 = spec_trim_start(tail);
                let t2 = match spec_strip_prefix(t1, "()"@) {
                    Some(a) => spec_trim_start(a),
                    None => t1,
                };
                if t2.len() == 0 || t2[0] == '{' {
                    Some(name)
                } else {
                    plain_definition_name(t)
                }
            },
        }
    } else {
        plain_definition_name(t)
    }
}

fn plain_definition(t: &[char]) -> (r: Option<Vec<char>>)
    ensures
        match r {
            Some(v) => plain_definition_name(t@) == Some(v@),
            None => plain_definition_name(t@) is None,
        },
{
    let (name, tail) = match split_identifier_prefix(t) {
        Some(p) => p,
        None => return None,
    };
    let a = match strip_prefix_lit(&trim_start(&tail), "()") {
        Some(a) => trim_start(&a),
        None => return None,
    };
    if a.len() == 0 || a[0] == '{' {
        Some(name)
    } else {
        None
    }
}

pub fn parse_function_name_from_line(line: &[char]) -> (r: Option<Vec<char>>)
    ensures
        match r {
            Some(v) => spec_function_name(line@) == Some(v@),
            None => spec_function_name(line@) is None,
        },
{
    let t = trim_start(line);
    if t.len() > 0 && t[0] == '#' {
        return None;
    }
    if let Some(after) = strip_prefix_lit(&t, "function ") {
        let rest = trim_start(&after);
        let (name, tail) = match split_identifier_prefix(&rest) {
            Some(p) => p,
            None => return None,
        };
        let t1 = trim_start(&tail);
        let t2 = match strip_prefix_lit(&t1, "()") {
            Some(a) => trim_start(&a),
            None => t1,
        };
        if t2.len() == 0 || t2[0] == '{' {
            return Some(name);
        }
    }
    plain_definition(&t)
}

/// The definitions of `name` among the first `n` lines: their 1-based line numbers and type
/// comments, in order.
pub open spec fn hints_of(lines: Seq<Seq<char>>, name: Seq<char>, n: int) -> Seq<(nat, HintView)>
    decreases n,
{
    if n <= 0 || n > lines.len() {
        seq![]
    } else {
        hints_of(lines, name, n - 1) + (if spec_function_name(lines[n - 1]) == Some(name) {
            seq![(n as nat, preceding_hint(lines, n - 1))]
        } else {
            seq![]
        })
    }
}

pub open spec fn hint_views(hs: Seq<FunctionHint>) -> Seq<(nat, HintView)> {
    hs.map_values(|h: FunctionHint| h.view_of())
}

proof fn lemma_hints_of_empty(lines: Seq<Seq<char>>, name: Seq<char>, n: int)
    requires
        0 <= n <= lines.len(),
    ensures
        (hints_of(lines, name, n).len() == 0) <==> (forall|j: int| 0 <= j < n ==> spec_function_name(#[trigger] lines[j]) != Some(name)),
    decreases n,
{
    if n > 0 {
        lemma_hints_of_empty(lines, name, n - 1);
    }
}

fn hints_for(lines: &Vec<Vec<char>>, name: &Vec<char>) -> (r: Vec<FunctionHint>)
    ensures
        hint_views(r@) == hints_of(views(lines@), name@, lines@.len() as int),
{
    let ghost lv = views(lines@);
    let mut out: Vec<FunctionHint> = Vec::new();
    let mut k: usize = 0;
    while k < lines.len()
        invariant
            k <= lines@.len(),
            lv == views(lines@),
            hint_views(out@) == hints_of(lv, name@, k as int),
        decreases lines@.len() - k,
    {
        match parse_function_name_from_line(&lines[k]) {
            Some(n) => {
                if crate::text::seq_eq(&n, name) {
                    let hint = FunctionHint { function_line: k + 1, type_hint: find_preceding_type_hint(lines, k) };
                    let ghost before = out@;
                    out.push(hint);
                    assert(hint_views(out@) =~= hint_views(before) + seq![((k + 1) as nat, preceding_hint(lv, k as int))]);
                } else {
                    assert(hint_views(out@) =~= hint_views(out@) + seq![]);
                }
            },
            None => {
                assert(hint_views(out@) =~= hint_views(out@) + seq![]);
            },
        }
        k += 1;
    }
    out
}

/// The function definitions of a script by name: for each name defined, its definitions in
/// order of their lines, with line numbers and type comments.
pub fn collect_function_hints(source: &[char]) -> (r: Vec<(String, Vec<FunctionHint>)>)
    ensures
        keys_unique(r@),
        forall|name: Seq<char>| match #[trigger] value_of(r@, name) {
            Some(hs) => hint_views(hs@) == hints_of(spec_lines(source@), name, spec_lines(source@).len() as int)
                && hs@.len() > 0,
            None => hints_of(spec_lines(source@), name, spec_lines(source@).len() as int).len() == 0,
        },
{
    let ls = lines(source);
    let ghost lv = views(ls@);
    let mut entries: Vec<(String, Vec<FunctionHint>)> = Vec::new();
    let mut k: usize = 0;
    while k < ls.len()
        invariant
            k <= ls@.len(),
            lv == views(ls@),
            lv == spec_lines(source@),
            keys_unique(entries@),
            forall|name: Seq<char>| match #[trigger] value_of(entries@, name) {
                Some(hs) => hint_views(hs@) == hints_of(lv, name, lv.len() as int) && hs@.len() > 0,
                None => forall|j: int| 0 <= j < k ==> spec_function_name(#[trigger] lv[j]) != Some(name),
            },
        decreases ls@.len() - k,
    {
        if let Some(name) = parse_function_name_from_line(&ls[k]) {
            if find_key(&entries, &name).is_none() {
                let hs = hints_for(&ls, &name);
                proof {
                    lemma_hints_of_empty(lv, name@, lv.len() as int);
                    assert(spec_function_name(lv[k as int]) == Some(name@));
                }
                let ghost before = entries@;
                set_key(&mut entries, string_of(&name), hs);
                proof {
                    assert forall|n: Seq<char>| match #[trigger] value_of(entries@, n) {
                        Some(hs) => hint_views(hs@) == hints_of(lv, n, lv.len() as int) && hs@.len() > 0,
                        None => forall|j: int| 0 <= j < k + 1 ==> spec_function_name(#[trigger] lv[j]) != Some(n),
                    } by {
                        if n != name@ {
                            assert(value_of(entries@, n) == value_of(before, n));
                        }
                    }
                }
            }
        }
        k += 1;
    }
    proof {
        assert forall|name: Seq<char>| match #[trigger] value_of(entries@, name) {
            Some(hs) => hint_views(hs@) == hints_of(spec_lines(source@), name, spec_lines(source@).len() as int)
                && hs@.len() > 0,
            None => hints_of(spec_lines(source@), name, spec_lines(source@).len() as int).len() == 0,
        } by {
            lemma_hints_of_empty(lv, name, lv.len() as int);
        }
    }
    entries
}

} // verus!
