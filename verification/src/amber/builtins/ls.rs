//! `ls [-a] [-R] [path]` as `ls(path, true, true)`.
use vstd::prelude::*;

use crate::amber::render::context::RenderContext;
use crate::amber::render::word::{spec_word_to_expr, word_to_expr};
use crate::bash::ast::SimpleCommand;
use crate::text::{chars_of, eq_lit, join, join_lit, push_all, push_str, views};

verus! {

pub open spec fn is_all_flag(c: char) -> bool {
    c == 'a' || c == 'A'
}

pub open spec fn is_recursive_flag(c: char) -> bool {
    c == 'R' || c == 'r'
}

/// The state after one argument of `ls`: showing all, recursing, the path; `None` at an
/// unknown option or a second path.
pub open spec fn step(state: (bool, bool, Option<Seq<char>>), w: Seq<char>) -> Option<(bool, bool, Option<Seq<char>>)> {
    let (all, recursive, path) = state;
    if w == "-a"@ || w == "-A"@ || w == "--all"@ {
        Some((true, recursive, path))
    } else if w == "-R"@ || w == "-r"@ || w == "--recursive"@ {
        Some((all, true, path))
    } else if w.len() > 1 && w[0] == '-' {
        if forall|k: int| 1 <= k < w.len() ==> is_all_flag(#[trigger] w[k]) || is_recursive_flag(w[k]) {
            Some((
                all || exists|k: int| 1 <= k < w.len() && is_all_flag(#[trigger] w[k]),
                recursive || exists|k: int| 1 <= k < w.len() && is_recursive_flag(#[trigger] w[k]),
                path,
            ))
        } else {
            None
        }
    } else if path is Some {
        None
    } else {
        Some((all, recursive, Some(w)))
    }
}

pub open spec fn scan(args: Seq<String>) -> Option<(bool, bool, Option<Seq<char>>)>
    decreases args.len(),
{
    if args.len() == 0 {
        Some((false, false, None))
    } else {
        match scan(args.drop_last()) {
            None => None,
            Some(state) => step(state, args.last()@),
        }
    }
}

/// The arguments of the Amber call: the path, then `true` for each flag given.
pub open spec fn call_args(path: Option<Seq<char>>, all: bool, recursive: bool) -> Seq<Seq<char>> {
    (match path {
        Some(p) => seq![p],
        None => seq![],
    }) + (if all {
        seq!["true"@]
    } else {
        seq![]
    }) + (if recursive {
        seq!["true"@]
    } else {
        seq![]
    })
}

/// `trust ls(..)` with the path and flags as arguments.
pub open spec fn spec_render(words: Seq<String>, ctx: RenderContext) -> Option<Seq<char>> {
    if words.len() == 0 {
        None
    } else {
        match scan(words.skip(1)) {
            None => None,
            Some((all, recursive, path)) => {
                let expr = match path {
                    Some(p) => spec_word_to_expr(p, ctx),
                    None => Some(seq![]),
                };
                match expr {
                    None => None,
                    Some(e) => {
                        let args = call_args(if path is Some { Some(e) } else { None }, all, recursive);
                        if args.len() == 0 {
                            Some("trust ls()"@)
                        } else {
                            Some("trust ls("@ + join(args, ", "@) + ")"@)
                        }
                    },
                }
            },
        }
    }
}

/// Applies one argument to the scan state.
fn apply(all: &mut bool, recursive: &mut bool, path: &mut Option<Vec<char>>, w: &Vec<char>) -> (ok: bool)
    ensures
        ok == step((*old(all), *old(recursive), opt_view(*old(path))), w@) is Some,
        ok ==> step((*old(all), *old(recursive), opt_view(*old(path))), w@) == Some((*final(all), *final(recursive), opt_view(*final(path)))),
{
    if eq_lit(w, "-a") || eq_lit(w, "-A") || eq_lit(w, "--all") {
        *all = true;
        return true;
    }
    if eq_lit(w, "-R") || eq_lit(w, "-r") || eq_lit(w, "--recursive") {
        *recursive = true;
        return true;
    }
    if w.len() > 1 && w[0] == '-' {
        let mut saw_all = false;
        let mut saw_recursive = false;
        let mut k: usize = 1;
        while k < w.len()
            invariant
                1 <= k <= w@.len(),
                w@.len() > 1 && w@[0] == '-',
                !(w@ == "-a"@ || w@ == "-A"@ || w@ == "--all"@),
                !(w@ == "-R"@ || w@ == "-r"@ || w@ == "--recursive"@),
                *all == *old(all),
                *recursive == *old(recursive),
                *path == *old(path),
                forall|j: int| 1 <= j < k ==> is_all_flag(#[trigger] w@[j]) || is_recursive_flag(w@[j]),
                saw_all == exists|j: int| 1 <= j < k && is_all_flag(#[trigger] w@[j]),
                saw_recursive == exists|j: int| 1 <= j < k && is_recursive_flag(#[trigger] w@[j]),
            decreases w@.len() - k,
        {
            let c = w[k];
            if c == 'a' || c == 'A' {
                saw_all = true;
            } else if c == 'R' || c == 'r' {
                saw_recursive = true;
            } else {
                assert(!(is_all_flag(w@[k as int]) || is_recursive_flag(w@[k as int])));
                return false;
            }
            k += 1;
        }
        *all = *all || saw_all;
        *recursive = *recursive || saw_recursive;
        return true;
    }
    if path.is_some() {
        return false;
    }
    *path = Some(crate::text::to_vec(w));
    true
}

pub open spec fn opt_view(o: Option<Vec<char>>) -> Option<Seq<char>> {
    match o {
        Some(v) => Some(v@),
        None => None,
    }
}

proof fn lemma_scan_none(args: Seq<String>, k: int)
    requires
        1 <= k <= args.len(),
        scan(args.take(k)) is None,
    ensures
        scan(args) is None,
    decreases args.len() - k,
{
    if k < args.len() {
        assert(args.take(k + 1).drop_last() =~= args.take(k));
        lemma_scan_none(args, k + 1);
    } else {
        assert(args.take(k) =~= args);
    }
}

pub fn render(simple: &SimpleCommand, ctx: &RenderContext) -> (r: Option<Vec<char>>)
    requires
        ctx.wf(),
    ensures
        match r {
            Some(v) => spec_render(simple.words@, *ctx) == Some(v@),
            None => spec_render(simple.words@, *ctx) is None,
        },
{
    let words = &simple.words;
    if words.len() == 0 {
        return None;
    }
    let ghost args = words@.skip(1);
    let mut all = false;
    let mut recursive = false;
    let mut path: Option<Vec<char>> = None;
    let mut k: usize = 1;
    while k < words.len()
        invariant
            1 <= k <= words@.len(),
            words@ == simple.words@,
            ctx.wf(),
            args == words@.skip(1),
            scan(args.take(k - 1)) == Some((all, recursive, opt_view(path))),
        decreases words@.len() - k,
    {
        assert(args.take(k as int).drop_last() =~= args.take(k - 1));
        assert(args.take(k as int).last() == words@[k as int]);
        let w = chars_of(words[k].as_str());
        if !apply(&mut all, &mut recursive, &mut path, &w) {
            proof {
                lemma_scan_none(args, k as int);
            }
            return None;
        }
        k += 1;
    }
    assert(args.take(k - 1) =~= args);
    let mut call: Vec<Vec<char>> = Vec::new();
    match &path {
        Some(p) => {
            match word_to_expr(p, ctx) {
                Some(e) => call.push(e),
                None => return None,
            }
        },
        None => {},
    }
    if all {
        call.push(chars_of("true"));
    }
    if recursive {
        call.push(chars_of("true"));
    }
    proof {
        let e = if path is Some { Some(call@[0]@) } else { None };
        assert(views(call@) =~= call_args(e, all, recursive));
    }
    if call.len() == 0 {
        return Some(chars_of("trust ls()"));
    }
    let mut out = chars_of("trust ls(");
    push_all(&mut out, &join_lit(&call, ", "));
    push_str(&mut out, ")");
    Some(out)
}

} // verus!
