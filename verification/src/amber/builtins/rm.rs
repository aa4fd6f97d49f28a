//! `rm [-r] [-f] path` as `rm(path, true, true)`.
use vstd::prelude::*;

use super::ls::opt_view;
use crate::amber::render::context::RenderContext;
use crate::amber::render::word::{spec_word_to_expr, word_to_expr};
use crate::bash::ast::SimpleCommand;
use crate::text::{chars_of, eq_lit, join, join_lit, push_all, push_str, views};

verus! {

pub open spec fn is_recursive_flag(c: char) -> bool {
    c == 'r' || c == 'R'
}

/// The state after one argument of `rm`: recursing, forcing, the path; `None` at an unknown
/// option or a second path.
pub open spec fn step(state: (bool, bool, Option<Seq<char>>), w: Seq<char>) -> Option<(bool, bool, Option<Seq<char>>)> {
    let (recursive, force, path) = state;
    if w == "-r"@ || w == "-R"@ || w == "--recursive"@ {
        Some((true, force, path))
    } else if w == "-f"@ || w == "--force"@ {
        Some((recursive, true, path))
    } else if w.len() > 1 && w[0] == '-' {
        if forall|k: int| 1 <= k < w.len() ==> is_recursive_flag(#[trigger] w[k]) || w[k] == 'f' {
            Some((
                recursive || exists|k: int| 1 <= k < w.len() && is_recursive_flag(#[trigger] w[k]),
                force || exists|k: int| 1 <= k < w.len() && #[trigger] w[k] == 'f',
                path,
            ))
        } else {
            None
        }
    } else if path is Some {
        None
    } else {
        Some((recursive, force, Some(w)))
    }
}

pub open spec fn scan(args: Seq<String>) -> Option<(bool, bool, Option<Seq<char>>)>
    decreases args.len(),
{
    if args.len() == 0 {
        Some((false, false, None))
    } else {
        match scan(args.drop_last()) {
            None => None,
            Some(state) => step(state, args.last()@),
        }
    }
}

/// `trust rm(path)`, with `, true` for `-r` and then for `-f`; a path is required.
pub open spec fn spec_render(words: Seq<String>, ctx: RenderContext) -> Option<Seq<char>> {
    if words.len() == 0 {
        None
    } else {
        match scan(words.skip(1)) {
            Some((recursive, force, Some(p))) => match spec_word_to_expr(p, ctx) {
                Some(e) => {
                    let args = seq![e] + (if recursive {
                        seq!["true"@]
                    } else {
                        seq![]
                    }) + (if force {
                        seq!["true"@]
                    } else {
                        seq![]
                    });
                    Some("trust rm("@ + join(args, ", "@) + ")"@)
                },
                None => None,
            },
            _ => None,
        }
    }
}

fn apply(recursive: &mut bool, force: &mut bool, path: &mut Option<Vec<char>>, w: &Vec<char>) -> (ok: bool)
    ensures
        ok == step((*old(recursive), *old(force), opt_view(*old(path))), w@) is Some,
        ok ==> step((*old(recursive), *old(force), opt_view(*old(path))), w@) == Some((*final(recursive), *final(force), opt_view(*final(path)))),
{
    if eq_lit(w, "-r") || eq_lit(w, "-R") || eq_lit(w, "--recursive") {
        *recursive = true;
        return true;
    }
    if eq_lit(w, "-f") || eq_lit(w, "--force") {
        *force = true;
        return true;
    }
    if w.len() > 1 && w[0] == '-' {
        let mut saw_recursive = false;
        let mut saw_force = false;
        let mut k: usize = 1;
        while k < w.len()
            invariant
                1 <= k <= w@.len(),
                w@.len() > 1 && w@[0] == '-',
                !(w@ == "-r"@ || w@ == "-R"@ || w@ == "--recursive"@),
                !(w@ == "-f"@ || w@ == "--force"@),
                *recursive == *old(recursive),
                *force == *old(force),
                *path == *old(path),
                forall|j: int| 1 <= j < k ==> is_recursive_flag(#[trigger] w@[j]) || w@[j] == 'f',
                saw_recursive == exists|j: int| 1 <= j < k && is_recursive_flag(#[trigger] w@[j]),
                saw_force == exists|j: int| 1 <= j < k && #[trigger] w@[j] == 'f',
            decreases w@.len() - k,
        {
            let c = w[k];
            if c == 'r' || c == 'R' {
                saw_recursive = true;
            } else if c == 'f' {
                saw_force = true;
            } else {
                assert(!(is_recursive_flag(w@[k as int]) || w@[k as int] == 'f'));
                return false;
            }
            k += 1;
        }
        *recursive = *recursive || saw_recursive;
        *force = *force || saw_force;
        return true;
    }
    if path.is_some() {
        return false;
    }
    *path = Some(crate::text::to_vec(w));
    true
}

proof fn lemma_scan_none(args: Seq<String>, k: int)
    requires
        1 <= k <= args.len(),
        scan(args.take(k)) is None,
    ensures
        scan(args) is None,
    decreases args.len() - k,
{
    if k < args.len() {
        assert(args.take(k + 1).drop_last() =~= args.take(k));
        lemma_scan_none(args, k + 1);
    } else {
        assert(args.take(k) =~= args);
    }
}

pub fn render(simple: &SimpleCommand, ctx: &RenderContext) -> (r: Option<Vec<char>>)
    requires
        ctx.wf(),
    ensures
        match r {
            Some(v) => spec_render(simple.words@, *ctx) == Some(v@),
            None => spec_render(simple.words@, *ctx) is None,
        },
{
    let words = &simple.words;
    if words.len() == 0 {
        return None;
    }
    let ghost args = words@.skip(1);
    let mut recursive = false;
    let mut force = false;
    let mut path: Option<Vec<char>> = None;
    let mut k: usize = 1;
    while k < words.len()
        invariant
            1 <= k <= words@.len(),
            words@ == simple.words@,
            ctx.wf(),
            args == words@.skip(1),
            scan(args.take(k - 1)) == Some((recursive, force, opt_view(path))),
        decreases words@.len() - k,
    {
        assert(args.take(k as int).drop_last() =~= args.take(k - 1));
        assert(args.take(k as int).last() == words@[k as int]);
        let w = chars_of(words[k].as_str());
        if !apply(&mut recursive, &mut force, &mut path, &w) {
            proof {
                lemma_scan_none(args, k as int);
            }
            return None;
        }
        k += 1;
    }
    assert(args.take(k - 1) =~= args);
    let p = match &path {
        Some(p) => p,
        None => return None,
    };
    let e = match word_to_expr(p, ctx) {
        Some(e) => e,
        None => return None,
    };
    let mut call: Vec<Vec<char>> = Vec::new();
    call.push(e);
    if recursive {
        call.push(chars_of("true"));
    }
    if force {
        call.push(chars_of("true"));
    }
    proof {
        assert(views(call@) =~= seq![call@[0]@] + (if recursive {
            seq!["true"@]
        } else {
            seq![]
        }) + (if force {
            seq!["true"@]
        } else {
            seq![]
        }));
    }
    let mut out = chars_of("trust rm(");
    push_all(&mut out, &join_lit(&call, ", "));
    push_str(&mut out, ")");
    Some(out)
}

} // verus!
