//! `cp [-f] source dest` as `cp(source, dest[, true])`.
use vstd::prelude::*;

use super::is_option;
use crate::amber::render::context::RenderContext;
use crate::amber::render::word::{spec_word_to_expr, word_to_expr};
use crate::bash::ast::SimpleCommand;
use crate::text::{chars_of, eq_lit, push_all, push_str, views};

verus! {

/// The `-f` flag and the other arguments of `cp`; `None` at another option.
pub open spec fn scan(args: Seq<String>) -> Option<(bool, Seq<Seq<char>>)>
    decreases args.len(),
{
    if args.len() == 0 {
        Some((false, seq![]))
    } else {
        match scan(args.drop_last()) {
            None => None,
            Some((force, positional)) => {
                let w = args.last()@;
                if w == "-f"@ || w == "--force"@ {
                    Some((true, positional))
                } else if is_option(w) {
                    None
                } else {
                    Some((force, positional.push(w)))
                }
            },
        }
    }
}

/// `trust cp(source, dest)`, with `, true` for `-f`.
pub open spec fn spec_render(words: Seq<String>, ctx: RenderContext) -> Option<Seq<char>> {
    if words.len() == 0 {
        None
    } else {
        match scan(words.skip(1)) {
            None => None,
            Some((force, positional)) => if positional.len() != 2 {
                None
            } else {
                match (spec_word_to_expr(positional[0], ctx), spec_word_to_expr(positional[1], ctx)) {
                    (Some(s), Some(d)) => Some(if force {
                        "trust cp("@ + s + ", "@ + d + ", true)"@
                    } else {
                        "trust cp("@ + s + ", "@ + d + ")"@
                    }),
                    _ => None,
                }
            },
        }
    }
}

pub fn render(simple: &SimpleCommand, ctx: &RenderContext) -> (r: Option<Vec<char>>)
    requires
        ctx.wf(),
    ensures
        match r {
            Some(v) => spec_render(simple.words@, *ctx) == Some(v@),
            None => spec_render(simple.words@, *ctx) is None,
        },
{
    let words = &simple.words;
    if words.len() == 0 {
        return None;
    }
    let ghost args = words@.skip(1);
    let mut force = false;
    let mut positional: Vec<Vec<char>> = Vec::new();
    let mut k: usize = 1;
    while k < words.len()
        invariant
            1 <= k <= words@.len(),
            words@ == simple.words@,
            ctx.wf(),
            args == words@.skip(1),
            scan(args.take(k - 1)) == Some((force, views(positional@))),
        decreases words@.len() - k,
    {
        assert(args.take(k as int).drop_last() =~= args.take(k - 1));
        assert(args.take(k as int).last() == words@[k as int]);
        let w = chars_of(words[k].as_str());
        if eq_lit(&w, "-f") || eq_lit(&w, "--force") {
            force = true;
        } else if w.len() > 0 && w[0] == '-' {
            proof {
                lemma_scan_none(args, k as int);
            }
            return None;
        } else {
            let ghost before = positional@;
            positional.push(w);
            assert(views(positional@) =~= views(before).push(w@));
        }
        k += 1;
    }
    assert(args.take(k - 1) =~= args);
    if positional.len() != 2 {
        return None;
    }
    let source = match word_to_expr(&positional[0], ctx) {
        Some(e) => e,
        None => return None,
    };
    let dest = match word_to_expr(&positional[1], ctx) {
        Some(e) => e,
        None => return None,
    };
    let mut out = chars_of("trust cp(");
    push_all(&mut out, &source);
    push_str(&mut out, ", ");
    push_all(&mut out, &dest);
    if force {
        push_str(&mut out, ", true)");
    } else {
        push_str(&mut out, ")");
    }
    Some(out)
}

proof fn lemma_scan_none(args: Seq<String>, k: int)
    requires
        1 <= k <= args.len(),
        scan(args.take(k)) is None,
    ensures
        scan(args) is None,
    decreases args.len() - k,
{
    if k < args.len() {
        assert(args.take(k + 1).drop_last() =~= args.take(k));
        lemma_scan_none(args, k + 1);
    } else {
        assert(args.take(k) =~= args);
    }
}

} // verus!
