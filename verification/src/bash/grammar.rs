//! The grammar that the parser follows, as functions from a token stream and a position to
//! the syntax read there (as plain values) and the position after it, or the failure.
use vstd::prelude::*;

use super::ast::{CaseClauseTerminator, ClauseView, CommandView, Connector};
use super::parser::{
    arith_command, case_patterns_from, case_separators_end, comment_end, lemma_comment_end_after,
    normalize_words, separators_end, simple_end, spec_is_comment, spec_is_separator,
};
use crate::text::{join, spec_is_identifier, spec_starts_with, spec_strip_prefix, spec_strip_suffix};

verus! {

/// A parse failure: its message and the position it names.
pub type Failure = (Seq<char>, (usize, usize));

/// A token stream: the words, their positions, and the position of the end of the input.
pub struct Tokens {
    pub words: Seq<Seq<char>>,
    pub positions: Seq<(usize, usize)>,
    pub eof: (usize, usize),
}

impl Tokens {
    pub open spec fn len(self) -> int {
        self.words.len() as int
    }

    /// Whether the token at `i` is the word `w`.
    pub open spec fn at(self, i: int, w: Seq<char>) -> bool {
        0 <= i < self.words.len() && self.words[i] == w
    }

    /// The position of the token at `i`, or the end of the input past the last one.
    pub open spec fn position_at(self, i: int) -> (usize, usize) {
        if 0 <= i < self.positions.len() {
            self.positions[i]
        } else {
            self.eof
        }
    }

    /// The failure `message` at the end of the input.
    pub open spec fn fail_end<T>(self, message: Seq<char>) -> Result<T, Failure> {
        Err((message, self.eof))
    }

    /// Reading the word `w` at `i`: the position after it, or the failure at `i`.
    pub open spec fn expect(self, i: int, w: Seq<char>) -> Result<int, Failure> {
        if self.at(i, w) {
            Ok(i + 1)
        } else {
            Err(("Expected '"@ + w + "'"@, self.position_at(i)))
        }
    }
}

/// What no parse reaches: a position that does not move forward.
pub open spec fn stuck<T>(t: Tokens) -> Result<T, Failure> {
    Err((Seq::empty(), t.eof))
}

/// The index after the newlines and comments from `i` on.
pub open spec fn connector_separators_end(ws: Seq<Seq<char>>, i: int) -> int
    decreases ws.len() - i,
{
    if i < 0 || i >= ws.len() {
        i
    } else if ws[i] == "\n"@ {
        connector_separators_end(ws, i + 1)
    } else if spec_is_comment(ws[i]) {
        proof {
            lemma_comment_end_after(ws, i);
        }
        connector_separators_end(ws, comment_end(ws, i))
    } else {
        i
    }
}

pub proof fn lemma_separator_ends(ws: Seq<Seq<char>>, i: int)
    requires
        0 <= i <= ws.len(),
    ensures
        i <= separators_end(ws, i) <= ws.len(),
        i <= case_separators_end(ws, i) <= ws.len(),
        i <= connector_separators_end(ws, i) <= ws.len(),
    decreases ws.len() - i,
{
    if i < ws.len() {
        lemma_separator_ends(ws, i + 1);
        lemma_comment_end_after(ws, i);
        lemma_separator_ends(ws, comment_end(ws, i));
    }
}

/// The index of the first separator or `do` from `i` on, or the end.
pub open spec fn for_items_end(ws: Seq<Seq<char>>, i: int) -> int
    decreases ws.len() - i,
{
    if i < 0 || i >= ws.len() {
        i
    } else if spec_is_separator(ws[i]) || ws[i] == "do"@ {
        i
    } else {
        for_items_end(ws, i + 1)
    }
}

pub proof fn lemma_for_items_end(ws: Seq<Seq<char>>, i: int)
    requires
        0 <= i <= ws.len(),
    ensures
        i <= for_items_end(ws, i) <= ws.len(),
    decreases ws.len() - i,
{
    if i < ws.len() {
        lemma_for_items_end(ws, i + 1);
    }
}

/// Whether the token at `i` starts a function definition `name()` or `name ()`.
pub open spec fn function_start(ws: Seq<Seq<char>>, i: int) -> bool {
    if i < 0 || i >= ws.len() {
        false
    } else {
        match spec_strip_suffix(ws[i], "()"@) {
            Some(name) => spec_is_identifier(name),
            None => spec_is_identifier(ws[i]) && i + 1 < ws.len() && ws[i + 1] == "()"@,
        }
    }
}

/// The clause terminator at `i` and the index after it: `;;`, `;&` or `;;&`, as one token or
/// as separate `;` and `&` tokens.
pub open spec fn terminator_at(t: Tokens, i: int) -> Option<(CaseClauseTerminator, int)> {
    if t.at(i, ";;"@) {
        Some((CaseClauseTerminator::Break, i + 1))
    } else if t.at(i, ";&"@) {
        Some((CaseClauseTerminator::Fallthrough, i + 1))
    } else if t.at(i, ";;&"@) {
        Some((CaseClauseTerminator::TestNext, i + 1))
    } else if !t.at(i, ";"@) {
        None
    } else if t.at(i + 1, ";"@) && t.at(i + 2, "&"@) {
        Some((CaseClauseTerminator::TestNext, i + 3))
    } else if t.at(i + 1, ";"@) {
        Some((CaseClauseTerminator::Break, i + 2))
    } else if t.at(i + 1, "&"@) {
        Some((CaseClauseTerminator::Fallthrough, i + 2))
    } else {
        None
    }
}

/// The tokens of a section of a C-style for header from `i` on, after `acc`, up to `;`
/// (`close` false) or `))` (`close` true), and the index after that delimiter.
pub open spec fn c_segment(ws: Seq<Seq<char>>, i: int, close: bool, acc: Seq<Seq<char>>) -> Result<(Seq<Seq<char>>, int), Seq<char>>
    decreases ws.len() - i,
{
    if i < 0 || i >= ws.len() {
        Err("Unterminated C-style for loop"@)
    } else if !close && ws[i] == ";"@ {
        Ok((acc, i + 1))
    } else if close && ws[i] == "))"@ {
        Ok((acc, i + 1))
    } else if close && spec_strip_suffix(ws[i], "))"@) is Some {
        let p = spec_strip_suffix(ws[i], "))"@).unwrap();
        Ok((if p.len() > 0 {
            acc.push(p)
        } else {
            acc
        }, i + 1))
    } else {
        c_segment(ws, i + 1, close, acc.push(ws[i]))
    }
}

/// The `((` that opens a C-style for header at `i`: what follows it in the same token, if
/// anything.
pub open spec fn c_open(ws: Seq<Seq<char>>, i: int) -> Option<Seq<Seq<char>>> {
    if i < 0 || i >= ws.len() {
        None
    } else if ws[i] == "(("@ {
        Some(seq![])
    } else {
        match spec_strip_prefix(ws[i], "(("@) {
            Some(rest) => Some(if rest.len() == 0 {
                seq![]
            } else {
                seq![rest]
            }),
            None => None,
        }
    }
}

/// Statements from `i` on, after `acc`, up to the end or a word of `stops`, which is not
/// read.
#[verifier::opaque]
pub open spec fn program(t: Tokens, i: int, stops: Seq<Seq<char>>, acc: Seq<CommandView>) -> Result<(Seq<CommandView>, int), Failure>
    decreases t.len() - i, 7int,
{
    if !(0 <= i <= t.len()) {
        stuck(t)
    } else {
        let j = separators_end(t.words, i);
        proof {
            lemma_separator_ends(t.words, i);
        }
        if j >= t.len() || stops.contains(t.words[j]) {
            Ok((acc, j))
        } else {
            match statement(t, j) {
                Err(e) => Err(e),
                Ok((c, k)) => if k <= j || k > t.len() {
                    stuck(t)
                } else {
                    program(t, k, stops, acc.push(c))
                },
            }
        }
    }
}

/// An and-or list at `i`, run in the background when `&` follows.
#[verifier::opaque]
pub open spec fn statement(t: Tokens, i: int) -> Result<(CommandView, int), Failure>
    decreases t.len() - i, 6int,
{
    if !(0 <= i <= t.len()) {
        stuck(t)
    } else {
        match and_or(t, i) {
            Err(e) => Err(e),
            Ok((c, j)) => if t.at(j, "&"@) {
                Ok((CommandView::Background(Box::new(c)), connector_separators_end(t.words, j + 1)))
            } else {
                Ok((c, j))
            },
        }
    }
}

/// Pipelines at `i` joined by `&&` and `||`, grouping to the left.
#[verifier::opaque]
pub open spec fn and_or(t: Tokens, i: int) -> Result<(CommandView, int), Failure>
    decreases t.len() - i, 5int,
{
    if !(0 <= i <= t.len()) {
        stuck(t)
    } else {
        match pipeline(t, i) {
            Err(e) => Err(e),
            Ok((c, j)) => if j <= i || j > t.len() {
                stuck(t)
            } else {
                and_or_from(t, j, c)
            },
        }
    }
}

/// The rest of an and-or list at `i` whose first part is `left`.
#[verifier::opaque]
pub open spec fn and_or_from(t: Tokens, i: int, left: CommandView) -> Result<(CommandView, int), Failure>
    decreases t.len() - i, 5int,
{
    if !(0 <= i <= t.len()) {
        stuck(t)
    } else if t.at(i, "&&"@) || t.at(i, "||"@) {
        let op = if t.at(i, "&&"@) {
            Connector::And
        } else {
            Connector::Or
        };
        let k = connector_separators_end(t.words, i + 1);
        proof {
            lemma_separator_ends(t.words, i + 1);
        }
        match pipeline(t, k) {
            Err(e) => Err(e),
            Ok((right, m)) => if m <= i || m > t.len() {
                stuck(t)
            } else {
                and_or_from(t, m, CommandView::Connection(Box::new(left), op, Box::new(right)))
            },
        }
    } else {
        Ok((left, i))
    }
}

/// Commands at `i` joined by `|`, grouping to the left.
#[verifier::opaque]
pub open spec fn pipeline(t: Tokens, i: int) -> Result<(CommandView, int), Failure>
    decreases t.len() - i, 4int,
{
    if !(0 <= i <= t.len()) {
        stuck(t)
    } else {
        match unit(t, i) {
            Err(e) => Err(e),
            Ok((c, j)) => if j <= i || j > t.len() {
                stuck(t)
            } else {
                pipeline_from(t, j, c)
            },
        }
    }
}

/// The rest of a pipeline at `i` whose first part is `left`.
#[verifier::opaque]
pub open spec fn pipeline_from(t: Tokens, i: int, left: CommandView) -> Result<(CommandView, int), Failure>
    decreases t.len() - i, 4int,
{
    if !(0 <= i <= t.len()) {
        stuck(t)
    } else if t.at(i, "|"@) {
        let k = connector_separators_end(t.words, i + 1);
        proof {
            lemma_separator_ends(t.words, i + 1);
        }
        match unit(t, k) {
            Err(e) => Err(e),
            Ok((right, m)) => if m <= i || m > t.len() {
                stuck(t)
            } else {
                pipeline_from(t, m, CommandView::Connection(Box::new(left), Connector::Pipe, Box::new(right)))
            },
        }
    } else {
        Ok((left, i))
    }
}

/// One command at `i`, chosen by its first word.
#[verifier::opaque]
pub open spec fn unit(t: Tokens, i: int) -> Result<(CommandView, int), Failure>
    decreases t.len() - i, 3int,
{
    if !(0 <= i <= t.len()) {
        stuck(t)
    } else if i == t.len() {
        t.fail_end("Expected command"@)
    } else {
        let w = t.words[i];
        if w == "if"@ {
            if_command(t, i)
        } else if w == "while"@ {
            while_command(t, i)
        } else if w == "for"@ {
            for_command(t, i)
        } else if w == "case"@ {
            case_command(t, i)
        } else if w == "function"@ {
            function_keyword(t, i)
        } else if w == "{"@ {
            group(t, i)
        } else if spec_starts_with(w, "(("@) {
            match arith_command(t.words, i) {
                Ok((e, j)) => Ok((CommandView::Arithmetic(e), j)),
                Err(m) => t.fail_end(m),
            }
        } else if function_start(t.words, i) {
            function_style(t, i)
        } else {
            let end = simple_end(t.words, i, 0);
            if end == i {
                Err(("Expected command"@, t.position_at(i)))
            } else {
                Ok((CommandView::Simple(normalize_words(t.words.subrange(i, end))), end))
            }
        }
    }
}

/// `if` at `i`.
#[verifier::opaque]
pub open spec fn if_command(t: Tokens, i: int) -> Result<(CommandView, int), Failure>
    decreases t.len() - i, 2int,
{
    match t.expect(i, "if"@) {
        Err(e) => Err(e),
        Ok(j) => match if_tail(t, j) {
            Err(e) => Err(e),
            Ok(((c, then_body, else_body), k)) => Ok((CommandView::If(Box::new(c), then_body, else_body), k)),
        },
    }
}

/// The rest of an `if` at `i` after its keyword: condition, `then` branch, and an `else` or
/// `elif` branch up to `fi`.
#[verifier::opaque]
pub open spec fn if_tail(t: Tokens, i: int) -> Result<((CommandView, Seq<CommandView>, Option<Seq<CommandView>>), int), Failure>
    decreases t.len() - i, 8int,
{
    if !(0 <= i <= t.len()) {
        stuck(t)
    } else {
        let j = separators_end(t.words, i);
        proof {
            lemma_separator_ends(t.words, i);
        }
        match statement(t, j) {
            Err(e) => Err(e),
            Ok((condition, k)) => if k <= j || k > t.len() {
                stuck(t)
            } else {
                let l = separators_end(t.words, k);
                proof {
                    lemma_separator_ends(t.words, k);
                }
                match t.expect(l, "then"@) {
                    Err(e) => Err(e),
                    Ok(m) => match program(t, m, seq!["else"@, "elif"@, "fi"@], seq![]) {
                        Err(e) => Err(e),
                        Ok((then_body, n)) => if n < m || n > t.len() {
                            stuck(t)
                        } else if t.at(n, "else"@) {
                            match program(t, n + 1, seq!["fi"@], seq![]) {
                                Err(e) => Err(e),
                                Ok((else_body, p)) => match t.expect(p, "fi"@) {
                                    Err(e) => Err(e),
                                    Ok(q) => Ok(((condition, then_body, Some(else_body)), q)),
                                },
                            }
                        } else if t.at(n, "elif"@) {
                            match if_tail(t, n + 1) {
                                Err(e) => Err(e),
                                Ok(((c, tb, eb), p)) => Ok(
                                    ((condition, then_body, Some(seq![CommandView::If(Box::new(c), tb, eb)])), p),
                                ),
                            }
                        } else {
                            match t.expect(n, "fi"@) {
                                Err(e) => Err(e),
                                Ok(q) => Ok(((condition, then_body, None), q)),
                            }
                        },
                    },
                }
            },
        }
    }
}

/// `while` at `i`.
#[verifier::opaque]
pub open spec fn while_command(t: Tokens, i: int) -> Result<(CommandView, int), Failure>
    decreases t.len() - i, 2int,
{
    match t.expect(i, "while"@) {
        Err(e) => Err(e),
        Ok(j) => {
            let k = separators_end(t.words, j);
            proof {
                lemma_separator_ends(t.words, j);
            }
            match statement(t, k) {
                Err(e) => Err(e),
                Ok((condition, l)) => if l <= k || l > t.len() {
                    stuck(t)
                } else {
                    let m = separators_end(t.words, l);
                    proof {
                        lemma_separator_ends(t.words, l);
                    }
                    match t.expect(m, "do"@) {
                        Err(e) => Err(e),
                        Ok(n) => match program(t, n, seq!["done"@], seq![]) {
                            Err(e) => Err(e),
                            Ok((body, p)) => match t.expect(p, "done"@) {
                                Err(e) => Err(e),
                                Ok(q) => Ok((CommandView::While(Box::new(condition), body), q)),
                            },
                        },
                    }
                },
            }
        },
    }
}

/// `for` at `i`: over words, or C-style.
#[verifier::opaque]
pub open spec fn for_command(t: Tokens, i: int) -> Result<(CommandView, int), Failure>
    decreases t.len() - i, 2int,
{
    match t.expect(i, "for"@) {
        Err(e) => Err(e),
        Ok(j) => {
            let k = separators_end(t.words, j);
            proof {
                lemma_separator_ends(t.words, j);
            }
            if k < t.len() && spec_starts_with(t.words[k], "(("@) {
                c_style_for(t, k)
            } else if k >= t.len() {
                t.fail_end("Expected loop variable name"@)
            } else if !spec_is_identifier(t.words[k]) {
                t.fail_end("Invalid loop variable name '"@ + t.words[k] + "'"@)
            } else {
                let l = separators_end(t.words, k + 1);
                proof {
                    lemma_separator_ends(t.words, k + 1);
                }
                match t.expect(l, "in"@) {
                    Err(e) => Err(e),
                    Ok(m) => for_rest(t, t.words[k], m),
                }
            }
        },
    }
}

/// The rest of `for name in ..` from its first item at `m`: the items, up to a separator or
/// `do`, then the body between `do` and `done`.
#[verifier::opaque]
pub open spec fn for_rest(t: Tokens, name: Seq<char>, m: int) -> Result<(CommandView, int), Failure>
    decreases t.len() - m, 2int,
{
    if !(0 <= m <= t.len()) {
        stuck(t)
    } else {
        let n = for_items_end(t.words, m);
        proof {
            lemma_for_items_end(t.words, m);
            lemma_separator_ends(t.words, n);
        }
        if n >= t.len() {
            t.fail_end("Unterminated for loop"@)
        } else {
            let p = separators_end(t.words, n);
            match t.expect(p, "do"@) {
                Err(e) => Err(e),
                Ok(q) => match program(t, q, seq!["done"@], seq![]) {
                    Err(e) => Err(e),
                    Ok((body, r)) => match t.expect(r, "done"@) {
                        Err(e) => Err(e),
                        Ok(s) => Ok((CommandView::For(name, t.words.subrange(m, n), body), s)),
                    },
                },
            }
        }
    }
}

/// A C-style `for (( init; condition; update ))` whose `((` is at `i`.
#[verifier::opaque]
pub open spec fn c_style_for(t: Tokens, i: int) -> Result<(CommandView, int), Failure>
    decreases t.len() - i, 2int,
{
    match c_open(t.words, i) {
        None => t.fail_end("Expected '((' in C-style for loop"@),
        Some(seed) => match c_segment(t.words, i + 1, false, seed) {
            Err(m) => t.fail_end(m),
            Ok((init, j)) => match c_segment(t.words, j, false, seq![]) {
                Err(m) => t.fail_end(m),
                Ok((condition, k)) => match c_segment(t.words, k, true, seq![]) {
                    Err(m) => t.fail_end(m),
                    Ok((update, l)) => if l <= i || l > t.len() {
                        stuck(t)
                    } else {
                        let m = separators_end(t.words, l);
                        proof {
                            lemma_separator_ends(t.words, l);
                        }
                        match t.expect(m, "do"@) {
                            Err(e) => Err(e),
                            Ok(n) => match program(t, n, seq!["done"@], seq![]) {
                                Err(e) => Err(e),
                                Ok((body, p)) => match t.expect(p, "done"@) {
                                    Err(e) => Err(e),
                                    Ok(q) => Ok((
                                        CommandView::CStyleFor(join(init, " "@), join(condition, " "@), join(update, " "@), body),
                                        q,
                                    )),
                                },
                            },
                        }
                    },
                },
            },
        },
    }
}

/// `case` at `i`.
#[verifier::opaque]
pub open spec fn case_command(t: Tokens, i: int) -> Result<(CommandView, int), Failure>
    decreases t.len() - i, 2int,
{
    match t.expect(i, "case"@) {
        Err(e) => Err(e),
        Ok(j) => {
            let k = separators_end(t.words, j);
            proof {
                lemma_separator_ends(t.words, j);
            }
            if k >= t.len() {
                t.fail_end("Expected case subject word"@)
            } else {
                let l = separators_end(t.words, k + 1);
                proof {
                    lemma_separator_ends(t.words, k + 1);
                }
                match t.expect(l, "in"@) {
                    Err(e) => Err(e),
                    Ok(m) => match case_clauses(t, m, seq![]) {
                        Err(e) => Err(e),
                        Ok((clauses, n)) => Ok((CommandView::Case(t.words[k], clauses), n)),
                    },
                }
            }
        },
    }
}

/// Case clauses from `i` on, after `acc`, up to `esac` or a clause that ends at `esac`.
#[verifier::opaque]
pub open spec fn case_clauses(t: Tokens, i: int, acc: Seq<ClauseView>) -> Result<(Seq<ClauseView>, int), Failure>
    decreases t.len() - i, 10int,
{
    if !(0 <= i <= t.len()) {
        stuck(t)
    } else {
        let j = case_separators_end(t.words, i);
        proof {
            lemma_separator_ends(t.words, i);
        }
        if t.at(j, "esac"@) {
            Ok((acc, j + 1))
        } else {
            match case_clause(t, j) {
                Err(e) => Err(e),
                Ok((clause, k)) => if k <= j || k > t.len() {
                    stuck(t)
                } else if clause.terminator is End {
                    Ok((acc.push(clause), k))
                } else {
                    case_clauses(t, k, acc.push(clause))
                },
            }
        }
    }
}

/// One case clause at `i`: its patterns, its statements, and how it ends.
#[verifier::opaque]
pub open spec fn case_clause(t: Tokens, i: int) -> Result<(ClauseView, int), Failure>
    decreases t.len() - i, 9int,
{
    if !(0 <= i <= t.len()) {
        stuck(t)
    } else {
        match case_patterns_from(t.words, case_separators_end(t.words, i), true, seq![], seq![]) {
            Err(m) => t.fail_end(m),
            Ok((patterns, j)) => if j <= i || j > t.len() {
                stuck(t)
            } else {
                match clause_body(t, j, seq![]) {
                    Err(e) => Err(e),
                    Ok(((body, terminator), k)) => Ok((ClauseView { patterns, body, terminator }, k)),
                }
            },
        }
    }
}

/// The statements of a case clause from `i` on, after `acc`, and how the clause ends.
#[verifier::opaque]
pub open spec fn clause_body(t: Tokens, i: int, acc: Seq<CommandView>) -> Result<((Seq<CommandView>, CaseClauseTerminator), int), Failure>
    decreases t.len() - i, 8int,
{
    if !(0 <= i <= t.len()) {
        stuck(t)
    } else {
        let j = case_separators_end(t.words, i);
        proof {
            lemma_separator_ends(t.words, i);
        }
        match terminator_at(t, j) {
            Some((terminator, k)) => Ok(((acc, terminator), k)),
            None => if t.at(j, "esac"@) {
                Ok(((acc, CaseClauseTerminator::End), j + 1))
            } else {
                match statement(t, j) {
                    Err(e) => Err(e),
                    Ok((c, k)) => if k <= j || k > t.len() {
                        stuck(t)
                    } else {
                        clause_body(t, k, acc.push(c))
                    },
                }
            },
        }
    }
}

/// `function name [()] { .. }` at `i`.
#[verifier::opaque]
pub open spec fn function_keyword(t: Tokens, i: int) -> Result<(CommandView, int), Failure>
    decreases t.len() - i, 2int,
{
    match t.expect(i, "function"@) {
        Err(e) => Err(e),
        Ok(j) => {
            let k = separators_end(t.words, j);
            proof {
                lemma_separator_ends(t.words, j);
            }
            if k >= t.len() {
                t.fail_end("Expected function name"@)
            } else if !spec_is_identifier(t.words[k]) {
                t.fail_end("Invalid function name '"@ + t.words[k] + "'"@)
            } else {
                let l = if t.at(k + 1, "()"@) {
                    k + 2
                } else {
                    k + 1
                };
                let m = separators_end(t.words, l);
                proof {
                    lemma_separator_ends(t.words, l);
                }
                match block(t, m, "function body"@) {
                    Err(e) => Err(e),
                    Ok((body, n)) => Ok((CommandView::Function(t.words[k], body), n)),
                }
            }
        },
    }
}

/// `name() { .. }` or `name () { .. }` at `i`.
#[verifier::opaque]
pub open spec fn function_style(t: Tokens, i: int) -> Result<(CommandView, int), Failure>
    decreases t.len() - i, 2int,
{
    if !(0 <= i < t.len()) {
        t.fail_end("Expected function name"@)
    } else {
        let named = match spec_strip_suffix(t.words[i], "()"@) {
            Some(n) => Some((n, i + 1)),
            None => if t.at(i + 1, "()"@) {
                Some((t.words[i], i + 2))
            } else {
                None
            },
        };
        match named {
            None => t.fail_end("Expected function declaration"@),
            Some((name, j)) => if !spec_is_identifier(name) {
                t.fail_end("Invalid function name '"@ + name + "'"@)
            } else {
                let m = separators_end(t.words, j);
                proof {
                    lemma_separator_ends(t.words, j);
                }
                match block(t, m, "function body"@) {
                    Err(e) => Err(e),
                    Ok((body, n)) => Ok((CommandView::Function(name, body), n)),
                }
            },
        }
    }
}

/// `{ .. }` at `i`.
#[verifier::opaque]
pub open spec fn group(t: Tokens, i: int) -> Result<(CommandView, int), Failure>
    decreases t.len() - i, 2int,
{
    match block(t, i, "group"@) {
        Err(e) => Err(e),
        Ok((body, j)) => Ok((CommandView::Group(body), j)),
    }
}

/// The statements between `{` at `i` and its `}`; `name` says what is unterminated.
#[verifier::opaque]
pub open spec fn block(t: Tokens, i: int, name: Seq<char>) -> Result<(Seq<CommandView>, int), Failure>
    decreases t.len() - i, 1int,
{
    match t.expect(i, "{"@) {
        Err(e) => Err(e),
        Ok(j) => match program(t, j, seq!["}"@], seq![]) {
            Err(e) => Err(e),
            Ok((body, k)) => if !t.at(k, "}"@) {
                t.fail_end("Unterminated "@ + name + ""@)
            } else {
                Ok((body, k + 1))
            },
        },
    }
}

} // verus!

verus! {

/// A pipeline: commands joined by `|`, grouping to the left, none of them a list.
pub open spec fn pipe_shaped(c: CommandView) -> bool
    decreases c,
{
    match c {
        CommandView::Connection(left, op, right) => op == Connector::Pipe && pipe_shaped(*left) && !(*right is Connection),
        _ => true,
    }
}

/// An and-or list: pipelines joined by `&&` and `||`, grouping to the left.
pub open spec fn and_or_shaped(c: CommandView) -> bool
    decreases c,
{
    match c {
        CommandView::Connection(left, op, right) => if op == Connector::Pipe {
            pipe_shaped(c)
        } else {
            and_or_shaped(*left) && pipe_shaped(*right)
        },
        _ => true,
    }
}

/// One command read at `i` is never a list.
pub proof fn lemma_unit_not_connection(t: Tokens, i: int)
    ensures
        unit(t, i) matches Ok((c, _)) ==> !(c is Connection),
{
    reveal_with_fuel(unit, 1);
    reveal_with_fuel(if_command, 1);
    reveal_with_fuel(while_command, 1);
    reveal_with_fuel(for_command, 1);
    reveal_with_fuel(for_rest, 1);
    reveal_with_fuel(c_style_for, 1);
    reveal_with_fuel(case_command, 1);
    reveal_with_fuel(function_keyword, 1);
    reveal_with_fuel(function_style, 1);
    reveal_with_fuel(group, 1);
}

proof fn lemma_pipeline_from_shaped(t: Tokens, i: int, left: CommandView)
    requires
        pipe_shaped(left),
    ensures
        pipeline_from(t, i, left) matches Ok((c, _)) ==> pipe_shaped(c),
    decreases t.len() - i,
{
    reveal_with_fuel(pipeline_from, 1);
    reveal_with_fuel(unit, 1);
    if 0 <= i <= t.len() && t.at(i, "|"@) {
        let k = connector_separators_end(t.words, i + 1);
        lemma_separator_ends(t.words, i + 1);
        lemma_unit_not_connection(t, k);
        match unit(t, k) {
            Ok((right, m)) => if !(m <= i || m > t.len()) {
                lemma_pipeline_from_shaped(t, m, CommandView::Connection(Box::new(left), Connector::Pipe, Box::new(right)));
            },
            Err(_) => {},
        }
    }
}

proof fn lemma_and_or_from_shaped(t: Tokens, i: int, left: CommandView)
    requires
        and_or_shaped(left),
    ensures
        and_or_from(t, i, left) matches Ok((c, _)) ==> and_or_shaped(c),
    decreases t.len() - i,
{
    reveal_with_fuel(and_or_from, 1);
    reveal_with_fuel(pipeline, 1);
    if 0 <= i <= t.len() && (t.at(i, "&&"@) || t.at(i, "||"@)) {
        let op = if t.at(i, "&&"@) {
            Connector::And
        } else {
            Connector::Or
        };
        let k = connector_separators_end(t.words, i + 1);
        lemma_separator_ends(t.words, i + 1);
        lemma_pipeline_shaped(t, k);
        match pipeline(t, k) {
            Ok((right, m)) => if !(m <= i || m > t.len()) {
                lemma_and_or_from_shaped(t, m, CommandView::Connection(Box::new(left), op, Box::new(right)));
            },
            Err(_) => {},
        }
    }
}

/// `|` binds tighter than `&&` and `||`: a pipeline read at `i` is commands joined by `|`
/// alone, grouping to the left.
pub proof fn lemma_pipeline_shaped(t: Tokens, i: int)
    ensures
        pipeline(t, i) matches Ok((c, _)) ==> pipe_shaped(c),
{
    reveal_with_fuel(pipeline, 1);
    reveal_with_fuel(unit, 1);
    reveal_with_fuel(pipeline_from, 1);
    lemma_unit_not_connection(t, i);
    if 0 <= i <= t.len() {
        match unit(t, i) {
            Ok((c, j)) => if !(j <= i || j > t.len()) {
                lemma_pipeline_from_shaped(t, j, c);
            },
            Err(_) => {},
        }
    }
}

/// An and-or list read at `i` is pipelines joined by `&&` and `||`, grouping to the left: no
/// `&&` or `||` stands inside a pipeline.
pub proof fn lemma_and_or_shaped(t: Tokens, i: int)
    ensures
        and_or(t, i) matches Ok((c, _)) ==> and_or_shaped(c),
{
    reveal_with_fuel(and_or, 1);
    reveal_with_fuel(pipeline, 1);
    reveal_with_fuel(and_or_from, 1);
    lemma_pipeline_shaped(t, i);
    if 0 <= i <= t.len() {
        match pipeline(t, i) {
            Ok((c, j)) => if !(j <= i || j > t.len()) {
                lemma_pipe_is_and_or(c);
                lemma_and_or_from_shaped(t, j, c);
            },
            Err(_) => {},
        }
    }
}

proof fn lemma_pipe_is_and_or(c: CommandView)
    requires
        pipe_shaped(c),
    ensures
        and_or_shaped(c),
{
}

} // verus!
