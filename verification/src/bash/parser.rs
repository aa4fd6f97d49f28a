//! A recursive-descent parser from Bash tokens to the syntax tree.
use vstd::prelude::*;

use super::ast::{
    clause_trees, lemma_clause_trees_push, lemma_trees_len, lemma_trees_push, trees,
    ArithmeticCommand, CStyleForCommand, CaseClause, CaseClauseTerminator, CaseCommand, ClauseView,
    Command, CommandView, Connection, Connector, ForCommand, FunctionDef, IfCommand, Program,
    SimpleCommand, WhileCommand,
};
use super::grammar::{
    and_or, and_or_from, block, c_open, c_segment, c_style_for, case_clause, case_clauses,
    case_command, clause_body, connector_separators_end, for_command, for_items_end, for_rest,
    function_keyword, function_start, function_style, group, if_command, if_tail, pipeline,
    pipeline_from, program, statement, terminator_at, unit, while_command, Failure, Tokens,
};
use super::rules::{
    eof_position, eof_position_of, get_rules, heraclitus_tokens, lexer_accepts, lexer_accepts_source, tokenize,
    LexToken,
};
use crate::text::{
    chars_of, decimal, ends_with_lit, eq_lit, is_blank, push_all, push_str, slice_vec,
    spec_ends_with, spec_is_identifier, spec_starts_with, spec_strip_prefix, spec_strip_suffix,
    spec_trim, starts_with_lit, string_texts, string_of, strip_prefix_lit, strip_suffix_lit, to_vec,
    trim, usize_to_decimal,
};

verus! {

/// Where parsing failed and why.
pub struct ParseFailure {
    pub message: Vec<char>,
    pub row: usize,
    pub col: usize,
}

/// The tokens of a script, the position of the next token to read, and the position that
/// stands for the end of the input.
pub struct TokenCursor {
    pub words: Vec<Vec<char>>,
    pub positions: Vec<(usize, usize)>,
    pub index: usize,
    pub eof: (usize, usize),
}

impl TokenCursor {
    pub open spec fn wf(&self) -> bool {
        &&& self.words@.len() == self.positions@.len()
        &&& self.words@.len() <= usize::MAX
        &&& self.index <= self.words@.len()
    }

    /// The token stream of `self` and `other` is the same.
    pub open spec fn same_tokens(&self, other: &TokenCursor) -> bool {
        &&& self.words@ == other.words@
        &&& self.positions@ == other.positions@
        &&& self.eof == other.eof
    }

    /// `next` is `self` after reading zero or more tokens.
    pub open spec fn advanced_to(&self, next: &TokenCursor) -> bool {
        &&& self.same_tokens(next)
        &&& next.wf()
        &&& self.index <= next.index
    }

    /// The number of tokens left.
    pub open spec fn remaining(&self) -> int {
        self.words@.len() - self.index
    }

    /// The word of the token at `i`, if there is one.
    pub open spec fn word_at(&self, i: int) -> Option<Seq<char>> {
        if 0 <= i < self.words@.len() {
            Some(self.words@[i]@)
        } else {
            None
        }
    }

    pub open spec fn current(&self) -> Option<Seq<char>> {
        self.word_at(self.index as int)
    }

    /// Whether the current token is the word `w`.
    pub open spec fn at_word(&self, w: Seq<char>) -> bool {
        self.current() == Some(w)
    }

    /// The position of the token at `i`, or the end-of-input position past the last token.
    pub open spec fn position_at(&self, i: int) -> (usize, usize) {
        if 0 <= i < self.positions@.len() {
            self.positions@[i]
        } else {
            self.eof
        }
    }
}

impl TokenCursor {
    /// The token stream, as plain values.
    pub open spec fn tokens(&self) -> Tokens {
        Tokens { words: crate::text::views(self.words@), positions: self.positions@, eof: self.eof }
    }
}

/// A failure as plain values.
pub open spec fn failure_of(f: ParseFailure) -> Failure {
    (f.message@, (f.row, f.col))
}

/// What parsing one command gave, ending at `index`, as plain values.
pub open spec fn command_outcome(r: Result<Command, ParseFailure>, index: usize) -> Result<(CommandView, int), Failure> {
    match r {
        Ok(c) => Ok((c.tree(), index as int)),
        Err(f) => Err(failure_of(f)),
    }
}

/// What parsing statements gave, ending at `index`, as plain values.
pub open spec fn commands_outcome(r: Result<Vec<Command>, ParseFailure>, index: usize) -> Result<(Seq<CommandView>, int), Failure> {
    match r {
        Ok(cs) => Ok((trees(cs@), index as int)),
        Err(f) => Err(failure_of(f)),
    }
}

/// The words of a list of stop words.
pub open spec fn stop_texts(stop_words: Seq<&str>) -> Seq<Seq<char>> {
    stop_words.map_values(|w: &str| w@)
}

/// A failure with `message` at `pos`.
pub open spec fn failure_is(f: ParseFailure, message: Seq<char>, pos: (usize, usize)) -> bool {
    f.message@ == message && f.row == pos.0 && f.col == pos.1
}

fn current_word(meta: &TokenCursor) -> (r: Option<Vec<char>>)
    requires
        meta.wf(),
    ensures
        match r {
            Some(w) => meta.current() == Some(w@),
            None => meta.current() is None,
        },
{
    if meta.index < meta.words.len() {
        Some(to_vec(&meta.words[meta.index]))
    } else {
        None
    }
}

/// Whether the current token is the literal `w`.
fn current_is(meta: &TokenCursor, w: &str) -> (r: bool)
    requires
        meta.wf(),
    ensures
        r == meta.at_word(w@),
{
    meta.index < meta.words.len() && eq_lit(&meta.words[meta.index], w)
}

fn consume_word(meta: &mut TokenCursor) -> (r: Option<Vec<char>>)
    requires
        old(meta).wf(),
    ensures
        old(meta).advanced_to(final(meta)),
        match r {
            Some(w) => old(meta).current() == Some(w@) && final(meta).index == old(meta).index + 1,
            None => old(meta).current() is None && final(meta).index == old(meta).index,
        },
{
    let r = current_word(meta);
    if r.is_some() {
        meta.index = meta.index + 1;
    }
    r
}

fn peek_word(meta: &TokenCursor, offset: usize) -> (r: Option<Vec<char>>)
    requires
        meta.wf(),
    ensures
        match r {
            Some(w) => meta.word_at(meta.index + offset) == Some(w@),
            None => meta.word_at(meta.index + offset) is None,
        },
{
    if offset < meta.words.len() - meta.index {
        Some(to_vec(&meta.words[meta.index + offset]))
    } else {
        None
    }
}

/// Whether the token `offset` places after the current one is the literal `w`.
fn peek_is(meta: &TokenCursor, offset: usize, w: &str) -> (r: bool)
    requires
        meta.wf(),
    ensures
        r == (meta.word_at(meta.index + offset) == Some(w@)),
{
    match peek_word(meta, offset) {
        Some(x) => eq_lit(&x, w),
        None => false,
    }
}

fn advance(meta: &mut TokenCursor)
    requires
        old(meta).wf(),
        old(meta).index < old(meta).words@.len(),
    ensures
        old(meta).advanced_to(final(meta)),
        final(meta).index == old(meta).index + 1,
{
    meta.index = meta.index + 1;
}

/// A failure with `message` at the end of the input.
fn fail_at_end(meta: &TokenCursor, message: Vec<char>) -> (f: ParseFailure)
    ensures
        failure_is(f, message@, meta.eof),
{
    ParseFailure { message, row: meta.eof.0, col: meta.eof.1 }
}

/// A failure with `message` at the current token, or at the end of the input past the last one.
fn fail_at_current(meta: &TokenCursor, message: Vec<char>) -> (f: ParseFailure)
    requires
        meta.wf(),
    ensures
        failure_is(f, message@, meta.position_at(meta.index as int)),
{
    if meta.index < meta.positions.len() {
        let (row, col) = meta.positions[meta.index];
        ParseFailure { message, row, col }
    } else {
        ParseFailure { message, row: meta.eof.0, col: meta.eof.1 }
    }
}

fn msg(s: &str) -> (v: Vec<char>)
    ensures
        v@ == s@,
{
    chars_of(s)
}

/// `prefix + x + suffix`.
fn msg_with(prefix: &str, x: &[char], suffix: &str) -> (v: Vec<char>)
    ensures
        v@ == prefix@ + x@ + suffix@,
{
    let mut v = chars_of(prefix);
    push_all(&mut v, x);
    push_str(&mut v, suffix);
    v
}

// ---------------------------------------------------------------------------
// Word classes
// ---------------------------------------------------------------------------

pub open spec fn spec_is_separator(w: Seq<char>) -> bool {
    w == ";"@ || w == "\n"@
}

pub open spec fn spec_is_comment(w: Seq<char>) -> bool {
    w.len() > 0 && w[0] == '#'
}

pub open spec fn spec_is_simple_stop(w: Seq<char>) -> bool {
    spec_is_separator(w) || w == "|"@ || w == "&&"@ || w == "||"@ || w == "&"@
}

fn is_separator(word: &[char]) -> (r: bool)
    ensures
        r == spec_is_separator(word@),
{
    eq_lit(word, ";") || eq_lit(word, "\n")
}

fn is_comment(word: &[char]) -> (r: bool)
    ensures
        r == spec_is_comment(word@),
{
    word.len() > 0 && word[0] == '#'
}

fn is_simple_stop(word: &[char]) -> (r: bool)
    ensures
        r == spec_is_simple_stop(word@),
{
    is_separator(word) || eq_lit(word, "|") || eq_lit(word, "&&") || eq_lit(word, "||") || eq_lit(
        word,
        "&",
    )
}

fn is_identifier(text: &[char]) -> (r: bool)
    ensures
        r == spec_is_identifier(text@),
{
    crate::text::is_identifier(text)
}

fn looks_like_arithmetic_command_start(word: &[char]) -> (r: bool)
    ensures
        r == spec_starts_with(word@, "(("@),
{
    proof {
        reveal_strlit("((");
        assert(word@ == "(("@ ==> word@.subrange(0, 2) =~= word@);
    }
    eq_lit(word, "((") || starts_with_lit(word, "((")
}

/// A word `name=` with an identifier `name`.
pub open spec fn spec_looks_like_assignment_prefix(w: Seq<char>) -> bool {
    spec_ends_with(w, "="@) && w != "="@ && spec_is_identifier(w.drop_last())
}

fn looks_like_assignment_prefix(word: &[char]) -> (r: bool)
    ensures
        r == spec_looks_like_assignment_prefix(word@),
{
    if !ends_with_lit(word, "=") || eq_lit(word, "=") {
        return false;
    }
    proof {
        reveal_strlit("=");
    }
    let name = slice_vec(word, 0, word.len() - 1);
    assert(name@ =~= word@.drop_last());
    is_identifier(&name)
}

// ---------------------------------------------------------------------------
// Separators and comments
// ---------------------------------------------------------------------------

/// The index after a comment that starts at `i`: past the next newline, or the end.
pub open spec fn comment_end(ws: Seq<Seq<char>>, i: int) -> int
    decreases ws.len() - i,
{
    if i < 0 || i >= ws.len() {
        i
    } else if ws[i] == "\n"@ {
        i + 1
    } else {
        comment_end(ws, i + 1)
    }
}

pub proof fn lemma_comment_end_after(ws: Seq<Seq<char>>, i: int)
    requires
        0 <= i < ws.len(),
    ensures
        i < comment_end(ws, i) <= ws.len(),
    decreases ws.len() - i,
{
    if ws[i] != "\n"@ {
        if i + 1 < ws.len() {
            lemma_comment_end_after(ws, i + 1);
        } else {
            assert(comment_end(ws, i + 1) == i + 1);
        }
    }
}

/// Skips the tokens of a comment, up to and including the next newline token.
fn skip_comment(meta: &mut TokenCursor)
    requires
        old(meta).wf(),
    ensures
        old(meta).advanced_to(final(meta)),
        old(meta).current() is Some ==> final(meta).index > old(meta).index,
        final(meta).index == comment_end(crate::text::views(old(meta).words@), old(meta).index as int),
{
    if meta.index >= meta.words.len() {
        return;
    }
    let ghost ws = crate::text::views(meta.words@);
    loop
        invariant_except_break
            meta.index < meta.words@.len(),
            comment_end(ws, meta.index as int) == comment_end(ws, old(meta).index as int),
        invariant
            old(meta).advanced_to(meta),
            meta.index >= old(meta).index,
            ws == crate::text::views(meta.words@),
        ensures
            old(meta).advanced_to(meta),
            meta.index > old(meta).index,
            meta.index == comment_end(ws, old(meta).index as int),
        decreases meta.remaining(),
    {
        let ghost at = meta.index as int;
        let is_newline = eq_lit(&meta.words[meta.index], "\n");
        assert(ws[at] == meta.words@[at]@);
        advance(meta);
        assert(comment_end(ws, at) == if is_newline { at + 1 } else { comment_end(ws, at + 1) });
        if is_newline || meta.index >= meta.words.len() {
            break;
        }
    }
}

/// The index after the separators and comments from `i` on.
pub open spec fn separators_end(ws: Seq<Seq<char>>, i: int) -> int
    decreases ws.len() - i,
{
    if i < 0 || i >= ws.len() {
        i
    } else if spec_is_separator(ws[i]) {
        separators_end(ws, i + 1)
    } else if spec_is_comment(ws[i]) {
        proof {
            lemma_comment_end_after(ws, i);
        }
        separators_end(ws, comment_end(ws, i))
    } else {
        i
    }
}

/// Skips separators (`;` and newlines) and comments; returns how many it skipped.
fn consume_separators(meta: &mut TokenCursor) -> (n: usize)
    requires
        old(meta).wf(),
    ensures
        old(meta).advanced_to(final(meta)),
        match final(meta).current() {
            Some(w) => !spec_is_separator(w) && !spec_is_comment(w),
            None => true,
        },
        n <= final(meta).index - old(meta).index,
        final(meta).index == separators_end(crate::text::views(old(meta).words@), old(meta).index as int),
{
    let mut consumed: usize = 0;
    let ghost ws = crate::text::views(meta.words@);
    loop
        invariant
            old(meta).advanced_to(meta),
            consumed <= meta.index - old(meta).index,
            ws == crate::text::views(meta.words@),
            separators_end(ws, meta.index as int) == separators_end(ws, old(meta).index as int),
        ensures
            old(meta).advanced_to(meta),
            consumed <= meta.index - old(meta).index,
            match meta.current() {
                Some(w) => !spec_is_separator(w) && !spec_is_comment(w),
                None => true,
            },
            meta.index == separators_end(ws, old(meta).index as int),
        decreases meta.remaining(),
    {
        if meta.index >= meta.words.len() {
            break;
        }
        assert(ws[meta.index as int] == meta.words@[meta.index as int]@);
        if is_separator(&meta.words[meta.index]) {
            advance(meta);
            consumed += 1;
        } else if is_comment(&meta.words[meta.index]) {
            skip_comment(meta);
            consumed += 1;
        } else {
            break;
        }
    }
    consumed
}

/// Skips newlines and comments after a connector such as `&&` or `|`.
fn consume_connector_separators(meta: &mut TokenCursor)
    requires
        old(meta).wf(),
    ensures
        old(meta).advanced_to(final(meta)),
        match final(meta).current() {
            Some(w) => w != "\n"@ && !spec_is_comment(w),
            None => true,
        },
        final(meta).index == connector_separators_end(crate::text::views(old(meta).words@), old(meta).index as int),
{
    let ghost ws = crate::text::views(meta.words@);
    loop
        invariant
            old(meta).advanced_to(meta),
            ws == crate::text::views(meta.words@),
            connector_separators_end(ws, meta.index as int) == connector_separators_end(ws, old(meta).index as int),
        ensures
            old(meta).advanced_to(meta),
            match meta.current() {
                Some(w) => w != "\n"@ && !spec_is_comment(w),
                None => true,
            },
            meta.index == connector_separators_end(ws, old(meta).index as int),
        decreases meta.remaining(),
    {
        if meta.index >= meta.words.len() {
            break;
        }
        assert(ws[meta.index as int] == meta.words@[meta.index as int]@);
        if eq_lit(&meta.words[meta.index], "\n") {
            advance(meta);
        } else if is_comment(&meta.words[meta.index]) {
            skip_comment(meta);
        } else {
            break;
        }
    }
}

/// Reads the word `expected`, or fails with `Expected '<expected>'` at the current token.
fn expect_word(meta: &mut TokenCursor, expected: &str) -> (r: Result<(), ParseFailure>)
    requires
        old(meta).wf(),
    ensures
        old(meta).advanced_to(final(meta)),
        match r {
            Ok(()) => old(meta).at_word(expected@) && final(meta).index == old(meta).index + 1,
            Err(f) => !old(meta).at_word(expected@) && final(meta).index == old(meta).index
                && failure_is(f, "Expected '"@ + expected@ + "'"@, old(meta).position_at(old(meta).index as int)),
        },
        old(meta).tokens().expect(old(meta).index as int, expected@) == match r {
            Ok(()) => Ok(final(meta).index as int),
            Err(f) => Err(failure_of(f)),
        },
{
    if current_is(meta, expected) {
        advance(meta);
        return Ok(());
    }
    let e = chars_of(expected);
    Err(fail_at_current(meta, msg_with("Expected '", &e, "'")))
}

// ---------------------------------------------------------------------------
// Statements
// ---------------------------------------------------------------------------

/// Whether `w` is one of `stop_words`.
fn is_stop_word(w: &[char], stop_words: &[&str]) -> (r: bool)
    ensures
        r == exists|k: int| 0 <= k < stop_words@.len() && w@ == (#[trigger] stop_words@[k])@,
{
    let mut k: usize = 0;
    while k < stop_words.len()
        invariant
            k <= stop_words@.len(),
            forall|j: int| 0 <= j < k ==> w@ != (#[trigger] stop_words@[j])@,
        decreases stop_words@.len() - k,
    {
        if eq_lit(w, stop_words[k]) {
            return true;
        }
        k += 1;
    }
    false
}

/// Statements up to the end of the input or up to one of `stop_words`, which is not read.
fn parse_program(meta: &mut TokenCursor, stop_words: &[&str]) -> (r: Result<Vec<Command>, ParseFailure>)
    requires
        old(meta).wf(),
    ensures
        old(meta).advanced_to(final(meta)),
        r is Ok ==> match final(meta).current() {
            Some(w) => exists|k: int| 0 <= k < stop_words@.len() && w == (#[trigger] stop_words@[k])@,
            None => true,
        },
        program(old(meta).tokens(), old(meta).index as int, stop_texts(stop_words@), seq![]) == commands_outcome(r, final(meta).index),
    decreases old(meta).remaining(), 7int,
{
    proof {
        reveal_with_fuel(program, 1);
        reveal_with_fuel(statement, 1);
    }
    let mut statements: Vec<Command> = Vec::new();
    let ghost t = meta.tokens();
    let ghost stops = stop_texts(stop_words@);
    let ghost total = program(t, meta.index as int, stops, seq![]);
    assert(trees(statements@) =~= Seq::<CommandView>::empty());
    loop
        invariant_except_break
            total == program(t, meta.index as int, stops, trees(statements@)),
        invariant
            old(meta).advanced_to(meta),
            t == meta.tokens(),
            stops == stop_texts(stop_words@),
            total == program(t, old(meta).index as int, stops, seq![]),
        ensures
            old(meta).advanced_to(meta),
            match meta.current() {
                Some(w) => exists|k: int| 0 <= k < stop_words@.len() && w == (#[trigger] stop_words@[k])@,
                None => true,
            },
            total == Ok::<(Seq<CommandView>, int), Failure>((trees(statements@), meta.index as int)),
        decreases meta.remaining(),
    {
        proof {
            reveal_with_fuel(program, 1);
            reveal_with_fuel(statement, 1);
        }
        let ghost at = meta.index as int;
        consume_separators(meta);
        let word = match current_word(meta) {
            Some(w) => w,
            None => break,
        };
        if is_stop_word(&word, stop_words) {
            proof {
                let k = choose|k: int| 0 <= k < stop_words@.len() && word@ == (#[trigger] stop_words@[k])@;
                assert(stops[k] == word@);
            }
            break;
        }
        proof {
            if stops.contains(word@) {
                let k = choose|k: int| 0 <= k < stops.len() && stops[k] == word@;
                assert(word@ == stop_words@[k]@);
            }
        }
        let statement = parse_statement(meta)?;
        let ghost before = statements@;
        let ghost st = statement;
        statements.push(statement);
        proof {
            lemma_trees_push(before, st);
        }
    }
    Ok(statements)
}

/// An and-or list, run in the background when `&` follows.
fn parse_statement(meta: &mut TokenCursor) -> (r: Result<Command, ParseFailure>)
    requires
        old(meta).wf(),
    ensures
        old(meta).advanced_to(final(meta)),
        r is Ok ==> final(meta).index > old(meta).index,
        statement(old(meta).tokens(), old(meta).index as int) == command_outcome(r, final(meta).index),
    decreases old(meta).remaining(), 6int,
{
    proof {
        reveal_with_fuel(statement, 1);
        reveal_with_fuel(and_or, 1);
    }
    let mut node = parse_and_or(meta)?;
    if current_is(meta, "&") {
        advance(meta);
        consume_connector_separators(meta);
        node = Command::Background(Box::new(node));
    }
    Ok(node)
}

/// Pipelines joined by `&&` and `||`, grouping to the left.
fn parse_and_or(meta: &mut TokenCursor) -> (r: Result<Command, ParseFailure>)
    requires
        old(meta).wf(),
    ensures
        old(meta).advanced_to(final(meta)),
        r is Ok ==> final(meta).index > old(meta).index,
        and_or(old(meta).tokens(), old(meta).index as int) == command_outcome(r, final(meta).index),
    decreases old(meta).remaining(), 5int,
{
    proof {
        reveal_with_fuel(and_or, 1);
        reveal_with_fuel(and_or_from, 1);
        reveal_with_fuel(pipeline, 1);
    }
    let ghost t = meta.tokens();
    let mut node = parse_pipeline(meta)?;
    loop
        invariant_except_break
            and_or(t, old(meta).index as int) == and_or_from(t, meta.index as int, node.tree()),
        invariant
            old(meta).advanced_to(meta),
            meta.index > old(meta).index,
            t == meta.tokens(),
        ensures
            old(meta).advanced_to(meta),
            meta.index > old(meta).index,
            and_or(t, old(meta).index as int) == Ok::<(CommandView, int), Failure>((node.tree(), meta.index as int)),
        decreases meta.remaining(),
    {
        proof {
            reveal_with_fuel(and_or, 1);
            reveal_with_fuel(and_or_from, 1);
            reveal_with_fuel(pipeline, 1);
        }
        let op = if current_is(meta, "&&") {
            Connector::And
        } else if current_is(meta, "||") {
            Connector::Or
        } else {
            break;
        };
        advance(meta);
        consume_connector_separators(meta);
        let right = parse_pipeline(meta)?;
        node = Command::Connection(Connection { left: Box::new(node), op, right: Box::new(right) });
    }
    Ok(node)
}

/// Commands joined by `|`, grouping to the left.
fn parse_pipeline(meta: &mut TokenCursor) -> (r: Result<Command, ParseFailure>)
    requires
        old(meta).wf(),
    ensures
        old(meta).advanced_to(final(meta)),
        r is Ok ==> final(meta).index > old(meta).index,
        pipeline(old(meta).tokens(), old(meta).index as int) == command_outcome(r, final(meta).index),
    decreases old(meta).remaining(), 4int,
{
    proof {
        reveal_with_fuel(pipeline, 1);
        reveal_with_fuel(pipeline_from, 1);
        reveal_with_fuel(unit, 1);
    }
    let ghost t = meta.tokens();
    let mut node = parse_command_unit(meta)?;
    loop
        invariant_except_break
            pipeline(t, old(meta).index as int) == pipeline_from(t, meta.index as int, node.tree()),
        invariant
            old(meta).advanced_to(meta),
            meta.index > old(meta).index,
            t == meta.tokens(),
        ensures
            old(meta).advanced_to(meta),
            meta.index > old(meta).index,
            pipeline(t, old(meta).index as int) == Ok::<(CommandView, int), Failure>((node.tree(), meta.index as int)),
        decreases meta.remaining(),
    {
        proof {
            reveal_with_fuel(pipeline, 1);
            reveal_with_fuel(pipeline_from, 1);
            reveal_with_fuel(unit, 1);
        }
        if !current_is(meta, "|") {
            break;
        }
        advance(meta);
        consume_connector_separators(meta);
        let right = parse_command_unit(meta)?;
        node = Command::Connection(
            Connection { left: Box::new(node), op: Connector::Pipe, right: Box::new(right) },
        );
    }
    Ok(node)
}

/// One command: a compound command chosen by its first word, an arithmetic command, a
/// function definition, or a simple command.
fn parse_command_unit(meta: &mut TokenCursor) -> (r: Result<Command, ParseFailure>)
    requires
        old(meta).wf(),
    ensures
        old(meta).advanced_to(final(meta)),
        r is Ok ==> final(meta).index > old(meta).index,
        old(meta).current() is None ==> (r matches Err(f) && failure_is(f, "Expected command"@, old(meta).eof)),
        old(meta).at_word("if"@) ==> (r matches Ok(c) ==> c is If),
        old(meta).at_word("while"@) ==> (r matches Ok(c) ==> c is While),
        old(meta).at_word("for"@) ==> (r matches Ok(c) ==> c is For || c is CStyleFor),
        old(meta).at_word("case"@) ==> (r matches Ok(c) ==> c is Case),
        old(meta).at_word("function"@) ==> (r matches Ok(c) ==> c is Function),
        old(meta).at_word("{"@) ==> (r matches Ok(c) ==> c is Group),
        unit(old(meta).tokens(), old(meta).index as int) == command_outcome(r, final(meta).index),
    decreases old(meta).remaining(), 3int,
{
    proof {
        reveal_with_fuel(unit, 1);
        reveal_with_fuel(if_command, 1);
        reveal_with_fuel(while_command, 1);
        reveal_with_fuel(for_command, 1);
        reveal_with_fuel(case_command, 1);
        reveal_with_fuel(function_keyword, 1);
        reveal_with_fuel(group, 1);
        reveal_with_fuel(function_style, 1);
    }
    proof {
        reveal_strlit("if");
        reveal_strlit("while");
        reveal_strlit("for");
        reveal_strlit("case");
        reveal_strlit("function");
        reveal_strlit("{");
        assert("if"@[0] != "while"@[0] && "if"@[0] != "for"@[0] && "if"@[0] != "case"@[0] && "if"@[0] != "{"@[0]);
        assert("while"@[0] != "for"@[0] && "while"@[0] != "case"@[0] && "while"@[0] != "function"@[0] && "while"@[0] != "{"@[0]);
        assert("for"@[0] != "case"@[0] && "for"@[0] != "{"@[0] && "for"@[1] != "function"@[1]);
        assert("case"@[0] != "function"@[0] && "case"@[0] != "{"@[0] && "function"@[0] != "{"@[0]);
        assert("if"@[1] != "function"@[1]);
    }
    let word = match current_word(meta) {
        Some(w) => w,
        None => return Err(fail_at_end(meta, msg("Expected command"))),
    };
    if eq_lit(&word, "if") {
        parse_if(meta)
    } else if eq_lit(&word, "while") {
        parse_while(meta)
    } else if eq_lit(&word, "for") {
        parse_for(meta)
    } else if eq_lit(&word, "case") {
        parse_case(meta)
    } else if eq_lit(&word, "function") {
        parse_function_keyword(meta)
    } else if eq_lit(&word, "{") {
        parse_group(meta)
    } else if looks_like_arithmetic_command_start(&word) {
        parse_arithmetic(meta)
    } else if looks_like_function(meta) {
        parse_function_style(meta)
    } else {
        parse_simple(meta)
    }
}

// ---------------------------------------------------------------------------
// Arithmetic commands
// ---------------------------------------------------------------------------

/// An arithmetic command `(( expression ))`, possibly spread over several tokens.
fn parse_arithmetic(meta: &mut TokenCursor) -> (r: Result<Command, ParseFailure>)
    requires
        old(meta).wf(),
    ensures
        old(meta).advanced_to(final(meta)),
        r is Ok ==> final(meta).index > old(meta).index,
        match arith_command(crate::text::views(old(meta).words@), old(meta).index as int) {
            Ok((e, next)) => final(meta).index == next && (r matches Ok(Command::Arithmetic(a)) && a.expression@ == e),
            Err(m) => r matches Err(f) && failure_is(f, m, old(meta).eof),
        },
    decreases old(meta).remaining(), 2int,
{
    let ghost ws = crate::text::views(meta.words@);
    let ghost i0 = meta.index as int;
    let first = match consume_word(meta) {
        Some(w) => w,
        None => return Err(fail_at_end(meta, msg("Expected arithmetic command"))),
    };
    let first_chunk = if eq_lit(&first, "((") {
        Vec::new()
    } else {
        match strip_prefix_lit(&first, "((") {
            Some(rest) => rest,
            None => return Err(fail_at_end(meta, msg("Expected '((' in arithmetic command"))),
        }
    };
    proof {
        reveal_strlit("((");
    }
    assert(arith_command(ws, i0) == match arith_from(ws, first_chunk@, i0 + 1, Seq::<char>::empty(), 0) {
        Ok((e, next)) => Ok((spec_trim(e), next)),
        Err(m) => Err::<(Seq<char>, int), Seq<char>>(m),
    });
    let mut expression: Vec<char> = Vec::new();
    let mut nested_parens: usize = 0;
    let mut closed = false;
    assert(expression@ =~= Seq::<char>::empty());
    consume_arithmetic_chunk(meta, &first_chunk, &mut expression, &mut nested_parens, &mut closed)?;
    while !closed
        invariant
            old(meta).advanced_to(meta),
            meta.index > old(meta).index,
            ws == crate::text::views(meta.words@),
            i0 == old(meta).index,
            meta.eof == old(meta).eof,
            arith_command(ws, i0) == match arith_from(ws, first_chunk@, i0 + 1, Seq::<char>::empty(), 0) {
                Ok((e, next)) => Ok((spec_trim(e), next)),
                Err(m) => Err::<(Seq<char>, int), Seq<char>>(m),
            },
            arith_from(ws, first_chunk@, i0 + 1, Seq::<char>::empty(), 0) == if closed {
                Ok::<(Seq<char>, int), Seq<char>>((expression@, meta.index as int))
            } else {
                arith_continue(ws, meta.index as int, expression@, nested_parens)
            },
        decreases meta.remaining(),
    {
        let word = match consume_word(meta) {
            Some(w) => w,
            None => return Err(fail_at_end(meta, msg("Unterminated arithmetic command"))),
        };
        consume_arithmetic_chunk(meta, &word, &mut expression, &mut nested_parens, &mut closed)?;
    }
    let e = trim(&expression);
    Ok(Command::Arithmetic(ArithmeticCommand { expression: string_of(&e) }))
}

/// Scans `cs` from `i` for the `))` that closes an arithmetic command: a `)` followed by
/// `)` outside quotes and outside any parentheses opened in it. Gives the index of that
/// `))`, if any, and the depth of parentheses then or at the end.
pub open spec fn arith_close(cs: Seq<char>, i: int, sq: bool, dq: bool, esc: bool, depth: usize) -> (Option<int>, usize)
    decreases cs.len() - i,
{
    if i < 0 || i >= cs.len() {
        (None, depth)
    } else {
        let ch = cs[i];
        if esc {
            arith_close(cs, i + 1, sq, dq, false, depth)
        } else if ch == '\\' {
            arith_close(cs, i + 1, sq, dq, true, depth)
        } else if ch == '\'' && !dq {
            arith_close(cs, i + 1, !sq, dq, false, depth)
        } else if ch == '"' && !sq {
            arith_close(cs, i + 1, sq, !dq, false, depth)
        } else if !sq && !dq && ch == '(' {
            arith_close(cs, i + 1, sq, dq, false, if depth < usize::MAX { (depth + 1) as usize } else { depth })
        } else if !sq && !dq && ch == ')' {
            if i + 1 < cs.len() && cs[i + 1] == ')' && depth == 0 {
                (Some(i), depth)
            } else {
                arith_close(cs, i + 1, sq, dq, false, if depth > 0 { (depth - 1) as usize } else { 0 })
            }
        } else {
            arith_close(cs, i + 1, sq, dq, false, depth)
        }
    }
}

/// `expression` with `segment` appended after a space, unless one of them is empty.
pub open spec fn append_segment(expression: Seq<char>, segment: Seq<char>) -> Seq<char> {
    if segment.len() == 0 {
        expression
    } else if expression.len() == 0 {
        segment
    } else {
        expression + seq![' '] + segment
    }
}

/// The rest of an arithmetic command from the text `chunk`, with the tokens from `next` on
/// still to read: the expression so far extended by the chunk, and, once the closing `))` is
/// met, the expression and the index after its token; else the error message.
pub open spec fn arith_from(ws: Seq<Seq<char>>, chunk: Seq<char>, next: int, expression: Seq<char>, depth: usize) -> Result<(Seq<char>, int), Seq<char>>
    decreases ws.len() - next,
{
    match arith_close(chunk, 0, false, false, false, depth) {
        (Some(p), _) => if spec_trim(chunk.subrange(p + 2, chunk.len() as int)).len() == 0 {
            Ok((append_segment(expression, spec_trim(chunk.subrange(0, p))), next))
        } else {
            Err("Unexpected token after arithmetic close"@)
        },
        (None, d) => arith_continue(ws, next, append_segment(expression, spec_trim(chunk)), d),
    }
}

/// [`arith_from`] on the token at `i`, when there is one.
pub open spec fn arith_continue(ws: Seq<Seq<char>>, i: int, expression: Seq<char>, depth: usize) -> Result<(Seq<char>, int), Seq<char>>
    decreases ws.len() - i, 0int,
{
    if i < 0 || i >= ws.len() {
        Err("Unterminated arithmetic command"@)
    } else {
        arith_from(ws, ws[i], i + 1, expression, depth)
    }
}

/// The arithmetic command `(( .. ))` that starts at the token `i`: its expression (trimmed)
/// and the index after it, or the error message.
pub open spec fn arith_command(ws: Seq<Seq<char>>, i: int) -> Result<(Seq<char>, int), Seq<char>> {
    if i < 0 || i >= ws.len() {
        Err("Expected arithmetic command"@)
    } else {
        let first = ws[i];
        let chunk = if first == "(("@ {
            Some(Seq::<char>::empty())
        } else {
            spec_strip_prefix(first, "(("@)
        };
        match chunk {
            None => Err("Expected '((' in arithmetic command"@),
            Some(c) => match arith_from(ws, c, i + 1, Seq::<char>::empty(), 0) {
                Ok((e, next)) => Ok((spec_trim(e), next)),
                Err(m) => Err(m),
            },
        }
    }
}

/// Adds one token's text to an arithmetic expression, tracking quotes and parentheses, and
/// notes when the closing `))` is reached.
fn consume_arithmetic_chunk(
    meta: &TokenCursor,
    chunk: &[char],
    expression: &mut Vec<char>,
    nested_parens: &mut usize,
    closed: &mut bool,
) -> (r: Result<(), ParseFailure>)
    ensures
        r matches Err(f) ==> failure_is(f, "Unexpected token after arithmetic close"@, meta.eof),
        match arith_close(chunk@, 0, false, false, false, *old(nested_parens)) {
            (Some(p), d) => {
                &&& *final(closed)
                &&& *final(nested_parens) == d
                &&& final(expression)@ == append_segment(old(expression)@, spec_trim(chunk@.subrange(0, p)))
                &&& r is Ok <==> spec_trim(chunk@.subrange(p + 2, chunk@.len() as int)).len() == 0
            },
            (None, d) => {
                &&& *final(closed) == *old(closed)
                &&& *final(nested_parens) == d
                &&& final(expression)@ == append_segment(old(expression)@, spec_trim(chunk@))
                &&& r is Ok
            },
        },
{
    if chunk.len() == 0 {
        assert(spec_trim(chunk@).len() == 0);
        return Ok(());
    }
    let mut i: usize = 0;
    let mut in_single = false;
    let mut in_double = false;
    let mut escaped = false;
    let mut current: Vec<char> = Vec::new();
    let ghost d0 = *nested_parens;
    while i < chunk.len()
        invariant
            i <= chunk@.len(),
            *closed == *old(closed),
            *expression == *old(expression),
            current@ == chunk@.subrange(0, i as int),
            arith_close(chunk@, i as int, in_single, in_double, escaped, *nested_parens)
                == arith_close(chunk@, 0, false, false, false, d0),
            d0 == *old(nested_parens),
        decreases chunk@.len() - i,
    {
        let ch = chunk[i];
        if escaped {
            current.push(ch);
            escaped = false;
            i += 1;
            continue;
        }
        if ch == '\\' {
            current.push(ch);
            escaped = true;
            i += 1;
            continue;
        }
        if ch == '\'' && !in_double {
            in_single = !in_single;
            current.push(ch);
            i += 1;
            continue;
        }
        if ch == '"' && !in_single {
            in_double = !in_double;
            current.push(ch);
            i += 1;
            continue;
        }
        if !in_single && !in_double {
            if ch == '(' {
                *nested_parens = nested_parens.saturating_add(1);
                current.push(ch);
                i += 1;
                continue;
            }
            if ch == ')' {
                if i + 1 < chunk.len() && chunk[i + 1] == ')' && *nested_parens == 0 {
                    let seg = trim(&current);
                    append_arithmetic_segment(expression, &seg);
                    *closed = true;
                    let trailing = slice_vec(chunk, i + 2, chunk.len());
                    if !is_blank(&trailing) {
                        return Err(fail_at_end(meta, msg("Unexpected token after arithmetic close")));
                    }
                    return Ok(());
                }
                *nested_parens = nested_parens.saturating_sub(1);
                current.push(ch);
                i += 1;
                continue;
            }
        }
        current.push(ch);
        i += 1;
    }
    assert(current@ =~= chunk@);
    assert(arith_close(chunk@, i as int, in_single, in_double, escaped, *nested_parens) == (Option::<int>::None, *nested_parens));
    let seg = trim(&current);
    append_arithmetic_segment(expression, &seg);
    Ok(())
}

/// Appends `segment` to `expression`, space-separated, unless it is empty.
fn append_arithmetic_segment(expression: &mut Vec<char>, segment: &[char])
    ensures
        final(expression)@ == (if segment@.len() == 0 {
            old(expression)@
        } else if old(expression)@.len() == 0 {
            segment@
        } else {
            old(expression)@ + seq![' '] + segment@
        }),
{
    if segment.len() == 0 {
        return;
    }
    if expression.len() > 0 {
        expression.push(' ');
    }
    push_all(expression, segment);
}

// ---------------------------------------------------------------------------
// Case commands
// ---------------------------------------------------------------------------

fn parse_case(meta: &mut TokenCursor) -> (r: Result<Command, ParseFailure>)
    requires
        old(meta).wf(),
    ensures
        old(meta).advanced_to(final(meta)),
        r is Ok ==> final(meta).index > old(meta).index,
        r is Ok ==> old(meta).at_word("case"@),
        r matches Ok(c) ==> c is Case,
        case_command(old(meta).tokens(), old(meta).index as int) == command_outcome(r, final(meta).index),
    decreases old(meta).remaining(), 2int,
{
    proof {
        reveal_with_fuel(case_command, 1);
        reveal_with_fuel(case_clauses, 1);
        reveal_with_fuel(case_clause, 1);
    }
    let ghost t = meta.tokens();
    expect_word(meta, "case")?;
    consume_separators(meta);
    let word = match consume_word(meta) {
        Some(w) => w,
        None => return Err(fail_at_end(meta, msg("Expected case subject word"))),
    };
    consume_separators(meta);
    expect_word(meta, "in")?;
    let ghost m = meta.index as int;
    let ghost subject = word@;
    let mut clauses: Vec<CaseClause> = Vec::new();
    assert(clause_trees(clauses@) =~= Seq::<ClauseView>::empty());
    assert(case_command(t, old(meta).index as int) == match case_clauses(t, m, seq![]) {
        Err(e) => Err(e),
        Ok((cl, n)) => Ok((CommandView::Case(subject, cl), n)),
    });
    loop
        invariant_except_break
            case_clauses(t, m, seq![]) == case_clauses(t, meta.index as int, clause_trees(clauses@)),
        invariant
            old(meta).advanced_to(meta),
            meta.index > old(meta).index,
            t == meta.tokens(),
            case_command(t, old(meta).index as int) == match case_clauses(t, m, seq![]) {
                Err(e) => Err(e),
                Ok((cl, n)) => Ok((CommandView::Case(subject, cl), n)),
            },
        ensures
            old(meta).advanced_to(meta),
            meta.index > old(meta).index,
            case_clauses(t, m, seq![]) == Ok::<(Seq<ClauseView>, int), Failure>((clause_trees(clauses@), meta.index as int)),
        decreases meta.remaining(),
    {
        proof {
            reveal_with_fuel(case_command, 1);
            reveal_with_fuel(case_clauses, 1);
            reveal_with_fuel(case_clause, 1);
        }
        proof {
            reveal_strlit("esac");
        }
        consume_case_statement_separators(meta);
        if current_is(meta, "esac") {
            advance(meta);
            break;
        }
        let clause = parse_case_clause(meta)?;
        let is_end = clause.terminator == CaseClauseTerminator::End;
        let ghost before = clauses@;
        let ghost cl = clause;
        clauses.push(clause);
        proof {
            lemma_clause_trees_push(before, cl);
        }
        if is_end {
            break;
        }
    }
    Ok(Command::Case(CaseCommand { word: string_of(&word), clauses }))
}

fn parse_case_clause(meta: &mut TokenCursor) -> (r: Result<CaseClause, ParseFailure>)
    requires
        old(meta).wf(),
    ensures
        old(meta).advanced_to(final(meta)),
        r is Ok ==> final(meta).index > old(meta).index,
        case_clause(old(meta).tokens(), old(meta).index as int) == match r {
            Ok(c) => Ok((ClauseView { patterns: string_texts(c.patterns@), body: trees(c.body@), terminator: c.terminator },
                final(meta).index as int)),
            Err(f) => Err(failure_of(f)),
        },
    decreases old(meta).remaining(), 9int,
{
    proof {
        reveal_with_fuel(case_clause, 1);
        reveal_with_fuel(clause_body, 1);
    }
    let patterns = parse_case_patterns(meta)?;
    let (body, terminator) = parse_case_clause_body(meta)?;
    Ok(CaseClause { patterns, body, terminator })
}

/// The patterns of a case clause from the token `i` on, up to the token that ends in `)`:
/// `first` until a token is read, `current` the pattern being read, `done` those read. The
/// patterns (trimmed) and the index after that token, or the error message.
pub open spec fn case_patterns_from(ws: Seq<Seq<char>>, i: int, first: bool, current: Seq<char>, done: Seq<Seq<char>>) -> Result<(Seq<Seq<char>>, int), Seq<char>>
    decreases ws.len() - i,
{
    if i < 0 || i >= ws.len() {
        Err("Unterminated case pattern list"@)
    } else if first && ws[i] == "("@ {
        case_patterns_from(ws, i + 1, false, current, done)
    } else {
        let t0 = if first {
            match spec_strip_prefix(ws[i], "("@) {
                Some(x) => x,
                None => ws[i],
            }
        } else {
            ws[i]
        };
        let ends = t0 == ")"@ || spec_strip_suffix(t0, ")"@) is Some;
        let t = if t0 == ")"@ {
            Seq::<char>::empty()
        } else {
            match spec_strip_suffix(t0, ")"@) {
                Some(x) => x,
                None => t0,
            }
        };
        if t == "|"@ && spec_trim(current).len() == 0 {
            Err("Invalid empty case pattern"@)
        } else {
            let done2 = if t == "|"@ {
                done.push(spec_trim(current))
            } else {
                done
            };
            let current2 = if t == "|"@ {
                Seq::<char>::empty()
            } else if t.len() > 0 {
                (if current.len() > 0 {
                    current.push(' ')
                } else {
                    current
                }) + t
            } else {
                current
            };
            if ends {
                let done3 = if spec_trim(current2).len() > 0 {
                    done2.push(spec_trim(current2))
                } else {
                    done2
                };
                if done3.len() == 0 {
                    Err("Expected at least one case pattern"@)
                } else {
                    Ok((done3, i + 1))
                }
            } else {
                case_patterns_from(ws, i + 1, false, current2, done2)
            }
        }
    }
}

/// The patterns of a case clause, separated by `|` and ended by `)`; an opening `(` is allowed.
fn parse_case_patterns(meta: &mut TokenCursor) -> (r: Result<Vec<String>, ParseFailure>)
    requires
        old(meta).wf(),
    ensures
        old(meta).advanced_to(final(meta)),
        r is Ok ==> final(meta).index > old(meta).index,
        r matches Ok(ps) ==> ps@.len() > 0,
        ({
            let ws = crate::text::views(old(meta).words@);
            match case_patterns_from(ws, case_separators_end(ws, old(meta).index as int), true, Seq::<char>::empty(), Seq::<Seq<char>>::empty()) {
                Ok((ps, next)) => final(meta).index == next && (r matches Ok(v) && string_texts(v@) == ps),
                Err(m) => r matches Err(f) && failure_is(f, m, old(meta).eof),
            }
        }),
{
    let ghost ws = crate::text::views(meta.words@);
    consume_case_statement_separators(meta);
    let ghost start = meta.index;
    let ghost total = case_patterns_from(ws, start as int, true, Seq::<char>::empty(), Seq::<Seq<char>>::empty());
    let mut patterns: Vec<String> = Vec::new();
    let mut current: Vec<char> = Vec::new();
    let mut consumed_any = false;
    assert(string_texts(patterns@) =~= Seq::<Seq<char>>::empty());
    assert(current@ =~= Seq::<char>::empty());
    loop
        invariant_except_break
            total == case_patterns_from(ws, meta.index as int, !consumed_any, current@, string_texts(patterns@)),
        invariant
            old(meta).advanced_to(meta),
            start <= meta.index,
            consumed_any ==> meta.index > start,
            ws == crate::text::views(meta.words@),
            meta.eof == old(meta).eof,
            start == case_separators_end(ws, old(meta).index as int),
            total == case_patterns_from(ws, start as int, true, Seq::<char>::empty(), Seq::<Seq<char>>::empty()),
        ensures
            old(meta).advanced_to(meta),
            meta.index > start,
            meta.eof == old(meta).eof,
            total == if patterns@.len() == 0 {
                Err::<(Seq<Seq<char>>, int), Seq<char>>("Expected at least one case pattern"@)
            } else {
                Ok((string_texts(patterns@), meta.index as int))
            },
        decreases meta.remaining(),
    {
        let ghost at = meta.index as int;
        let ghost cur0 = current@;
        let ghost pats0 = string_texts(patterns@);
        let ghost first = !consumed_any;
        let mut token = match consume_word(meta) {
            Some(w) => w,
            None => return Err(fail_at_end(meta, msg("Unterminated case pattern list"))),
        };
        if !consumed_any {
            if eq_lit(&token, "(") {
                consumed_any = true;
                continue;
            }
            match strip_prefix_lit(&token, "(") {
                Some(stripped) => {
                    token = stripped;
                },
                None => {},
            }
        }
        consumed_any = true;
        let mut reached_end = false;
        if eq_lit(&token, ")") {
            token = Vec::new();
            reached_end = true;
        } else {
            match strip_suffix_lit(&token, ")") {
                Some(stripped) => {
                    token = stripped;
                    reached_end = true;
                },
                None => {},
            }
        }
        if eq_lit(&token, "|") {
            if is_blank(&current) {
                return Err(fail_at_end(meta, msg("Invalid empty case pattern")));
            }
            let t = trim(&current);
            patterns.push(string_of(&t));
            assert(string_texts(patterns@) =~= pats0.push(spec_trim(cur0)));
            current = Vec::new();
        } else if token.len() > 0 {
            if current.len() > 0 {
                current.push(' ');
            }
            push_all(&mut current, &token);
        }
        if reached_end {
            let ghost pats1 = string_texts(patterns@);
            if !is_blank(&current) {
                let t = trim(&current);
                patterns.push(string_of(&t));
                assert(string_texts(patterns@) =~= pats1.push(spec_trim(current@)));
            }
            break;
        }
    }
    if patterns.len() == 0 {
        return Err(fail_at_end(meta, msg("Expected at least one case pattern")));
    }
    Ok(patterns)
}

/// The statements of a case clause and how the clause ends.
fn parse_case_clause_body(meta: &mut TokenCursor) -> (r: Result<(Vec<Command>, CaseClauseTerminator), ParseFailure>)
    requires
        old(meta).wf(),
    ensures
        old(meta).advanced_to(final(meta)),
        clause_body(old(meta).tokens(), old(meta).index as int, seq![]) == match r {
            Ok((b, terminator)) => Ok(((trees(b@), terminator), final(meta).index as int)),
            Err(f) => Err(failure_of(f)),
        },
    decreases old(meta).remaining(), 8int,
{
    proof {
        reveal_with_fuel(clause_body, 1);
        reveal_with_fuel(statement, 1);
    }
    let ghost t = meta.tokens();
    let mut body: Vec<Command> = Vec::new();
    assert(trees(body@) =~= Seq::<CommandView>::empty());
    loop
        invariant
            old(meta).advanced_to(meta),
            t == meta.tokens(),
            clause_body(t, old(meta).index as int, seq![]) == clause_body(t, meta.index as int, trees(body@)),
        decreases meta.remaining(),
    {
        proof {
            reveal_with_fuel(clause_body, 1);
            reveal_with_fuel(statement, 1);
        }
        consume_case_statement_separators(meta);
        match consume_case_clause_terminator(meta) {
            Some(term) => {
                return Ok((body, term));
            },
            None => {},
        }
        if current_is(meta, "esac") {
            advance(meta);
            return Ok((body, CaseClauseTerminator::End));
        }
        let statement = parse_statement(meta)?;
        let ghost before = body@;
        let ghost st = statement;
        body.push(statement);
        proof {
            lemma_trees_push(before, st);
        }
    }
}

/// The index after the newlines, comments and lone `;` (not starting `;;` or `;&`) from `i`
/// on.
pub open spec fn case_separators_end(ws: Seq<Seq<char>>, i: int) -> int
    decreases ws.len() - i,
{
    if i < 0 || i >= ws.len() {
        i
    } else if ws[i] == "\n"@ {
        case_separators_end(ws, i + 1)
    } else if spec_is_comment(ws[i]) {
        proof {
            lemma_comment_end_after(ws, i);
        }
        case_separators_end(ws, comment_end(ws, i))
    } else if ws[i] == ";"@ && !(i + 1 < ws.len() && (ws[i + 1] == ";"@ || ws[i + 1] == "&"@)) {
        case_separators_end(ws, i + 1)
    } else {
        i
    }
}

/// Skips newlines, comments, and `;` tokens that do not start a clause terminator.
fn consume_case_statement_separators(meta: &mut TokenCursor)
    requires
        old(meta).wf(),
    ensures
        old(meta).advanced_to(final(meta)),
        final(meta).index == case_separators_end(crate::text::views(old(meta).words@), old(meta).index as int),
{
    let ghost ws = crate::text::views(meta.words@);
    while meta.index < meta.words.len()
        invariant
            old(meta).advanced_to(meta),
            ws == crate::text::views(meta.words@),
            case_separators_end(ws, meta.index as int) == case_separators_end(ws, old(meta).index as int),
        decreases meta.remaining(),
    {
        let ghost at = meta.index as int;
        assert(ws[at] == meta.words@[at]@);
        let is_newline = eq_lit(&meta.words[meta.index], "\n");
        if is_newline {
            advance(meta);
            continue;
        }
        if is_comment(&meta.words[meta.index]) {
            skip_comment(meta);
            continue;
        }
        if eq_lit(&meta.words[meta.index], ";") {
            if !peek_is(meta, 1, ";") && !peek_is(meta, 1, "&") {
                advance(meta);
                continue;
            }
        }
        return;
    }
}

/// Reads a clause terminator: `;;` (break), `;&` (fall through) or `;;&` (test the next
/// clause), written as one token or as separate `;` and `&` tokens.
fn consume_case_clause_terminator(meta: &mut TokenCursor) -> (r: Option<CaseClauseTerminator>)
    requires
        old(meta).wf(),
    ensures
        old(meta).advanced_to(final(meta)),
        r is Some <==> final(meta).index > old(meta).index,
        r == (if old(meta).at_word(";;"@) {
            Some(CaseClauseTerminator::Break)
        } else if old(meta).at_word(";&"@) {
            Some(CaseClauseTerminator::Fallthrough)
        } else if old(meta).at_word(";;&"@) {
            Some(CaseClauseTerminator::TestNext)
        } else if !old(meta).at_word(";"@) {
            None::<CaseClauseTerminator>
        } else if old(meta).word_at(old(meta).index + 1) == Some(";"@) && old(meta).word_at(old(meta).index + 2) == Some("&"@) {
            Some(CaseClauseTerminator::TestNext)
        } else if old(meta).word_at(old(meta).index + 1) == Some(";"@) {
            Some(CaseClauseTerminator::Break)
        } else if old(meta).word_at(old(meta).index + 1) == Some("&"@) {
            Some(CaseClauseTerminator::Fallthrough)
        } else {
            None::<CaseClauseTerminator>
        }),
        final(meta).index == old(meta).index + (if old(meta).at_word(";;"@) || old(meta).at_word(";&"@) || old(meta).at_word(";;&"@) {
            1int
        } else if !old(meta).at_word(";"@) {
            0int
        } else if old(meta).word_at(old(meta).index + 1) == Some(";"@) && old(meta).word_at(old(meta).index + 2) == Some("&"@) {
            3int
        } else if old(meta).word_at(old(meta).index + 1) == Some(";"@) || old(meta).word_at(old(meta).index + 1) == Some("&"@) {
            2int
        } else {
            0int
        }),
        match terminator_at(old(meta).tokens(), old(meta).index as int) {
            Some((terminator, k)) => r == Some(terminator) && final(meta).index == k,
            None => r is None && final(meta).index == old(meta).index,
        },
{
    proof {
        reveal_strlit(";;");
        reveal_strlit(";&");
        reveal_strlit(";;&");
        reveal_strlit(";");
        reveal_strlit("&");
    }
    if current_is(meta, ";;") {
        advance(meta);
        return Some(CaseClauseTerminator::Break);
    }
    if current_is(meta, ";&") {
        advance(meta);
        return Some(CaseClauseTerminator::Fallthrough);
    }
    if current_is(meta, ";;&") {
        advance(meta);
        return Some(CaseClauseTerminator::TestNext);
    }
    if !current_is(meta, ";") {
        return None;
    }
    let next_semi = peek_is(meta, 1, ";");
    let next_amp = peek_is(meta, 1, "&");
    let third_amp = peek_is(meta, 2, "&");
    if next_semi && third_amp {
        advance(meta);
        advance(meta);
        advance(meta);
        Some(CaseClauseTerminator::TestNext)
    } else if next_semi {
        advance(meta);
        advance(meta);
        Some(CaseClauseTerminator::Break)
    } else if next_amp {
        advance(meta);
        advance(meta);
        Some(CaseClauseTerminator::Fallthrough)
    } else {
        None
    }
}

// ---------------------------------------------------------------------------
// If and while
// ---------------------------------------------------------------------------

fn parse_if(meta: &mut TokenCursor) -> (r: Result<Command, ParseFailure>)
    requires
        old(meta).wf(),
    ensures
        old(meta).advanced_to(final(meta)),
        r is Ok ==> final(meta).index > old(meta).index,
        r is Ok ==> old(meta).at_word("if"@),
        r matches Ok(c) ==> c is If,
        if_command(old(meta).tokens(), old(meta).index as int) == command_outcome(r, final(meta).index),
    decreases old(meta).remaining(), 2int,
{
    proof {
        reveal_with_fuel(if_command, 1);
        reveal_with_fuel(if_tail, 1);
    }
    expect_word(meta, "if")?;
    let command = parse_if_tail(meta)?;
    Ok(Command::If(command))
}

/// The rest of an `if` after its keyword: condition, `then` branch, and an `else` or `elif`
/// branch up to `fi`.
fn parse_if_tail(meta: &mut TokenCursor) -> (r: Result<IfCommand, ParseFailure>)
    requires
        old(meta).wf(),
    ensures
        old(meta).advanced_to(final(meta)),
        r is Ok ==> final(meta).index > old(meta).index,
        if_tail(old(meta).tokens(), old(meta).index as int) == match r {
            Ok(c) => Ok(((c.condition.tree(), trees(c.then_body@), match c.else_body {
                Some(b) => Some(trees(b@)),
                None => None,
            }), final(meta).index as int)),
            Err(f) => Err(failure_of(f)),
        },
    decreases old(meta).remaining(), 8int,
{
    proof {
        reveal_with_fuel(if_tail, 1);
        reveal_with_fuel(statement, 1);
        reveal_with_fuel(program, 1);
    }
    proof {
        reveal_strlit("else");
        reveal_strlit("elif");
        reveal_strlit("fi");
    }
    let ghost t = meta.tokens();
    consume_separators(meta);
    let condition = parse_statement(meta)?;
    consume_separators(meta);
    expect_word(meta, "then")?;
    let stops: &[&str] = &["else", "elif", "fi"];
    assert(stop_texts(stops@) =~= seq!["else"@, "elif"@, "fi"@]);
    let then_body = parse_program(meta, stops)?;
    let else_body = if current_is(meta, "else") {
        advance(meta);
        let fi_stop: &[&str] = &["fi"];
        assert(stop_texts(fi_stop@) =~= seq!["fi"@]);
        let body = parse_program(meta, fi_stop)?;
        expect_word(meta, "fi")?;
        Some(body)
    } else if current_is(meta, "elif") {
        advance(meta);
        let nested = parse_if_tail(meta)?;
        let mut v: Vec<Command> = Vec::new();
        let nested_command = Command::If(nested);
        let ghost nested_ghost = nested_command;
        v.push(nested_command);
        proof {
            lemma_trees_push(Seq::<Command>::empty(), nested_ghost);
            assert(trees(Seq::<Command>::empty()) =~= Seq::<CommandView>::empty());
            assert(v@ =~= Seq::<Command>::empty().push(nested_ghost));
            assert(trees(v@) =~= seq![nested_ghost.tree()]);
        }
        Some(v)
    } else {
        expect_word(meta, "fi")?;
        None
    };
    Ok(IfCommand { condition: Box::new(condition), then_body, else_body })
}

fn parse_while(meta: &mut TokenCursor) -> (r: Result<Command, ParseFailure>)
    requires
        old(meta).wf(),
    ensures
        old(meta).advanced_to(final(meta)),
        r is Ok ==> final(meta).index > old(meta).index,
        r is Ok ==> old(meta).at_word("while"@),
        r matches Ok(c) ==> c is While,
        while_command(old(meta).tokens(), old(meta).index as int) == command_outcome(r, final(meta).index),
    decreases old(meta).remaining(), 2int,
{
    proof {
        reveal_with_fuel(while_command, 1);
        reveal_with_fuel(statement, 1);
        reveal_with_fuel(program, 1);
    }
    expect_word(meta, "while")?;
    consume_separators(meta);
    let condition = parse_statement(meta)?;
    consume_separators(meta);
    expect_word(meta, "do")?;
    let stops: &[&str] = &["done"];
    assert(stop_texts(stops@) =~= seq!["done"@]);
    let body = parse_program(meta, stops)?;
    expect_word(meta, "done")?;
    Ok(Command::While(WhileCommand { condition: Box::new(condition), body }))
}

// ---------------------------------------------------------------------------
// For loops
// ---------------------------------------------------------------------------

#[verifier::rlimit(60)]
fn parse_for(meta: &mut TokenCursor) -> (r: Result<Command, ParseFailure>)
    requires
        old(meta).wf(),
    ensures
        old(meta).advanced_to(final(meta)),
        r is Ok ==> final(meta).index > old(meta).index,
        r is Ok ==> old(meta).at_word("for"@),
        r matches Ok(c) ==> c is For || c is CStyleFor,
        r matches Ok(Command::For(f)) ==> spec_is_identifier(f.variable@) && forall|j: int| 0 <= j < f.items@.len()
            ==> !spec_is_separator(#[trigger] f.items@[j]@) && f.items@[j]@ != "do"@,
        for_command(old(meta).tokens(), old(meta).index as int) == command_outcome(r, final(meta).index),
    decreases old(meta).remaining(), 2int,
{
    proof {
        reveal_with_fuel(for_command, 1);
        reveal_with_fuel(c_style_for, 1);
        reveal_with_fuel(for_rest, 1);
    }
    let ghost t = meta.tokens();
    let ghost ws = t.words;
    expect_word(meta, "for")?;
    consume_separators(meta);
    if is_c_style_for_start(meta) {
        return parse_c_style_for(meta);
    }
    let name = match consume_word(meta) {
        Some(w) => w,
        None => return Err(fail_at_end(meta, msg("Expected loop variable name"))),
    };
    if !is_identifier(&name) {
        return Err(fail_at_end(meta, msg_with("Invalid loop variable name '", &name, "'")));
    }
    consume_separators(meta);
    expect_word(meta, "in")?;
    let ghost m = meta.index as int;
    let mut items: Vec<String> = Vec::new();
    assert(string_texts(items@) =~= ws.subrange(m, m));
    assert(for_command(t, old(meta).index as int) == for_rest(t, name@, m));
    loop
        invariant
            for_command(t, old(meta).index as int) == for_rest(t, name@, m),
            0 <= m <= ws.len(),
            old(meta).advanced_to(meta),
            meta.index > old(meta).index,
            t == meta.tokens(),
            ws == t.words,
            m <= meta.index,
            string_texts(items@) == ws.subrange(m, meta.index as int),
            for_items_end(ws, meta.index as int) == for_items_end(ws, m),
            forall|j: int| 0 <= j < items@.len() ==> !spec_is_separator(#[trigger] items@[j]@) && items@[j]@ != "do"@,
        ensures
            old(meta).advanced_to(meta),
            meta.index > old(meta).index,
            t == meta.tokens(),
            string_texts(items@) == ws.subrange(m, meta.index as int),
            meta.index == for_items_end(ws, m),
            meta.index < ws.len(),
            forall|j: int| 0 <= j < items@.len() ==> !spec_is_separator(#[trigger] items@[j]@) && items@[j]@ != "do"@,
        decreases meta.remaining(),
    {
        proof {
            reveal_with_fuel(for_rest, 1);
        }
        let word = match current_word(meta) {
            Some(w) => w,
            None => return Err(fail_at_end(meta, msg("Unterminated for loop"))),
        };
        if is_separator(&word) || eq_lit(&word, "do") {
            break;
        }
        assert(meta.index < ws.len());
        let ghost before = items@;
        let item = string_of(&word);
        items.push(item);
        proof {
            assert(ws[meta.index as int] == word@);
            assert(string_texts(items@) =~= string_texts(before).push(word@));
            assert(ws.subrange(m, meta.index + 1) =~= ws.subrange(m, meta.index as int).push(ws[meta.index as int]));
        }
        advance(meta);
    }
    proof {
        reveal_with_fuel(for_rest, 1);
        reveal_with_fuel(program, 1);
    }
    consume_separators(meta);
    expect_word(meta, "do")?;
    let stops: &[&str] = &["done"];
    assert(stop_texts(stops@) =~= seq!["done"@]);
    let body = parse_program(meta, stops)?;
    expect_word(meta, "done")?;
    Ok(Command::For(ForCommand { variable: string_of(&name), items, body }))
}

fn is_c_style_for_start(meta: &TokenCursor) -> (r: bool)
    requires
        meta.wf(),
    ensures
        r == (match meta.current() {
            Some(w) => spec_starts_with(w, "(("@),
            None => false,
        }),
{
    match current_word(meta) {
        Some(w) => looks_like_arithmetic_command_start(&w),
        None => false,
    }
}

/// The delimiter that ends a section of a C-style for header.
#[derive(Clone, Copy, PartialEq, Eq, Structural)]
enum CStyleSegmentDelimiter {
    Semicolon,
    Close,
}

fn parse_c_style_for(meta: &mut TokenCursor) -> (r: Result<Command, ParseFailure>)
    requires
        old(meta).wf(),
    ensures
        old(meta).advanced_to(final(meta)),
        r is Ok ==> final(meta).index > old(meta).index,
        r matches Ok(c) ==> c is CStyleFor,
        c_style_for(old(meta).tokens(), old(meta).index as int) == command_outcome(r, final(meta).index),
    decreases old(meta).remaining(), 2int,
{
    proof {
        reveal_with_fuel(c_style_for, 1);
        reveal_with_fuel(program, 1);
    }
    let mut init_tokens: Vec<Vec<char>> = Vec::new();
    let mut cond_tokens: Vec<Vec<char>> = Vec::new();
    let mut update_tokens: Vec<Vec<char>> = Vec::new();
    match consume_c_style_for_open(meta)? {
        Some(seed) => {
            init_tokens.push(seed);
            assert(crate::text::views(init_tokens@) =~= seq![seed@]);
        },
        None => {
            assert(crate::text::views(init_tokens@) =~= Seq::<Seq<char>>::empty());
        },
    }
    assert(crate::text::views(cond_tokens@) =~= Seq::<Seq<char>>::empty());
    assert(crate::text::views(update_tokens@) =~= Seq::<Seq<char>>::empty());
    collect_c_style_for_segment(meta, &mut init_tokens, CStyleSegmentDelimiter::Semicolon)?;
    collect_c_style_for_segment(meta, &mut cond_tokens, CStyleSegmentDelimiter::Semicolon)?;
    collect_c_style_for_segment(meta, &mut update_tokens, CStyleSegmentDelimiter::Close)?;
    consume_separators(meta);
    expect_word(meta, "do")?;
    let stops: &[&str] = &["done"];
    assert(stop_texts(stops@) =~= seq!["done"@]);
    let body = parse_program(meta, stops)?;
    expect_word(meta, "done")?;
    let init = normalize_c_style_segment(&init_tokens);
    let condition = normalize_c_style_segment(&cond_tokens);
    let update = normalize_c_style_segment(&update_tokens);
    Ok(Command::CStyleFor(CStyleForCommand {
        init: string_of(&init),
        condition: string_of(&condition),
        update: string_of(&update),
        body,
    }))
}

/// Reads the `((` that opens a C-style for header; what follows it in the same token starts
/// the first section.
fn consume_c_style_for_open(meta: &mut TokenCursor) -> (r: Result<Option<Vec<char>>, ParseFailure>)
    requires
        old(meta).wf(),
    ensures
        old(meta).advanced_to(final(meta)),
        r is Ok ==> final(meta).index == old(meta).index + 1,
        r matches Ok(Some(seed)) ==> old(meta).current() == Some("(("@ + seed@) && seed@.len() > 0,
        r matches Ok(None) ==> old(meta).at_word("(("@),
        r is Err ==> !(match old(meta).current() {
            Some(w) => spec_starts_with(w, "(("@),
            None => false,
        }),
        match c_open(crate::text::views(old(meta).words@), old(meta).index as int) {
            Some(seed) => final(meta).index == old(meta).index + 1 && (r matches Ok(x) && match x {
                Some(w) => seed == seq![w@],
                None => seed == Seq::<Seq<char>>::empty(),
            }),
            None => r matches Err(f) && failure_is(f, "Expected '((' in C-style for loop"@, old(meta).eof),
        },
{
    proof {
        reveal_strlit("((");
    }
    let word = match consume_word(meta) {
        Some(w) => w,
        None => return Err(fail_at_end(meta, msg("Expected '((' in C-style for loop"))),
    };
    if eq_lit(&word, "((") {
        return Ok(None);
    }
    match strip_prefix_lit(&word, "((") {
        Some(rest) => {
            assert(word@ =~= "(("@ + rest@);
            if rest.len() == 0 {
                return Ok(None);
            }
            Ok(Some(rest))
        },
        None => Err(fail_at_end(meta, msg("Expected '((' in C-style for loop"))),
    }
}

/// Collects the tokens of one section of a C-style for header, up to `;` or `))`.
fn collect_c_style_for_segment(
    meta: &mut TokenCursor,
    out: &mut Vec<Vec<char>>,
    delimiter: CStyleSegmentDelimiter,
) -> (r: Result<(), ParseFailure>)
    requires
        old(meta).wf(),
    ensures
        old(meta).advanced_to(final(meta)),
        r is Ok ==> final(meta).index > old(meta).index,
        r matches Err(f) ==> failure_is(f, "Unterminated C-style for loop"@, old(meta).eof),
        c_segment(crate::text::views(old(meta).words@), old(meta).index as int, delimiter == CStyleSegmentDelimiter::Close,
            crate::text::views(old(out)@)) == match r {
            Ok(()) => Ok((crate::text::views(final(out)@), final(meta).index as int)),
            Err(f) => Err(f.message@),
        },
{
    let ghost ws = crate::text::views(meta.words@);
    let ghost total = c_segment(ws, meta.index as int, delimiter == CStyleSegmentDelimiter::Close, crate::text::views(out@));
    loop
        invariant
            old(meta).advanced_to(meta),
            ws == crate::text::views(meta.words@),
            total == c_segment(ws, old(meta).index as int, delimiter == CStyleSegmentDelimiter::Close, crate::text::views(old(out)@)),
            total == c_segment(ws, meta.index as int, delimiter == CStyleSegmentDelimiter::Close, crate::text::views(out@)),
        decreases meta.remaining(),
    {
        proof {
            reveal_strlit(";");
            reveal_strlit("))");
        }
        let word = match current_word(meta) {
            Some(w) => w,
            None => return Err(fail_at_end(meta, msg("Unterminated C-style for loop"))),
        };
        assert(ws[meta.index as int] == word@);
        match delimiter {
            CStyleSegmentDelimiter::Semicolon => {
                if eq_lit(&word, ";") {
                    advance(meta);
                    return Ok(());
                }
            },
            CStyleSegmentDelimiter::Close => {
                if eq_lit(&word, "))") {
                    advance(meta);
                    return Ok(());
                }
                match strip_suffix_lit(&word, "))") {
                    Some(prefix) => {
                        if prefix.len() > 0 {
                            let ghost before = out@;
                            out.push(prefix);
                            proof {
                                crate::text::lemma_views_push(before, prefix);
                            }
                        }
                        advance(meta);
                        return Ok(());
                    },
                    None => {},
                }
            },
        }
        let ghost before = out@;
        out.push(word);
        proof {
            crate::text::lemma_views_push(before, word);
        }
        advance(meta);
    }
}

/// The tokens of a C-style for section joined by single spaces.
fn normalize_c_style_segment(tokens: &Vec<Vec<char>>) -> (r: Vec<char>)
    ensures
        r@ == crate::text::join(crate::text::views(tokens@), " "@),
{
    crate::text::join_lit(tokens, " ")
}

// ---------------------------------------------------------------------------
// Functions and groups
// ---------------------------------------------------------------------------

fn parse_function_keyword(meta: &mut TokenCursor) -> (r: Result<Command, ParseFailure>)
    requires
        old(meta).wf(),
    ensures
        old(meta).advanced_to(final(meta)),
        r is Ok ==> final(meta).index > old(meta).index,
        r matches Ok(c) ==> c is Function,
        function_keyword(old(meta).tokens(), old(meta).index as int) == command_outcome(r, final(meta).index),
    decreases old(meta).remaining(), 2int,
{
    proof {
        reveal_with_fuel(function_keyword, 1);
        reveal_with_fuel(block, 1);
    }
    expect_word(meta, "function")?;
    consume_separators(meta);
    let name = match consume_word(meta) {
        Some(w) => w,
        None => return Err(fail_at_end(meta, msg("Expected function name"))),
    };
    if !is_identifier(&name) {
        return Err(fail_at_end(meta, msg_with("Invalid function name '", &name, "'")));
    }
    if current_is(meta, "()") {
        advance(meta);
    }
    consume_separators(meta);
    let body = parse_block_in_braces(meta, "function body")?;
    Ok(Command::Function(FunctionDef { name: string_of(&name), body }))
}

fn parse_function_style(meta: &mut TokenCursor) -> (r: Result<Command, ParseFailure>)
    requires
        old(meta).wf(),
    ensures
        old(meta).advanced_to(final(meta)),
        r is Ok ==> final(meta).index > old(meta).index,
        r matches Ok(c) ==> c is Function,
        function_style(old(meta).tokens(), old(meta).index as int) == command_outcome(r, final(meta).index),
    decreases old(meta).remaining(), 2int,
{
    proof {
        reveal_with_fuel(function_style, 1);
        reveal_with_fuel(block, 1);
    }
    let token = match consume_word(meta) {
        Some(w) => w,
        None => return Err(fail_at_end(meta, msg("Expected function name"))),
    };
    let name = match strip_suffix_lit(&token, "()") {
        Some(n) => n,
        None => {
            if current_is(meta, "()") {
                advance(meta);
                token
            } else {
                return Err(fail_at_end(meta, msg("Expected function declaration")));
            }
        },
    };
    if !is_identifier(&name) {
        return Err(fail_at_end(meta, msg_with("Invalid function name '", &name, "'")));
    }
    consume_separators(meta);
    let body = parse_block_in_braces(meta, "function body")?;
    Ok(Command::Function(FunctionDef { name: string_of(&name), body }))
}

fn parse_group(meta: &mut TokenCursor) -> (r: Result<Command, ParseFailure>)
    requires
        old(meta).wf(),
    ensures
        old(meta).advanced_to(final(meta)),
        r is Ok ==> final(meta).index > old(meta).index,
        r matches Ok(c) ==> c is Group,
        group(old(meta).tokens(), old(meta).index as int) == command_outcome(r, final(meta).index),
    decreases old(meta).remaining(), 2int,
{
    proof {
        reveal_with_fuel(group, 1);
        reveal_with_fuel(block, 1);
    }
    let body = parse_block_in_braces(meta, "group")?;
    Ok(Command::Group(body))
}

/// Statements between `{` and `}`.
fn parse_block_in_braces(meta: &mut TokenCursor, block_name: &str) -> (r: Result<Vec<Command>, ParseFailure>)
    requires
        old(meta).wf(),
    ensures
        old(meta).advanced_to(final(meta)),
        r is Ok ==> final(meta).index >= old(meta).index + 2,
        r is Ok ==> old(meta).at_word("{"@),
        block(old(meta).tokens(), old(meta).index as int, block_name@) == commands_outcome(r, final(meta).index),
    decreases old(meta).remaining(), 1int,
{
    proof {
        reveal_with_fuel(block, 1);
        reveal_with_fuel(program, 1);
    }
    expect_word(meta, "{")?;
    let stops: &[&str] = &["}"];
    assert(stop_texts(stops@) =~= seq!["}"@]);
    let body = parse_program(meta, stops)?;
    if !current_is(meta, "}") {
        let name = chars_of(block_name);
        return Err(fail_at_end(meta, msg_with("Unterminated ", &name, "")));
    }
    advance(meta);
    Ok(body)
}

/// Whether the current token starts a function definition `name()` or `name ()`.
fn looks_like_function(meta: &TokenCursor) -> (r: bool)
    requires
        meta.wf(),
    ensures
        r == function_start(crate::text::views(meta.words@), meta.index as int),
{
    let first = match current_word(meta) {
        Some(w) => w,
        None => return false,
    };
    match strip_suffix_lit(&first, "()") {
        Some(name) => {
            return is_identifier(&name);
        },
        None => {},
    }
    if !is_identifier(&first) {
        return false;
    }
    peek_is(meta, 1, "()")
}

// ---------------------------------------------------------------------------
// Simple commands
// ---------------------------------------------------------------------------

/// The index where the words of a simple command that starts at `i` end: the first
/// separator, connector or comment outside any command substitution, or the end.
pub open spec fn simple_end(ws: Seq<Seq<char>>, i: int, depth: usize) -> int
    decreases ws.len() - i,
{
    if i < 0 || i >= ws.len() {
        i
    } else if depth == 0 && (spec_is_simple_stop(ws[i]) || spec_is_comment(ws[i])) {
        i
    } else {
        simple_end(ws, i + 1, subst_depth(ws[i], 0, depth, false, false, false))
    }
}

/// The words of a simple command, up to a separator, connector or comment outside any
/// command substitution.
fn parse_simple(meta: &mut TokenCursor) -> (r: Result<Command, ParseFailure>)
    requires
        old(meta).wf(),
    ensures
        old(meta).advanced_to(final(meta)),
        r is Ok ==> final(meta).index > old(meta).index,
        r matches Ok(c) ==> c is Simple,
        ({
            let ws = crate::text::views(old(meta).words@);
            let end = simple_end(ws, old(meta).index as int, 0);
            &&& final(meta).index == end
            &&& end == old(meta).index ==> (r matches Err(f) && failure_is(f, "Expected command"@, old(meta).position_at(end)))
            &&& end > old(meta).index ==> (r matches Ok(Command::Simple(s))
                && string_texts(s.words@) == normalize_words(ws.subrange(old(meta).index as int, end)))
        }),
    decreases old(meta).remaining(), 2int,
{
    let mut words: Vec<Vec<char>> = Vec::new();
    let mut depth: usize = 0;
    let ghost start = meta.index;
    let ghost ws = crate::text::views(meta.words@);
    while meta.index < meta.words.len()
        invariant
            old(meta).advanced_to(meta),
            start == old(meta).index,
            words@.len() == meta.index - start,
            ws == crate::text::views(meta.words@),
            crate::text::views(words@) == ws.subrange(start as int, meta.index as int),
            simple_end(ws, meta.index as int, depth) == simple_end(ws, start as int, 0),
        ensures
            simple_end(ws, start as int, 0) == meta.index,
        decreases meta.remaining(),
    {
        let word = to_vec(&meta.words[meta.index]);
        if depth == 0 && (is_simple_stop(&word) || is_comment(&word)) {
            break;
        }
        depth = update_command_substitution_depth(depth, &word);
        let ghost before = words@;
        words.push(word);
        proof {
            assert(crate::text::views(words@) =~= ws.subrange(start as int, meta.index + 1));
        }
        advance(meta);
    }
    if words.len() == 0 {
        return Err(fail_at_current(meta, msg("Expected command")));
    }
    let normalized = normalize_simple_words(&words);
    let mut strings: Vec<String> = Vec::new();
    let mut k: usize = 0;
    while k < normalized.len()
        invariant
            k <= normalized@.len(),
            strings@.len() == k,
            forall|j: int| 0 <= j < k ==> (#[trigger] strings@[j])@ == normalized@[j]@,
        decreases normalized@.len() - k,
    {
        strings.push(string_of(&normalized[k]));
        k += 1;
    }
    assert(string_texts(strings@) =~= crate::text::views(normalized@));
    Ok(Command::Simple(SimpleCommand { words: strings }))
}

/// The command-substitution depth after `word`, starting from `depth`: each `$(` outside
/// quotes that does not start `$((` opens one level, each `)` outside quotes closes one.
pub open spec fn subst_depth(cs: Seq<char>, i: int, depth: usize, sq: bool, dq: bool, esc: bool) -> usize
    decreases cs.len() - i,
{
    if i < 0 || i >= cs.len() {
        depth
    } else {
        let ch = cs[i];
        if esc {
            subst_depth(cs, i + 1, depth, sq, dq, false)
        } else if ch == '\\' {
            subst_depth(cs, i + 1, depth, sq, dq, true)
        } else if ch == '\'' && !dq {
            subst_depth(cs, i + 1, depth, !sq, dq, false)
        } else if ch == '"' && !sq {
            subst_depth(cs, i + 1, depth, sq, !dq, false)
        } else if !sq && !dq && ch == '$' && i + 1 < cs.len() && cs[i + 1] == '(' && !(i + 2
            < cs.len() && cs[i + 2] == '(') {
            subst_depth(cs, i + 2, if depth < usize::MAX { (depth + 1) as usize } else { depth }, sq, dq, false)
        } else if !sq && !dq && ch == ')' && depth > 0 {
            subst_depth(cs, i + 1, (depth - 1) as usize, sq, dq, false)
        } else {
            subst_depth(cs, i + 1, depth, sq, dq, false)
        }
    }
}

fn update_command_substitution_depth(depth: usize, word: &[char]) -> (r: usize)
    ensures
        r == subst_depth(word@, 0, depth, false, false, false),
{
    let ghost d0 = depth;
    let mut depth = depth;
    let mut i: usize = 0;
    let mut in_single = false;
    let mut in_double = false;
    let mut escaped = false;
    while i < word.len()
        invariant
            i <= word@.len(),
            subst_depth(word@, i as int, depth, in_single, in_double, escaped)
                == subst_depth(word@, 0, d0, false, false, false),
        decreases word@.len() - i,
    {
        let ch = word[i];
        if escaped {
            escaped = false;
            i += 1;
            continue;
        }
        if ch == '\\' {
            escaped = true;
            i += 1;
            continue;
        }
        if ch == '\'' && !in_double {
            in_single = !in_single;
            i += 1;
            continue;
        }
        if ch == '"' && !in_single {
            in_double = !in_double;
            i += 1;
            continue;
        }
        if !in_single && !in_double && ch == '$' && i + 1 < word.len() && word[i + 1] == '(' {
            let is_arithmetic = i + 2 < word.len() && word[i + 2] == '(';
            if !is_arithmetic {
                depth = depth.saturating_add(1);
                i += 2;
                continue;
            }
        }
        if !in_single && !in_double && ch == ')' && depth > 0 {
            depth -= 1;
        }
        i += 1;
    }
    depth
}

/// Words of a simple command with each `name=` word joined to a following quoted word.
pub open spec fn normalize_words(ws: Seq<Seq<char>>) -> Seq<Seq<char>>
    decreases ws.len(),
{
    if ws.len() == 0 {
        seq![]
    } else if ws.len() > 1 && spec_looks_like_assignment_prefix(ws[0]) && ws[1].len() > 0 && (
    ws[1][0] == '"' || ws[1][0] == '\'' || ws[1][0] == '`') {
        seq![ws[0] + ws[1]] + normalize_words(ws.skip(2))
    } else {
        seq![ws[0]] + normalize_words(ws.skip(1))
    }
}

fn normalize_simple_words(words: &Vec<Vec<char>>) -> (r: Vec<Vec<char>>)
    ensures
        crate::text::views(r@) == normalize_words(crate::text::views(words@)),
{
    let ghost ws = crate::text::views(words@);
    let mut result: Vec<Vec<char>> = Vec::new();
    let mut index: usize = 0;
    assert(ws.skip(0) =~= ws);
    while index < words.len()
        invariant
            index <= words@.len(),
            ws == crate::text::views(words@),
            crate::text::views(result@) + normalize_words(ws.skip(index as int)) == normalize_words(ws),
        decreases words@.len() - index,
    {
        let ghost before = result@;
        let ghost rest = ws.skip(index as int);
        let current = &words[index];
        if looks_like_assignment_prefix(current) && index + 1 < words.len() {
            let next = &words[index + 1];
            if next.len() > 0 && (next[0] == '"' || next[0] == '\'' || next[0] == '`') {
                let mut joined = to_vec(current);
                push_all(&mut joined, next);
                result.push(joined);
                assert(rest.skip(2) =~= ws.skip(index + 2));
                assert(crate::text::views(result@) =~= crate::text::views(before) + seq![rest[0] + rest[1]]);
                index += 2;
                continue;
            }
        }
        result.push(to_vec(current));
        assert(rest.skip(1) =~= ws.skip(index + 1));
        assert(crate::text::views(result@) =~= crate::text::views(before) + seq![rest[0]]);
        index += 1;
    }
    assert(ws.skip(index as int) =~= seq![]);
    assert(crate::text::views(result@) + seq![] =~= crate::text::views(result@));
    result
}

// ---------------------------------------------------------------------------
// Positions and messages
// ---------------------------------------------------------------------------

/// `"<message> at <row>:<col>"`.
pub open spec fn failure_text(f: ParseFailure) -> Seq<char> {
    f.message@ + " at "@ + decimal(f.row as nat) + ":"@ + decimal(f.col as nat)
}

fn failure_to_string(failure: &ParseFailure) -> (s: Vec<char>)
    ensures
        s@ == failure_text(*failure),
{
    let mut out = to_vec(&failure.message);
    push_str(&mut out, " at ");
    push_all(&mut out, &usize_to_decimal(failure.row));
    push_str(&mut out, ":");
    push_all(&mut out, &usize_to_decimal(failure.col));
    out
}

/// `"Lexer error (<kind>) at <row>:<col>"`.
pub open spec fn lexer_error_text(unclosed: bool, row: usize, col: usize) -> Seq<char> {
    "Lexer error ("@ + (if unclosed { "unclosed region"@ } else { "single-line region"@ }) + ") at "@
        + decimal(row as nat) + ":"@ + decimal(col as nat)
}

/// The error for a source that the lexer cannot read: non-ASCII text ending in `last`, which
/// begins a merging pair.
pub open spec fn lexer_refusal_text(last: char) -> Seq<char> {
    "Lexer error (non-ASCII text ending in '"@ + seq![last] + "')"@
}

fn lexer_refusal_to_string(last: char) -> (s: Vec<char>)
    ensures
        s@ == lexer_refusal_text(last),
{
    let mut out = chars_of("Lexer error (non-ASCII text ending in '");
    out.push(last);
    push_str(&mut out, "')");
    out
}

fn lexer_error_to_string(unclosed: bool, row: usize, col: usize) -> (s: Vec<char>)
    ensures
        s@ == lexer_error_text(unclosed, row, col),
{
    let mut out = chars_of("Lexer error (");
    if unclosed {
        push_str(&mut out, "unclosed region");
    } else {
        push_str(&mut out, "single-line region");
    }
    push_str(&mut out, ") at ");
    push_all(&mut out, &usize_to_decimal(row));
    push_str(&mut out, ":");
    push_all(&mut out, &usize_to_decimal(col));
    out
}

/// The cursor at the first of `tokens`, ending at `eof`.
fn cursor_of(tokens: &Vec<LexToken>, eof: (usize, usize)) -> (m: TokenCursor)
    ensures
        m.wf(),
        m.index == 0,
        m.eof == eof,
        m.words@.len() == tokens@.len(),
        forall|i: int| 0 <= i < tokens@.len() ==> (#[trigger] m.words@[i])@ == tokens@[i].word@,
        forall|i: int| 0 <= i < tokens@.len() ==> #[trigger] m.positions@[i] == (tokens@[i].row, tokens@[i].col),
{
    let mut words: Vec<Vec<char>> = Vec::new();
    let mut positions: Vec<(usize, usize)> = Vec::new();
    let mut i: usize = 0;
    while i < tokens.len()
        invariant
            i <= tokens@.len(),
            words@.len() == i,
            positions@.len() == i,
            forall|j: int| 0 <= j < i ==> (#[trigger] words@[j])@ == tokens@[j].word@,
            forall|j: int| 0 <= j < i ==> #[trigger] positions@[j] == (tokens@[j].row, tokens@[j].col),
        decreases tokens@.len() - i,
    {
        words.push(chars_of(tokens[i].word.as_str()));
        positions.push((tokens[i].row, tokens[i].col));
        i += 1;
    }
    TokenCursor { words, positions, index: 0, eof }
}

/// Parses a Bash script. The tokens come from the heraclitus lexer with the rules of
/// [`get_rules`]; a lexing failure, a parse failure, or a token left over after the last
/// statement is reported as text with its position.
pub fn parse(source: &str, path: Option<String>) -> (r: Result<Program, String>)
    ensures
        !lexer_accepts(get_rules_view(), source@) ==> (r matches Err(e) && e@ == lexer_refusal_text(source@.last())),
        lexer_accepts(get_rules_view(), source@) ==> (heraclitus_tokens(get_rules_view(), source@) matches Err((unclosed, row, col)) ==> (r matches Err(e) && e@ == lexer_error_text(unclosed, row, col))),
        lexer_accepts(get_rules_view(), source@) ==> (heraclitus_tokens(get_rules_view(), source@) matches Ok(ts) ==> (match program(
            source_tokens(ts, source@),
            0,
            seq![],
            seq![],
        ) {
            Ok((statements, _)) => r matches Ok(p) && trees(p.statements@) == statements,
            Err(f) => r matches Err(e) && e@ == failure_message(f),
        })),
        lexer_accepts(get_rules_view(), source@) ==> (heraclitus_tokens(get_rules_view(), source@) matches Ok(ts) && ({
            let ws = ts.map_values(|t: (Seq<char>, usize, usize)| t.0);
            separators_end(ws, 0) == ws.len()
        }) ==> (r matches Ok(p) && p.statements@.len() == 0)),
{
    proof {
        reveal_with_fuel(program, 1);
    }
    let rules = get_rules();
    let src = chars_of(source);
    if !lexer_accepts_source(&rules, &src) {
        return Err(string_of(&lexer_refusal_to_string(src[src.len() - 1])));
    }
    let tokens = match tokenize(&rules, source) {
        Ok(ts) => ts,
        Err(e) => {
            return Err(string_of(&lexer_error_to_string(e.unclosed, e.row, e.col)));
        },
    };
    let eof = eof_position(source);
    let mut meta = cursor_of(&tokens, eof);
    let ghost ts = tokens@.map_values(|t: LexToken| (t.word@, t.row, t.col));
    proof {
        assert(crate::text::views(meta.words@) =~= ts.map_values(|t: (Seq<char>, usize, usize)| t.0));
        assert(meta.positions@ =~= ts.map_values(|t: (Seq<char>, usize, usize)| (t.1, t.2)));
        assert(meta.tokens() == source_tokens(ts, source@));
    }
    let stops: &[&str] = &[];
    assert(stop_texts(stops@) =~= Seq::<Seq<char>>::empty());
    let statements = match parse_program(&mut meta, stops) {
        Ok(s) => s,
        Err(f) => {
            return Err(string_of(&failure_to_string(&f)));
        },
    };
    proof {
        lemma_trees_len(statements@);
    }
    consume_separators(&mut meta);
    if meta.index < meta.words.len() {
        let (row, col) = meta.positions[meta.index];
        let mut m = msg_with("Unexpected token '", &meta.words[meta.index], "' at ");
        push_all(&mut m, &usize_to_decimal(row));
        push_str(&mut m, ":");
        push_all(&mut m, &usize_to_decimal(col));
        return Err(string_of(&m));
    }
    Ok(Program { statements })
}

/// The parse failure of a script that lexes.
pub open spec fn parse_failure(source: Seq<char>) -> Option<Failure> {
    if !lexer_accepts(get_rules_view(), source) {
        None
    } else {
    match heraclitus_tokens(get_rules_view(), source) {
        Ok(ts) => match program(source_tokens(ts, source), 0, seq![], seq![]) {
            Err(f) => Some(f),
            Ok(_) => None,
        },
        Err(_) => None,
    }
    }
}

/// The statements of a script that lexes and parses.
pub open spec fn parsed_statements(source: Seq<char>) -> Option<Seq<CommandView>> {
    if !lexer_accepts(get_rules_view(), source) {
        None
    } else {
    match heraclitus_tokens(get_rules_view(), source) {
        Ok(ts) => match program(source_tokens(ts, source), 0, seq![], seq![]) {
            Ok((statements, _)) => Some(statements),
            Err(_) => None,
        },
        Err(_) => None,
    }
    }
}

/// Whether a script fails to lex or to parse.
pub open spec fn fails_to_parse(source: Seq<char>) -> bool {
    !lexer_accepts(get_rules_view(), source) || heraclitus_tokens(get_rules_view(), source) is Err
        || parse_failure(source) is Some
}

/// The token stream that the lexer's tokens `ts` of `source` make.
pub open spec fn source_tokens(ts: Seq<(Seq<char>, usize, usize)>, source: Seq<char>) -> Tokens {
    Tokens {
        words: ts.map_values(|t: (Seq<char>, usize, usize)| t.0),
        positions: ts.map_values(|t: (Seq<char>, usize, usize)| (t.1, t.2)),
        eof: eof_position_of(source),
    }
}

/// A failure as text: `"<message> at <row>:<col>"`.
pub open spec fn failure_message(f: Failure) -> Seq<char> {
    f.0 + " at "@ + decimal(f.1.0 as nat) + ":"@ + decimal(f.1.1 as nat)
}

/// The view of the rules that [`get_rules`] returns.
pub open spec fn get_rules_view() -> super::rules::RulesView {
    (
        seq![';', '|', '&'],
        seq![('&', '&'), ('|', '|')],
        seq![
            ("single_quote"@, "single quoted string"@, "'"@, "'"@, false, false),
            ("double_quote"@, "double quoted string"@, "\""@, "\""@, false, false),
            ("backticks"@, "backtick command"@, "`"@, "`"@, false, false),
            ("comment"@, "comment"@, "#"@, "\n"@, true, true),
        ],
        "\\"@,
    )
}

} // verus!
