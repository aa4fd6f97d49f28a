//! Identifier, quoting and number classification for rendering, and the analysis of function
//! bodies for the positional parameters they use.
use vstd::prelude::*;

use crate::bash::ast::{CaseClause, Command};
use crate::text::{
    chars_of, contains_lit, eq_lit, is_number, is_word_char, is_word_start, push_str, slice_vec,
    spec_contains, spec_is_identifier, spec_is_number, spec_is_word_char, spec_is_word_start,
    spec_parse_usize, spec_starts_with, spec_ends_with, starts_with_lit, ends_with_lit, to_vec,
};

verus! {

pub fn is_identifier(text: &[char]) -> (r: bool)
    ensures
        r == spec_is_identifier(text@),
{
    crate::text::is_identifier(text)
}

/// Each character that cannot be part of an identifier becomes `_`.
pub open spec fn underscore_invalid(s: Seq<char>) -> Seq<char> {
    s.map_values(|c: char| if spec_is_word_char(c) { c } else { '_' })
}

/// `text` as an identifier: invalid characters become `_`, an empty text becomes `var`, and a
/// leading digit gets a `_` in front.
pub open spec fn spec_normalize_identifier(text: Seq<char>) -> Seq<char> {
    let out = underscore_invalid(text);
    if out.len() == 0 {
        "var"@
    } else if !spec_is_word_start(out[0]) {
        seq!['_'] + out
    } else {
        out
    }
}

/// An identifier is left as it is.
pub proof fn lemma_normalize_keeps_identifier(text: Seq<char>)
    requires
        spec_is_identifier(text),
    ensures
        spec_normalize_identifier(text) == text,
{
    assert(underscore_invalid(text) =~= text) by {
        assert forall|k: int| 0 <= k < text.len() implies spec_is_word_char(#[trigger] text[k]) by {
            if k == 0 {
                assert(spec_is_word_start(text[0]));
            }
        }
    }
}

/// Normalizing gives an identifier, at most one character longer than a text that is not
/// empty.
pub proof fn lemma_normalize_gives_identifier(text: Seq<char>)
    ensures
        spec_is_identifier(spec_normalize_identifier(text)),
        text.len() > 0 ==> spec_normalize_identifier(text).len() <= text.len() + 1,
{
    let out = underscore_invalid(text);
    assert forall|k: int| 0 <= k < out.len() implies spec_is_word_char(#[trigger] out[k]) by {}
    if out.len() == 0 {
        reveal_strlit("var");
        assert(spec_is_word_start("var"@[0]));
        assert forall|k: int| 1 <= k < 3 implies spec_is_word_char(#[trigger] "var"@[k]) by {}
    } else if !spec_is_word_start(out[0]) {
        let r = seq!['_'] + out;
        assert forall|k: int| 1 <= k < r.len() implies spec_is_word_char(#[trigger] r[k]) by {
            assert(r[k] == out[k - 1]);
        }
    }
}

pub fn normalize_identifier(text: &[char]) -> (r: Vec<char>)
    ensures
        r@ == spec_normalize_identifier(text@),
{
    let mut out: Vec<char> = Vec::new();
    let mut i: usize = 0;
    while i < text.len()
        invariant
            i <= text@.len(),
            out@ == underscore_invalid(text@.take(i as int)),
        decreases text@.len() - i,
    {
        let ch = text[i];
        if is_word_char(ch) {
            out.push(ch);
        } else {
            out.push('_');
        }
        assert(underscore_invalid(text@.take(i + 1)) =~= underscore_invalid(text@.take(i as int)).push(
            if spec_is_word_char(ch) { ch } else { '_' },
        ));
        i += 1;
    }
    assert(text@.take(text@.len() as int) =~= text@);
    if out.len() == 0 {
        return chars_of("var");
    }
    if !is_word_start(out[0]) {
        let mut r = Vec::new();
        r.push('_');
        crate::text::push_all(&mut r, &out);
        return r;
    }
    out
}

/// A normalized identifier is always an identifier.
pub proof fn lemma_normalized_is_identifier(text: Seq<char>)
    ensures
        spec_is_identifier(spec_normalize_identifier(text)),
{
    reveal_strlit("var");
    let out = underscore_invalid(text);
    assert forall|k: int| 0 <= k < out.len() implies spec_is_word_char(#[trigger] out[k]) by {}
    if out.len() > 0 && !spec_is_word_start(out[0]) {
        let r = seq!['_'] + out;
        assert forall|k: int| 1 <= k < r.len() implies spec_is_word_char(#[trigger] r[k]) by {
            assert(r[k] == out[k - 1]);
        }
    }
}

/// Amber keywords and builtins that a generated name must not collide with.
pub open spec fn spec_is_reserved_keyword(w: Seq<char>) -> bool {
    ||| w == "Bool"@
    ||| w == "Null"@
    ||| w == "Number"@
    ||| w == "Text"@
    ||| w == "and"@
    ||| w == "as"@
    ||| w == "break"@
    ||| w == "cd"@
    ||| w == "const"@
    ||| w == "continue"@
    ||| w == "echo"@
    ||| w == "else"@
    ||| w == "exit"@
    ||| w == "exited"@
    ||| w == "fail"@
    ||| w == "failed"@
    ||| w == "false"@
    ||| w == "for"@
    ||| w == "from"@
    ||| w == "fun"@
    ||| w == "if"@
    ||| w == "import"@
    ||| w == "in"@
    ||| w == "is"@
    ||| w == "len"@
    ||| w == "let"@
    ||| w == "lines"@
    ||| w == "loop"@
    ||| w == "main"@
    ||| w == "mv"@
    ||| w == "nameof"@
    ||| w == "touch"@
    ||| w == "not"@
    ||| w == "null"@
    ||| w == "or"@
    ||| w == "pub"@
    ||| w == "ref"@
    ||| w == "return"@
    ||| w == "silent"@
    ||| w == "sleep"@
    ||| w == "status"@
    ||| w == "sudo"@
    ||| w == "succeeded"@
    ||| w == "suppress"@
    ||| w == "then"@
    ||| w == "trust"@
    ||| w == "true"@
    ||| w == "unsafe"@
    ||| w == "while"@
}

pub fn is_reserved_keyword(w: &[char]) -> (r: bool)
    ensures
        r == spec_is_reserved_keyword(w@),
{
    eq_lit(w, "Bool") || eq_lit(w, "Null") || eq_lit(w, "Number") || eq_lit(w, "Text") || eq_lit(w, "and") || eq_lit(w, "as") || eq_lit(w, "break") || eq_lit(w, "cd") || eq_lit(w, "const") || eq_lit(w, "continue") || eq_lit(w, "echo") || eq_lit(w, "else") || eq_lit(w, "exit") || eq_lit(w, "exited") || eq_lit(w, "fail") || eq_lit(w, "failed") || eq_lit(w, "false") || eq_lit(w, "for") || eq_lit(w, "from") || eq_lit(w, "fun") || eq_lit(w, "if") || eq_lit(w, "import") || eq_lit(w, "in") || eq_lit(w, "is") || eq_lit(w, "len") || eq_lit(w, "let") || eq_lit(w, "lines") || eq_lit(w, "loop") || eq_lit(w, "main") || eq_lit(w, "mv") || eq_lit(w, "nameof") || eq_lit(w, "touch") || eq_lit(w, "not") || eq_lit(w, "null") || eq_lit(w, "or") || eq_lit(w, "pub") || eq_lit(w, "ref") || eq_lit(w, "return") || eq_lit(w, "silent") || eq_lit(w, "sleep") || eq_lit(w, "status") || eq_lit(w, "sudo") || eq_lit(w, "succeeded") || eq_lit(w, "suppress") || eq_lit(w, "then") || eq_lit(w, "trust") || eq_lit(w, "true") || eq_lit(w, "unsafe") || eq_lit(w, "while")
}

/// A function name made into an identifier, with `_fn` added to a reserved word.
pub open spec fn spec_sanitize_function_name(name: Seq<char>) -> Seq<char> {
    let out = spec_normalize_identifier(name);
    if spec_is_reserved_keyword(out) {
        out + "_fn"@
    } else {
        out
    }
}

pub fn sanitize_function_name(name: &[char]) -> (r: Vec<char>)
    ensures
        r@ == spec_sanitize_function_name(name@),
{
    let mut out = normalize_identifier(name);
    if is_reserved_keyword(&out) {
        push_str(&mut out, "_fn");
    }
    out
}

pub open spec fn spec_is_double_quoted(w: Seq<char>) -> bool {
    w.len() >= 2 && w[0] == '"' && w.last() == '"'
}

pub open spec fn spec_is_single_quoted(w: Seq<char>) -> bool {
    w.len() >= 2 && w[0] == '\'' && w.last() == '\''
}

pub fn is_double_quoted(w: &[char]) -> (r: bool)
    ensures
        r == spec_is_double_quoted(w@),
{
    w.len() >= 2 && w[0] == '"' && w[w.len() - 1] == '"'
}

pub fn is_single_quoted(w: &[char]) -> (r: bool)
    ensures
        r == spec_is_single_quoted(w@),
{
    w.len() >= 2 && w[0] == '\'' && w[w.len() - 1] == '\''
}

/// The inside of `w` when it is double-quoted, otherwise `w` itself.
pub open spec fn spec_strip_outer_double_quotes(w: Seq<char>) -> Seq<char> {
    if spec_is_double_quoted(w) {
        w.subrange(1, w.len() - 1)
    } else {
        w
    }
}

pub fn strip_outer_double_quotes(w: &[char]) -> (r: Vec<char>)
    ensures
        r@ == spec_strip_outer_double_quotes(w@),
{
    if is_double_quoted(w) {
        slice_vec(w, 1, w.len() - 1)
    } else {
        to_vec(w)
    }
}

/// The type of a value assigned to a variable, as far as its text shows.
#[derive(Debug, Clone, Copy, PartialEq, Eq, Structural)]
pub enum GlobalVarType {
    Text,
    Int,
    Unknown,
}

impl GlobalVarType {
    /// Two observations of one variable's type: equal ones agree, `Unknown` yields to the
    /// other, and `Text` against `Int` is a conflict (`None`).
    pub open spec fn spec_merge(self, other: Self) -> Option<Self> {
        if self == other {
            Some(self)
        } else if self == GlobalVarType::Unknown {
            Some(other)
        } else if other == GlobalVarType::Unknown {
            Some(self)
        } else {
            None
        }
    }

    pub fn merge(self, other: Self) -> (r: Option<Self>)
        ensures
            r == self.spec_merge(other),
    {
        if self == other {
            Some(self)
        } else if self == GlobalVarType::Unknown {
            Some(other)
        } else if other == GlobalVarType::Unknown {
            Some(self)
        } else {
            None
        }
    }
}

pub open spec fn var_ref_char(c: char) -> bool {
    spec_is_word_char(c) || c == '{' || c == '}'
}

/// The type of the right-hand side of an assignment: empty and quoted text is `Text`, a
/// number or an arithmetic expansion is `Int`, and a plain variable reference (quoted or
/// not) or anything else is `Unknown`.
pub open spec fn spec_classify_assignment_rhs(value: Seq<char>) -> GlobalVarType {
    if value.len() == 0 {
        GlobalVarType::Text
    } else if spec_is_number(value) {
        GlobalVarType::Int
    } else if spec_starts_with(value, "$(("@) && spec_ends_with(value, "))"@) {
        GlobalVarType::Int
    } else if spec_is_double_quoted(value) {
        let inner = value.subrange(1, value.len() - 1);
        if inner.len() > 0 && inner[0] == '$' && !inner.contains(' ') && (forall|k: int|
            1 <= k < inner.len() ==> var_ref_char(#[trigger] inner[k])) {
            GlobalVarType::Unknown
        } else {
            GlobalVarType::Text
        }
    } else if spec_is_single_quoted(value) {
        GlobalVarType::Text
    } else {
        GlobalVarType::Unknown
    }
}

pub fn classify_assignment_rhs(value: &[char]) -> (r: GlobalVarType)
    ensures
        r == spec_classify_assignment_rhs(value@),
{
    if value.len() == 0 {
        return GlobalVarType::Text;
    }
    if is_number(value) {
        return GlobalVarType::Int;
    }
    if starts_with_lit(value, "$((") && ends_with_lit(value, "))") {
        return GlobalVarType::Int;
    }
    if is_double_quoted(value) {
        let inner = slice_vec(value, 1, value.len() - 1);
        if inner.len() > 0 && inner[0] == '$' && !crate::text::contains_char(&inner, ' ') {
            let mut k: usize = 1;
            let mut all = true;
            while k < inner.len()
                invariant
                    1 <= k <= inner@.len(),
                    all == (forall|j: int| 1 <= j < k ==> var_ref_char(#[trigger] inner@[j])),
                decreases inner@.len() - k,
            {
                let c = inner[k];
                if !(is_word_char(c) || c == '{' || c == '}') {
                    all = false;
                }
                k += 1;
            }
            if all {
                return GlobalVarType::Unknown;
            }
        }
        return GlobalVarType::Text;
    }
    if is_single_quoted(value) {
        return GlobalVarType::Text;
    }
    GlobalVarType::Unknown
}


// ---------------------------------------------------------------------------
// Positional parameters used by a function body
// ---------------------------------------------------------------------------

/// The highest positional parameter a function body uses and whether it uses `$@` or `$*`.
#[derive(Debug, Clone, Copy)]
pub struct FunctionTraits {
    pub arity: usize,
    pub is_variadic: bool,
}

impl FunctionTraits {
    pub open spec fn spec_merge(self, other: Self) -> Self {
        FunctionTraits {
            arity: if self.arity >= other.arity { self.arity } else { other.arity },
            is_variadic: self.is_variadic || other.is_variadic,
        }
    }

    pub fn merge(self, other: Self) -> (r: Self)
        ensures
            r == self.spec_merge(other),
    {
        FunctionTraits {
            arity: if self.arity >= other.arity { self.arity } else { other.arity },
            is_variadic: self.is_variadic || other.is_variadic,
        }
    }

    pub open spec fn none() -> Self {
        FunctionTraits { arity: 0, is_variadic: false }
    }
}

impl Default for FunctionTraits {
    fn default() -> (r: Self)
        ensures
            r == FunctionTraits::none(),
    {
        FunctionTraits { arity: 0, is_variadic: false }
    }
}

pub open spec fn parsed_or_zero(x: Seq<char>) -> usize {
    match spec_parse_usize(x) {
        Some(v) => v,
        None => 0,
    }
}

pub open spec fn max_usize(a: usize, b: usize) -> usize {
    if a >= b { a } else { b }
}

/// The largest `$N` or `${N}` in `s` from `i`, starting from `acc`. Scanning stops at a `${`
/// that is never closed.
pub open spec fn max_pos_from(s: Seq<char>, i: int, acc: usize) -> usize
    decreases s.len() - i,
{
    if i < 0 || i >= s.len() {
        acc
    } else if s[i] != '$' || i + 1 >= s.len() {
        max_pos_from(s, i + 1, acc)
    } else if s[i + 1] == '{' {
        let j = crate::text::find_char_from(s, i + 2, '}');
        proof {
            crate::text::lemma_scan_bounds(s, i + 2, '}');
        }
        if j < s.len() {
            max_pos_from(s, j + 1, max_usize(acc, parsed_or_zero(s.subrange(i + 2, j))))
        } else {
            acc
        }
    } else if crate::text::spec_is_ascii_digit(s[i + 1]) {
        let j = crate::text::digits_end(s, i + 2);
        proof {
            crate::text::lemma_scan_bounds(s, i + 2, '}');
        }
        max_pos_from(s, j, max_usize(acc, parsed_or_zero(s.subrange(i + 1, j))))
    } else {
        max_pos_from(s, i + 1, acc)
    }
}

pub open spec fn spec_max_positional_reference(text: Seq<char>) -> usize {
    max_pos_from(spec_strip_outer_double_quotes(text), 0, 0)
}

pub fn max_positional_reference(text: &[char]) -> (r: usize)
    ensures
        r == spec_max_positional_reference(text@),
{
    let raw = strip_outer_double_quotes(text);
    let mut i: usize = 0;
    let mut max_found: usize = 0;
    while i < raw.len()
        invariant
            i <= raw@.len(),
            max_pos_from(raw@, i as int, max_found) == spec_max_positional_reference(text@),
        decreases raw@.len() - i,
    {
        if raw[i] != '$' || i + 1 >= raw.len() {
            i += 1;
            continue;
        }
        if raw[i + 1] == '{' {
            let j = crate::text::find_char_exec(&raw, i + 2, '}');
            if j < raw.len() {
                let value = slice_vec(&raw, i + 2, j);
                match crate::text::parse_usize(&value) {
                    Some(index) => {
                        if index > max_found {
                            max_found = index;
                        }
                    },
                    None => {},
                }
                i = j + 1;
                continue;
            }
            return max_found;
        }
        if crate::text::is_ascii_digit(raw[i + 1]) {
            let j = crate::text::digits_end_exec(&raw, i + 2);
            let value = slice_vec(&raw, i + 1, j);
            match crate::text::parse_usize(&value) {
                Some(index) => {
                    if index > max_found {
                        max_found = index;
                    }
                },
                None => {},
            }
            i = j;
            continue;
        }
        i += 1;
    }
    max_found
}

/// Whether `text` uses `$@`, `$*`, `${@` or `${*`.
pub open spec fn spec_uses_all_args(text: Seq<char>) -> bool {
    spec_contains(text, "$@"@) || spec_contains(text, "$*"@) || spec_contains(text, "${@"@)
        || spec_contains(text, "${*"@)
}

pub open spec fn spec_analyze_text(text: Seq<char>) -> FunctionTraits {
    FunctionTraits { arity: spec_max_positional_reference(text), is_variadic: spec_uses_all_args(text) }
}

pub fn analyze_text(text: &[char]) -> (r: FunctionTraits)
    ensures
        r == spec_analyze_text(text@),
{
    FunctionTraits {
        arity: max_positional_reference(text),
        is_variadic: contains_lit(text, "$@") || contains_lit(text, "$*") || contains_lit(text, "${@")
            || contains_lit(text, "${*"),
    }
}

pub open spec fn traits_of_words(ws: Seq<String>) -> FunctionTraits
    decreases ws.len(),
{
    if ws.len() == 0 {
        FunctionTraits::none()
    } else {
        traits_of_words(ws.drop_last()).spec_merge(spec_analyze_text(ws.last()@))
    }
}

pub open spec fn traits_of_commands(cs: Seq<Command>) -> FunctionTraits
    decreases cs,
{
    if cs.len() == 0 {
        FunctionTraits::none()
    } else {
        traits_of_commands(cs.drop_last()).spec_merge(traits_of_command(cs.last()))
    }
}

pub open spec fn traits_of_clauses(cl: Seq<CaseClause>) -> FunctionTraits
    decreases cl,
{
    if cl.len() == 0 {
        FunctionTraits::none()
    } else {
        let c = cl.last();
        traits_of_clauses(cl.drop_last()).spec_merge(
            traits_of_words(c.patterns@).spec_merge(traits_of_commands(c.body@)),
        )
    }
}

/// The positional parameters a command uses, looking into every word, item list, body and
/// condition.
pub open spec fn traits_of_command(c: Command) -> FunctionTraits
    decreases c,
{
    match c {
        Command::Simple(s) => traits_of_words(s.words@),
        Command::Arithmetic(a) => spec_analyze_text(a.expression@),
        Command::Background(inner) => traits_of_command(*inner),
        Command::Connection(conn) => traits_of_command(*conn.left).spec_merge(traits_of_command(*conn.right)),
        Command::If(i) => {
            let cond = traits_of_command(*i.condition);
            let then_traits = traits_of_commands(i.then_body@);
            let else_traits = match i.else_body {
                Some(b) => traits_of_commands(b@),
                None => FunctionTraits::none(),
            };
            cond.spec_merge(then_traits).spec_merge(else_traits)
        },
        Command::While(w) => traits_of_command(*w.condition).spec_merge(traits_of_commands(w.body@)),
        Command::For(f) => traits_of_words(f.items@).spec_merge(traits_of_commands(f.body@)),
        Command::CStyleFor(f) => spec_analyze_text(f.init@).spec_merge(spec_analyze_text(f.condition@)).spec_merge(
            spec_analyze_text(f.update@),
        ).spec_merge(traits_of_commands(f.body@)),
        Command::Case(cc) => spec_analyze_text(cc.word@).spec_merge(traits_of_clauses(cc.clauses@)),
        Command::Function(f) => traits_of_commands(f.body@),
        Command::Group(body) => traits_of_commands(body@),
    }
}

fn traits_of_strings(ws: &Vec<String>) -> (r: FunctionTraits)
    ensures
        r == traits_of_words(ws@),
{
    let mut acc = FunctionTraits::default();
    let mut k: usize = 0;
    while k < ws.len()
        invariant
            k <= ws@.len(),
            acc == traits_of_words(ws@.take(k as int)),
        decreases ws@.len() - k,
    {
        assert(ws@.take(k + 1).drop_last() =~= ws@.take(k as int));
        let t = analyze_text(&chars_of(ws[k].as_str()));
        acc = acc.merge(t);
        k += 1;
    }
    assert(ws@.take(ws@.len() as int) =~= ws@);
    acc
}

/// The positional parameters that `commands` use.
pub fn detect_function_traits(commands: &Vec<Command>) -> (r: FunctionTraits)
    ensures
        r == traits_of_commands(commands@),
    decreases commands@,
{
    let mut acc = FunctionTraits::default();
    let mut k: usize = 0;
    while k < commands.len()
        invariant
            k <= commands@.len(),
            acc == traits_of_commands(commands@.take(k as int)),
        decreases commands@.len() - k,
    {
        assert(commands@.take(k + 1).drop_last() =~= commands@.take(k as int));
        let t = detect_command_traits(&commands[k]);
        acc = acc.merge(t);
        k += 1;
    }
    assert(commands@.take(commands@.len() as int) =~= commands@);
    acc
}

fn traits_of_case_clauses(clauses: &Vec<CaseClause>) -> (r: FunctionTraits)
    ensures
        r == traits_of_clauses(clauses@),
    decreases clauses@,
{
    let mut acc = FunctionTraits::default();
    let mut k: usize = 0;
    while k < clauses.len()
        invariant
            k <= clauses@.len(),
            acc == traits_of_clauses(clauses@.take(k as int)),
        decreases clauses@.len() - k,
    {
        assert(clauses@.take(k + 1).drop_last() =~= clauses@.take(k as int));
        let c = &clauses[k];
        let p = traits_of_strings(&c.patterns);
        let b = detect_function_traits(&c.body);
        acc = acc.merge(p.merge(b));
        k += 1;
    }
    assert(clauses@.take(clauses@.len() as int) =~= clauses@);
    acc
}

fn detect_command_traits(command: &Command) -> (r: FunctionTraits)
    ensures
        r == traits_of_command(*command),
    decreases *command,
{
    match command {
        Command::Simple(simple) => traits_of_strings(&simple.words),
        Command::Arithmetic(arith) => analyze_text(&chars_of(arith.expression.as_str())),
        Command::Background(inner) => detect_command_traits(inner),
        Command::Connection(connection) => detect_command_traits(&connection.left).merge(
            detect_command_traits(&connection.right),
        ),
        Command::If(if_cmd) => {
            let cond = detect_command_traits(&if_cmd.condition);
            let then_traits = detect_function_traits(&if_cmd.then_body);
            let else_traits = match &if_cmd.else_body {
                Some(body) => detect_function_traits(body),
                None => FunctionTraits::default(),
            };
            cond.merge(then_traits).merge(else_traits)
        },
        Command::While(while_cmd) => detect_command_traits(&while_cmd.condition).merge(
            detect_function_traits(&while_cmd.body),
        ),
        Command::For(for_cmd) => traits_of_strings(&for_cmd.items).merge(detect_function_traits(&for_cmd.body)),
        Command::CStyleFor(for_cmd) => {
            let init = analyze_text(&chars_of(for_cmd.init.as_str()));
            let cond = analyze_text(&chars_of(for_cmd.condition.as_str()));
            let update = analyze_text(&chars_of(for_cmd.update.as_str()));
            init.merge(cond).merge(update).merge(detect_function_traits(&for_cmd.body))
        },
        Command::Case(case_cmd) => {
            let subject = analyze_text(&chars_of(case_cmd.word.as_str()));
            subject.merge(traits_of_case_clauses(&case_cmd.clauses))
        },
        Command::Function(function) => detect_function_traits(&function.body),
        Command::Group(body) => detect_function_traits(body),
    }
}

// ---------------------------------------------------------------------------
// Laws
// ---------------------------------------------------------------------------

/// Merging two observed types does not depend on their order, and a type merged with
/// itself stays what it is.
pub proof fn lemma_global_var_type_merge(a: GlobalVarType, b: GlobalVarType)
    ensures
        a.spec_merge(b) == b.spec_merge(a),
        a.spec_merge(a) == Some(a),
        a.spec_merge(GlobalVarType::Unknown) == Some(a),
{
}

/// Merging function traits is commutative and associative, with no traits as its unit.
pub proof fn lemma_function_traits_merge(a: FunctionTraits, b: FunctionTraits, c: FunctionTraits)
    ensures
        a.spec_merge(b) == b.spec_merge(a),
        a.spec_merge(b).spec_merge(c) == a.spec_merge(b.spec_merge(c)),
        a.spec_merge(FunctionTraits::none()) == a,
{
}

/// Appending an underscore and identifier characters to an identifier leaves an identifier.
pub proof fn lemma_identifier_extended(a: Seq<char>, b: Seq<char>)
    requires
        spec_is_identifier(a),
        forall|k: int| 0 <= k < b.len() ==> spec_is_word_char(#[trigger] b[k]),
    ensures
        spec_is_identifier(a + b),
{
    assert forall|k: int| 1 <= k < (a + b).len() implies spec_is_word_char(#[trigger] (a + b)[k]) by {
        if k >= a.len() {
            assert((a + b)[k] == b[k - a.len()]);
        }
    }
}

/// A sanitized function name is an identifier.
pub proof fn lemma_sanitized_function_name_is_identifier(name: Seq<char>)
    ensures
        spec_is_identifier(spec_sanitize_function_name(name)),
{
    lemma_normalized_is_identifier(name);
    reveal_strlit("_fn");
    let c = spec_normalize_identifier(name);
    if spec_is_reserved_keyword(c) {
        lemma_identifier_extended(c, "_fn"@);
    }
}

} // verus!
