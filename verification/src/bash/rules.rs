//! Lexing rules for Bash and the tokenizer that applies them.
use vstd::prelude::*;

use heraclitus_compiler::prelude::{Compiler, LexerErrorType, Position, PositionInfo, Region, Rules, SeparatorMode};

verus! {

/// A region of source text that the lexer keeps in one token (a string, a comment).
pub struct LexRegion {
    pub id: String,
    pub name: String,
    pub begin: String,
    pub end: String,
    pub allow_unclosed_region: bool,
    pub ignore_escaped: bool,
}

/// The lexing rules: symbols that stand alone, pairs of symbols that merge, regions, and the
/// line-continuation marker.
pub struct LexRules {
    pub symbols: Vec<char>,
    pub compounds: Vec<(char, char)>,
    pub regions: Vec<LexRegion>,
    pub continuation: String,
}

/// A region as plain values: id, name, begin, end, whether it may stay open, whether
/// escapes are ignored inside it.
pub type RegionView = (Seq<char>, Seq<char>, Seq<char>, Seq<char>, bool, bool);

pub type RulesView = (Seq<char>, Seq<(char, char)>, Seq<RegionView>, Seq<char>);

/// A token as plain values: its word, row and column.
pub type TokenView = (Seq<char>, usize, usize);

/// The outcome of lexing: the tokens, or whether an unclosed (as opposed to a single-line)
/// region failed, with the row and column.
pub type LexView = Result<Seq<TokenView>, (bool, usize, usize)>;

pub open spec fn region_view(r: LexRegion) -> RegionView {
    (r.id@, r.name@, r.begin@, r.end@, r.allow_unclosed_region, r.ignore_escaped)
}

impl View for LexRules {
    type V = RulesView;

    open spec fn view(&self) -> RulesView {
        (self.symbols@, self.compounds@, self.regions@.map_values(|r: LexRegion| region_view(r)), self.continuation@)
    }
}

/// One token of the source.
pub struct LexToken {
    pub word: String,
    pub row: usize,
    pub col: usize,
}

/// A lexing failure: a single-line region ran past a line end, or a region was left open.
pub struct LexFailure {
    pub unclosed: bool,
    pub row: usize,
    pub col: usize,
}

#[verifier::external_type_specification]
#[verifier::external_body]
pub struct ExRegion(Region);

pub open spec fn lex_view(r: Result<Vec<LexToken>, LexFailure>) -> LexView {
    match r {
        Ok(ts) => Ok(ts@.map_values(|t: LexToken| (t.word@, t.row, t.col))),
        Err(e) => Err((e.unclosed, e.row, e.col)),
    }
}

/// What the heraclitus lexer, in automatic separator mode with the given rules, makes of a
/// source text.
pub uninterp spec fn heraclitus_tokens(rules: RulesView, source: Seq<char>) -> LexView;

/// The lexer's region tree for `rules`: a global region holding one region per entry of
/// `rules.regions`, built with `Region::new` and `Region::new_global` of heraclitus. Nothing
/// is claimed of it.
#[verifier::external_body]
fn region_tree(rules: &LexRules) -> Region {
    Region::new_global(rules.regions.iter().map(|r| {
        let mut g = Region::new(r.id.as_str(), r.name.as_str(), r.begin.as_str(), r.end.as_str(), vec![], None);
        g.allow_unclosed_region = r.allow_unclosed_region;
        g.ignore_escaped = r.ignore_escaped;
        g
    }).collect())
}

/// Whether every character of `s` is ASCII.
pub open spec fn is_ascii_text(s: Seq<char>) -> bool {
    forall|i: int| 0 <= i < s.len() ==> (s[i] as u32) < 128
}

/// Whether `s` ends in a character that begins one of the merging pairs of `rules`.
pub open spec fn ends_in_compound_start(rules: RulesView, s: Seq<char>) -> bool {
    s.len() > 0 && exists|k: int| 0 <= k < rules.1.len() && (#[trigger] rules.1[k]).0 == s.last()
}

/// The sources the heraclitus lexer reads without panicking: its look-ahead for a merging
/// pair measures the rest of the text in bytes but takes it in characters, so on the last
/// character of a text with non-ASCII characters it finds one character where it expects
/// two when that character begins a pair.
pub open spec fn lexer_accepts(rules: RulesView, s: Seq<char>) -> bool {
    is_ascii_text(s) || !ends_in_compound_start(rules, s)
}

/// Whether the heraclitus lexer reads `source` under `rules` without panicking.
pub fn lexer_accepts_source(rules: &LexRules, source: &[char]) -> (r: bool)
    ensures
        r == lexer_accepts(rules@, source@),
{
    let mut ascii = true;
    let mut i: usize = 0;
    while i < source.len()
        invariant
            i <= source@.len(),
            ascii == forall|j: int| 0 <= j < i ==> (source@[j] as u32) < 128,
        decreases source@.len() - i,
    {
        if (source[i] as u32) >= 128 {
            ascii = false;
        }
        i += 1;
    }
    if ascii || source.len() == 0 {
        return true;
    }
    assert(!is_ascii_text(source@));
    let last = source[source.len() - 1];
    let mut k: usize = 0;
    while k < rules.compounds.len()
        invariant
            k <= rules.compounds@.len(),
            source@.len() > 0,
            last == source@.last(),
            !is_ascii_text(source@),
            forall|j: int| 0 <= j < k ==> rules.compounds@[j].0 != last,
        decreases rules.compounds@.len() - k,
    {
        if rules.compounds[k].0 == last {
            proof {
                assert(rules@.1[k as int] == rules.compounds@[k as int]);
            }
            return false;
        }
        k += 1;
    }
    proof {
        assert forall|j: int| 0 <= j < rules@.1.len() implies (#[trigger] rules@.1[j]).0 != source@.last() by {
            assert(rules@.1[j] == rules.compounds@[j]);
        }
    }
    true
}

/// `Compiler::tokenize` of heraclitus, on a compiler named "Bash" built from `rules` in
/// automatic separator mode with `rules.continuation` as the continuation marker, with
/// `source` loaded; an error is reported by its kind and its row and column in `source`.
/// The contract claims only that the result depends on the rules and the source alone; what
/// the tokens are is left to the lexer. The lexer panics on the sources that
/// `lexer_accepts` leaves out, so they are not admitted.
#[verifier::external_body]
pub(crate) fn tokenize(rules: &LexRules, source: &str) -> (r: Result<Vec<LexToken>, LexFailure>)
    requires
        lexer_accepts(rules@, source@),
    ensures
        lex_view(r) == heraclitus_tokens(rules@, source@),
{
    let mut compiler = Compiler::new("Bash", Rules::new(rules.symbols.clone(), rules.compounds.clone(), region_tree(rules)));
    compiler.set_separator(SeparatorMode::Automatic(rules.continuation.clone()));
    compiler.load(source);
    match compiler.tokenize() {
        Ok(ts) => Ok(ts.into_iter().map(|t| LexToken { word: t.word, row: t.pos.0, col: t.pos.1 }).collect()),
        Err((kind, info)) => {
            let (row, col) = info.get_pos_by_code(source);
            Err(LexFailure { unclosed: matches!(kind, LexerErrorType::Unclosed), row, col })
        },
    }
}

/// The number of bytes of `c` in UTF-8.
pub open spec fn utf8_width(c: char) -> nat {
    if (c as u32) < 0x80 {
        1
    } else if (c as u32) < 0x800 {
        2
    } else if (c as u32) < 0x10000 {
        3
    } else {
        4
    }
}

/// The number of bytes of `s` in UTF-8.
pub open spec fn utf8_len(s: Seq<char>) -> nat
    decreases s.len(),
{
    if s.len() == 0 {
        0
    } else {
        utf8_len(s.drop_last()) + utf8_width(s.last())
    }
}

/// The end-of-input position of `source`: its number of lines (as `str::lines` splits it)
/// and one past the byte length of the last one; `(0, 0)` for a text without lines.
pub open spec fn eof_position_of(source: Seq<char>) -> (usize, usize) {
    let ls = crate::text::spec_lines(source);
    if ls.len() == 0 {
        (0, 0)
    } else {
        (ls.len() as usize, (utf8_len(ls.last()) + 1) as usize)
    }
}

/// `PositionInfo::get_pos_by_code` of heraclitus on an end-of-input position (no path): the
/// number of the last line of `source` as `str::lines` enumerates it, from one, and one past
/// that line's length in bytes; `(0, 0)` when `source` has no lines.
#[verifier::external_body]
pub(crate) fn eof_position(source: &str) -> (r: (usize, usize))
    ensures
        r == eof_position_of(source@),
{
    PositionInfo { path: None, position: Position::EOF, start: 0, len: 0, data: None }.get_pos_by_code(source)
}

fn region(id: &str, name: &str, begin: &str, end: &str, allow_unclosed_region: bool, ignore_escaped: bool) -> (r: LexRegion)
    ensures
        region_view(r) == (id@, name@, begin@, end@, allow_unclosed_region, ignore_escaped),
{
    LexRegion {
        id: String::from_str(id),
        name: String::from_str(name),
        begin: String::from_str(begin),
        end: String::from_str(end),
        allow_unclosed_region,
        ignore_escaped,
    }
}

/// The Bash lexing rules: `;`, `|` and `&` stand alone, `&&` and `||` merge, single- and
/// double-quoted strings and backtick commands are regions, a comment runs from `#` to the
/// line end (it may stay open and ignores escapes), and `\` continues a line.
pub fn get_rules() -> (r: LexRules)
    ensures
        r@.0 == seq![';', '|', '&'],
        r@.1 == seq![('&', '&'), ('|', '|')],
        r@.2 == seq![
            ("single_quote"@, "single quoted string"@, "'"@, "'"@, false, false),
            ("double_quote"@, "double quoted string"@, "\""@, "\""@, false, false),
            ("backticks"@, "backtick command"@, "`"@, "`"@, false, false),
            ("comment"@, "comment"@, "#"@, "\n"@, true, true),
        ],
        r@.3 == "\\"@,
{
    let symbols = vec![';', '|', '&'];
    let compounds = vec![('&', '&'), ('|', '|')];
    let mut regions = Vec::new();
    regions.push(region("single_quote", "single quoted string", "'", "'", false, false));
    regions.push(region("double_quote", "double quoted string", "\"", "\"", false, false));
    regions.push(region("backticks", "backtick command", "`", "`", false, false));
    regions.push(region("comment", "comment", "#", "\n", true, true));
    let r = LexRules { symbols, compounds, regions, continuation: String::from_str("\\") };
    assert(r@.2 =~= seq![
        ("single_quote"@, "single quoted string"@, "'"@, "'"@, false, false),
        ("double_quote"@, "double quoted string"@, "\""@, "\""@, false, false),
        ("backticks"@, "backtick command"@, "`"@, "`"@, false, false),
        ("comment"@, "comment"@, "#"@, "\n"@, true, true),
    ]);
    r
}

} // verus!
