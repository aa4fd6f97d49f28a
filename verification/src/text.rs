//! Character classes and text operations over character sequences.
use vstd::prelude::*;
use vstd::std_specs::iter::IteratorSpec;

verus! {

// ---------------------------------------------------------------------------
// Character classes
// ---------------------------------------------------------------------------

pub open spec fn spec_is_ascii_alpha(c: char) -> bool {
    ('a' <= c && c <= 'z') || ('A' <= c && c <= 'Z')
}

pub open spec fn spec_is_ascii_digit(c: char) -> bool {
    '0' <= c && c <= '9'
}

pub open spec fn spec_is_ascii_alnum(c: char) -> bool {
    spec_is_ascii_alpha(c) || spec_is_ascii_digit(c)
}

/// A character that may start a shell or Amber identifier.
pub open spec fn spec_is_word_start(c: char) -> bool {
    spec_is_ascii_alpha(c) || c == '_'
}

/// A character that may continue a shell or Amber identifier.
pub open spec fn spec_is_word_char(c: char) -> bool {
    spec_is_ascii_alnum(c) || c == '_'
}

/// Unicode `White_Space`, the class that `char::is_whitespace` tests.
pub open spec fn spec_is_whitespace(c: char) -> bool {
    ('\u{9}' <= c && c <= '\u{d}') || c == ' ' || c == '\u{85}' || c == '\u{a0}'
        || c == '\u{1680}' || ('\u{2000}' <= c && c <= '\u{200a}') || c == '\u{2028}'
        || c == '\u{2029}' || c == '\u{202f}' || c == '\u{205f}' || c == '\u{3000}'
}

#[verifier::when_used_as_spec(spec_is_ascii_alpha)]
pub fn is_ascii_alpha(c: char) -> (b: bool)
    returns
        spec_is_ascii_alpha(c),
{
    ('a' <= c && c <= 'z') || ('A' <= c && c <= 'Z')
}

#[verifier::when_used_as_spec(spec_is_ascii_digit)]
pub fn is_ascii_digit(c: char) -> (b: bool)
    returns
        spec_is_ascii_digit(c),
{
    '0' <= c && c <= '9'
}

#[verifier::when_used_as_spec(spec_is_ascii_alnum)]
pub fn is_ascii_alnum(c: char) -> (b: bool)
    returns
        spec_is_ascii_alnum(c),
{
    is_ascii_alpha(c) || is_ascii_digit(c)
}

#[verifier::when_used_as_spec(spec_is_word_start)]
pub fn is_word_start(c: char) -> (b: bool)
    returns
        spec_is_word_start(c),
{
    is_ascii_alpha(c) || c == '_'
}

#[verifier::when_used_as_spec(spec_is_word_char)]
pub fn is_word_char(c: char) -> (b: bool)
    returns
        spec_is_word_char(c),
{
    is_ascii_alnum(c) || c == '_'
}

#[verifier::when_used_as_spec(spec_is_whitespace)]
pub fn is_whitespace(c: char) -> (b: bool)
    returns
        spec_is_whitespace(c),
{
    ('\u{9}' <= c && c <= '\u{d}') || c == ' ' || c == '\u{85}' || c == '\u{a0}'
        || c == '\u{1680}' || ('\u{2000}' <= c && c <= '\u{200a}') || c == '\u{2028}'
        || c == '\u{2029}' || c == '\u{202f}' || c == '\u{205f}' || c == '\u{3000}'
}

// ---------------------------------------------------------------------------
// Conversions between `str`/`String` and character vectors
// ---------------------------------------------------------------------------

/// The characters of `s`, in order.
pub fn chars_of(s: &str) -> (v: Vec<char>)
    ensures
        v@ == s@,
{
    let mut v: Vec<char> = Vec::new();
    for c in it: s.chars()
        invariant
            v@ == it.seq().take(it.index() as int),
    {
        v.push(c);
    }
    v
}

/// `String::from_iter` over characters: the string made of `v`, in order.
#[verifier::external_body]
pub(crate) fn string_of(v: &[char]) -> (s: String)
    ensures
        s@ == v@,
{
    v.iter().collect()
}

/// Appends the characters of `lit` to `out`.
pub fn push_str(out: &mut Vec<char>, lit: &str)
    ensures
        final(out)@ == old(out)@ + lit@,
{
    let cs = chars_of(lit);
    push_all(out, &cs);
}

/// Appends `cs` to `out`.
pub fn push_all(out: &mut Vec<char>, cs: &[char])
    ensures
        final(out)@ == old(out)@ + cs@,
{
    let mut i: usize = 0;
    while i < cs.len()
        invariant
            i <= cs@.len(),
            out@ == old(out)@ + cs@.take(i as int),
        decreases cs@.len() - i,
    {
        out.push(cs[i]);
        i += 1;
        assert(cs@.take(i as int) == cs@.take((i - 1) as int).push(cs@[i - 1]));
    }
    assert(cs@.take(cs@.len() as int) == cs@);
}

/// A copy of `cs` as a vector.
pub fn to_vec(cs: &[char]) -> (v: Vec<char>)
    ensures
        v@ == cs@,
{
    let mut v = Vec::new();
    push_all(&mut v, cs);
    v
}

/// The subrange `[from, to)` of `cs`.
pub fn slice_vec(cs: &[char], from: usize, to: usize) -> (v: Vec<char>)
    requires
        from <= to <= cs@.len(),
    ensures
        v@ == cs@.subrange(from as int, to as int),
{
    let mut v = Vec::new();
    let mut i = from;
    while i < to
        invariant
            from <= i <= to <= cs@.len(),
            v@ == cs@.subrange(from as int, i as int),
        decreases to - i,
    {
        v.push(cs[i]);
        i += 1;
    }
    v
}

// ---------------------------------------------------------------------------
// Equality, prefixes, suffixes
// ---------------------------------------------------------------------------

/// Element-wise equality of two character slices.
pub fn seq_eq(a: &[char], b: &[char]) -> (r: bool)
    ensures
        r == (a@ == b@),
{
    if a.len() != b.len() {
        return false;
    }
    let mut i: usize = 0;
    while i < a.len()
        invariant
            a@.len() == b@.len(),
            i <= a@.len(),
            forall|k: int| 0 <= k < i ==> a@[k] == b@[k],
        decreases a@.len() - i,
    {
        if a[i] != b[i] {
            return false;
        }
        i += 1;
    }
    assert(a@ =~= b@);
    true
}

/// Whether the characters of `a` are exactly those of the literal `lit`.
pub fn eq_lit(a: &[char], lit: &str) -> (r: bool)
    ensures
        r == (a@ == lit@),
{
    let l = chars_of(lit);
    seq_eq(a, &l)
}

pub open spec fn spec_starts_with(s: Seq<char>, p: Seq<char>) -> bool {
    p.len() <= s.len() && s.subrange(0, p.len() as int) == p
}

pub open spec fn spec_ends_with(s: Seq<char>, p: Seq<char>) -> bool {
    p.len() <= s.len() && s.subrange(s.len() - p.len(), s.len() as int) == p
}

pub fn starts_with(s: &[char], p: &[char]) -> (r: bool)
    ensures
        r == spec_starts_with(s@, p@),
{
    if p.len() > s.len() {
        return false;
    }
    let mut i: usize = 0;
    while i < p.len()
        invariant
            p@.len() <= s@.len(),
            i <= p@.len(),
            forall|k: int| 0 <= k < i ==> s@[k] == p@[k],
        decreases p@.len() - i,
    {
        if s[i] != p[i] {
            return false;
        }
        i += 1;
    }
    assert(s@.subrange(0, p@.len() as int) =~= p@);
    true
}

pub fn ends_with(s: &[char], p: &[char]) -> (r: bool)
    ensures
        r == spec_ends_with(s@, p@),
{
    if p.len() > s.len() {
        return false;
    }
    let off = s.len() - p.len();
    let mut i: usize = 0;
    while i < p.len()
        invariant
            p@.len() <= s@.len(),
            off == s@.len() - p@.len(),
            off + p@.len() == s@.len(),
            s@.len() <= usize::MAX,
            i <= p@.len(),
            forall|k: int| 0 <= k < i ==> s@[off + k] == p@[k],
        decreases p@.len() - i,
    {
        if s[off + i] != p[i] {
            assert(s@.subrange(off as int, s@.len() as int)[i as int] != p@[i as int]);
            return false;
        }
        i += 1;
    }
    assert(s@.subrange(off as int, s@.len() as int) =~= p@);
    true
}

pub fn starts_with_lit(s: &[char], lit: &str) -> (r: bool)
    ensures
        r == spec_starts_with(s@, lit@),
{
    let l = chars_of(lit);
    starts_with(s, &l)
}

pub fn ends_with_lit(s: &[char], lit: &str) -> (r: bool)
    ensures
        r == spec_ends_with(s@, lit@),
{
    let l = chars_of(lit);
    ends_with(s, &l)
}

/// `str::strip_prefix`: the rest of `s` after `p`, when `s` starts with `p`.
pub open spec fn spec_strip_prefix(s: Seq<char>, p: Seq<char>) -> Option<Seq<char>> {
    if spec_starts_with(s, p) {
        Some(s.subrange(p.len() as int, s.len() as int))
    } else {
        None
    }
}

/// `str::strip_suffix`: `s` without its final `p`, when `s` ends with `p`.
pub open spec fn spec_strip_suffix(s: Seq<char>, p: Seq<char>) -> Option<Seq<char>> {
    if spec_ends_with(s, p) {
        Some(s.subrange(0, s.len() - p.len()))
    } else {
        None
    }
}

pub fn strip_prefix_lit(s: &[char], lit: &str) -> (r: Option<Vec<char>>)
    ensures
        match r {
            Some(v) => spec_strip_prefix(s@, lit@) == Some(v@),
            None => spec_strip_prefix(s@, lit@) is None,
        },
{
    let l = chars_of(lit);
    if starts_with(s, &l) {
        Some(slice_vec(s, l.len(), s.len()))
    } else {
        None
    }
}

pub fn strip_suffix_lit(s: &[char], lit: &str) -> (r: Option<Vec<char>>)
    ensures
        match r {
            Some(v) => spec_strip_suffix(s@, lit@) == Some(v@),
            None => spec_strip_suffix(s@, lit@) is None,
        },
{
    let l = chars_of(lit);
    if ends_with(s, &l) {
        Some(slice_vec(s, 0, s.len() - l.len()))
    } else {
        None
    }
}

// ---------------------------------------------------------------------------
// Searching
// ---------------------------------------------------------------------------

/// Whether `p` occurs in `s` starting at index `i`.
pub open spec fn occurs_at(s: Seq<char>, p: Seq<char>, i: int) -> bool {
    0 <= i && i + p.len() <= s.len() && s.subrange(i, i + p.len()) == p
}

/// The first index at or after `from` at which `p` occurs in `s`.
pub open spec fn spec_find_from(s: Seq<char>, p: Seq<char>, from: int) -> Option<int>
    decreases s.len() + 1 - from,
{
    if from < 0 || from + p.len() > s.len() {
        None
    } else if occurs_at(s, p, from) {
        Some(from)
    } else {
        spec_find_from(s, p, from + 1)
    }
}

/// `str::find`: the first index at which `p` occurs in `s`.
pub open spec fn spec_find(s: Seq<char>, p: Seq<char>) -> Option<int> {
    spec_find_from(s, p, 0)
}

/// `str::contains`.
pub open spec fn spec_contains(s: Seq<char>, p: Seq<char>) -> bool {
    spec_find(s, p) is Some
}

pub proof fn lemma_find_from_bounds(s: Seq<char>, p: Seq<char>, from: int)
    requires
        0 <= from,
    ensures
        spec_find_from(s, p, from) matches Some(i) ==> from <= i && occurs_at(s, p, i) && (
        forall|k: int| from <= k < i ==> !occurs_at(s, p, k)),
        spec_find_from(s, p, from) is None ==> (forall|k: int| from <= k ==> !occurs_at(s, p, k)),
    decreases s.len() + 1 - from,
{
    if from + p.len() > s.len() {
    } else if occurs_at(s, p, from) {
    } else {
        lemma_find_from_bounds(s, p, from + 1);
    }
}

/// Whether `p` occurs in `s` at index `i`, computed.
fn occurs_at_exec(s: &[char], p: &[char], i: usize) -> (r: bool)
    ensures
        r == occurs_at(s@, p@, i as int),
{
    if i > s.len() || p.len() > s.len() - i {
        return false;
    }
    let mut k: usize = 0;
    while k < p.len()
        invariant
            i as int + p@.len() <= s@.len(),
            s@.len() <= usize::MAX,
            k <= p@.len(),
            forall|j: int| 0 <= j < k ==> s@[i + j] == p@[j],
        decreases p@.len() - k,
    {
        if s[i + k] != p[k] {
            assert(s@.subrange(i as int, i + p@.len())[k as int] != p@[k as int]);
            return false;
        }
        k += 1;
    }
    assert(s@.subrange(i as int, i + p@.len()) =~= p@);
    true
}

/// `str::find` over characters, searching from `from`.
pub fn find_from(s: &[char], p: &[char], from: usize) -> (r: Option<usize>)
    ensures
        match r {
            Some(i) => spec_find_from(s@, p@, from as int) == Some(i as int),
            None => spec_find_from(s@, p@, from as int) is None,
        },
{
    if from > s.len() || p.len() > s.len() - from {
        return None;
    }
    let mut i = from;
    while i <= s.len() - p.len()
        invariant
            from <= i,
            p@.len() <= s@.len(),
            spec_find_from(s@, p@, from as int) == spec_find_from(s@, p@, i as int),
        decreases s@.len() + 1 - i,
    {
        if occurs_at_exec(s, p, i) {
            return Some(i);
        }
        if i == s.len() - p.len() {
            assert(spec_find_from(s@, p@, i + 1) is None);
            return None;
        }
        i += 1;
    }
    None
}

pub fn find(s: &[char], p: &[char]) -> (r: Option<usize>)
    ensures
        match r {
            Some(i) => spec_find(s@, p@) == Some(i as int),
            None => spec_find(s@, p@) is None,
        },
{
    find_from(s, p, 0)
}

pub fn contains(s: &[char], p: &[char]) -> (r: bool)
    ensures
        r == spec_contains(s@, p@),
{
    find(s, p).is_some()
}

pub fn contains_lit(s: &[char], lit: &str) -> (r: bool)
    ensures
        r == spec_contains(s@, lit@),
{
    let l = chars_of(lit);
    contains(s, &l)
}

/// Whether `c` occurs in `s`.
pub fn contains_char(s: &[char], c: char) -> (r: bool)
    ensures
        r == s@.contains(c),
{
    let mut i: usize = 0;
    while i < s.len()
        invariant
            i <= s@.len(),
            forall|k: int| 0 <= k < i ==> s@[k] != c,
        decreases s@.len() - i,
    {
        if s[i] == c {
            return true;
        }
        i += 1;
    }
    false
}

/// `str::split_once`: the parts before and after the first occurrence of `p`.
pub open spec fn spec_split_once(s: Seq<char>, p: Seq<char>) -> Option<(Seq<char>, Seq<char>)> {
    match spec_find(s, p) {
        Some(i) => Some((s.subrange(0, i), s.subrange(i + p.len(), s.len() as int))),
        None => None,
    }
}

/// The two sides of a split, with the separator between them, give the text back.
pub proof fn lemma_split_once_parts(s: Seq<char>, p: Seq<char>)
    ensures
        spec_split_once(s, p) matches Some((l, r)) ==> s == l + p + r,
{
    lemma_find_from_bounds(s, p, 0);
    if let Some(i) = spec_find(s, p) {
        assert(s =~= s.subrange(0, i) + p + s.subrange(i + p.len(), s.len() as int));
    }
}

pub fn split_once(s: &[char], p: &[char]) -> (r: Option<(Vec<char>, Vec<char>)>)
    ensures
        match r {
            Some((a, b)) => spec_split_once(s@, p@) == Some((a@, b@)),
            None => spec_split_once(s@, p@) is None,
        },
{
    match find(s, p) {
        Some(i) => {
            proof {
                lemma_find_from_bounds(s@, p@, 0);
                assert(occurs_at(s@, p@, i as int));
                assert(i + p@.len() <= s.len());
            }
            Some((slice_vec(s, 0, i), slice_vec(s, i + p.len(), s.len())))
        },
        None => None,
    }
}

pub fn split_once_lit(s: &[char], lit: &str) -> (r: Option<(Vec<char>, Vec<char>)>)
    ensures
        match r {
            Some((a, b)) => spec_split_once(s@, lit@) == Some((a@, b@)),
            None => spec_split_once(s@, lit@) is None,
        },
{
    let l = chars_of(lit);
    split_once(s, &l)
}

// ---------------------------------------------------------------------------
// Trimming
// ---------------------------------------------------------------------------

/// `str::trim_start`.
pub open spec fn spec_trim_start(s: Seq<char>) -> Seq<char>
    decreases s.len(),
{
    if s.len() > 0 && spec_is_whitespace(s[0]) {
        spec_trim_start(s.drop_first())
    } else {
        s
    }
}

/// `str::trim_end`.
pub open spec fn spec_trim_end(s: Seq<char>) -> Seq<char>
    decreases s.len(),
{
    if s.len() > 0 && spec_is_whitespace(s.last()) {
        spec_trim_end(s.drop_last())
    } else {
        s
    }
}

/// `str::trim`.
pub open spec fn spec_trim(s: Seq<char>) -> Seq<char> {
    spec_trim_end(spec_trim_start(s))
}

proof fn lemma_trim_start_skip(s: Seq<char>, i: int)
    requires
        0 <= i <= s.len(),
        forall|k: int| 0 <= k < i ==> spec_is_whitespace(s[k]),
    ensures
        spec_trim_start(s) == spec_trim_start(s.subrange(i, s.len() as int)),
    decreases i,
{
    if i > 0 {
        lemma_trim_start_skip(s.drop_first(), i - 1);
        assert(s.drop_first().subrange(i - 1, s.drop_first().len() as int) =~= s.subrange(i, s.len() as int));
    } else {
        assert(s.subrange(0, s.len() as int) =~= s);
    }
}

proof fn lemma_trim_end_cut(s: Seq<char>, j: int)
    requires
        0 <= j <= s.len(),
        forall|k: int| j <= k < s.len() ==> spec_is_whitespace(s[k]),
    ensures
        spec_trim_end(s) == spec_trim_end(s.subrange(0, j)),
    decreases s.len() - j,
{
    if j < s.len() {
        lemma_trim_end_cut(s.drop_last(), j);
        assert(s.drop_last().subrange(0, j) =~= s.subrange(0, j));
    } else {
        assert(s.subrange(0, j) =~= s);
    }
}

pub fn trim_start(s: &[char]) -> (r: Vec<char>)
    ensures
        r@ == spec_trim_start(s@),
{
    let mut i: usize = 0;
    while i < s.len() && is_whitespace(s[i])
        invariant
            i <= s@.len(),
            forall|k: int| 0 <= k < i ==> spec_is_whitespace(s@[k]),
        decreases s@.len() - i,
    {
        i += 1;
    }
    proof {
        lemma_trim_start_skip(s@, i as int);
    }
    slice_vec(s, i, s.len())
}

pub fn trim_end(s: &[char]) -> (r: Vec<char>)
    ensures
        r@ == spec_trim_end(s@),
{
    let mut j: usize = s.len();
    while j > 0 && is_whitespace(s[j - 1])
        invariant
            j <= s@.len(),
            forall|k: int| j <= k < s@.len() ==> spec_is_whitespace(s@[k]),
        decreases j,
    {
        j -= 1;
    }
    proof {
        lemma_trim_end_cut(s@, j as int);
    }
    slice_vec(s, 0, j)
}

pub fn trim(s: &[char]) -> (r: Vec<char>)
    ensures
        r@ == spec_trim(s@),
{
    let a = trim_start(s);
    trim_end(&a)
}

/// Whether every character of `s` is whitespace, that is, whether `s` trims to nothing.
pub fn is_blank(s: &[char]) -> (r: bool)
    ensures
        r == (spec_trim(s@).len() == 0),
{
    trim(s).len() == 0
}

/// `s` with every whitespace character removed.
pub open spec fn spec_strip_whitespace(s: Seq<char>) -> Seq<char> {
    s.filter(|c: char| !spec_is_whitespace(c))
}

pub fn strip_whitespace(s: &[char]) -> (r: Vec<char>)
    ensures
        r@ == spec_strip_whitespace(s@),
{
    let mut out = Vec::new();
    let mut i: usize = 0;
    while i < s.len()
        invariant
            i <= s@.len(),
            out@ == spec_strip_whitespace(s@.take(i as int)),
        decreases s@.len() - i,
    {
        proof {
            reveal_with_fuel(Seq::filter, 1);
            assert(s@.take(i + 1).drop_last() =~= s@.take(i as int));
        }
        if !is_whitespace(s[i]) {
            out.push(s[i]);
        }
        i += 1;
    }
    assert(s@.take(s@.len() as int) =~= s@);
    out
}

// ---------------------------------------------------------------------------
// Identifiers
// ---------------------------------------------------------------------------

/// A non-empty word of ASCII letters, digits and underscores that does not start with a digit.
pub open spec fn spec_is_identifier(s: Seq<char>) -> bool {
    &&& s.len() > 0
    &&& spec_is_word_start(s[0])
    &&& forall|k: int| 1 <= k < s.len() ==> spec_is_word_char(#[trigger] s[k])
}

pub fn is_identifier(s: &[char]) -> (r: bool)
    ensures
        r == spec_is_identifier(s@),
{
    if s.len() == 0 || !is_word_start(s[0]) {
        return false;
    }
    let mut i: usize = 1;
    while i < s.len()
        invariant
            1 <= i <= s@.len(),
            forall|k: int| 1 <= k < i ==> spec_is_word_char(#[trigger] s@[k]),
        decreases s@.len() - i,
    {
        if !is_word_char(s[i]) {
            return false;
        }
        i += 1;
    }
    true
}

// ---------------------------------------------------------------------------
// Numbers
// ---------------------------------------------------------------------------

pub open spec fn all_digits(s: Seq<char>) -> bool {
    forall|k: int| 0 <= k < s.len() ==> spec_is_ascii_digit(#[trigger] s[k])
}

/// The value of a run of decimal digits.
pub open spec fn digits_value(s: Seq<char>) -> nat
    decreases s.len(),
{
    if s.len() == 0 {
        0
    } else {
        digits_value(s.drop_last()) * 10 + (s.last() as nat - '0' as nat) as nat
    }
}

/// What `str::parse::<usize>` accepts: an optional `+`, then one or more digits whose value fits.
pub open spec fn spec_parse_usize(s: Seq<char>) -> Option<usize> {
    let d = if s.len() > 0 && s[0] == '+' { s.drop_first() } else { s };
    if d.len() > 0 && all_digits(d) && digits_value(d) <= usize::MAX {
        Some(digits_value(d) as usize)
    } else {
        None
    }
}

pub fn parse_usize(s: &[char]) -> (r: Option<usize>)
    ensures
        r == spec_parse_usize(s@),
{
    let start: usize = if s.len() > 0 && s[0] == '+' { 1 } else { 0 };
    let ghost d = s@.subrange(start as int, s@.len() as int);
    assert(d =~= (if s@.len() > 0 && s@[0] == '+' { s@.drop_first() } else { s@ }));
    if start >= s.len() {
        return None;
    }
    let mut value: usize = 0;
    let mut i = start;
    while i < s.len()
        invariant
            start <= i <= s@.len(),
            d == s@.subrange(start as int, s@.len() as int),
            d == (if s@.len() > 0 && s@[0] == '+' { s@.drop_first() } else { s@ }),
            forall|k: int| start <= k < i ==> spec_is_ascii_digit(#[trigger] s@[k]),
            value == digits_value(s@.subrange(start as int, i as int)),
        decreases s@.len() - i,
    {
        let c = s[i];
        if !is_ascii_digit(c) {
            assert(d[i - start] == c);
            return None;
        }
        let digit = (c as u32 - '0' as u32) as usize;
        assert(s@.subrange(start as int, i + 1).drop_last() =~= s@.subrange(start as int, i as int));
        if value > (usize::MAX - digit) / 10 {
            proof {
                assert(digits_value(s@.subrange(start as int, i + 1)) == value * 10 + digit);
                if all_digits(d) {
                    lemma_digits_value_prefix_le(d, (i + 1 - start) as int);
                    assert(d.subrange(0, (i + 1 - start) as int) =~= s@.subrange(start as int, i + 1));
                }
                assert(value * 10 + digit > usize::MAX) by (nonlinear_arith)
                    requires value > (usize::MAX - digit) / 10, digit <= 9;
            }
            return None;
        }
        proof {
            assert(value * 10 + digit <= usize::MAX) by (nonlinear_arith)
                requires value <= (usize::MAX - digit) / 10, digit <= 9;
        }
        value = value * 10 + digit;
        i += 1;
    }
    assert(d =~= s@.subrange(start as int, i as int));
    Some(value)
}

/// The value of a prefix of a digit run never exceeds the value of the whole run.
proof fn lemma_digits_value_prefix_le(s: Seq<char>, n: int)
    requires
        0 <= n <= s.len(),
        all_digits(s),
    ensures
        digits_value(s.subrange(0, n)) <= digits_value(s),
    decreases s.len() - n,
{
    if n < s.len() {
        lemma_digits_value_prefix_le(s, n + 1);
        assert(s.subrange(0, n + 1).drop_last() =~= s.subrange(0, n));
        assert(s[n] >= '0');
    } else {
        assert(s.subrange(0, n) =~= s);
    }
}

/// The decimal digits of `n`, most significant first.
pub open spec fn decimal(n: nat) -> Seq<char>
    decreases n,
{
    if n < 10 {
        seq![(('0' as nat) + n) as char]
    } else {
        decimal(n / 10).push(((('0' as nat) + n % 10) as char))
    }
}

/// The decimal representation of `n`, as `format!("{n}")` writes it.
pub fn usize_to_decimal(n: usize) -> (r: Vec<char>)
    ensures
        r@ == decimal(n as nat),
    decreases n,
{
    if n < 10 {
        let c = (('0' as u32) + n as u32) as u8 as char;
        let mut v = Vec::new();
        v.push(c);
        assert(v@ =~= decimal(n as nat));
        v
    } else {
        let mut v = usize_to_decimal(n / 10);
        let c = (('0' as u32) + (n % 10) as u32) as u8 as char;
        v.push(c);
        v
    }
}

/// What `str::parse::<f64>` accepts: an optional sign, then `inf`, `infinity` or `nan` in any
/// case, or digits with an optional decimal point (at least one digit on some side) and an
/// optional exponent.
pub open spec fn spec_is_float_literal(s: Seq<char>) -> bool {
    let b = if s.len() > 0 && (s[0] == '+' || s[0] == '-') { s.drop_first() } else { s };
    ||| lower_eq(b, "inf"@)
    ||| lower_eq(b, "infinity"@)
    ||| lower_eq(b, "nan"@)
    ||| spec_is_decimal_number(b)
}

/// Whether `c` equals `d` up to ASCII case, where `d` is lower case.
pub open spec fn char_lower_eq(c: char, d: char) -> bool {
    c == d || ('A' <= c && c <= 'Z' && d as u32 == c as u32 + 32)
}

/// Whether `s` equals the lower-case word `w` up to ASCII case.
pub open spec fn lower_eq(s: Seq<char>, w: Seq<char>) -> bool {
    s.len() == w.len() && forall|k: int| 0 <= k < s.len() ==> char_lower_eq(#[trigger] s[k], w[k])
}

/// The number of leading ASCII digits of `s` from `from`.
pub open spec fn digit_run(s: Seq<char>, from: int) -> int
    decreases s.len() - from,
{
    if 0 <= from < s.len() && spec_is_ascii_digit(s[from]) {
        1 + digit_run(s, from + 1)
    } else {
        0
    }
}

/// Digits, an optional `.` with digits, at least one digit in all, then an optional exponent
/// (`e` or `E`, an optional sign, one or more digits).
pub open spec fn spec_is_decimal_number(s: Seq<char>) -> bool {
    let a = digit_run(s, 0);
    let after_int = a;
    let has_dot = after_int < s.len() && s[after_int] == '.';
    let f = if has_dot { digit_run(s, after_int + 1) } else { 0 };
    let mant_end = if has_dot { after_int + 1 + f } else { after_int };
    &&& a + f > 0
    &&& (mant_end == s.len() || spec_is_exponent(s.subrange(mant_end, s.len() as int)))
}

pub open spec fn spec_is_exponent(e: Seq<char>) -> bool {
    &&& e.len() >= 2
    &&& (e[0] == 'e' || e[0] == 'E')
    &&& {
        let d = if e[1] == '+' || e[1] == '-' { e.subrange(2, e.len() as int) } else { e.subrange(1, e.len() as int) };
        d.len() > 0 && all_digits(d)
    }
}

fn digit_run_exec(s: &[char], from: usize) -> (r: usize)
    requires
        from <= s@.len(),
    ensures
        r as int == digit_run(s@, from as int),
        from + r <= s@.len(),
    decreases s@.len() - from,
{
    if from < s.len() && is_ascii_digit(s[from]) {
        1 + digit_run_exec(s, from + 1)
    } else {
        0
    }
}

fn lower_eq_lit(s: &[char], lit: &str) -> (r: bool)
    ensures
        r == lower_eq(s@, lit@),
{
    let l = chars_of(lit);
    if s.len() != l.len() {
        return false;
    }
    let mut i: usize = 0;
    while i < s.len()
        invariant
            s@.len() == l@.len(),
            l@ == lit@,
            i <= s@.len(),
            forall|k: int| 0 <= k < i ==> char_lower_eq(#[trigger] s@[k], l@[k]),
        decreases s@.len() - i,
    {
        let c = s[i];
        let d = l[i];
        if !(c == d || ('A' <= c && c <= 'Z' && d as u32 == c as u32 + 32)) {
            assert(!char_lower_eq(s@[i as int], l@[i as int]));
            return false;
        }
        i += 1;
    }
    true
}

fn is_exponent(e: &[char]) -> (r: bool)
    ensures
        r == spec_is_exponent(e@),
{
    if e.len() < 2 || !(e[0] == 'e' || e[0] == 'E') {
        return false;
    }
    let start: usize = if e[1] == '+' || e[1] == '-' { 2 } else { 1 };
    let d = slice_vec(e, start, e.len());
    let n = digit_run_exec(&d, 0);
    proof {
        lemma_digit_run_all(d@);
    }
    d.len() > 0 && n == d.len()
}

proof fn lemma_digit_run_all(s: Seq<char>)
    ensures
        (digit_run(s, 0) == s.len()) == all_digits(s),
{
    lemma_digit_run_from(s, 0);
}

proof fn lemma_digit_run_from(s: Seq<char>, from: int)
    requires
        0 <= from <= s.len(),
    ensures
        0 <= digit_run(s, from) <= s.len() - from,
        (digit_run(s, from) == s.len() - from) == (forall|k: int| from <= k < s.len() ==> spec_is_ascii_digit(#[trigger] s[k])),
    decreases s.len() - from,
{
    if from < s.len() {
        lemma_digit_run_from(s, from + 1);
    }
}

pub fn is_decimal_number(s: &[char]) -> (r: bool)
    ensures
        r == spec_is_decimal_number(s@),
{
    let a = digit_run_exec(s, 0);
    let has_dot = a < s.len() && s[a] == '.';
    let f = if has_dot { digit_run_exec(s, a + 1) } else { 0 };
    let mant_end = if has_dot { a + 1 + f } else { a };
    if a + f == 0 {
        return false;
    }
    if mant_end == s.len() {
        return true;
    }
    let e = slice_vec(s, mant_end, s.len());
    is_exponent(&e)
}

/// Whether `s` parses as an `i64` or as an `f64`. Every string that parses as an `i64`
/// also parses as an `f64`, so this is the `f64` grammar.
pub open spec fn spec_is_number(s: Seq<char>) -> bool {
    spec_is_float_literal(s)
}

pub fn is_number(s: &[char]) -> (r: bool)
    ensures
        r == spec_is_number(s@),
{
    let b = if s.len() > 0 && (s[0] == '+' || s[0] == '-') { slice_vec(s, 1, s.len()) } else { to_vec(s) };
    assert(b@ =~= (if s@.len() > 0 && (s@[0] == '+' || s@[0] == '-') { s@.drop_first() } else { s@ }));
    lower_eq_lit(&b, "inf") || lower_eq_lit(&b, "infinity") || lower_eq_lit(&b, "nan")
        || is_decimal_number(&b)
}

// ---------------------------------------------------------------------------
// Joining
// ---------------------------------------------------------------------------

/// The elements of `parts` separated by `sep`.
pub open spec fn join(parts: Seq<Seq<char>>, sep: Seq<char>) -> Seq<char>
    decreases parts.len(),
{
    if parts.len() == 0 {
        seq![]
    } else if parts.len() == 1 {
        parts[0]
    } else {
        join(parts.drop_last(), sep) + sep + parts.last()
    }
}

pub open spec fn views(parts: Seq<Vec<char>>) -> Seq<Seq<char>> {
    parts.map_values(|p: Vec<char>| p@)
}

pub proof fn lemma_views_push(s: Seq<Vec<char>>, x: Vec<char>)
    ensures
        views(s.push(x)) == views(s).push(x@),
{
    assert(views(s.push(x)) =~= views(s).push(x@));
}

/// The texts of a sequence of strings.
pub open spec fn string_texts(parts: Seq<String>) -> Seq<Seq<char>> {
    parts.map_values(|p: String| p@)
}

/// `[..].join(sep)` over character vectors.
pub fn join_vecs(parts: &[Vec<char>], sep: &[char]) -> (r: Vec<char>)
    ensures
        r@ == join(views(parts@), sep@),
{
    let mut out = Vec::new();
    let mut i: usize = 0;
    while i < parts.len()
        invariant
            i <= parts@.len(),
            out@ == join(views(parts@.take(i as int)), sep@),
        decreases parts@.len() - i,
    {
        assert(views(parts@.take(i + 1)).drop_last() =~= views(parts@.take(i as int)));
        if i > 0 {
            push_all(&mut out, sep);
        } else {
            assert(views(parts@.take(0)) =~= seq![]);
        }
        push_all(&mut out, &parts[i]);
        i += 1;
    }
    assert(parts@.take(parts@.len() as int) =~= parts@);
    out
}

pub fn join_lit(parts: &[Vec<char>], sep: &str) -> (r: Vec<char>)
    ensures
        r@ == join(views(parts@), sep@),
{
    let s = chars_of(sep);
    join_vecs(parts, &s)
}


/// The first index at or after `i` holding `c`, or the length of `s` when there is none.
pub open spec fn find_char_from(s: Seq<char>, i: int, c: char) -> int
    decreases s.len() - i,
{
    if i >= s.len() {
        s.len() as int
    } else if s[i] == c {
        i
    } else {
        find_char_from(s, i + 1, c)
    }
}

/// The first index at or after `i` that does not hold an ASCII digit, or the length of `s`.
pub open spec fn digits_end(s: Seq<char>, i: int) -> int
    decreases s.len() - i,
{
    if i >= s.len() {
        s.len() as int
    } else if !spec_is_ascii_digit(s[i]) {
        i
    } else {
        digits_end(s, i + 1)
    }
}

/// The first index at or after `i` that does not hold an identifier character, or the length.
pub open spec fn word_end(s: Seq<char>, i: int) -> int
    decreases s.len() - i,
{
    if i >= s.len() {
        s.len() as int
    } else if !spec_is_word_char(s[i]) {
        i
    } else {
        word_end(s, i + 1)
    }
}

pub proof fn lemma_find_char_from(s: Seq<char>, i: int, c: char, j: int)
    requires
        0 <= i <= j <= s.len(),
        forall|k: int| i <= k < j ==> s[k] != c,
        j == s.len() || s[j] == c,
    ensures
        find_char_from(s, i, c) == j,
    decreases j - i,
{
    if i < j {
        lemma_find_char_from(s, i + 1, c, j);
    }
}

pub proof fn lemma_digits_end(s: Seq<char>, i: int, j: int)
    requires
        0 <= i <= j <= s.len(),
        forall|k: int| i <= k < j ==> spec_is_ascii_digit(s[k]),
        j == s.len() || !spec_is_ascii_digit(s[j]),
    ensures
        digits_end(s, i) == j,
    decreases j - i,
{
    if i < j {
        lemma_digits_end(s, i + 1, j);
    }
}

pub proof fn lemma_word_end(s: Seq<char>, i: int, j: int)
    requires
        0 <= i <= j <= s.len(),
        forall|k: int| i <= k < j ==> spec_is_word_char(s[k]),
        j == s.len() || !spec_is_word_char(s[j]),
    ensures
        word_end(s, i) == j,
    decreases j - i,
{
    if i < j {
        lemma_word_end(s, i + 1, j);
    }
}

/// `find_char_from`, computed.
pub fn find_char_exec(s: &[char], i: usize, c: char) -> (j: usize)
    requires
        i <= s@.len(),
    ensures
        j == find_char_from(s@, i as int, c),
        i <= j <= s@.len(),
{
    let mut j = i;
    while j < s.len() && s[j] != c
        invariant
            i <= j <= s@.len(),
            forall|k: int| i <= k < j ==> s@[k] != c,
        decreases s@.len() - j,
    {
        j += 1;
    }
    proof {
        lemma_find_char_from(s@, i as int, c, j as int);
    }
    j
}

/// `digits_end`, computed.
pub fn digits_end_exec(s: &[char], i: usize) -> (j: usize)
    requires
        i <= s@.len(),
    ensures
        j == digits_end(s@, i as int),
        i <= j <= s@.len(),
{
    let mut j = i;
    while j < s.len() && is_ascii_digit(s[j])
        invariant
            i <= j <= s@.len(),
            forall|k: int| i <= k < j ==> spec_is_ascii_digit(s@[k]),
        decreases s@.len() - j,
    {
        j += 1;
    }
    proof {
        lemma_digits_end(s@, i as int, j as int);
    }
    j
}

/// `word_end`, computed.
pub fn word_end_exec(s: &[char], i: usize) -> (j: usize)
    requires
        i <= s@.len(),
    ensures
        j == word_end(s@, i as int),
        i <= j <= s@.len(),
{
    let mut j = i;
    while j < s.len() && is_word_char(s[j])
        invariant
            i <= j <= s@.len(),
            forall|k: int| i <= k < j ==> spec_is_word_char(s@[k]),
        decreases s@.len() - j,
    {
        j += 1;
    }
    proof {
        lemma_word_end(s@, i as int, j as int);
    }
    j
}


pub proof fn lemma_scan_bounds(s: Seq<char>, i: int, c: char)
    requires
        0 <= i <= s.len(),
    ensures
        i <= find_char_from(s, i, c) <= s.len(),
        i <= digits_end(s, i) <= s.len(),
        i <= word_end(s, i) <= s.len(),
    decreases s.len() - i,
{
    if i < s.len() {
        lemma_scan_bounds(s, i + 1, c);
    }
}


/// The decimal representation of `n`, as `format!("{n}")` writes it.
pub fn u128_to_decimal(n: u128) -> (r: Vec<char>)
    ensures
        r@ == decimal(n as nat),
    decreases n,
{
    if n < 10 {
        let c = (('0' as u32) + n as u32) as u8 as char;
        let mut v = Vec::new();
        v.push(c);
        assert(v@ =~= decimal(n as nat));
        v
    } else {
        let mut v = u128_to_decimal(n / 10);
        let c = (('0' as u32) + (n % 10) as u32) as u8 as char;
        v.push(c);
        v
    }
}

pub proof fn lemma_decimal_len(n: nat)
    ensures
        decimal(n).len() >= 1,
        n >= 10 ==> decimal(n).len() >= 2,
        n < 10 ==> decimal(n).len() == 1,
    decreases n,
{
    if n >= 10 {
        lemma_decimal_len(n / 10);
    }
}

/// Distinct numbers have distinct decimal representations.
pub proof fn lemma_decimal_injective(a: nat, b: nat)
    requires
        decimal(a) == decimal(b),
    ensures
        a == b,
    decreases a,
{
    lemma_decimal_len(a);
    lemma_decimal_len(b);
    if a < 10 && b < 10 {
        let ca = (('0' as nat) + a) as char;
        let cb = (('0' as nat) + b) as char;
        assert(decimal(a) == seq![ca]);
        assert(decimal(b) == seq![cb]);
        assert(decimal(a)[0] == ca);
        assert(ca == cb);
        assert(ca as nat == cb as nat);
        assert((((('0' as nat) + a) as char) as nat) == ('0' as nat) + a);
        assert((((('0' as nat) + b) as char) as nat) == ('0' as nat) + b);
        assert(a == b);
    } else if a >= 10 && b >= 10 {
        let ca = (('0' as nat) + a % 10) as char;
        let cb = (('0' as nat) + b % 10) as char;
        assert(decimal(a) == decimal(a / 10).push(ca));
        assert(decimal(b) == decimal(b / 10).push(cb));
        assert(decimal(a).last() == ca);
        assert(ca == cb);
        assert(ca as nat == cb as nat);
        assert((((('0' as nat) + a % 10) as char) as nat) == ('0' as nat) + a % 10);
        assert((((('0' as nat) + b % 10) as char) as nat) == ('0' as nat) + b % 10);
        assert(decimal(a).drop_last() =~= decimal(a / 10));
        assert(decimal(b).drop_last() =~= decimal(b / 10));
        lemma_decimal_injective(a / 10, b / 10);
        assert(a == 10 * (a / 10) + a % 10) by (nonlinear_arith);
        assert(b == 10 * (b / 10) + b % 10) by (nonlinear_arith);
        assert(a % 10 == b % 10);
        assert(a / 10 == b / 10);
        assert(a == b);
    } else {
        lemma_decimal_len(a / 10);
        lemma_decimal_len(b / 10);
    }
}

// ---------------------------------------------------------------------------
// Lines and pieces
// ---------------------------------------------------------------------------

/// A line without the `\r` of a `\r\n` ending.
pub open spec fn strip_cr(line: Seq<char>) -> Seq<char> {
    if line.len() > 0 && line.last() == '\r' {
        line.drop_last()
    } else {
        line
    }
}

/// `str::lines` from index `i`, the current line starting at `start`.
pub open spec fn lines_from(s: Seq<char>, start: int, i: int) -> Seq<Seq<char>>
    decreases s.len() - i,
{
    if i < 0 || start < 0 || start > i || i >= s.len() {
        if 0 <= start < s.len() {
            seq![s.subrange(start, s.len() as int)]
        } else {
            seq![]
        }
    } else if s[i] == '\n' {
        seq![strip_cr(s.subrange(start, i))] + lines_from(s, i + 1, i + 1)
    } else {
        lines_from(s, start, i + 1)
    }
}

/// `str::lines`: the text split at `\n`, each `\r\n` ending removed, no line after a final
/// newline.
pub open spec fn spec_lines(s: Seq<char>) -> Seq<Seq<char>> {
    lines_from(s, 0, 0)
}

pub fn lines(s: &[char]) -> (r: Vec<Vec<char>>)
    ensures
        views(r@) == spec_lines(s@),
{
    let mut out: Vec<Vec<char>> = Vec::new();
    let mut start: usize = 0;
    let mut i: usize = 0;
    assert(views(out@) + lines_from(s@, 0, 0) =~= spec_lines(s@));
    while i < s.len()
        invariant
            start <= i <= s@.len(),
            views(out@) + lines_from(s@, start as int, i as int) == spec_lines(s@),
        decreases s@.len() - i,
    {
        if s[i] == '\n' {
            let mut line = slice_vec(s, start, i);
            if line.len() > 0 && line[line.len() - 1] == '\r' {
                line.pop();
            }
            let ghost before = out@;
            out.push(line);
            assert(views(out@) =~= views(before).push(strip_cr(s@.subrange(start as int, i as int))));
            assert(views(out@) + lines_from(s@, i + 1, i + 1) =~= views(before) + (seq![strip_cr(s@.subrange(start as int, i as int))] + lines_from(s@, i + 1, i + 1)));
            start = i + 1;
        }
        i += 1;
    }
    if start < s.len() {
        let ghost before = out@;
        out.push(slice_vec(s, start, s.len()));
        assert(views(out@) =~= views(before) + seq![s@.subrange(start as int, s@.len() as int)]);
    } else {
        assert(views(out@) + seq![] =~= views(out@));
    }
    out
}

/// `str::split` at the character `c` from index `i`, the current piece starting at `start`.
pub open spec fn split_from(s: Seq<char>, c: char, start: int, i: int) -> Seq<Seq<char>>
    decreases s.len() - i,
{
    if i < 0 || start < 0 || start > i || i >= s.len() {
        seq![s.subrange(start, s.len() as int)]
    } else if s[i] == c {
        seq![s.subrange(start, i)] + split_from(s, c, i + 1, i + 1)
    } else {
        split_from(s, c, start, i + 1)
    }
}

/// `str::split` at a character: one more piece than there are separators.
pub open spec fn spec_split_char(s: Seq<char>, c: char) -> Seq<Seq<char>> {
    split_from(s, c, 0, 0)
}

pub fn split_char(s: &[char], c: char) -> (r: Vec<Vec<char>>)
    ensures
        views(r@) == spec_split_char(s@, c),
{
    let mut out: Vec<Vec<char>> = Vec::new();
    let mut start: usize = 0;
    let mut i: usize = 0;
    assert(views(out@) + split_from(s@, c, 0, 0) =~= spec_split_char(s@, c));
    while i < s.len()
        invariant
            start <= i <= s@.len(),
            views(out@) + split_from(s@, c, start as int, i as int) == spec_split_char(s@, c),
        decreases s@.len() - i,
    {
        if s[i] == c {
            let ghost before = out@;
            out.push(slice_vec(s, start, i));
            assert(views(out@) =~= views(before).push(s@.subrange(start as int, i as int)));
            assert(views(out@) + split_from(s@, c, i + 1, i + 1) =~= views(before) + (seq![s@.subrange(start as int, i as int)] + split_from(s@, c, i + 1, i + 1)));
            start = i + 1;
        }
        i += 1;
    }
    let ghost before = out@;
    out.push(slice_vec(s, start, s.len()));
    assert(views(out@) =~= views(before) + seq![s@.subrange(start as int, s@.len() as int)]);
    out
}

/// The last index holding `c`, if any.
pub open spec fn spec_rfind_char(s: Seq<char>, c: char) -> Option<int>
    decreases s.len(),
{
    if s.len() == 0 {
        None
    } else if s.last() == c {
        Some(s.len() - 1)
    } else {
        spec_rfind_char(s.drop_last(), c)
    }
}

pub fn rfind_char(s: &[char], c: char) -> (r: Option<usize>)
    ensures
        match r {
            Some(i) => spec_rfind_char(s@, c) == Some(i as int) && i < s@.len(),
            None => spec_rfind_char(s@, c) is None,
        },
{
    let mut j = s.len();
    assert(s@.subrange(0, j as int) =~= s@);
    while j > 0
        invariant
            j <= s@.len(),
            spec_rfind_char(s@, c) == spec_rfind_char(s@.subrange(0, j as int), c),
        decreases j,
    {
        assert(s@.subrange(0, j as int).drop_last() =~= s@.subrange(0, j - 1));
        if s[j - 1] == c {
            return Some(j - 1);
        }
        j -= 1;
    }
    None
}

/// Text with each backslash dropped and the character after it kept as it is.
pub open spec fn spec_unescape(t: Seq<char>) -> Seq<char>
    decreases t.len(),
{
    if t.len() == 0 {
        seq![]
    } else if t[0] == '\\' && t.len() >= 2 {
        seq![t[1]] + spec_unescape(t.subrange(2, t.len() as int))
    } else {
        seq![t[0]] + spec_unescape(t.drop_first())
    }
}

/// Unescaping a character written as itself (not a backslash) or as a backslash and itself,
/// followed by more text, gives the character and the unescaped rest.
pub proof fn lemma_unescape_step(c: char, e: Seq<char>, rest: Seq<char>)
    requires
        (e == seq![c] && c != '\\') || e == seq!['\\', c],
    ensures
        spec_unescape(e + rest) == seq![c] + spec_unescape(rest),
{
    if e == seq!['\\', c] {
        assert((e + rest).subrange(2, (e + rest).len() as int) =~= rest);
    } else {
        assert((e + rest).drop_first() =~= rest);
    }
}

} // verus!
