//! Amber output fragments and their rendering to text.
use vstd::prelude::*;

use crate::text::{join, push_all, push_str, string_of, views};

verus! {

/// Indentation state while rendering: the number of four-space levels.
#[derive(Debug)]
pub struct TranslateMetadata {
    indent: usize,
}

impl Default for TranslateMetadata {
    fn default() -> (m: Self)
        ensures
            m.level() == 0,
    {
        TranslateMetadata { indent: 0 }
    }
}

/// One level deeper than `i`, staying at `usize::MAX` there.
pub open spec fn deeper(i: usize) -> usize {
    if i < usize::MAX {
        (i + 1) as usize
    } else {
        i
    }
}

/// Four spaces per level.
pub open spec fn pad(n: nat) -> Seq<char>
    decreases n,
{
    if n == 0 {
        seq![]
    } else {
        pad((n - 1) as nat) + "    "@
    }
}

impl TranslateMetadata {
    /// The current indentation level.
    pub closed spec fn level(self) -> usize {
        self.indent
    }

    /// Metadata at this level plus `offset` (capped at `usize::MAX`).
    pub fn with_offset(&self, offset: usize) -> (m: Self)
        ensures
            m.level() == (if self.level() + offset <= usize::MAX { (self.level() + offset) as usize } else { usize::MAX }),
    {
        TranslateMetadata { indent: self.indent.saturating_add(offset) }
    }

    pub fn is_root(&self) -> (r: bool)
        ensures
            r == (self.level() == 0),
    {
        self.indent == 0
    }

    pub fn increase_indent(&mut self)
        ensures
            final(self).level() == deeper(old(self).level()),
    {
        self.indent = self.indent.saturating_add(1);
    }

    pub fn decrease_indent(&mut self)
        ensures
            final(self).level() == (if old(self).level() > 0 { (old(self).level() - 1) as usize } else { 0 }),
    {
        self.indent = self.indent.saturating_sub(1);
    }

    pub fn gen_indent(&self) -> (s: Vec<char>)
        ensures
            s@ == pad(self.level() as nat),
    {
        self.pad()
    }

    pub fn pad(&self) -> (s: Vec<char>)
        ensures
            s@ == pad(self.level() as nat),
    {
        pad_exec(self.indent)
    }
}

fn pad_exec(n: usize) -> (s: Vec<char>)
    ensures
        s@ == pad(n as nat),
{
    let mut out = Vec::new();
    let mut i: usize = 0;
    while i < n
        invariant
            i <= n,
            out@ == pad(i as nat),
        decreases n - i,
    {
        push_str(&mut out, "    ");
        i += 1;
    }
    out
}

/// Rendering a value to Amber text at some indentation.
pub trait FragmentRenderable: Sized {
    /// The text this value renders to at indentation level `indent`.
    spec fn rendered(&self, indent: usize) -> Seq<char>;

    /// Renders the value at the level of `meta`; `meta` is left as it was.
    fn to_string(self, meta: &mut TranslateMetadata) -> (s: String)
        ensures
            s@ == self.rendered(old(meta).level()),
            final(meta).level() == old(meta).level(),
    ;

    /// The value as a fragment; it renders to the same text at every level.
    fn to_frag(self) -> (f: FragmentKind)
        ensures
            forall|i: usize| #[trigger] render_kind(f, i) == self.rendered(i),
    ;
}

#[derive(Debug)]
pub struct BlockFragment {
    pub statements: Vec<FragmentKind>,
    pub increase_indent: bool,
}

#[derive(Debug)]
pub struct RawFragment {
    pub value: String,
}

#[derive(Debug)]
pub struct VarExprFragment {
    pub name: String,
}

#[derive(Debug)]
pub struct VarStmtFragment {
    pub name: String,
    pub value: Box<FragmentKind>,
    pub is_reassignment: bool,
}

#[derive(Debug)]
pub struct ListFragment {
    pub items: Vec<FragmentKind>,
}

#[derive(Debug)]
pub struct InterpolableFragment {
    pub strings: Vec<String>,
    pub interpolations: Vec<String>,
}

#[derive(Debug)]
pub struct ForFragment {
    pub variable: String,
    pub items: String,
    pub body: BlockFragment,
}

#[derive(Debug)]
pub struct WhileFragment {
    pub condition: Box<FragmentKind>,
    pub body: BlockFragment,
}

#[derive(Debug)]
pub struct IfFragment {
    pub condition: Box<FragmentKind>,
    pub then_body: BlockFragment,
    pub else_body: Option<BlockFragment>,
}

#[derive(Debug)]
pub struct IfChainBranch {
    pub condition: Box<FragmentKind>,
    pub body: BlockFragment,
}

#[derive(Debug)]
pub struct IfChainFragment {
    pub branches: Vec<IfChainBranch>,
    pub else_body: Option<BlockFragment>,
}

#[derive(Debug)]
pub struct FunctionFragment {
    pub name: String,
    pub params: Vec<String>,
    pub return_type: Option<String>,
    pub body: BlockFragment,
}

#[derive(Debug)]
pub enum FragmentKind {
    Block(BlockFragment),
    Raw(RawFragment),
    If(IfFragment),
    While(WhileFragment),
    For(ForFragment),
    Function(FunctionFragment),
    IfChain(IfChainFragment),
    VarStmt(VarStmtFragment),
    List(ListFragment),
    VarExpr(VarExprFragment),
    Interpolable(InterpolableFragment),
}

/// A whole rendered program: one fragment, usually a root block.
#[derive(Debug)]
pub struct Fragments {
    pub fragment: FragmentKind,
}

// ---------------------------------------------------------------------------
// What each fragment renders to
// ---------------------------------------------------------------------------

pub open spec fn nl() -> Seq<char> {
    seq!['\n']
}

/// The lines `parts`, skipping empty ones.
pub open spec fn nonempty(s: Seq<char>) -> Seq<Seq<char>> {
    if s.len() > 0 {
        seq![s]
    } else {
        seq![]
    }
}

/// The non-empty renderings of `stmts` at level `i`.
pub open spec fn render_parts(stmts: Seq<FragmentKind>, i: usize) -> Seq<Seq<char>>
    decreases stmts,
{
    if stmts.len() == 0 {
        seq![]
    } else {
        render_parts(stmts.drop_last(), i) + nonempty(render_kind(stmts.last(), i))
    }
}

/// The renderings of `items` at level 0.
pub open spec fn render_items(items: Seq<FragmentKind>) -> Seq<Seq<char>>
    decreases items,
{
    if items.len() == 0 {
        seq![]
    } else {
        render_items(items.drop_last()).push(render_kind(items.last(), 0))
    }
}

pub open spec fn render_block(b: BlockFragment, i: usize) -> Seq<char>
    decreases b,
{
    let inner = if b.increase_indent { deeper(i) } else { i };
    let out = join(render_parts(b.statements@, inner), nl());
    if i == 0 && !b.increase_indent && out.len() > 0 && out.last() != '\n' {
        out.push('\n')
    } else {
        out
    }
}

/// The text of an interpolated string built from its first `n` segments.
pub open spec fn interp_concat(strings: Seq<String>, interps: Seq<String>, n: nat) -> Seq<char>
    decreases n,
{
    if n == 0 {
        seq![]
    } else {
        let k = (n - 1) as nat;
        let tail = if k < interps.len() { "{"@ + interps[k as int]@ + "}"@ } else { seq![] };
        interp_concat(strings, interps, k) + strings[k as int]@ + tail
    }
}

pub open spec fn render_interpolable(f: InterpolableFragment) -> Seq<char> {
    if f.strings@.len() == 0 {
        "\"\""@
    } else if f.interpolations@.len() == 0 && f.strings@.len() == 1 {
        f.strings@[0]@
    } else {
        interp_concat(f.strings@, f.interpolations@, f.strings@.len())
    }
}

/// The `} else {` line and the else body of an if statement, when there is one.
pub open spec fn else_lines(e: Option<BlockFragment>, p: Seq<char>, i: usize) -> Seq<Seq<char>>
    decreases e,
{
    match e {
        Some(b) => seq![p + "} else {"@] + nonempty(render_block(b, i)),
        None => seq![],
    }
}

/// The `else` branch lines of an if-chain, when there is one.
pub open spec fn chain_else_lines(e: Option<BlockFragment>, p: Seq<char>, i: usize) -> Seq<Seq<char>>
    decreases e,
{
    match e {
        Some(b) => seq![p + "    else {"@] + nonempty(render_block(b, deeper(i))) + seq![p + "    }"@],
        None => seq![],
    }
}

pub open spec fn render_if(f: IfFragment, i: usize) -> Seq<char>
    decreases f,
{
    let p = pad(i as nat);
    let head = seq![p + "if "@ + render_kind(*f.condition, 0) + " {"@];
    let then_part = nonempty(render_block(f.then_body, i));
    join(head + then_part + else_lines(f.else_body, p, i) + seq![p + "}"@], nl())
}

pub open spec fn render_while(f: WhileFragment, i: usize) -> Seq<char>
    decreases f,
{
    let p = pad(i as nat);
    join(
        seq![p + "while "@ + render_kind(*f.condition, 0) + " {"@] + nonempty(render_block(f.body, i))
            + seq![p + "}"@],
        nl(),
    )
}

pub open spec fn render_for(f: ForFragment, i: usize) -> Seq<char>
    decreases f,
{
    let p = pad(i as nat);
    join(
        seq![p + "for "@ + f.variable@ + " in "@ + f.items@ + " {"@] + nonempty(render_block(f.body, i))
            + seq![p + "}"@],
        nl(),
    )
}

pub open spec fn render_function(f: FunctionFragment, i: usize) -> Seq<char>
    decreases f,
{
    let p = pad(i as nat);
    let params = join(f.params@.map_values(|s: String| s@), ", "@);
    let head = match f.return_type {
        Some(t) => p + "fun "@ + f.name@ + "("@ + params + "): "@ + t@ + " {"@,
        None => p + "fun "@ + f.name@ + "("@ + params + ") {"@,
    };
    join(seq![head] + nonempty(render_block(f.body, i)) + seq![p + "}"@], nl())
}

/// The lines of the first `n` branches of an if-chain at level `i`.
pub open spec fn render_branches(bs: Seq<IfChainBranch>, i: usize) -> Seq<Seq<char>>
    decreases bs,
{
    if bs.len() == 0 {
        seq![]
    } else {
        let b = bs.last();
        let p = pad(i as nat);
        render_branches(bs.drop_last(), i) + seq![p + "    "@ + render_kind(*b.condition, 0) + " {"@]
            + nonempty(render_block(b.body, deeper(i))) + seq![p + "    }"@]
    }
}

pub open spec fn render_if_chain(f: IfChainFragment, i: usize) -> Seq<char>
    decreases f,
{
    let p = pad(i as nat);
    join(seq![p + "if {"@] + render_branches(f.branches@, i) + chain_else_lines(f.else_body, p, i) + seq![p + "}"@], nl())
}

pub open spec fn render_var_stmt(f: VarStmtFragment, i: usize) -> Seq<char>
    decreases f,
{
    let lhs = if f.is_reassignment { f.name@ } else { "let "@ + f.name@ };
    pad(i as nat) + lhs + " = "@ + render_kind(*f.value, 0)
}

pub open spec fn render_list(f: ListFragment) -> Seq<char>
    decreases f,
{
    join(render_items(f.items@), " "@)
}

/// Whether a fragment renders to some text at every level.
pub open spec fn renders_text(f: FragmentKind) -> bool {
    forall|i: usize| #[trigger] render_kind(f, i).len() > 0
}

proof fn lemma_join_two(parts: Seq<Seq<char>>, sep: Seq<char>)
    requires
        parts.len() >= 2,
        sep.len() > 0,
    ensures
        join(parts, sep).len() > 0,
{
}

/// `if`, `while` and `for` fragments always render to some text, and so does raw text that is
/// not empty.
pub proof fn lemma_renders_text(f: FragmentKind)
    requires
        f is If || f is While || f is For || (f matches FragmentKind::Raw(x) && x.value@.len() > 0),
    ensures
        renders_text(f),
{
    assert forall|i: usize| #[trigger] render_kind(f, i).len() > 0 by {
        let p = pad(i as nat);
        match f {
            FragmentKind::If(x) => {
                let head = seq![p + "if "@ + render_kind(*x.condition, 0) + " {"@];
                let parts = head + nonempty(render_block(x.then_body, i)) + else_lines(x.else_body, p, i) + seq![p + "}"@];
                lemma_join_two(parts, nl());
            },
            FragmentKind::While(x) => {
                let parts = seq![p + "while "@ + render_kind(*x.condition, 0) + " {"@] + nonempty(render_block(x.body, i))
                    + seq![p + "}"@];
                lemma_join_two(parts, nl());
            },
            FragmentKind::For(x) => {
                let parts = seq![p + "for "@ + x.variable@ + " in "@ + x.items@ + " {"@] + nonempty(render_block(x.body, i))
                    + seq![p + "}"@];
                lemma_join_two(parts, nl());
            },
            _ => {},
        }
    }
}

/// A join of lines that are not empty is not empty when there is one.
pub proof fn lemma_parts_text(stmts: Seq<FragmentKind>, i: usize, m: int)
    requires
        0 <= m < stmts.len(),
        render_kind(stmts[m], i).len() > 0,
    ensures
        join(render_parts(stmts, i), nl()).len() > 0,
    decreases stmts.len(),
{
    let parts = render_parts(stmts, i);
    if m == stmts.len() - 1 {
        assert(parts == render_parts(stmts.drop_last(), i) + seq![render_kind(stmts[m], i)]);
        if parts.len() >= 2 {
            lemma_join_two(parts, nl());
        } else {
            assert(parts.len() == 1);
        }
    } else {
        lemma_parts_text(stmts.drop_last(), i, m);
        let before = render_parts(stmts.drop_last(), i);
        assert(before.len() > 0);
        if parts.len() >= 2 {
            lemma_join_two(parts, nl());
        } else {
            assert(parts =~= before);
        }
    }
}

/// The text of a fragment at indentation level `i`.
pub open spec fn render_kind(f: FragmentKind, i: usize) -> Seq<char>
    decreases f,
{
    match f {
        FragmentKind::Block(b) => render_block(b, i),
        FragmentKind::Raw(r) => pad(i as nat) + r.value@,
        FragmentKind::If(x) => render_if(x, i),
        FragmentKind::While(x) => render_while(x, i),
        FragmentKind::For(x) => render_for(x, i),
        FragmentKind::Function(x) => render_function(x, i),
        FragmentKind::IfChain(x) => render_if_chain(x, i),
        FragmentKind::VarStmt(x) => render_var_stmt(x, i),
        FragmentKind::List(x) => render_list(x),
        FragmentKind::VarExpr(x) => x.name@,
        FragmentKind::Interpolable(x) => render_interpolable(x),
    }
}

// ---------------------------------------------------------------------------
// Rendering
// ---------------------------------------------------------------------------

fn deeper_exec(i: usize) -> (r: usize)
    ensures
        r == deeper(i),
{
    if i < usize::MAX {
        i + 1
    } else {
        i
    }
}

/// Appends `line` to `lines` when it is not empty.
fn push_nonempty(lines: &mut Vec<Vec<char>>, line: Vec<char>)
    ensures
        views(final(lines)@) == views(old(lines)@) + nonempty(line@),
{
    let ghost before = lines@;
    if line.len() > 0 {
        lines.push(line);
        assert(views(lines@) =~= views(before) + nonempty(line@));
    } else {
        assert(views(lines@) =~= views(before) + nonempty(line@));
    }
}

/// Appends `line` to `lines`.
fn push_line(lines: &mut Vec<Vec<char>>, line: Vec<char>)
    ensures
        views(final(lines)@) == views(old(lines)@) + seq![line@],
{
    let ghost before = lines@;
    lines.push(line);
    assert(views(lines@) =~= views(before) + seq![line@]);
}

fn join_lines(lines: &Vec<Vec<char>>) -> (r: Vec<char>)
    ensures
        r@ == join(views(lines@), nl()),
{
    let sep = vec!['\n'];
    assert(sep@ =~= nl());
    crate::text::join_vecs(lines, &sep)
}

/// `pad + a + b + c` as one line.
fn line3(p: &Vec<char>, a: &str, b: &[char], c: &str) -> (r: Vec<char>)
    ensures
        r@ == p@ + a@ + b@ + c@,
{
    let mut out = Vec::new();
    push_all(&mut out, p);
    push_str(&mut out, a);
    push_all(&mut out, b);
    push_str(&mut out, c);
    out
}

/// `pad + a` as one line.
fn line1(p: &Vec<char>, a: &str) -> (r: Vec<char>)
    ensures
        r@ == p@ + a@,
{
    let mut out = Vec::new();
    push_all(&mut out, p);
    push_str(&mut out, a);
    out
}

impl BlockFragment {
    pub fn new(statements: Vec<FragmentKind>, increase_indent: bool) -> (b: Self)
        ensures
            b.statements == statements,
            b.increase_indent == increase_indent,
    {
        BlockFragment { statements, increase_indent }
    }

    pub fn append(&mut self, statement: FragmentKind)
        ensures
            final(self).statements@ == old(self).statements@.push(statement),
            final(self).increase_indent == old(self).increase_indent,
    {
        self.statements.push(statement);
    }

    pub fn render(&self, i: usize) -> (s: Vec<char>)
        ensures
            s@ == render_block(*self, i),
        decreases *self,
    {
        let inner = if self.increase_indent { deeper_exec(i) } else { i };
        let mut parts: Vec<Vec<char>> = Vec::new();
        let mut k: usize = 0;
        while k < self.statements.len()
            invariant
                k <= self.statements@.len(),
                views(parts@) == render_parts(self.statements@.take(k as int), inner),
            decreases self.statements@.len() - k,
        {
            assert(self.statements@.take(k + 1).drop_last() =~= self.statements@.take(k as int));
            let r = self.statements[k].render(inner);
            push_nonempty(&mut parts, r);
            k += 1;
        }
        assert(self.statements@.take(self.statements@.len() as int) =~= self.statements@);
        let mut out = join_lines(&parts);
        if i == 0 && !self.increase_indent && out.len() > 0 && out[out.len() - 1] != '\n' {
            out.push('\n');
        }
        out
    }
}

impl Default for BlockFragment {
    fn default() -> (b: Self)
        ensures
            b.statements@.len() == 0,
            !b.increase_indent,
    {
        BlockFragment::new(Vec::new(), false)
    }
}

impl InterpolableFragment {
    pub fn render(&self) -> (s: Vec<char>)
        ensures
            s@ == render_interpolable(*self),
    {
        if self.strings.len() == 0 {
            return crate::text::chars_of("\"\"");
        }
        if self.interpolations.len() == 0 && self.strings.len() == 1 {
            return crate::text::chars_of(self.strings[0].as_str());
        }
        let mut out = Vec::new();
        let mut k: usize = 0;
        while k < self.strings.len()
            invariant
                k <= self.strings@.len(),
                out@ == interp_concat(self.strings@, self.interpolations@, k as nat),
            decreases self.strings@.len() - k,
        {
            let seg = crate::text::chars_of(self.strings[k].as_str());
            push_all(&mut out, &seg);
            if k < self.interpolations.len() {
                out.push('{');
                let ip = crate::text::chars_of(self.interpolations[k].as_str());
                push_all(&mut out, &ip);
                out.push('}');
                assert(out@ =~= interp_concat(self.strings@, self.interpolations@, k as nat) + self.strings@[k as int]@ + ("{"@ + self.interpolations@[k as int]@ + "}"@)) by {
                    reveal_strlit("{");
                    reveal_strlit("}");
                }
            } else {
                assert(out@ =~= interp_concat(self.strings@, self.interpolations@, k as nat) + self.strings@[k as int]@ + seq![]);
            }
            k += 1;
        }
        out
    }
}

impl IfFragment {
    pub fn render(&self, i: usize) -> (s: Vec<char>)
        ensures
            s@ == render_if(*self, i),
        decreases *self,
    {
        let p = pad_exec(i);
        let cond = self.condition.render(0);
        let mut lines: Vec<Vec<char>> = Vec::new();
        push_line(&mut lines, line3(&p, "if ", &cond, " {"));
        push_nonempty(&mut lines, self.then_body.render(i));
        let ghost mid = views(lines@);
        match &self.else_body {
            Some(e) => {
                push_line(&mut lines, line1(&p, "} else {"));
                push_nonempty(&mut lines, e.render(i));
            },
            None => {},
        }
        assert(views(lines@) =~= mid + else_lines(self.else_body, p@, i));
        push_line(&mut lines, line1(&p, "}"));
        join_lines(&lines)
    }
}

impl WhileFragment {
    pub fn render(&self, i: usize) -> (s: Vec<char>)
        ensures
            s@ == render_while(*self, i),
        decreases *self,
    {
        let p = pad_exec(i);
        let cond = self.condition.render(0);
        let mut lines: Vec<Vec<char>> = Vec::new();
        push_line(&mut lines, line3(&p, "while ", &cond, " {"));
        push_nonempty(&mut lines, self.body.render(i));
        push_line(&mut lines, line1(&p, "}"));
        join_lines(&lines)
    }
}

impl ForFragment {
    pub fn render(&self, i: usize) -> (s: Vec<char>)
        ensures
            s@ == render_for(*self, i),
        decreases *self,
    {
        let p = pad_exec(i);
        let var = crate::text::chars_of(self.variable.as_str());
        let items = crate::text::chars_of(self.items.as_str());
        let mut head = line3(&p, "for ", &var, " in ");
        push_all(&mut head, &items);
        push_str(&mut head, " {");
        let mut lines: Vec<Vec<char>> = Vec::new();
        push_line(&mut lines, head);
        push_nonempty(&mut lines, self.body.render(i));
        push_line(&mut lines, line1(&p, "}"));
        join_lines(&lines)
    }
}

impl FunctionFragment {
    pub fn render(&self, i: usize) -> (s: Vec<char>)
        ensures
            s@ == render_function(*self, i),
        decreases *self,
    {
        let p = pad_exec(i);
        let mut ps: Vec<Vec<char>> = Vec::new();
        let mut k: usize = 0;
        while k < self.params.len()
            invariant
                k <= self.params@.len(),
                views(ps@) == self.params@.take(k as int).map_values(|s: String| s@),
            decreases self.params@.len() - k,
        {
            let ghost before = ps@;
            let c = crate::text::chars_of(self.params[k].as_str());
            ps.push(c);
            assert(views(ps@) =~= views(before).push(c@));
            assert(self.params@.take(k + 1) =~= self.params@.take(k as int).push(self.params@[k as int]));
            assert(views(ps@) =~= self.params@.take(k + 1).map_values(|s: String| s@));
            k += 1;
        }
        assert(self.params@.take(self.params@.len() as int) =~= self.params@);
        let params = crate::text::join_lit(&ps, ", ");
        let name = crate::text::chars_of(self.name.as_str());
        let mut head = line3(&p, "fun ", &name, "(");
        push_all(&mut head, &params);
        match &self.return_type {
            Some(t) => {
                push_str(&mut head, "): ");
                let tc = crate::text::chars_of(t.as_str());
                push_all(&mut head, &tc);
                push_str(&mut head, " {");
            },
            None => {
                push_str(&mut head, ") {");
            },
        }
        let mut lines: Vec<Vec<char>> = Vec::new();
        push_line(&mut lines, head);
        push_nonempty(&mut lines, self.body.render(i));
        push_line(&mut lines, line1(&p, "}"));
        join_lines(&lines)
    }
}

impl IfChainFragment {
    pub fn render(&self, i: usize) -> (s: Vec<char>)
        ensures
            s@ == render_if_chain(*self, i),
        decreases *self,
    {
        let p = pad_exec(i);
        let inner = deeper_exec(i);
        let mut lines: Vec<Vec<char>> = Vec::new();
        push_line(&mut lines, line1(&p, "if {"));
        let mut k: usize = 0;
        while k < self.branches.len()
            invariant
                k <= self.branches@.len(),
                p@ == pad(i as nat),
                inner == deeper(i),
                views(lines@) == seq![p@ + "if {"@] + render_branches(self.branches@.take(k as int), i),
            decreases self.branches@.len() - k,
        {
            assert(self.branches@.take(k + 1).drop_last() =~= self.branches@.take(k as int));
            let b = &self.branches[k];
            let cond = b.condition.render(0);
            push_line(&mut lines, line3(&p, "    ", &cond, " {"));
            push_nonempty(&mut lines, b.body.render(inner));
            push_line(&mut lines, line1(&p, "    }"));
            k += 1;
        }
        assert(self.branches@.take(self.branches@.len() as int) =~= self.branches@);
        let ghost mid = views(lines@);
        match &self.else_body {
            Some(e) => {
                push_line(&mut lines, line1(&p, "    else {"));
                push_nonempty(&mut lines, e.render(inner));
                push_line(&mut lines, line1(&p, "    }"));
            },
            None => {},
        }
        assert(views(lines@) =~= mid + chain_else_lines(self.else_body, p@, i));
        push_line(&mut lines, line1(&p, "}"));
        join_lines(&lines)
    }
}

impl VarStmtFragment {
    pub fn render(&self, i: usize) -> (s: Vec<char>)
        ensures
            s@ == render_var_stmt(*self, i),
        decreases *self,
    {
        let value = self.value.render(0);
        let mut out = pad_exec(i);
        if !self.is_reassignment {
            push_str(&mut out, "let ");
        }
        let name = crate::text::chars_of(self.name.as_str());
        push_all(&mut out, &name);
        push_str(&mut out, " = ");
        push_all(&mut out, &value);
        out
    }
}

impl ListFragment {
    pub fn render(&self) -> (s: Vec<char>)
        ensures
            s@ == render_list(*self),
        decreases *self,
    {
        let mut parts: Vec<Vec<char>> = Vec::new();
        let mut k: usize = 0;
        while k < self.items.len()
            invariant
                k <= self.items@.len(),
                views(parts@) == render_items(self.items@.take(k as int)),
            decreases self.items@.len() - k,
        {
            assert(self.items@.take(k + 1).drop_last() =~= self.items@.take(k as int));
            let r = self.items[k].render(0);
            push_line(&mut parts, r);
            k += 1;
        }
        assert(self.items@.take(self.items@.len() as int) =~= self.items@);
        crate::text::join_lit(&parts, " ")
    }
}

impl FragmentKind {
    pub fn raw(value: String) -> (f: Self)
        ensures
            f == FragmentKind::Raw(RawFragment { value }),
    {
        FragmentKind::Raw(RawFragment { value })
    }

    pub fn block(statements: Vec<FragmentKind>) -> (f: Self)
        ensures
            f == FragmentKind::Block(BlockFragment { statements, increase_indent: false }),
    {
        FragmentKind::Block(BlockFragment::new(statements, false))
    }

    /// The text of this fragment at level `i`.
    pub fn render(&self, i: usize) -> (s: Vec<char>)
        ensures
            s@ == render_kind(*self, i),
        decreases *self,
    {
        match self {
            FragmentKind::Block(b) => b.render(i),
            FragmentKind::Raw(r) => {
                let mut out = pad_exec(i);
                let v = crate::text::chars_of(r.value.as_str());
                push_all(&mut out, &v);
                out
            },
            FragmentKind::If(x) => x.render(i),
            FragmentKind::While(x) => x.render(i),
            FragmentKind::For(x) => x.render(i),
            FragmentKind::Function(x) => x.render(i),
            FragmentKind::IfChain(x) => x.render(i),
            FragmentKind::VarStmt(x) => x.render(i),
            FragmentKind::List(x) => x.render(),
            FragmentKind::VarExpr(x) => crate::text::chars_of(x.name.as_str()),
            FragmentKind::Interpolable(x) => x.render(),
        }
    }
}

impl Default for FragmentKind {
    fn default() -> (f: Self)
        ensures
            f == FragmentKind::Block(BlockFragment { statements: f->Block_0.statements, increase_indent: false }),
            f->Block_0.statements@.len() == 0,
    {
        BlockFragment::new(Vec::new(), false).to_frag()
    }
}

impl Default for Fragments {
    fn default() -> (f: Self)
        ensures
            f.fragment is Block,
            f.fragment->Block_0.statements@.len() == 0,
            !f.fragment->Block_0.increase_indent,
    {
        Fragments { fragment: FragmentKind::default() }
    }
}

impl FragmentRenderable for FragmentKind {
    open spec fn rendered(&self, indent: usize) -> Seq<char> {
        render_kind(*self, indent)
    }

    fn to_string(self, meta: &mut TranslateMetadata) -> (s: String) {
        string_of(&self.render(meta.indent))
    }

    fn to_frag(self) -> (f: FragmentKind)
        ensures
            f == self,
    {
        self
    }
}

impl FragmentRenderable for Fragments {
    open spec fn rendered(&self, indent: usize) -> Seq<char> {
        render_kind(self.fragment, indent)
    }

    fn to_string(self, meta: &mut TranslateMetadata) -> (s: String) {
        self.fragment.to_string(meta)
    }

    fn to_frag(self) -> (f: FragmentKind)
        ensures
            f == self.fragment,
    {
        self.fragment
    }
}

impl FragmentRenderable for BlockFragment {
    open spec fn rendered(&self, indent: usize) -> Seq<char> {
        render_block(*self, indent)
    }

    fn to_string(self, meta: &mut TranslateMetadata) -> (s: String) {
        string_of(&self.render(meta.indent))
    }

    fn to_frag(self) -> (f: FragmentKind)
        ensures
            f == FragmentKind::Block(self),
    {
        FragmentKind::Block(self)
    }
}

impl FragmentRenderable for RawFragment {
    open spec fn rendered(&self, indent: usize) -> Seq<char> {
        pad(indent as nat) + self.value@
    }

    fn to_string(self, meta: &mut TranslateMetadata) -> (s: String) {
        FragmentKind::Raw(self).to_string(meta)
    }

    fn to_frag(self) -> (f: FragmentKind)
        ensures
            f == FragmentKind::Raw(self),
    {
        FragmentKind::Raw(self)
    }
}

impl FragmentRenderable for VarExprFragment {
    open spec fn rendered(&self, indent: usize) -> Seq<char> {
        self.name@
    }

    fn to_string(self, meta: &mut TranslateMetadata) -> (s: String) {
        self.name
    }

    fn to_frag(self) -> (f: FragmentKind)
        ensures
            f == FragmentKind::VarExpr(self),
    {
        FragmentKind::VarExpr(self)
    }
}

impl FragmentRenderable for VarStmtFragment {
    open spec fn rendered(&self, indent: usize) -> Seq<char> {
        render_var_stmt(*self, indent)
    }

    fn to_string(self, meta: &mut TranslateMetadata) -> (s: String) {
        string_of(&self.render(meta.indent))
    }

    fn to_frag(self) -> (f: FragmentKind)
        ensures
            f == FragmentKind::VarStmt(self),
    {
        FragmentKind::VarStmt(self)
    }
}

impl FragmentRenderable for ListFragment {
    open spec fn rendered(&self, indent: usize) -> Seq<char> {
        render_list(*self)
    }

    fn to_string(self, meta: &mut TranslateMetadata) -> (s: String) {
        string_of(&self.render())
    }

    fn to_frag(self) -> (f: FragmentKind)
        ensures
            f == FragmentKind::List(self),
    {
        FragmentKind::List(self)
    }
}

impl FragmentRenderable for InterpolableFragment {
    open spec fn rendered(&self, indent: usize) -> Seq<char> {
        render_interpolable(*self)
    }

    fn to_string(self, meta: &mut TranslateMetadata) -> (s: String) {
        string_of(&self.render())
    }

    fn to_frag(self) -> (f: FragmentKind)
        ensures
            f == FragmentKind::Interpolable(self),
    {
        FragmentKind::Interpolable(self)
    }
}

impl FragmentRenderable for IfFragment {
    open spec fn rendered(&self, indent: usize) -> Seq<char> {
        render_if(*self, indent)
    }

    fn to_string(self, meta: &mut TranslateMetadata) -> (s: String) {
        string_of(&self.render(meta.indent))
    }

    fn to_frag(self) -> (f: FragmentKind)
        ensures
            f == FragmentKind::If(self),
    {
        FragmentKind::If(self)
    }
}

impl FragmentRenderable for WhileFragment {
    open spec fn rendered(&self, indent: usize) -> Seq<char> {
        render_while(*self, indent)
    }

    fn to_string(self, meta: &mut TranslateMetadata) -> (s: String) {
        string_of(&self.render(meta.indent))
    }

    fn to_frag(self) -> (f: FragmentKind)
        ensures
            f == FragmentKind::While(self),
    {
        FragmentKind::While(self)
    }
}

impl FragmentRenderable for ForFragment {
    open spec fn rendered(&self, indent: usize) -> Seq<char> {
        render_for(*self, indent)
    }

    fn to_string(self, meta: &mut TranslateMetadata) -> (s: String) {
        string_of(&self.render(meta.indent))
    }

    fn to_frag(self) -> (f: FragmentKind)
        ensures
            f == FragmentKind::For(self),
    {
        FragmentKind::For(self)
    }
}

impl FragmentRenderable for FunctionFragment {
    open spec fn rendered(&self, indent: usize) -> Seq<char> {
        render_function(*self, indent)
    }

    fn to_string(self, meta: &mut TranslateMetadata) -> (s: String) {
        string_of(&self.render(meta.indent))
    }

    fn to_frag(self) -> (f: FragmentKind)
        ensures
            f == FragmentKind::Function(self),
    {
        FragmentKind::Function(self)
    }
}

impl FragmentRenderable for IfChainFragment {
    open spec fn rendered(&self, indent: usize) -> Seq<char> {
        render_if_chain(*self, indent)
    }

    fn to_string(self, meta: &mut TranslateMetadata) -> (s: String) {
        string_of(&self.render(meta.indent))
    }

    fn to_frag(self) -> (f: FragmentKind)
        ensures
            f == FragmentKind::IfChain(self),
    {
        FragmentKind::IfChain(self)
    }
}

} // verus!
