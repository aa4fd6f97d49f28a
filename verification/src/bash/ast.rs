//! The syntax tree of a Bash script.
use vstd::prelude::*;

use crate::text::string_texts;

verus! {

#[derive(Debug)]
pub struct Program {
    pub statements: Vec<Command>,
}

#[derive(Debug)]
pub enum Command {
    Simple(SimpleCommand),
    Connection(Connection),
    If(IfCommand),
    While(WhileCommand),
    For(ForCommand),
    CStyleFor(CStyleForCommand),
    Case(CaseCommand),
    Function(FunctionDef),
    Group(Vec<Command>),
    /// A command run in the background with `&`.
    Background(Box<Command>),
    /// An arithmetic command `(( ... ))`.
    Arithmetic(ArithmeticCommand),
}

#[derive(Debug)]
pub struct SimpleCommand {
    pub words: Vec<String>,
}

#[derive(Debug)]
pub struct Connection {
    pub left: Box<Command>,
    pub op: Connector,
    pub right: Box<Command>,
}

#[derive(Debug, Clone, Copy, PartialEq, Eq, Structural)]
pub enum Connector {
    Pipe,
    And,
    Or,
}

#[derive(Debug)]
pub struct IfCommand {
    pub condition: Box<Command>,
    pub then_body: Vec<Command>,
    pub else_body: Option<Vec<Command>>,
}

#[derive(Debug)]
pub struct WhileCommand {
    pub condition: Box<Command>,
    pub body: Vec<Command>,
}

#[derive(Debug)]
pub struct ForCommand {
    pub variable: String,
    pub items: Vec<String>,
    pub body: Vec<Command>,
}

#[derive(Debug)]
pub struct CStyleForCommand {
    pub init: String,
    pub condition: String,
    pub update: String,
    pub body: Vec<Command>,
}

#[derive(Debug)]
pub struct CaseCommand {
    pub word: String,
    pub clauses: Vec<CaseClause>,
}

#[derive(Debug)]
pub struct CaseClause {
    pub patterns: Vec<String>,
    pub body: Vec<Command>,
    pub terminator: CaseClauseTerminator,
}

#[derive(Debug, Clone, Copy, PartialEq, Eq, Structural)]
pub enum CaseClauseTerminator {
    Break,
    Fallthrough,
    TestNext,
    End,
}

#[derive(Debug)]
pub struct FunctionDef {
    pub name: String,
    pub body: Vec<Command>,
}

#[derive(Debug)]
pub struct ArithmeticCommand {
    pub expression: String,
}

/// A command as plain values: words and texts as character sequences, bodies as sequences.
pub enum CommandView {
    Simple(Seq<Seq<char>>),
    Connection(Box<CommandView>, Connector, Box<CommandView>),
    If(Box<CommandView>, Seq<CommandView>, Option<Seq<CommandView>>),
    While(Box<CommandView>, Seq<CommandView>),
    For(Seq<char>, Seq<Seq<char>>, Seq<CommandView>),
    CStyleFor(Seq<char>, Seq<char>, Seq<char>, Seq<CommandView>),
    Case(Seq<char>, Seq<ClauseView>),
    Function(Seq<char>, Seq<CommandView>),
    Group(Seq<CommandView>),
    Background(Box<CommandView>),
    Arithmetic(Seq<char>),
}

/// A case clause as plain values.
pub struct ClauseView {
    pub patterns: Seq<Seq<char>>,
    pub body: Seq<CommandView>,
    pub terminator: CaseClauseTerminator,
}

impl Command {
    /// This command as plain values.
    pub open spec fn tree(self) -> CommandView
        decreases self,
    {
        match self {
            Command::Simple(s) => CommandView::Simple(string_texts(s.words@)),
            Command::Connection(c) => CommandView::Connection(Box::new(c.left.tree()), c.op, Box::new(c.right.tree())),
            Command::If(i) => CommandView::If(
                Box::new(i.condition.tree()),
                trees(i.then_body@),
                match i.else_body {
                    Some(b) => Some(trees(b@)),
                    None => None,
                },
            ),
            Command::While(w) => CommandView::While(Box::new(w.condition.tree()), trees(w.body@)),
            Command::For(f) => CommandView::For(f.variable@, string_texts(f.items@), trees(f.body@)),
            Command::CStyleFor(f) => CommandView::CStyleFor(f.init@, f.condition@, f.update@, trees(f.body@)),
            Command::Case(c) => CommandView::Case(c.word@, clause_trees(c.clauses@)),
            Command::Function(f) => CommandView::Function(f.name@, trees(f.body@)),
            Command::Group(b) => CommandView::Group(trees(b@)),
            Command::Background(b) => CommandView::Background(Box::new(b.tree())),
            Command::Arithmetic(a) => CommandView::Arithmetic(a.expression@),
        }
    }
}

/// Commands as plain values.
pub open spec fn trees(cs: Seq<Command>) -> Seq<CommandView>
    decreases cs,
{
    if cs.len() == 0 {
        seq![]
    } else {
        trees(cs.drop_last()).push(cs.last().tree())
    }
}

pub proof fn lemma_trees_push(cs: Seq<Command>, c: Command)
    ensures
        trees(cs.push(c)) == trees(cs).push(c.tree()),
{
    assert(cs.push(c).drop_last() =~= cs);
}

pub proof fn lemma_trees_len(cs: Seq<Command>)
    ensures
        trees(cs).len() == cs.len(),
    decreases cs.len(),
{
    if cs.len() > 0 {
        lemma_trees_len(cs.drop_last());
    }
}

pub proof fn lemma_clause_trees_push(cs: Seq<CaseClause>, c: CaseClause)
    ensures
        clause_trees(cs.push(c)) == clause_trees(cs).push(
            ClauseView { patterns: string_texts(c.patterns@), body: trees(c.body@), terminator: c.terminator },
        ),
{
    assert(cs.push(c).drop_last() =~= cs);
}

pub proof fn lemma_trees_index(cs: Seq<Command>)
    ensures
        trees(cs).len() == cs.len(),
        forall|k: int| 0 <= k < cs.len() ==> #[trigger] trees(cs)[k] == cs[k].tree(),
    decreases cs.len(),
{
    if cs.len() > 0 {
        lemma_trees_index(cs.drop_last());
    }
}

pub proof fn lemma_clause_trees_index(cs: Seq<CaseClause>)
    ensures
        clause_trees(cs).len() == cs.len(),
        forall|k: int| 0 <= k < cs.len() ==> (#[trigger] clause_trees(cs)[k]).body == trees(cs[k].body@),
    decreases cs.len(),
{
    if cs.len() > 0 {
        lemma_clause_trees_index(cs.drop_last());
    }
}

/// Case clauses as plain values.
pub open spec fn clause_trees(cs: Seq<CaseClause>) -> Seq<ClauseView>
    decreases cs,
{
    if cs.len() == 0 {
        seq![]
    } else {
        clause_trees(cs.drop_last()).push(
            ClauseView { patterns: string_texts(cs.last().patterns@), body: trees(cs.last().body@), terminator: cs.last().terminator },
        )
    }
}

} // verus!
