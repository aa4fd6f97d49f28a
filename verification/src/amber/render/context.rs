//! The state of a rendering pass: variable names, function signatures, positional
//! parameter scopes, and warnings.
use vstd::prelude::*;
use vstd::set_lib::lemma_len_subset;
use super::syntax::{
    is_reserved_keyword, normalize_identifier, spec_is_reserved_keyword, spec_normalize_identifier,
    GlobalVarType,
};
use crate::text::{
    chars_of, decimal, eq_lit, push_all, push_str, spec_is_identifier, spec_is_word_char, string_of,
    u128_to_decimal,
};

verus! {

// ---------------------------------------------------------------------------
// Function signatures and type comments
// ---------------------------------------------------------------------------

/// A parameter of a `##` type comment: an optional name and a type.
pub struct TypeCommentParam {
    pub name: Option<String>,
    pub type_label: String,
}

/// What a type comment says a function returns.
pub enum TypeCommentReturnContract {
    Null,
    TypedVariable { type_label: String, variable_name: String },
}

/// A parsed `## (params): Return` comment.
pub struct TypeCommentSignature {
    pub params: Vec<TypeCommentParam>,
    pub return_contract: TypeCommentReturnContract,
}

/// The type comment above a function definition, if any.
pub enum FunctionTypeHint {
    Missing,
    Invalid,
    Typed(TypeCommentSignature),
}

/// A function definition found in the source text, with its line and type comment.
pub struct FunctionHint {
    pub function_line: usize,
    pub type_hint: FunctionTypeHint,
}

/// How a function is rendered.
#[derive(Debug, Clone, Copy, PartialEq, Eq, Structural)]
pub enum FunctionRenderMode {
    /// An Amber function.
    Native,
    /// An Amber function whose body may hold shell fallbacks (it uses `$@` or `$*`).
    ShallowFallback,
    /// The whole definition as a shell command.
    FullFallback,
}

/// What the renderer knows of a Bash function.
pub struct FunctionSig {
    pub amber_name: String,
    pub arity: usize,
    pub returns_value: bool,
    pub render_mode: FunctionRenderMode,
    pub typed_signature: Option<TypeCommentSignature>,
    pub global_vars: Vec<(String, GlobalVarType)>,
}

/// A warning to show the user.
pub struct Warning {
    pub message: String,
    pub comment: Option<String>,
}

fn clone_opt_string(s: &Option<String>) -> (r: Option<String>)
    ensures
        r == *s,
{
    match s {
        Some(x) => Some(x.clone()),
        None => None,
    }
}

impl TypeCommentParam {
    pub fn copy(&self) -> (r: Self)
        ensures
            r == *self,
    {
        TypeCommentParam { name: clone_opt_string(&self.name), type_label: self.type_label.clone() }
    }
}

impl TypeCommentReturnContract {
    pub fn copy(&self) -> (r: Self)
        ensures
            r == *self,
    {
        match self {
            TypeCommentReturnContract::Null => TypeCommentReturnContract::Null,
            TypeCommentReturnContract::TypedVariable { type_label, variable_name } => {
                TypeCommentReturnContract::TypedVariable {
                    type_label: type_label.clone(),
                    variable_name: variable_name.clone(),
                }
            },
        }
    }
}

impl TypeCommentSignature {
    pub fn copy(&self) -> (r: Self)
        ensures
            r.params@ == self.params@,
            r.return_contract == self.return_contract,
    {
        let mut params = Vec::new();
        let mut k: usize = 0;
        while k < self.params.len()
            invariant
                k <= self.params@.len(),
                params@ == self.params@.take(k as int),
            decreases self.params@.len() - k,
        {
            params.push(self.params[k].copy());
            assert(params@ =~= self.params@.take(k + 1));
            k += 1;
        }
        assert(params@ =~= self.params@);
        TypeCommentSignature { params, return_contract: self.return_contract.copy() }
    }
}

pub open spec fn same_signature(a: Option<TypeCommentSignature>, b: Option<TypeCommentSignature>) -> bool {
    match (a, b) {
        (Some(x), Some(y)) => x.params@ == y.params@ && x.return_contract == y.return_contract,
        (None, None) => true,
        _ => false,
    }
}

/// What a return contract says, as plain values.
pub enum ReturnView {
    Null,
    TypedVariable(Seq<char>, Seq<char>),
}

/// What a type comment says, as plain values: each parameter's name (if any) and type, and
/// the return contract.
pub enum HintView {
    Missing,
    Invalid,
    Typed(Seq<(Option<Seq<char>>, Seq<char>)>, ReturnView),
}

impl TypeCommentParam {
    pub open spec fn view_of(self) -> (Option<Seq<char>>, Seq<char>) {
        (
            match self.name {
                Some(n) => Some(n@),
                None => None,
            },
            self.type_label@,
        )
    }
}

impl TypeCommentReturnContract {
    pub open spec fn view_of(self) -> ReturnView {
        match self {
            TypeCommentReturnContract::Null => ReturnView::Null,
            TypeCommentReturnContract::TypedVariable { type_label, variable_name } => ReturnView::TypedVariable(
                type_label@,
                variable_name@,
            ),
        }
    }
}

pub open spec fn params_view(params: Seq<TypeCommentParam>) -> Seq<(Option<Seq<char>>, Seq<char>)> {
    params.map_values(|p: TypeCommentParam| p.view_of())
}

impl FunctionHint {
    pub open spec fn view_of(self) -> (nat, HintView) {
        (self.function_line as nat, self.type_hint.view_of())
    }
}

impl FunctionTypeHint {
    pub open spec fn view_of(self) -> HintView {
        match self {
            FunctionTypeHint::Missing => HintView::Missing,
            FunctionTypeHint::Invalid => HintView::Invalid,
            FunctionTypeHint::Typed(sig) => HintView::Typed(params_view(sig.params@), sig.return_contract.view_of()),
        }
    }

    pub open spec fn same_as(self, other: Self) -> bool {
        match (self, other) {
            (FunctionTypeHint::Missing, FunctionTypeHint::Missing) => true,
            (FunctionTypeHint::Invalid, FunctionTypeHint::Invalid) => true,
            (FunctionTypeHint::Typed(x), FunctionTypeHint::Typed(y)) => x.params@ == y.params@
                && x.return_contract == y.return_contract,
            _ => false,
        }
    }

    pub fn copy(&self) -> (r: Self)
        ensures
            r.same_as(*self),
    {
        match self {
            FunctionTypeHint::Missing => FunctionTypeHint::Missing,
            FunctionTypeHint::Invalid => FunctionTypeHint::Invalid,
            FunctionTypeHint::Typed(sig) => FunctionTypeHint::Typed(sig.copy()),
        }
    }
}

impl FunctionHint {
    pub fn copy(&self) -> (r: Self)
        ensures
            r.function_line == self.function_line,
            r.type_hint.same_as(self.type_hint),
    {
        FunctionHint { function_line: self.function_line, type_hint: self.type_hint.copy() }
    }
}

impl FunctionSig {
    /// Equality of everything but the element identity of the nested vectors.
    pub open spec fn same_as(self, other: Self) -> bool {
        &&& self.amber_name == other.amber_name
        &&& self.arity == other.arity
        &&& self.returns_value == other.returns_value
        &&& self.render_mode == other.render_mode
        &&& same_signature(self.typed_signature, other.typed_signature)
        &&& self.global_vars@ == other.global_vars@
    }

    pub fn copy(&self) -> (r: Self)
        ensures
            r.same_as(*self),
    {
        let typed_signature = match &self.typed_signature {
            Some(s) => Some(s.copy()),
            None => None,
        };
        let mut global_vars = Vec::new();
        let mut k: usize = 0;
        while k < self.global_vars.len()
            invariant
                k <= self.global_vars@.len(),
                global_vars@ == self.global_vars@.take(k as int),
            decreases self.global_vars@.len() - k,
        {
            let (name, ty) = &self.global_vars[k];
            global_vars.push((name.clone(), *ty));
            assert(global_vars@ =~= self.global_vars@.take(k + 1));
            k += 1;
        }
        assert(global_vars@ =~= self.global_vars@);
        FunctionSig {
            amber_name: self.amber_name.clone(),
            arity: self.arity,
            returns_value: self.returns_value,
            render_mode: self.render_mode,
            typed_signature,
            global_vars,
        }
    }
}

// ---------------------------------------------------------------------------
// Association lists keyed by name
// ---------------------------------------------------------------------------

/// No key occurs twice.
pub open spec fn keys_unique<V>(entries: Seq<(String, V)>) -> bool {
    forall|i: int, j: int|
        0 <= i < entries.len() && 0 <= j < entries.len() && (#[trigger] entries[i]).0@ == (#[trigger] entries[j]).0@
            ==> i == j
}

/// Whether `key` has an entry.
pub open spec fn has_key<V>(entries: Seq<(String, V)>, key: Seq<char>) -> bool {
    exists|i: int| 0 <= i < entries.len() && (#[trigger] entries[i]).0@ == key
}

/// The value stored under `key`.
pub open spec fn value_of<V>(entries: Seq<(String, V)>, key: Seq<char>) -> Option<V> {
    if has_key(entries, key) {
        let i = choose|i: int| 0 <= i < entries.len() && (#[trigger] entries[i]).0@ == key;
        Some(entries[i].1)
    } else {
        None
    }
}

pub proof fn lemma_value_at<V>(entries: Seq<(String, V)>, key: Seq<char>, i: int)
    requires
        keys_unique(entries),
        0 <= i < entries.len(),
        entries[i].0@ == key,
    ensures
        value_of(entries, key) == Some(entries[i].1),
{
    let j = choose|j: int| 0 <= j < entries.len() && (#[trigger] entries[j]).0@ == key;
    assert(entries[j].0@ == entries[i].0@);
}

/// The index of `key`, found by a scan.
pub fn find_key<V>(entries: &Vec<(String, V)>, key: &[char]) -> (r: Option<usize>)
    requires
        keys_unique(entries@),
    ensures
        match r {
            Some(i) => i < entries@.len() && entries@[i as int].0@ == key@ && value_of(entries@, key@) == Some(entries@[i as int].1),
            None => !has_key(entries@, key@) && value_of(entries@, key@) is None,
        },
{
    let mut i: usize = 0;
    while i < entries.len()
        invariant
            i <= entries@.len(),
            keys_unique(entries@),
            forall|j: int| 0 <= j < i ==> (#[trigger] entries@[j]).0@ != key@,
        decreases entries@.len() - i,
    {
        if eq_lit(key, entries[i].0.as_str()) {
            proof {
                lemma_value_at(entries@, key@, i as int);
            }
            return Some(i);
        }
        i += 1;
    }
    None
}

/// Stores `value` under `key`, replacing an earlier value.
pub fn set_key<V>(entries: &mut Vec<(String, V)>, key: String, value: V)
    requires
        keys_unique(old(entries)@),
    ensures
        keys_unique(final(entries)@),
        forall|k: Seq<char>| #[trigger] value_of(final(entries)@, k) == (if k == key@ {
            Some(value)
        } else {
            value_of(old(entries)@, k)
        }),
{
    let ghost before = entries@;
    let kc = chars_of(key.as_str());
    match find_key(entries, &kc) {
        Some(i) => {
            entries.set(i, (key, value));
            proof {
                assert forall|a: int, b: int|
                    0 <= a < entries@.len() && 0 <= b < entries@.len() && (#[trigger] entries@[a]).0@
                        == (#[trigger] entries@[b]).0@ implies a == b by {
                    if a != i && b != i {
                        assert(before[a].0@ == before[b].0@);
                    } else if a == i && b != i {
                        assert(before[b].0@ == before[i as int].0@);
                    } else if b == i && a != i {
                        assert(before[a].0@ == before[i as int].0@);
                    }
                }
                assert forall|k: Seq<char>| #[trigger] value_of(entries@, k) == (if k == key@ {
                    Some(value)
                } else {
                    value_of(before, k)
                }) by {
                    if k == key@ {
                        lemma_value_at(entries@, k, i as int);
                    } else if has_key(before, k) {
                        let j = choose|j: int| 0 <= j < before.len() && (#[trigger] before[j]).0@ == k;
                        lemma_value_at(before, k, j);
                        assert(j != i);
                        assert(entries@[j] == before[j]);
                        lemma_value_at(entries@, k, j);
                    } else {
                        assert forall|j: int| 0 <= j < entries@.len() implies (#[trigger] entries@[j]).0@ != k by {
                            if j != i {
                                assert(entries@[j] == before[j]);
                            }
                        }
                    }
                }
            }
        },
        None => {
            entries.push((key, value));
            proof {
                let n = before.len() as int;
                assert forall|a: int, b: int|
                    0 <= a < entries@.len() && 0 <= b < entries@.len() && (#[trigger] entries@[a]).0@
                        == (#[trigger] entries@[b]).0@ implies a == b by {
                    if a < n && b < n {
                        assert(entries@[a] == before[a] && entries@[b] == before[b]);
                    } else if a < n {
                        assert(entries@[a] == before[a]);
                    } else if b < n {
                        assert(entries@[b] == before[b]);
                    }
                }
                assert forall|k: Seq<char>| #[trigger] value_of(entries@, k) == (if k == key@ {
                    Some(value)
                } else {
                    value_of(before, k)
                }) by {
                    if k == key@ {
                        lemma_value_at(entries@, k, n);
                    } else if has_key(before, k) {
                        let j = choose|j: int| 0 <= j < before.len() && (#[trigger] before[j]).0@ == k;
                        lemma_value_at(before, k, j);
                        assert(entries@[j] == before[j]);
                        lemma_value_at(entries@, k, j);
                    } else {
                        assert forall|j: int| 0 <= j < entries@.len() implies (#[trigger] entries@[j]).0@ != k by {
                            if j < n {
                                assert(entries@[j] == before[j]);
                            }
                        }
                    }
                }
            }
        },
    }
}

/// Whether the name `n` is one of `names`.
pub open spec fn has_name(names: Seq<String>, n: Seq<char>) -> bool {
    exists|i: int| 0 <= i < names.len() && (#[trigger] names[i])@ == n
}

fn contains_name(names: &Vec<String>, n: &[char]) -> (r: bool)
    ensures
        r == has_name(names@, n@),
{
    let mut i: usize = 0;
    while i < names.len()
        invariant
            i <= names@.len(),
            forall|j: int| 0 <= j < i ==> (#[trigger] names@[j])@ != n@,
        decreases names@.len() - i,
    {
        if eq_lit(n, names[i].as_str()) {
            return true;
        }
        i += 1;
    }
    false
}

/// Adds `n` to `names` unless it is there.
fn insert_name(names: &mut Vec<String>, n: String)
    ensures
        forall|m: Seq<char>| #[trigger] has_name(final(names)@, m) == (has_name(old(names)@, m) || m == n@),
        final(names)@.len() <= old(names)@.len() + 1,
        forall|i: int| 0 <= i < old(names)@.len() ==> final(names)@[i] == old(names)@[i],
{
    let nc = chars_of(n.as_str());
    if !contains_name(names, &nc) {
        let ghost before = names@;
        names.push(n);
        proof {
            assert forall|m: Seq<char>| #[trigger] has_name(names@, m) == (has_name(before, m) || m == nc@) by {
                if has_name(before, m) {
                    let j = choose|j: int| 0 <= j < before.len() && (#[trigger] before[j])@ == m;
                    assert(names@[j] == before[j]);
                }
                if has_name(names@, m) && m != nc@ {
                    let j = choose|j: int| 0 <= j < names@.len() && (#[trigger] names@[j])@ == m;
                    assert(j < before.len());
                    assert(names@[j] == before[j]);
                }
                if m == nc@ {
                    assert(names@[before.len() as int]@ == m);
                }
            }
        }
    }
}

/// Same length, and the same line and type comment at each place.
pub open spec fn same_hints(a: Seq<FunctionHint>, b: Seq<FunctionHint>) -> bool {
    &&& a.len() == b.len()
    &&& forall|i: int| 0 <= i < a.len() ==> (#[trigger] a[i]).function_line == b[i].function_line
        && a[i].type_hint.same_as(b[i].type_hint)
}

fn copy_hints(v: &Vec<FunctionHint>) -> (r: Vec<FunctionHint>)
    ensures
        same_hints(r@, v@),
{
    let mut r: Vec<FunctionHint> = Vec::new();
    let mut k: usize = 0;
    while k < v.len()
        invariant
            k <= v@.len(),
            r@.len() == k,
            forall|i: int| 0 <= i < k ==> (#[trigger] r@[i]).function_line == v@[i].function_line
                && r@[i].type_hint.same_as(v@[i].type_hint),
        decreases v@.len() - k,
    {
        r.push(v[k].copy());
        k += 1;
    }
    r
}

fn copy_names(v: &Vec<String>) -> (r: Vec<String>)
    ensures
        r@ == v@,
{
    let mut r: Vec<String> = Vec::new();
    let mut k: usize = 0;
    while k < v.len()
        invariant
            k <= v@.len(),
            r@ == v@.take(k as int),
        decreases v@.len() - k,
    {
        r.push(v[k].clone());
        assert(r@ =~= v@.take(k + 1));
        k += 1;
    }
    assert(r@ =~= v@);
    r
}

proof fn lemma_has_key_skip<V>(entries: Seq<(String, V)>, key: Seq<char>, n: int)
    requires
        0 < n <= entries.len(),
    ensures
        has_key(entries.skip(n - 1), key) == (has_key(entries.skip(n), key) || entries[n - 1].0@ == key),
{
    if has_key(entries.skip(n - 1), key) {
        let j = choose|j: int| 0 <= j < entries.len() - (n - 1) && (#[trigger] entries.skip(n - 1)[j]).0@ == key;
        if j > 0 {
            assert(entries.skip(n)[j - 1] == entries.skip(n - 1)[j]);
        }
    }
    if has_key(entries.skip(n), key) {
        let j = choose|j: int| 0 <= j < entries.len() - n && (#[trigger] entries.skip(n)[j]).0@ == key;
        assert(entries.skip(n - 1)[j + 1] == entries.skip(n)[j]);
    }
    if entries[n - 1].0@ == key {
        assert(entries.skip(n - 1)[0] == entries[n - 1]);
    }
}

/// Stores every entry of `source` in `target`, replacing values under the same key.
fn merge_entries<V>(target: &mut Vec<(String, V)>, source: Vec<(String, V)>)
    requires
        keys_unique(old(target)@),
        keys_unique(source@),
    ensures
        keys_unique(final(target)@),
        forall|k: Seq<char>| #[trigger] value_of(final(target)@, k) == (match value_of(source@, k) {
            Some(v) => Some(v),
            None => value_of(old(target)@, k),
        }),
{
    let ghost src = source@;
    let ghost t0 = target@;
    let mut rest = source;
    assert(rest@.take(rest@.len() as int) =~= src);
    while rest.len() > 0
        invariant
            keys_unique(target@),
            keys_unique(src),
            rest@.len() <= src.len(),
            rest@ == src.take(rest@.len() as int),
            forall|k: Seq<char>| #[trigger] value_of(target@, k) == (if has_key(src.skip(rest@.len() as int), k) {
                value_of(src, k)
            } else {
                value_of(t0, k)
            }),
        decreases rest@.len(),
    {
        let ghost n = rest@.len() as int;
        match rest.pop() {
            Some(entry) => {
                let (key, value) = entry;
                assert(src[n - 1] == src.take(n)[n - 1]);
                set_key(target, key, value);
                proof {
                    assert(rest@ =~= src.take(n - 1));
                    lemma_value_at(src, src[n - 1].0@, n - 1);
                    assert forall|k: Seq<char>| #[trigger] value_of(target@, k) == (if has_key(src.skip(n - 1), k) {
                        value_of(src, k)
                    } else {
                        value_of(t0, k)
                    }) by {
                        lemma_has_key_skip(src, k, n);
                    }
                }
            },
            None => {},
        }
    }
    assert(src.skip(0) =~= src);
}

// ---------------------------------------------------------------------------
// The context
// ---------------------------------------------------------------------------

pub struct RenderContext {
    /// Bash variable name to Amber variable name.
    pub var_aliases: Vec<(String, String)>,
    /// Amber names declared so far.
    pub declared_vars: Vec<String>,
    /// Bash function name to signature.
    pub functions: Vec<(String, FunctionSig)>,
    /// Positional parameter names of enclosing functions, innermost last; the name of `$k`
    /// is the element `k - 1`.
    pub positional_scopes: Vec<Vec<String>>,
    /// Function definitions found in the source text, by name.
    pub function_hints: Vec<(String, Vec<FunctionHint>)>,
    /// How many definitions of each name have been rendered.
    pub function_hint_cursors: Vec<(String, usize)>,
    /// Variables that hold the return value of enclosing functions, innermost last.
    pub return_var_stack: Vec<String>,
    pub source_path: Option<String>,
    pub warnings: Vec<Warning>,
}

/// Whether `n` is an Amber name already in use: declared, or the target of an alias.
pub open spec fn name_taken(ctx: RenderContext, n: Seq<char>) -> bool {
    has_name(ctx.declared_vars@, n) || exists|i: int| 0 <= i < ctx.var_aliases@.len() && (#[trigger] ctx.var_aliases@[i]).1@ == n
}

/// The `k`-th alternative to `base`: `base_k`.
pub open spec fn numbered(base: Seq<char>, k: nat) -> Seq<char> {
    base + "_"@ + decimal(k)
}

/// The name a fresh variable `raw` would get: its identifier form (with `_var` added to a
/// reserved word), or the first of `_2`, `_3`, ... added to it that is not taken.
pub open spec fn base_var_name(raw: Seq<char>) -> Seq<char> {
    let c = spec_normalize_identifier(raw);
    if spec_is_reserved_keyword(c) {
        c + "_var"@
    } else {
        c
    }
}

/// Whether `k` (at least 2) is the first number whose alternative `base_k` is free.
pub open spec fn first_free_index(ctx: RenderContext, base: Seq<char>, k: nat) -> bool {
    &&& k >= 2
    &&& !name_taken(ctx, numbered(base, k))
    &&& forall|j: nat| 2 <= j < k ==> name_taken(ctx, #[trigger] numbered(base, j))
}

/// The name a fresh variable `raw` gets: [`base_var_name`] when it is free, else the first
/// free one of its numbered alternatives.
pub open spec fn fresh_var_name(ctx: RenderContext, raw: Seq<char>) -> Seq<char> {
    let base = base_var_name(raw);
    if !name_taken(ctx, base) {
        base
    } else {
        numbered(base, choose|k: nat| first_free_index(ctx, base, k))
    }
}

/// The Amber name that declaring `raw` in `ctx` gives: its alias when it has one, else a
/// fresh name.
pub open spec fn declared_name(ctx: RenderContext, raw: Seq<char>) -> Seq<char> {
    match value_of(ctx.var_aliases@, raw) {
        Some(a) => a@,
        None => fresh_var_name(ctx, raw),
    }
}

proof fn lemma_first_free_unique(ctx: RenderContext, base: Seq<char>, a: nat, b: nat)
    requires
        first_free_index(ctx, base, a),
        first_free_index(ctx, base, b),
    ensures
        a == b,
{
    if a < b {
        assert(name_taken(ctx, numbered(base, a)));
    } else if b < a {
        assert(name_taken(ctx, numbered(base, b)));
    }
}

/// The positional parameter `index` of the innermost scope that has it.
pub open spec fn positional_in(scopes: Seq<Vec<String>>, index: usize) -> Option<String>
    decreases scopes.len(),
{
    if scopes.len() == 0 || index == 0 {
        None
    } else if index <= scopes.last()@.len() {
        Some(scopes.last()@[index - 1])
    } else {
        positional_in(scopes.drop_last(), index)
    }
}

/// The Amber name of the declared Bash variable `name`, as characters.
pub open spec fn var_of(ctx: RenderContext, name: Seq<char>) -> Option<Seq<char>> {
    match ctx.spec_resolve_var(name) {
        Some(a) => Some(a@),
        None => None,
    }
}

/// The Amber name of the positional parameter `index`, as characters.
pub open spec fn pos_of(ctx: RenderContext, index: usize) -> Option<Seq<char>> {
    match positional_in(ctx.positional_scopes@, index) {
        Some(a) => Some(a@),
        None => None,
    }
}

/// `b` differs from `a` at most in its variable bindings and declarations.
pub open spec fn same_but_vars(a: RenderContext, b: RenderContext) -> bool {
    &&& b.functions == a.functions
    &&& b.positional_scopes == a.positional_scopes
    &&& b.function_hints == a.function_hints
    &&& b.function_hint_cursors == a.function_hint_cursors
    &&& b.return_var_stack == a.return_var_stack
    &&& b.source_path == a.source_path
    &&& b.warnings == a.warnings
}

/// `b` is `a` after taking over what the child scope `child` learned: its bindings and
/// declarations, its functions (each replacing the one of the same name), the larger of the
/// two cursors of each function, and its warnings.
pub open spec fn merged(a: RenderContext, child: RenderContext, b: RenderContext) -> bool {
    &&& b.wf()
    &&& forall|k: Seq<char>| #[trigger] value_of(b.var_aliases@, k) == (match value_of(child.var_aliases@, k) {
        Some(v) => Some(v),
        None => value_of(a.var_aliases@, k),
    })
    &&& forall|m: Seq<char>| #[trigger] has_name(b.declared_vars@, m) == (has_name(a.declared_vars@, m) || has_name(child.declared_vars@, m))
    &&& forall|k: Seq<char>| #[trigger] value_of(b.functions@, k) == (match value_of(child.functions@, k) {
        Some(v) => Some(v),
        None => value_of(a.functions@, k),
    })
    &&& forall|k: Seq<char>| #[trigger] value_of(b.function_hint_cursors@, k) == (match (value_of(a.function_hint_cursors@, k), value_of(child.function_hint_cursors@, k)) {
        (Some(x), Some(y)) => Some(if x < y { y } else { x }),
        (None, Some(y)) => Some(y),
        (x, None) => x,
    })
    &&& b.warnings@ == a.warnings@ + child.warnings@
    &&& b.positional_scopes == a.positional_scopes
    &&& b.function_hints == a.function_hints
    &&& b.return_var_stack == a.return_var_stack
    &&& b.source_path == a.source_path
}

/// `c` is a copy of `parent` for a nested block, as `with_child_scope` makes it.
pub open spec fn child_of(parent: RenderContext, c: RenderContext) -> bool {
    &&& c.wf()
    &&& c.var_aliases@ == parent.var_aliases@
    &&& c.declared_vars@ == parent.declared_vars@
    &&& c.functions@.len() == parent.functions@.len()
    &&& forall|i: int| 0 <= i < parent.functions@.len() ==> (#[trigger] c.functions@[i]).0 == parent.functions@[i].0 && c.functions@[i].1.same_as(parent.functions@[i].1)
    &&& c.positional_scopes@.len() == parent.positional_scopes@.len()
    &&& forall|i: int| 0 <= i < parent.positional_scopes@.len() ==> (#[trigger] c.positional_scopes@[i])@ == parent.positional_scopes@[i]@
    &&& c.function_hints@.len() == parent.function_hints@.len()
    &&& forall|i: int| 0 <= i < parent.function_hints@.len() ==> (#[trigger] c.function_hints@[i]).0 == parent.function_hints@[i].0 && same_hints(c.function_hints@[i].1@, parent.function_hints@[i].1@)
    &&& c.function_hint_cursors@ == parent.function_hint_cursors@
    &&& c.return_var_stack@ == parent.return_var_stack@
    &&& c.source_path == parent.source_path
    &&& c.warnings@.len() == 0
}

impl RenderContext {
    pub open spec fn wf(self) -> bool {
        &&& keys_unique(self.var_aliases@)
        &&& keys_unique(self.functions@)
        &&& keys_unique(self.function_hints@)
        &&& keys_unique(self.function_hint_cursors@)
    }

    /// The Amber name bound to the Bash variable `raw`, when it is declared.
    pub open spec fn spec_resolve_var(self, raw: Seq<char>) -> Option<String> {
        match value_of(self.var_aliases@, raw) {
            Some(a) => if has_name(self.declared_vars@, a@) {
                Some(a)
            } else {
                None
            },
            None => None,
        }
    }

    pub fn new(function_hints: Vec<(String, Vec<FunctionHint>)>, source_path: Option<String>) -> (r: Self)
        requires
            keys_unique(function_hints@),
        ensures
            r.wf(),
            r.var_aliases@.len() == 0,
            r.declared_vars@.len() == 0,
            r.functions@.len() == 0,
            r.positional_scopes@.len() == 0,
            r.function_hints@ == function_hints@,
            r.function_hint_cursors@.len() == 0,
            r.return_var_stack@.len() == 0,
            r.source_path == source_path,
            r.warnings@.len() == 0,
    {
        RenderContext {
            var_aliases: Vec::new(),
            declared_vars: Vec::new(),
            functions: Vec::new(),
            positional_scopes: Vec::new(),
            function_hints,
            function_hint_cursors: Vec::new(),
            return_var_stack: Vec::new(),
            source_path,
            warnings: Vec::new(),
        }
    }

    /// The Amber name for the Bash variable `raw`: its existing name, declared anew if it
    /// was not, or else a fresh one (see [`base_var_name`]).
    pub fn declare_var(&mut self, raw: &[char]) -> (name: String)
        requires
            old(self).wf(),
        ensures
            final(self).wf(),
            final(self).spec_resolve_var(raw@) == Some(name),
            declared(*old(self), *final(self), raw@, name@),
            value_of(old(self).var_aliases@, raw@) matches Some(a) ==> name == a,
            value_of(old(self).var_aliases@, raw@) is None ==> name@ == fresh_var_name(*old(self), raw@),
            value_of(old(self).var_aliases@, raw@) is None ==> !name_taken(*old(self), name@),
            forall|r: Seq<char>| r != raw@ ==> #[trigger] value_of(final(self).var_aliases@, r) == value_of(old(self).var_aliases@, r),
            forall|m: Seq<char>| #[trigger] has_name(final(self).declared_vars@, m) == (has_name(old(self).declared_vars@, m) || m == name@),
            final(self).functions == old(self).functions,
            final(self).positional_scopes == old(self).positional_scopes,
            final(self).function_hints == old(self).function_hints,
            final(self).function_hint_cursors == old(self).function_hint_cursors,
            final(self).return_var_stack == old(self).return_var_stack,
            final(self).source_path == old(self).source_path,
            final(self).warnings == old(self).warnings,
    {
        match find_key(&self.var_aliases, raw) {
            Some(i) => {
                let existing = self.var_aliases[i].1.clone();
                insert_name(&mut self.declared_vars, existing.clone());
                existing
            },
            None => {
                let candidate = self.next_unique_var_name(raw);
                set_key(&mut self.var_aliases, string_of(raw), candidate.clone());
                insert_name(&mut self.declared_vars, candidate.clone());
                candidate
            },
        }
    }

    /// Like [`declare_var`](Self::declare_var), but always with a fresh name: a `local`
    /// variable shadows an outer one.
    pub fn declare_local_var(&mut self, raw: &[char]) -> (name: String)
        requires
            old(self).wf(),
        ensures
            final(self).wf(),
            final(self).spec_resolve_var(raw@) == Some(name),
            !name_taken(*old(self), name@),
            name@ == fresh_var_name(*old(self), raw@),
            forall|r: Seq<char>| r != raw@ ==> #[trigger] value_of(final(self).var_aliases@, r) == value_of(old(self).var_aliases@, r),
            forall|m: Seq<char>| #[trigger] has_name(final(self).declared_vars@, m) == (has_name(old(self).declared_vars@, m) || m == name@),
            final(self).functions == old(self).functions,
            final(self).positional_scopes == old(self).positional_scopes,
            final(self).function_hints == old(self).function_hints,
            final(self).function_hint_cursors == old(self).function_hint_cursors,
            final(self).return_var_stack == old(self).return_var_stack,
            final(self).source_path == old(self).source_path,
            final(self).warnings == old(self).warnings,
    {
        let candidate = self.next_unique_var_name(raw);
        set_key(&mut self.var_aliases, string_of(raw), candidate.clone());
        insert_name(&mut self.declared_vars, candidate.clone());
        candidate
    }

    /// Whether `n` is declared or the target of an alias.
    fn is_taken(&self, n: &[char]) -> (r: bool)
        ensures
            r == name_taken(*self, n@),
    {
        if contains_name(&self.declared_vars, n) {
            return true;
        }
        let mut i: usize = 0;
        while i < self.var_aliases.len()
            invariant
                i <= self.var_aliases@.len(),
                forall|j: int| 0 <= j < i ==> (#[trigger] self.var_aliases@[j]).1@ != n@,
            decreases self.var_aliases@.len() - i,
        {
            if eq_lit(n, self.var_aliases[i].1.as_str()) {
                return true;
            }
            i += 1;
        }
        false
    }

    /// The first of `base`, `base_2`, `base_3`, ... that is not taken.
    fn next_unique_var_name(&self, raw: &[char]) -> (name: String)
        ensures
            !name_taken(*self, name@),
            name@ == fresh_var_name(*self, raw@),
            name@ == base_var_name(raw@) || exists|k: nat| k >= 2 && name@ == numbered(base_var_name(raw@), k),
    {
        let mut candidate = normalize_identifier(raw);
        if is_reserved_keyword(&candidate) {
            push_str(&mut candidate, "_var");
        }
        let base = candidate;
        if !self.is_taken(&base) {
            return string_of(&base);
        }
        let ghost taken = self.declared_vars@.map_values(|s: String| s@).to_set().union(
            self.var_aliases@.map_values(|e: (String, String)| e.1@).to_set(),
        );
        let n_declared = self.declared_vars.len();
        let n_aliases = self.var_aliases.len();
        let ghost bound = n_declared + n_aliases;
        proof {
            self.declared_vars@.map_values(|s: String| s@).lemma_cardinality_of_set();
            self.var_aliases@.map_values(|e: (String, String)| e.1@).lemma_cardinality_of_set();
            vstd::set_lib::lemma_len_union(
                self.declared_vars@.map_values(|s: String| s@).to_set(),
                self.var_aliases@.map_values(|e: (String, String)| e.1@).to_set(),
            );
            self.lemma_taken_in(base@);
        }
        let ghost mut used: Set<Seq<char>> = set![base@];
        let mut index: u128 = 2;
        loop
            invariant
                2 <= index,
                taken.finite(),
                taken.len() <= bound,
                bound == self.declared_vars@.len() + self.var_aliases@.len(),
                bound <= 2 * (usize::MAX as int),
                used.finite(),
                used.len() == index - 1,
                used.subset_of(taken),
                forall|n: Seq<char>| #[trigger] used.contains(n) ==> n == base@ || exists|k: nat| 2 <= k < index && n == numbered(base@, k),
                taken == self.declared_vars@.map_values(|s: String| s@).to_set().union(
                    self.var_aliases@.map_values(|e: (String, String)| e.1@).to_set(),
                ),
                base@ == base_var_name(raw@),
                name_taken(*self, base@),
                forall|j: nat| 2 <= j < index ==> name_taken(*self, #[trigger] numbered(base@, j)),
            decreases bound + 2 - index,
        {
            let mut cand = crate::text::to_vec(&base);
            cand.push('_');
            push_all(&mut cand, &u128_to_decimal(index));
            assert(cand@ == numbered(base@, index as nat)) by {
                reveal_strlit("_");
            }
            if !self.is_taken(&cand) {
                proof {
                    assert(first_free_index(*self, base@, index as nat));
                    let k = choose|k: nat| first_free_index(*self, base@, k);
                    lemma_first_free_unique(*self, base@, k, index as nat);
                }
                return string_of(&cand);
            }
            proof {
                self.lemma_taken_in(cand@);
                assert(!used.contains(cand@)) by {
                    if used.contains(cand@) {
                        reveal_strlit("_");
                        if cand@ == base@ {
                            assert(cand@.len() > base@.len());
                        } else {
                            let k = choose|k: nat| 2 <= k < index && cand@ == #[trigger] numbered(base@, k);
                            assert(numbered(base@, k).subrange(base@.len() + 1int, numbered(base@, k).len() as int) =~= decimal(k));
                            assert(cand@.subrange(base@.len() + 1int, cand@.len() as int) =~= decimal(index as nat));
                            crate::text::lemma_decimal_injective(k, index as nat);
                        }
                    }
                }
                let old_used = used;
                used = used.insert(cand@);
                lemma_len_subset(used, taken);
                assert forall|n: Seq<char>| #[trigger] used.contains(n) implies n == base@ || exists|k: nat| 2 <= k < index + 1 && n == numbered(base@, k) by {
                    if old_used.contains(n) && n != base@ {
                        let k = choose|k: nat| 2 <= k < index && n == numbered(base@, k);
                        assert(2 <= k < index + 1 && n == numbered(base@, k));
                    } else if n == cand@ {
                        assert(n == numbered(base@, index as nat));
                    }
                }
            }
            index = index + 1;
        }
    }

    proof fn lemma_taken_in(&self, n: Seq<char>)
        requires
            name_taken(*self, n),
        ensures
            self.declared_vars@.map_values(|s: String| s@).to_set().union(
                self.var_aliases@.map_values(|e: (String, String)| e.1@).to_set(),
            ).contains(n),
    {
        if has_name(self.declared_vars@, n) {
            let i = choose|i: int| 0 <= i < self.declared_vars@.len() && (#[trigger] self.declared_vars@[i])@ == n;
            assert(self.declared_vars@.map_values(|s: String| s@)[i] == n);
        } else {
            let i = choose|i: int| 0 <= i < self.var_aliases@.len() && (#[trigger] self.var_aliases@[i]).1@ == n;
            assert(self.var_aliases@.map_values(|e: (String, String)| e.1@)[i] == n);
        }
    }

    pub fn resolve_var(&self, raw: &[char]) -> (r: Option<String>)
        requires
            self.wf(),
        ensures
            r == self.spec_resolve_var(raw@),
    {
        match find_key(&self.var_aliases, raw) {
            Some(i) => {
                let alias = &self.var_aliases[i].1;
                if contains_name(&self.declared_vars, &chars_of(alias.as_str())) {
                    Some(alias.clone())
                } else {
                    None
                }
            },
            None => None,
        }
    }

    /// Binds the Bash variable `raw` to the Amber name `alias` and declares `alias`.
    pub fn bind_var_alias(&mut self, raw: &[char], alias: &String)
        requires
            old(self).wf(),
        ensures
            final(self).wf(),
            final(self).spec_resolve_var(raw@) == Some(*alias),
            forall|r: Seq<char>| r != raw@ ==> #[trigger] value_of(final(self).var_aliases@, r) == value_of(old(self).var_aliases@, r),
            forall|m: Seq<char>| #[trigger] has_name(final(self).declared_vars@, m) == (has_name(old(self).declared_vars@, m) || m == alias@),
            final(self).functions == old(self).functions,
            final(self).positional_scopes == old(self).positional_scopes,
            final(self).function_hints == old(self).function_hints,
            final(self).function_hint_cursors == old(self).function_hint_cursors,
            final(self).return_var_stack == old(self).return_var_stack,
            final(self).source_path == old(self).source_path,
            final(self).warnings == old(self).warnings,
    {
        set_key(&mut self.var_aliases, string_of(raw), alias.clone());
        insert_name(&mut self.declared_vars, alias.clone());
    }

    pub fn register_function(&mut self, raw: &[char], sig: FunctionSig)
        requires
            old(self).wf(),
        ensures
            final(self).wf(),
            forall|k: Seq<char>| #[trigger] value_of(final(self).functions@, k) == (if k == raw@ {
                Some(sig)
            } else {
                value_of(old(self).functions@, k)
            }),
            final(self).var_aliases == old(self).var_aliases,
            final(self).declared_vars == old(self).declared_vars,
            final(self).positional_scopes == old(self).positional_scopes,
            final(self).function_hints == old(self).function_hints,
            final(self).function_hint_cursors == old(self).function_hint_cursors,
            final(self).return_var_stack == old(self).return_var_stack,
            final(self).source_path == old(self).source_path,
            final(self).warnings == old(self).warnings,
    {
        set_key(&mut self.functions, string_of(raw), sig);
    }

    pub fn resolve_function(&self, raw: &[char]) -> (r: Option<&FunctionSig>)
        requires
            self.wf(),
        ensures
            match r {
                Some(s) => value_of(self.functions@, raw@) == Some(*s),
                None => value_of(self.functions@, raw@) is None,
            },
    {
        match find_key(&self.functions, raw) {
            Some(i) => Some(&self.functions[i].1),
            None => None,
        }
    }

    /// The next unrendered definition of the function `raw` found in the source text.
    pub fn next_function_hint(&mut self, raw: &[char]) -> (r: Option<FunctionHint>)
        requires
            old(self).wf(),
        ensures
            final(self).wf(),
            value_of(old(self).function_hints@, raw@) is None ==> r is None && final(self).function_hint_cursors == old(self).function_hint_cursors,
            value_of(old(self).function_hints@, raw@) matches Some(hints) ==> {
                let cursor = match value_of(old(self).function_hint_cursors@, raw@) {
                    Some(c) => c,
                    None => 0usize,
                };
                &&& value_of(final(self).function_hint_cursors@, raw@) == Some(if cursor < usize::MAX { (cursor + 1) as usize } else { cursor })
                &&& match r {
                    Some(h) => cursor < hints@.len() && h.function_line == hints@[cursor as int].function_line
                        && h.type_hint.same_as(hints@[cursor as int].type_hint),
                    None => cursor >= hints@.len(),
                }
            },
            final(self).var_aliases == old(self).var_aliases,
            final(self).declared_vars == old(self).declared_vars,
            final(self).functions == old(self).functions,
            final(self).positional_scopes == old(self).positional_scopes,
            final(self).function_hints == old(self).function_hints,
            final(self).return_var_stack == old(self).return_var_stack,
            final(self).source_path == old(self).source_path,
            final(self).warnings == old(self).warnings,
    {
        let hi = match find_key(&self.function_hints, raw) {
            Some(i) => i,
            None => return None,
        };
        let cursor = match find_key(&self.function_hint_cursors, raw) {
            Some(ci) => self.function_hint_cursors[ci].1,
            None => 0,
        };
        let hint = if cursor < self.function_hints[hi].1.len() {
            Some(self.function_hints[hi].1[cursor].copy())
        } else {
            None
        };
        set_key(&mut self.function_hint_cursors, string_of(raw), cursor.saturating_add(1));
        hint
    }

    /// Records a warning; with a source path, the path follows the message in parentheses.
    pub fn warn(&mut self, message: &[char], comment: Option<&[char]>)
        ensures
            final(self).warnings@.len() == old(self).warnings@.len() + 1,
            final(self).warnings@.last().message@ == (match old(self).source_path {
                Some(p) => message@ + " ("@ + p@ + ")"@,
                None => message@,
            }),
            final(self).warnings@.last().comment.is_some() == comment.is_some(),
            comment.is_some() ==> final(self).warnings@.last().comment.unwrap()@ == comment.unwrap()@,
            forall|i: int| 0 <= i < old(self).warnings@.len() ==> final(self).warnings@[i] == old(self).warnings@[i],
            final(self).var_aliases == old(self).var_aliases,
            final(self).declared_vars == old(self).declared_vars,
            final(self).functions == old(self).functions,
            final(self).positional_scopes == old(self).positional_scopes,
            final(self).function_hints == old(self).function_hints,
            final(self).function_hint_cursors == old(self).function_hint_cursors,
            final(self).return_var_stack == old(self).return_var_stack,
            final(self).source_path == old(self).source_path,
    {
        let mut rendered = crate::text::to_vec(message);
        match &self.source_path {
            Some(path) => {
                push_str(&mut rendered, " (");
                push_all(&mut rendered, &chars_of(path.as_str()));
                push_str(&mut rendered, ")");
            },
            None => {},
        }
        let comment = match comment {
            Some(c) => Some(string_of(c)),
            None => None,
        };
        self.warnings.push(Warning { message: string_of(&rendered), comment });
    }

    /// Opens a positional scope in which `$k` names `names[k - 1]`.
    pub fn push_positional_scope_with_names(&mut self, names: &Vec<String>)
        ensures
            final(self).positional_scopes@.len() == old(self).positional_scopes@.len() + 1,
            final(self).positional_scopes@.drop_last() == old(self).positional_scopes@,
            final(self).positional_scopes@.last()@ == names@,
            final(self).var_aliases == old(self).var_aliases,
            final(self).declared_vars == old(self).declared_vars,
            final(self).functions == old(self).functions,
            final(self).function_hints == old(self).function_hints,
            final(self).function_hint_cursors == old(self).function_hint_cursors,
            final(self).return_var_stack == old(self).return_var_stack,
            final(self).source_path == old(self).source_path,
            final(self).warnings == old(self).warnings,
    {
        let mut copy = Vec::new();
        let mut k: usize = 0;
        while k < names.len()
            invariant
                k <= names@.len(),
                copy@ == names@.take(k as int),
            decreases names@.len() - k,
        {
            copy.push(names[k].clone());
            assert(copy@ =~= names@.take(k + 1));
            k += 1;
        }
        assert(copy@ =~= names@);
        self.positional_scopes.push(copy);
        assert(self.positional_scopes@.last()@ == names@);
    }

    pub fn pop_positional_scope(&mut self)
        ensures
            final(self).positional_scopes@ == (if old(self).positional_scopes@.len() > 0 {
                old(self).positional_scopes@.drop_last()
            } else {
                old(self).positional_scopes@
            }),
            final(self).var_aliases == old(self).var_aliases,
            final(self).declared_vars == old(self).declared_vars,
            final(self).functions == old(self).functions,
            final(self).function_hints == old(self).function_hints,
            final(self).function_hint_cursors == old(self).function_hint_cursors,
            final(self).return_var_stack == old(self).return_var_stack,
            final(self).source_path == old(self).source_path,
            final(self).warnings == old(self).warnings,
    {
        self.positional_scopes.pop();
    }

    pub fn push_return_var(&mut self, name: &String)
        ensures
            final(self).return_var_stack@ == old(self).return_var_stack@.push(*name),
            final(self).var_aliases == old(self).var_aliases,
            final(self).declared_vars == old(self).declared_vars,
            final(self).functions == old(self).functions,
            final(self).positional_scopes == old(self).positional_scopes,
            final(self).function_hints == old(self).function_hints,
            final(self).function_hint_cursors == old(self).function_hint_cursors,
            final(self).warnings == old(self).warnings,
    {
        self.return_var_stack.push(name.clone());
    }

    pub fn pop_return_var(&mut self)
        ensures
            final(self).return_var_stack@ == (if old(self).return_var_stack@.len() > 0 {
                old(self).return_var_stack@.drop_last()
            } else {
                old(self).return_var_stack@
            }),
            final(self).var_aliases == old(self).var_aliases,
            final(self).declared_vars == old(self).declared_vars,
            final(self).functions == old(self).functions,
            final(self).positional_scopes == old(self).positional_scopes,
            final(self).function_hints == old(self).function_hints,
            final(self).function_hint_cursors == old(self).function_hint_cursors,
            final(self).warnings == old(self).warnings,
    {
        self.return_var_stack.pop();
    }

    pub fn current_return_var(&self) -> (r: Option<&String>)
        ensures
            r == (if self.return_var_stack@.len() > 0 {
                Some(&self.return_var_stack@.last())
            } else {
                None::<&String>
            }),
    {
        if self.return_var_stack.len() > 0 {
            Some(&self.return_var_stack[self.return_var_stack.len() - 1])
        } else {
            None
        }
    }

    /// The name of `$index` in the innermost scope that has one.
    pub fn resolve_positional(&self, index: usize) -> (r: Option<String>)
        ensures
            r == positional_in(self.positional_scopes@, index),
    {
        if index == 0 {
            return None;
        }
        let mut k = self.positional_scopes.len();
        assert(self.positional_scopes@.take(k as int) =~= self.positional_scopes@);
        while k > 0
            invariant
                k <= self.positional_scopes@.len(),
                index > 0,
                positional_in(self.positional_scopes@, index) == positional_in(self.positional_scopes@.take(k as int), index),
            decreases k,
        {
            assert(self.positional_scopes@.take(k as int).drop_last() =~= self.positional_scopes@.take(k - 1));
            let scope = &self.positional_scopes[k - 1];
            if index <= scope.len() {
                return Some(scope[index - 1].clone());
            }
            k -= 1;
        }
        None
    }

    /// A copy of this context for rendering a nested block: the same names, functions,
    /// scopes and cursors, and no warnings yet.
    pub fn with_child_scope(&self) -> (r: Self)
        requires
            self.wf(),
        ensures
            child_of(*self, r),
    {
        let mut functions: Vec<(String, FunctionSig)> = Vec::new();
        let mut k: usize = 0;
        while k < self.functions.len()
            invariant
                k <= self.functions@.len(),
                functions@.len() == k,
                forall|i: int| 0 <= i < k ==> (#[trigger] functions@[i]).0 == self.functions@[i].0
                    && functions@[i].1.same_as(self.functions@[i].1),
            decreases self.functions@.len() - k,
        {
            functions.push((self.functions[k].0.clone(), self.functions[k].1.copy()));
            k += 1;
        }
        proof {
            assert forall|a: int, b: int|
                0 <= a < functions@.len() && 0 <= b < functions@.len() && (#[trigger] functions@[a]).0@
                    == (#[trigger] functions@[b]).0@ implies a == b by {
                assert(self.functions@[a].0@ == self.functions@[b].0@);
            }
        }
        let mut hints: Vec<(String, Vec<FunctionHint>)> = Vec::new();
        let mut k: usize = 0;
        while k < self.function_hints.len()
            invariant
                k <= self.function_hints@.len(),
                hints@.len() == k,
                forall|i: int| 0 <= i < k ==> (#[trigger] hints@[i]).0 == self.function_hints@[i].0
                    && same_hints(hints@[i].1@, self.function_hints@[i].1@),
            decreases self.function_hints@.len() - k,
        {
            hints.push((self.function_hints[k].0.clone(), copy_hints(&self.function_hints[k].1)));
            k += 1;
        }
        proof {
            assert forall|a: int, b: int|
                0 <= a < hints@.len() && 0 <= b < hints@.len() && (#[trigger] hints@[a]).0@
                    == (#[trigger] hints@[b]).0@ implies a == b by {
                assert(self.function_hints@[a].0@ == self.function_hints@[b].0@);
            }
        }
        let mut scopes: Vec<Vec<String>> = Vec::new();
        let mut k: usize = 0;
        while k < self.positional_scopes.len()
            invariant
                k <= self.positional_scopes@.len(),
                scopes@.len() == k,
                forall|i: int| 0 <= i < k ==> (#[trigger] scopes@[i])@ == self.positional_scopes@[i]@,
            decreases self.positional_scopes@.len() - k,
        {
            scopes.push(copy_names(&self.positional_scopes[k]));
            k += 1;
        }
        let mut aliases: Vec<(String, String)> = Vec::new();
        let mut k: usize = 0;
        while k < self.var_aliases.len()
            invariant
                k <= self.var_aliases@.len(),
                aliases@ == self.var_aliases@.take(k as int),
            decreases self.var_aliases@.len() - k,
        {
            aliases.push((self.var_aliases[k].0.clone(), self.var_aliases[k].1.clone()));
            assert(aliases@ =~= self.var_aliases@.take(k + 1));
            k += 1;
        }
        assert(aliases@ =~= self.var_aliases@);
        let mut cursors: Vec<(String, usize)> = Vec::new();
        let mut k: usize = 0;
        while k < self.function_hint_cursors.len()
            invariant
                k <= self.function_hint_cursors@.len(),
                cursors@ == self.function_hint_cursors@.take(k as int),
            decreases self.function_hint_cursors@.len() - k,
        {
            cursors.push((self.function_hint_cursors[k].0.clone(), self.function_hint_cursors[k].1));
            assert(cursors@ =~= self.function_hint_cursors@.take(k + 1));
            k += 1;
        }
        assert(cursors@ =~= self.function_hint_cursors@);
        let source_path = match &self.source_path {
            Some(p) => Some(p.clone()),
            None => None,
        };
        RenderContext {
            var_aliases: aliases,
            declared_vars: copy_names(&self.declared_vars),
            functions,
            positional_scopes: scopes,
            function_hints: hints,
            function_hint_cursors: cursors,
            return_var_stack: copy_names(&self.return_var_stack),
            source_path,
            warnings: Vec::new(),
        }
    }

    /// Takes over what a child scope learned: its variable bindings and declarations, its
    /// functions (each replacing the one of the same name), the larger of the two cursors of
    /// each function, and its warnings. Scopes and the return stack stay the parent's.
    pub fn merge_from_child(&mut self, child: Self)
        requires
            old(self).wf(),
            child.wf(),
        ensures
            final(self).wf(),
            forall|k: Seq<char>| #[trigger] value_of(final(self).var_aliases@, k) == (match value_of(child.var_aliases@, k) {
                Some(v) => Some(v),
                None => value_of(old(self).var_aliases@, k),
            }),
            forall|m: Seq<char>| #[trigger] has_name(final(self).declared_vars@, m) == (has_name(old(self).declared_vars@, m) || has_name(child.declared_vars@, m)),
            forall|k: Seq<char>| #[trigger] value_of(final(self).functions@, k) == (match value_of(child.functions@, k) {
                Some(v) => Some(v),
                None => value_of(old(self).functions@, k),
            }),
            forall|k: Seq<char>| #[trigger] value_of(final(self).function_hint_cursors@, k) == (match (value_of(old(self).function_hint_cursors@, k), value_of(child.function_hint_cursors@, k)) {
                (Some(a), Some(b)) => Some(if a < b { b } else { a }),
                (None, Some(b)) => Some(b),
                (a, None) => a,
            }),
            final(self).warnings@ == old(self).warnings@ + child.warnings@,
            final(self).positional_scopes == old(self).positional_scopes,
            final(self).function_hints == old(self).function_hints,
            final(self).return_var_stack == old(self).return_var_stack,
            final(self).source_path == old(self).source_path,
            merged(*old(self), child, *final(self)),
    {
        let RenderContext { var_aliases, declared_vars, functions, function_hint_cursors, warnings, .. } = child;
        let ghost self0 = *self;
        merge_entries(&mut self.var_aliases, var_aliases);
        merge_entries(&mut self.functions, functions);
        let ghost mid = *self;
        let mut k: usize = 0;
        while k < declared_vars.len()
            invariant
                k <= declared_vars@.len(),
                self.var_aliases == mid.var_aliases,
                self.functions == mid.functions,
                self.function_hints == mid.function_hints,
                self.function_hint_cursors == mid.function_hint_cursors,
                self.positional_scopes == mid.positional_scopes,
                self.return_var_stack == mid.return_var_stack,
                self.source_path == mid.source_path,
                self.warnings == mid.warnings,
                forall|m: Seq<char>| #[trigger] has_name(self.declared_vars@, m) == (has_name(self0.declared_vars@, m) || has_name(declared_vars@.take(k as int), m)),
            decreases declared_vars@.len() - k,
        {
            insert_name(&mut self.declared_vars, declared_vars[k].clone());
            proof {
                assert forall|m: Seq<char>| #[trigger] has_name(declared_vars@.take(k + 1), m) == (has_name(declared_vars@.take(k as int), m) || m == declared_vars@[k as int]@) by {
                    if has_name(declared_vars@.take(k + 1), m) {
                        let j = choose|j: int| 0 <= j < k + 1 && (#[trigger] declared_vars@.take(k + 1)[j])@ == m;
                        if j < k {
                            assert(declared_vars@.take(k as int)[j] == declared_vars@.take(k + 1)[j]);
                        }
                    }
                    if has_name(declared_vars@.take(k as int), m) {
                        let j = choose|j: int| 0 <= j < k && (#[trigger] declared_vars@.take(k as int)[j])@ == m;
                        assert(declared_vars@.take(k + 1)[j] == declared_vars@.take(k as int)[j]);
                    }
                    if m == declared_vars@[k as int]@ {
                        assert(declared_vars@.take(k + 1)[k as int]@ == m);
                    }
                }
            }
            k += 1;
        }
        assert(declared_vars@.take(k as int) =~= declared_vars@);
        let mut cursors = function_hint_cursors;
        let ghost mid2 = *self;
        let ghost src = cursors@;
        let ghost c0 = self.function_hint_cursors@;
        assert(cursors@.take(cursors@.len() as int) =~= src);
        while cursors.len() > 0
            invariant
                self.var_aliases == mid2.var_aliases,
                self.functions == mid2.functions,
                self.function_hints == mid2.function_hints,
                self.declared_vars == mid2.declared_vars,
                self.positional_scopes == mid2.positional_scopes,
                self.return_var_stack == mid2.return_var_stack,
                self.source_path == mid2.source_path,
                self.warnings == mid2.warnings,
                keys_unique(self.function_hint_cursors@),
                keys_unique(src),
                cursors@.len() <= src.len(),
                cursors@ == src.take(cursors@.len() as int),
                forall|k: Seq<char>| #[trigger] value_of(self.function_hint_cursors@, k) == (if has_key(src.skip(cursors@.len() as int), k) {
                    match (value_of(c0, k), value_of(src, k)) {
                        (Some(a), Some(b)) => Some(if a < b { b } else { a }),
                        (None, Some(b)) => Some(b),
                        (a, None) => a,
                    }
                } else {
                    value_of(c0, k)
                }),
            decreases cursors@.len(),
        {
            let ghost n = cursors@.len() as int;
            match cursors.pop() {
                Some(entry) => {
                    let (key, child_cursor) = entry;
                    assert(src[n - 1] == src.take(n)[n - 1]);
                    let kc = chars_of(key.as_str());
                    let merged = match find_key(&self.function_hint_cursors, &kc) {
                        Some(i) => if self.function_hint_cursors[i].1 < child_cursor {
                            child_cursor
                        } else {
                            self.function_hint_cursors[i].1
                        },
                        None => child_cursor,
                    };
                    proof {
                        assert(!has_key(src.skip(n), key@)) by {
                            if has_key(src.skip(n), key@) {
                                let j = choose|j: int| 0 <= j < src.len() - n && (#[trigger] src.skip(n)[j]).0@ == key@;
                                assert(src.skip(n)[j] == src[n + j]);
                            }
                        }
                    }
                    set_key(&mut self.function_hint_cursors, key, merged);
                    proof {
                        assert(cursors@ =~= src.take(n - 1));
                        lemma_value_at(src, src[n - 1].0@, n - 1);
                        assert forall|k: Seq<char>| #[trigger] value_of(self.function_hint_cursors@, k) == (if has_key(src.skip(n - 1), k) {
                            match (value_of(c0, k), value_of(src, k)) {
                                (Some(a), Some(b)) => Some(if a < b { b } else { a }),
                                (None, Some(b)) => Some(b),
                                (a, None) => a,
                            }
                        } else {
                            value_of(c0, k)
                        }) by {
                            lemma_has_key_skip(src, k, n);
                        }
                    }
                },
                None => {},
            }
        }
        assert(src.skip(0) =~= src);
        assert forall|k: Seq<char>| has_key(src, k) <==> #[trigger] value_of(src, k) is Some by {}
        let mut warnings = warnings;
        self.warnings.append(&mut warnings);
    }

    /// [`resolve_var`](Self::resolve_var), as characters.
    pub fn var_chars(&self, raw: &[char]) -> (r: Option<Vec<char>>)
        requires
            self.wf(),
        ensures
            match r {
                Some(v) => var_of(*self, raw@) == Some(v@),
                None => var_of(*self, raw@) is None,
            },
    {
        match self.resolve_var(raw) {
            Some(a) => Some(chars_of(a.as_str())),
            None => None,
        }
    }

    /// [`resolve_positional`](Self::resolve_positional), as characters.
    pub fn pos_chars(&self, index: usize) -> (r: Option<Vec<char>>)
        ensures
            match r {
                Some(v) => pos_of(*self, index) == Some(v@),
                None => pos_of(*self, index) is None,
            },
    {
        match self.resolve_positional(index) {
            Some(a) => Some(chars_of(a.as_str())),
            None => None,
        }
    }

    /// Moves the warnings of a child scope, in order, after those of this context.
    pub fn move_warnings(&mut self, child: &mut Self)
        ensures
            final(self).warnings@ == old(self).warnings@ + old(child).warnings@,
            final(child).warnings@.len() == 0,
            final(self).var_aliases == old(self).var_aliases,
            final(self).declared_vars == old(self).declared_vars,
            final(self).functions == old(self).functions,
            final(self).positional_scopes == old(self).positional_scopes,
            final(self).function_hints == old(self).function_hints,
            final(self).function_hint_cursors == old(self).function_hint_cursors,
            final(self).return_var_stack == old(self).return_var_stack,
            final(self).source_path == old(self).source_path,
            final(child).var_aliases == old(child).var_aliases,
            final(child).declared_vars == old(child).declared_vars,
            final(child).functions == old(child).functions,
            final(child).positional_scopes == old(child).positional_scopes,
            final(child).function_hints == old(child).function_hints,
            final(child).function_hint_cursors == old(child).function_hint_cursors,
            final(child).return_var_stack == old(child).return_var_stack,
            final(child).source_path == old(child).source_path,
    {
        self.warnings.append(&mut child.warnings);
    }
}

// ---------------------------------------------------------------------------
// Laws
// ---------------------------------------------------------------------------

/// Every name that a fresh declaration can give out, the base name and each numbered
/// alternative, is an Amber identifier.
pub proof fn lemma_fresh_names_are_identifiers(raw: Seq<char>, k: nat)
    ensures
        spec_is_identifier(base_var_name(raw)),
        spec_is_identifier(numbered(base_var_name(raw), k)),
{
    super::syntax::lemma_normalized_is_identifier(raw);
    reveal_strlit("_var");
    reveal_strlit("_");
    let c = spec_normalize_identifier(raw);
    if spec_is_reserved_keyword(c) {
        super::syntax::lemma_identifier_extended(c, "_var"@);
    }
    lemma_decimal_digits(k);
    let tail = "_"@ + decimal(k);
    assert forall|j: int| 0 <= j < tail.len() implies spec_is_word_char(#[trigger] tail[j]) by {
        if j > 0 {
            assert(tail[j] == decimal(k)[j - 1]);
        }
    }
    assert(numbered(base_var_name(raw), k) =~= base_var_name(raw) + tail);
    super::syntax::lemma_identifier_extended(base_var_name(raw), tail);
}

proof fn lemma_decimal_digits(n: nat)
    ensures
        forall|j: int| 0 <= j < decimal(n).len() ==> crate::text::spec_is_ascii_digit(#[trigger] decimal(n)[j]),
    decreases n,
{
    if n >= 10 {
        lemma_decimal_digits(n / 10);
        assert forall|j: int| 0 <= j < decimal(n).len() implies crate::text::spec_is_ascii_digit(#[trigger] decimal(n)[j]) by {
            if j < decimal(n / 10).len() {
                assert(decimal(n)[j] == decimal(n / 10)[j]);
            }
        }
    }
}

/// What [`RenderContext::declare_var`] promises of a call on `raw` that took `before` to
/// `after` and gave `name`.
pub open spec fn declared(before: RenderContext, after: RenderContext, raw: Seq<char>, name: Seq<char>) -> bool {
    &&& after.wf()
    &&& var_of(after, raw) == Some(name)
    &&& (value_of(before.var_aliases@, raw) matches Some(a) ==> name == a@)
    &&& (value_of(before.var_aliases@, raw) is None ==> !name_taken(before, name))
}

/// Declaring a variable that is declared already gives its name again, and the variable
/// resolves to it afterwards.
pub proof fn lemma_declare_twice(c0: RenderContext, c1: RenderContext, c2: RenderContext, raw: Seq<char>, n1: Seq<char>, n2: Seq<char>)
    requires
        declared(c0, c1, raw, n1),
        declared(c1, c2, raw, n2),
    ensures
        n1 == n2,
        var_of(c2, raw) == Some(n1),
{
}

} // verus!
