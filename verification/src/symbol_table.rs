// Symbol table management: scoping, symbol resolution.
use vstd::prelude::*;
use vstd::std_specs::cmp::PartialEqSpecImpl;

verus! {

/// Symbol kinds.
#[derive(Debug, Clone, Copy, PartialEq, Eq, Structural)]
pub enum SymbolKind {
    Variable,
    Function,
    Parameter,
    Struct,
    Enum,
    Field,
    Module,
    Agent,
    Skill,
    Trigger,
}

/// Type representation for symbols.
#[derive(Debug)]
pub enum Type {
    Int,
    Float,
    Bool,
    String,
    Void,
    Null,
    Array(Box<Type>),
    /// Parameter types and return type.
    Function(Vec<Type>, Box<Type>),
    /// Name and fields.
    Struct(String, Vec<(String, Type)>),
    Named(String),
    Generic(String),
}

/// The mathematical value of a `Type`: names are character sequences.
pub enum TypeView {
    Int,
    Float,
    Bool,
    String,
    Void,
    Null,
    Array(Box<TypeView>),
    Function(Seq<TypeView>, Box<TypeView>),
    Struct(Seq<char>, Seq<(Seq<char>, TypeView)>),
    Named(Seq<char>),
    Generic(Seq<char>),
}

pub open spec fn type_view(t: Type) -> TypeView
    decreases t,
{
    match t {
        Type::Int => TypeView::Int,
        Type::Float => TypeView::Float,
        Type::Bool => TypeView::Bool,
        Type::String => TypeView::String,
        Type::Void => TypeView::Void,
        Type::Null => TypeView::Null,
        Type::Array(e) => TypeView::Array(Box::new(type_view(*e))),
        Type::Function(ps, r) => TypeView::Function(types_view(ps@), Box::new(type_view(*r))),
        Type::Struct(n, fs) => TypeView::Struct(n@, fields_view(fs@)),
        Type::Named(n) => TypeView::Named(n@),
        Type::Generic(n) => TypeView::Generic(n@),
    }
}

pub open spec fn types_view(s: Seq<Type>) -> Seq<TypeView>
    decreases s,
{
    if s.len() == 0 {
        Seq::empty()
    } else {
        seq![type_view(s[0])] + types_view(s.subrange(1, s.len() as int))
    }
}

pub open spec fn fields_view(s: Seq<(String, Type)>) -> Seq<(Seq<char>, TypeView)>
    decreases s,
{
    if s.len() == 0 {
        Seq::empty()
    } else {
        seq![(s[0].0@, type_view(s[0].1))] + fields_view(s.subrange(1, s.len() as int))
    }
}

impl View for Type {
    type V = TypeView;

    open spec fn view(&self) -> TypeView {
        type_view(*self)
    }
}

pub open spec fn opt_type_view(t: Option<Type>) -> Option<TypeView> {
    match t {
        Some(t) => Some(t@),
        None => None,
    }
}

pub proof fn lemma_types_view(s: Seq<Type>)
    ensures
        types_view(s).len() == s.len(),
        forall|i: int| 0 <= i < s.len() ==> #[trigger] types_view(s)[i] == type_view(s[i]),
    decreases s.len(),
{
    if s.len() > 0 {
        lemma_types_view(s.subrange(1, s.len() as int));
    }
}

pub proof fn lemma_types_view_push(s: Seq<Type>, x: Type)
    ensures
        types_view(s.push(x)) == types_view(s).push(type_view(x)),
{
    lemma_types_view(s);
    lemma_types_view(s.push(x));
    assert(types_view(s.push(x)) =~= types_view(s).push(type_view(x)));
}

pub proof fn lemma_fields_view(s: Seq<(String, Type)>)
    ensures
        fields_view(s).len() == s.len(),
        forall|i: int|
            0 <= i < s.len() ==> #[trigger] fields_view(s)[i] == (s[i].0@, type_view(s[i].1)),
    decreases s.len(),
{
    if s.len() > 0 {
        lemma_fields_view(s.subrange(1, s.len() as int));
    }
}

/// Equality of types is equality of their views.
#[verifier::loop_isolation(false)]
pub fn type_eq(a: &Type, b: &Type) -> (r: bool)
    ensures
        r == (a@ == b@),
    decreases a,
{
    match (a, b) {
        (Type::Int, Type::Int) => true,
        (Type::Float, Type::Float) => true,
        (Type::Bool, Type::Bool) => true,
        (Type::String, Type::String) => true,
        (Type::Void, Type::Void) => true,
        (Type::Null, Type::Null) => true,
        (Type::Array(x), Type::Array(y)) => type_eq(x, y),
        (Type::Function(ps, r), Type::Function(qs, s)) => {
            proof {
                lemma_types_view(ps@);
                lemma_types_view(qs@);
            }
            if ps.len() != qs.len() {
                assert(types_view(ps@).len() != types_view(qs@).len());
                return false;
            }
            let mut i: usize = 0;
            while i < ps.len()
                invariant
                    0 <= i <= ps.len(),
                    ps.len() == qs.len(),
                    types_view(ps@).len() == ps.len(),
                    types_view(qs@).len() == qs.len(),
                    forall|j: int| 0 <= j < ps.len() ==> #[trigger] types_view(ps@)[j] == type_view(ps@[j]),
                    forall|j: int| 0 <= j < qs.len() ==> #[trigger] types_view(qs@)[j] == type_view(qs@[j]),
                    forall|j: int| 0 <= j < i ==> type_view(ps@[j]) == type_view(qs@[j]),
                decreases ps.len() - i,
            {
                if !type_eq(&ps[i], &qs[i]) {
                    assert(types_view(ps@)[i as int] != types_view(qs@)[i as int]);
                    return false;
                }
                i = i + 1;
            }
            assert(types_view(ps@) =~= types_view(qs@));
            type_eq(r, s)
        },
        (Type::Struct(n, fs), Type::Struct(m, gs)) => {
            proof {
                lemma_fields_view(fs@);
                lemma_fields_view(gs@);
            }
            if !n.eq(m) {
                return false;
            }
            if fs.len() != gs.len() {
                assert(fields_view(fs@).len() != fields_view(gs@).len());
                return false;
            }
            let mut i: usize = 0;
            while i < fs.len()
                invariant
                    0 <= i <= fs.len(),
                    fs.len() == gs.len(),
                    fields_view(fs@).len() == fs.len(),
                    fields_view(gs@).len() == gs.len(),
                    forall|j: int|
                        0 <= j < fs.len() ==> #[trigger] fields_view(fs@)[j] == (fs@[j].0@, type_view(fs@[j].1)),
                    forall|j: int|
                        0 <= j < gs.len() ==> #[trigger] fields_view(gs@)[j] == (gs@[j].0@, type_view(gs@[j].1)),
                    forall|j: int| 0 <= j < i ==> fields_view(fs@)[j] == fields_view(gs@)[j],
                decreases fs.len() - i,
            {
                let same_name = fs[i].0.eq(&gs[i].0);
                if !same_name {
                    assert(fields_view(fs@)[i as int] != fields_view(gs@)[i as int]);
                    return false;
                }
                if !type_eq(&fs[i].1, &gs[i].1) {
                    assert(fields_view(fs@)[i as int] != fields_view(gs@)[i as int]);
                    return false;
                }
                i = i + 1;
            }
            assert(fields_view(fs@) =~= fields_view(gs@));
            true
        },
        (Type::Named(n), Type::Named(m)) => n.eq(m),
        (Type::Generic(n), Type::Generic(m)) => n.eq(m),
        _ => false,
    }
}

/// A copy of a type with the same view.
#[verifier::loop_isolation(false)]
pub fn type_clone(t: &Type) -> (r: Type)
    ensures
        r@ == t@,
    decreases t,
{
    match t {
        Type::Int => Type::Int,
        Type::Float => Type::Float,
        Type::Bool => Type::Bool,
        Type::String => Type::String,
        Type::Void => Type::Void,
        Type::Null => Type::Null,
        Type::Array(e) => Type::Array(Box::new(type_clone(e))),
        Type::Function(ps, r) => {
            let mut qs: Vec<Type> = Vec::new();
            let mut i: usize = 0;
            while i < ps.len()
                invariant
                    0 <= i <= ps.len(),
                    qs.len() == i,
                    forall|j: int| 0 <= j < i ==> #[trigger] type_view(qs@[j]) == type_view(ps@[j]),
                decreases ps.len() - i,
            {
                qs.push(type_clone(&ps[i]));
                i = i + 1;
            }
            proof {
                lemma_types_view(ps@);
                lemma_types_view(qs@);
                assert(types_view(ps@) =~= types_view(qs@));
            }
            Type::Function(qs, Box::new(type_clone(r)))
        },
        Type::Struct(n, fs) => {
            let mut gs: Vec<(String, Type)> = Vec::new();
            let mut i: usize = 0;
            while i < fs.len()
                invariant
                    0 <= i <= fs.len(),
                    gs.len() == i,
                    forall|j: int|
                        0 <= j < i ==> (#[trigger] gs@[j]).0@ == fs@[j].0@ && type_view(gs@[j].1)
                            == type_view(fs@[j].1),
                decreases fs.len() - i,
            {
                let name = fs[i].0.clone();
                let ty = type_clone(&fs[i].1);
                gs.push((name, ty));
                assert(gs@[i as int].0@ == fs@[i as int].0@);
                i = i + 1;
            }
            proof {
                lemma_fields_view(fs@);
                lemma_fields_view(gs@);
                assert(fields_view(fs@) =~= fields_view(gs@));
            }
            Type::Struct(n.clone(), gs)
        },
        Type::Named(n) => Type::Named(n.clone()),
        Type::Generic(n) => Type::Generic(n.clone()),
    }
}

impl PartialEq for Type {
    fn eq(&self, other: &Type) -> (r: bool) {
        type_eq(self, other)
    }
}

impl PartialEqSpecImpl for Type {
    open spec fn obeys_eq_spec() -> bool {
        true
    }

    open spec fn eq_spec(&self, other: &Type) -> bool {
        self@ == other@
    }
}

impl Eq for Type {}

impl Clone for Type {
    fn clone(&self) -> (r: Type)
        ensures
            r@ == self@,
    {
        type_clone(self)
    }
}


/// The display text of a type.
pub open spec fn type_text(t: TypeView) -> Seq<char>
    decreases t,
{
    match t {
        TypeView::Int => "int"@,
        TypeView::Float => "float"@,
        TypeView::Bool => "bool"@,
        TypeView::String => "string"@,
        TypeView::Void => "void"@,
        TypeView::Null => "null"@,
        TypeView::Array(e) => "["@ + type_text(*e) + "]"@,
        TypeView::Function(ps, r) => "("@ + types_text(ps) + ") -> "@ + type_text(*r),
        TypeView::Struct(n, fs) => "struct "@ + n + " { "@ + fields_text(fs) + " }"@,
        TypeView::Named(n) => n,
        TypeView::Generic(n) => n,
    }
}

/// The display texts of types, separated by `, `.
pub open spec fn types_text(ps: Seq<TypeView>) -> Seq<char>
    decreases ps,
{
    if ps.len() == 0 {
        Seq::empty()
    } else if ps.len() == 1 {
        type_text(ps[0])
    } else {
        types_text(ps.subrange(0, ps.len() - 1)) + ", "@ + type_text(ps[ps.len() - 1])
    }
}

/// `name: type` for each field, separated by `, `.
pub open spec fn fields_text(fs: Seq<(Seq<char>, TypeView)>) -> Seq<char>
    decreases fs,
{
    if fs.len() == 0 {
        Seq::empty()
    } else if fs.len() == 1 {
        fs[0].0 + ": "@ + type_text(fs[0].1)
    } else {
        fields_text(fs.subrange(0, fs.len() - 1)) + ", "@ + fs[fs.len() - 1].0 + ": "@ + type_text(
            fs[fs.len() - 1].1,
        )
    }
}

impl Type {
    /// The display text of the type (what `Display` renders).
    #[verifier::loop_isolation(false)]
    pub fn to_string(&self) -> (r: String)
        ensures
            r@ == type_text(self@),
        decreases self,
    {
        proof {
            reveal_strlit("int");
            reveal_strlit("float");
            reveal_strlit("bool");
            reveal_strlit("string");
            reveal_strlit("void");
            reveal_strlit("null");
            reveal_strlit("[");
            reveal_strlit("]");
            reveal_strlit("(");
            reveal_strlit(") -> ");
            reveal_strlit("struct ");
            reveal_strlit(" { ");
            reveal_strlit(" }");
            reveal_strlit(", ");
            reveal_strlit(": ");
        }
        match self {
            Type::Int => String::from_str("int"),
            Type::Float => String::from_str("float"),
            Type::Bool => String::from_str("bool"),
            Type::String => String::from_str("string"),
            Type::Void => String::from_str("void"),
            Type::Null => String::from_str("null"),
            Type::Array(e) => {
                let inner = e.to_string();
                let mut s = String::from_str("[");
                s.append(inner.as_str());
                s.append("]");
                s
            },
            Type::Function(ps, r) => {
                proof {
                    lemma_types_view(ps@);
                }
                let ghost pv = types_view(ps@);
                let mut s = String::from_str("(");
                let mut i: usize = 0;
                while i < ps.len()
                    invariant
                        0 <= i <= ps.len(),
                        pv.len() == ps.len(),
                        s@ == "("@ + types_text(pv.subrange(0, i as int)),
                    decreases ps.len() - i,
                {
                    let t = ps[i].to_string();
                    if i > 0 {
                        s.append(", ");
                    }
                    s.append(t.as_str());
                    proof {
                        assert(pv.subrange(0, i + 1).subrange(0, i as int) =~= pv.subrange(0, i as int));
                        assert(pv.subrange(0, i + 1)[i as int] == pv[i as int]);
                        if i == 0 {
                            assert(pv.subrange(0, 0) =~= Seq::<TypeView>::empty());
                        }
                    }
                    i = i + 1;
                }
                assert(pv.subrange(0, ps.len() as int) =~= pv);
                let ret = r.to_string();
                s.append(") -> ");
                s.append(ret.as_str());
                s
            },
            Type::Struct(n, fs) => {
                proof {
                    lemma_fields_view(fs@);
                }
                let ghost fv = fields_view(fs@);
                let mut s = String::from_str("struct ");
                s.append(n.as_str());
                s.append(" { ");
                let ghost head = s@;
                let mut i: usize = 0;
                while i < fs.len()
                    invariant
                        0 <= i <= fs.len(),
                        fv.len() == fs.len(),
                        s@ == head + fields_text(fv.subrange(0, i as int)),
                    decreases fs.len() - i,
                {
                    let t = fs[i].1.to_string();
                    if i > 0 {
                        s.append(", ");
                    }
                    s.append(fs[i].0.as_str());
                    s.append(": ");
                    s.append(t.as_str());
                    proof {
                        assert(fv.subrange(0, i + 1).subrange(0, i as int) =~= fv.subrange(0, i as int));
                        assert(fv.subrange(0, i + 1)[i as int] == fv[i as int]);
                        if i == 0 {
                            assert(fv.subrange(0, 0) =~= Seq::<(Seq<char>, TypeView)>::empty());
                        }
                    }
                    i = i + 1;
                }
                assert(fv.subrange(0, fs.len() as int) =~= fv);
                s.append(" }");
                s
            },
            Type::Named(n) => n.clone(),
            Type::Generic(n) => n.clone(),
        }
    }
}

/// A symbol entry in the symbol table.
#[derive(Debug, Clone)]
pub struct Symbol {
    pub name: String,
    pub kind: SymbolKind,
    pub ty: Option<Type>,
    pub scope_depth: usize,
    /// Unique index over the whole table, in order of insertion.
    pub index: usize,
}

/// The mathematical value of a symbol.
pub struct SymbolView {
    pub name: Seq<char>,
    pub kind: SymbolKind,
    pub ty: Option<TypeView>,
    pub scope_depth: nat,
    pub index: nat,
}

impl View for Symbol {
    type V = SymbolView;

    open spec fn view(&self) -> SymbolView {
        SymbolView {
            name: self.name@,
            kind: self.kind,
            ty: opt_type_view(self.ty),
            scope_depth: self.scope_depth as nat,
            index: self.index as nat,
        }
    }
}

/// One scope level.
struct Scope {
    symbols: Vec<Symbol>,
    depth: usize,
    parent: Option<usize>,
}

/// The mathematical value of one scope: its bindings, depth and parent scope.
pub struct ScopeView {
    pub symbols: Map<Seq<char>, SymbolView>,
    pub depth: nat,
    pub parent: Option<nat>,
}

/// The mathematical value of a symbol table: all scopes ever entered (in order of
/// creation), the index of the current scope and the number of symbols inserted.
pub struct SymbolTableView {
    pub scopes: Seq<ScopeView>,
    pub current: nat,
    pub counter: nat,
}

impl ScopeView {
    pub open spec fn with_symbol(self, s: SymbolView) -> ScopeView {
        ScopeView { symbols: self.symbols.insert(s.name, s), ..self }
    }
}

/// Lookup through scope `idx` of `scopes` and its ancestors.
pub open spec fn scopes_lookup(scopes: Seq<ScopeView>, idx: int, name: Seq<char>) -> Option<SymbolView>
    decreases idx,
{
    if 0 <= idx < scopes.len() {
        if scopes[idx].symbols.contains_key(name) {
            Some(scopes[idx].symbols[name])
        } else {
            match scopes[idx].parent {
                Some(p) => if p < idx {
                    scopes_lookup(scopes, p as int, name)
                } else {
                    None
                },
                None => None,
            }
        }
    } else {
        None
    }
}

impl SymbolTableView {
    /// Scope 0 is the global scope; every other scope has an earlier scope as parent
    /// and is one level deeper than it; the current scope exists; every symbol's index is
    /// below the counter.
    pub open spec fn wf(self) -> bool {
        &&& self.scopes.len() > 0
        &&& self.current < self.scopes.len()
        &&& self.scopes[0].parent is None
        &&& self.scopes[0].depth == 0
        &&& forall|i: int|
            0 < i < self.scopes.len() ==> {
                &&& (#[trigger] self.scopes[i]).parent is Some
                &&& self.scopes[i].parent->0 < i
                &&& self.scopes[i].depth == self.scopes[self.scopes[i].parent->0 as int].depth
                    + 1
            }
        &&& indices_below(self)
    }

    /// Lookup through scope `idx` and its ancestors.
    pub open spec fn lookup_from(self, idx: int, name: Seq<char>) -> Option<SymbolView> {
        scopes_lookup(self.scopes, idx, name)
    }

    /// The scope holding the binding a name resolves to.
    pub open spec fn binding_scope_from(self, idx: int, name: Seq<char>) -> Option<int>
        decreases idx,
    {
        if 0 <= idx < self.scopes.len() {
            if self.scopes[idx].symbols.contains_key(name) {
                Some(idx)
            } else {
                match self.scopes[idx].parent {
                    Some(p) => if p < idx {
                        self.binding_scope_from(p as int, name)
                    } else {
                        None
                    },
                    None => None,
                }
            }
        } else {
            None
        }
    }

    pub open spec fn binding_scope(self, name: Seq<char>) -> Option<int> {
        self.binding_scope_from(self.current as int, name)
    }

    /// The table with the binding a name resolves to replaced by `s`.
    pub open spec fn replace_binding(self, name: Seq<char>, s: SymbolView) -> SymbolTableView {
        match self.binding_scope(name) {
            Some(k) => SymbolTableView {
                scopes: self.scopes.update(k, self.scopes[k].with_symbol(s)),
                ..self
            },
            None => self,
        }
    }

    /// The symbol a name resolves to: innermost binding from the current scope outward.
    pub open spec fn lookup(self, name: Seq<char>) -> Option<SymbolView> {
        self.lookup_from(self.current as int, name)
    }

    /// The binding of a name in the current scope only.
    pub open spec fn lookup_current(self, name: Seq<char>) -> Option<SymbolView> {
        let syms = self.scopes[self.current as int].symbols;
        if syms.contains_key(name) {
            Some(syms[name])
        } else {
            None
        }
    }

    pub open spec fn depth(self) -> nat {
        self.scopes[self.current as int].depth
    }

    pub open spec fn new_table() -> SymbolTableView {
        SymbolTableView {
            scopes: seq![ScopeView { symbols: Map::empty(), depth: 0, parent: None }],
            current: 0,
            counter: 0,
        }
    }

    pub open spec fn enter(self) -> SymbolTableView {
        SymbolTableView {
            scopes: self.scopes.push(
                ScopeView {
                    symbols: Map::empty(),
                    depth: self.depth() + 1,
                    parent: Some(self.current),
                },
            ),
            current: self.scopes.len(),
            counter: self.counter,
        }
    }

    /// Leaving the current scope: back to its parent; the global scope has none.
    pub open spec fn exit(self) -> SymbolTableView {
        match self.scopes[self.current as int].parent {
            Some(p) => SymbolTableView { current: p, ..self },
            None => self,
        }
    }

    pub open spec fn new_symbol(self, name: Seq<char>, kind: SymbolKind, ty: Option<TypeView>) -> SymbolView {
        SymbolView { name, kind, ty, scope_depth: self.depth(), index: self.counter }
    }

    pub open spec fn insert(self, name: Seq<char>, kind: SymbolKind, ty: Option<TypeView>) -> SymbolTableView {
        SymbolTableView {
            scopes: self.scopes.update(
                self.current as int,
                self.scopes[self.current as int].with_symbol(self.new_symbol(name, kind, ty)),
            ),
            counter: self.counter + 1,
            ..self
        }
    }
}

proof fn lemma_lookup_from_push(scopes: Seq<ScopeView>, sc: ScopeView, idx: int, name: Seq<char>)
    requires
        0 <= idx < scopes.len(),
    ensures
        scopes_lookup(scopes.push(sc), idx, name) == scopes_lookup(scopes, idx, name),
    decreases idx,
{
    assert(scopes.push(sc)[idx] == scopes[idx]);
    if !scopes[idx].symbols.contains_key(name) {
        if let Some(p) = scopes[idx].parent {
            if 0 <= p < idx {
                lemma_lookup_from_push(scopes, sc, p as int, name);
            }
        }
    }
}

proof fn lemma_lookup_from_other_scope(scopes: Seq<ScopeView>, k: int, sc: ScopeView, idx: int, name: Seq<char>)
    requires
        0 <= idx < k < scopes.len(),
    ensures
        scopes_lookup(scopes.update(k, sc), idx, name) == scopes_lookup(scopes, idx, name),
    decreases idx,
{
    assert(scopes.update(k, sc)[idx] == scopes[idx]);
    if !scopes[idx].symbols.contains_key(name) {
        if let Some(p) = scopes[idx].parent {
            if 0 <= p < idx {
                lemma_lookup_from_other_scope(scopes, k, sc, p as int, name);
            }
        }
    }
}

/// Every operation of the table keeps it well formed.
pub proof fn lemma_operations_keep_wf(t: SymbolTableView, name: Seq<char>, kind: SymbolKind, ty: Option<TypeView>)
    requires
        t.wf(),
    ensures
        t.enter().wf(),
        t.exit().wf(),
        t.insert(name, kind, ty).wf(),
{
    let e = t.enter();
    assert forall|i: int| 0 < i < e.scopes.len() implies {
        &&& (#[trigger] e.scopes[i]).parent is Some
        &&& e.scopes[i].parent->0 < i
        &&& e.scopes[i].depth == e.scopes[e.scopes[i].parent->0 as int].depth + 1
    } by {
        if i < t.scopes.len() {
            assert(e.scopes[i] == t.scopes[i]);
            assert(e.scopes[t.scopes[i].parent->0 as int] == t.scopes[t.scopes[i].parent->0 as int]);
        }
    }
    let n = t.insert(name, kind, ty);
    assert forall|i: int| 0 < i < n.scopes.len() implies {
        &&& (#[trigger] n.scopes[i]).parent is Some
        &&& n.scopes[i].parent->0 < i
        &&& n.scopes[i].depth == n.scopes[n.scopes[i].parent->0 as int].depth + 1
    } by {
        assert(t.scopes[i].parent is Some);
    }
}

/// Read after write: right after `insert`, the name resolves to the new symbol, which
/// has the current depth and the next index; every other name resolves as before.
pub proof fn lemma_insert_then_lookup(
    t: SymbolTableView,
    name: Seq<char>,
    kind: SymbolKind,
    ty: Option<TypeView>,
    other: Seq<char>,
)
    requires
        t.wf(),
    ensures
        t.insert(name, kind, ty).lookup(name) == Some(
            SymbolView { name, kind, ty, scope_depth: t.depth(), index: t.counter },
        ),
        t.insert(name, kind, ty).lookup_current(name) == t.insert(name, kind, ty).lookup(name),
        other != name ==> t.insert(name, kind, ty).lookup(other) == t.lookup(other),
        t.insert(name, kind, ty).depth() == t.depth(),
{
    if other != name {
        lemma_insert_other_name(t, name, kind, ty, other, t.current as int);
    }
}

proof fn lemma_insert_other_name(
    t: SymbolTableView,
    name: Seq<char>,
    kind: SymbolKind,
    ty: Option<TypeView>,
    other: Seq<char>,
    idx: int,
)
    requires
        t.wf(),
        other != name,
        0 <= idx < t.scopes.len(),
    ensures
        t.insert(name, kind, ty).lookup_from(idx, other) == t.lookup_from(idx, other),
    decreases idx,
{
    let n = t.insert(name, kind, ty);
    assert(n.scopes[idx].symbols.contains_key(other) == t.scopes[idx].symbols.contains_key(other));
    if t.scopes[idx].symbols.contains_key(other) {
        assert(n.scopes[idx].symbols[other] == t.scopes[idx].symbols[other]);
    } else {
        assert(n.scopes[idx].parent == t.scopes[idx].parent);
        if let Some(p) = t.scopes[idx].parent {
            if 0 <= p < idx {
                lemma_insert_other_name(t, name, kind, ty, other, p as int);
            }
        }
    }
}

/// Entering a scope adds one level with nothing bound in it and leaves what every name
/// resolves to unchanged; leaving it again restores the depth and the table's bindings.
pub proof fn lemma_enter_exit(t: SymbolTableView, n: Seq<char>)
    requires
        t.wf(),
    ensures
        t.enter().depth() == t.depth() + 1,
        t.enter().lookup_current(n) is None,
        t.enter().lookup(n) == t.lookup(n),
        t.enter().exit().lookup(n) == t.lookup(n),
        t.enter().exit().depth() == t.depth(),
        t.enter().exit().current == t.current,
{
    let e = t.enter();
    let sc = ScopeView { symbols: Map::empty(), depth: t.depth() + 1, parent: Some(t.current) };
    assert(e.scopes == t.scopes.push(sc));
    lemma_lookup_from_push(t.scopes, sc, t.current as int, n);
    assert(e.scopes[e.current as int] == sc);
    assert(e.exit().scopes == e.scopes);
    lemma_lookup_from_push(t.scopes, sc, t.current as int, n);
}

/// Every symbol of the table has an index below its counter.
pub open spec fn indices_below(t: SymbolTableView) -> bool {
    forall|i: int, k: Seq<char>|
        0 <= i < t.scopes.len() && #[trigger] t.scopes[i].symbols.contains_key(k) ==> t.scopes[i].symbols[k].index
            < t.counter
}

/// Indices record the order of insertion: every operation keeps every index below the
/// counter, so a symbol just inserted has an index above that of every symbol inserted
/// before it, in any scope.
pub proof fn lemma_insert_index(t: SymbolTableView, name: Seq<char>, kind: SymbolKind, ty: Option<TypeView>)
    requires
        t.wf(),
    ensures
        indices_below(SymbolTableView::new_table()),
        indices_below(t.enter()),
        indices_below(t.exit()),
        indices_below(t.insert(name, kind, ty)),
        forall|i: int, k: Seq<char>|
            0 <= i < t.scopes.len() && #[trigger] t.scopes[i].symbols.contains_key(k) ==> t.scopes[i].symbols[k].index
                < t.insert(name, kind, ty).lookup_current(name)->0.index,
{
    let e = t.enter();
    assert forall|i: int, k: Seq<char>|
        0 <= i < e.scopes.len() && #[trigger] e.scopes[i].symbols.contains_key(k) implies e.scopes[i].symbols[k].index
        < e.counter by {
        if i < t.scopes.len() {
            assert(e.scopes[i] == t.scopes[i]);
        }
    }
    let s2 = t.insert(name, kind, ty);
    assert forall|i: int, k: Seq<char>|
        0 <= i < s2.scopes.len() && #[trigger] s2.scopes[i].symbols.contains_key(k) implies s2.scopes[i].symbols[k].index
        < s2.counter by {
        if i != t.current {
            assert(s2.scopes[i] == t.scopes[i]);
        } else if k != name {
            assert(t.scopes[i].symbols.contains_key(k));
        }
    }
}

/// Scoping: entering a scope, binding a name there and leaving again restores what
/// every name resolves to and the depth (the inner binding is gone, an outer binding
/// of the same name that it shadowed is visible again).
pub proof fn lemma_enter_insert_exit(
    t: SymbolTableView,
    name: Seq<char>,
    kind: SymbolKind,
    ty: Option<TypeView>,
    x: Seq<char>,
)
    requires
        t.wf(),
    ensures
        t.enter().lookup(x) == t.lookup(x),
        t.enter().depth() == t.depth() + 1,
        t.enter().insert(name, kind, ty).lookup(name) == Some(
            SymbolView { name, kind, ty, scope_depth: t.depth() + 1, index: t.counter },
        ),
        t.enter().insert(name, kind, ty).exit().lookup(x) == t.lookup(x),
        t.enter().insert(name, kind, ty).exit().depth() == t.depth(),
        t.enter().exit().lookup(x) == t.lookup(x),
        t.enter().exit().depth() == t.depth(),
{
    let e = t.enter();
    let sc = ScopeView { symbols: Map::empty(), depth: t.depth() + 1, parent: Some(t.current) };
    lemma_operations_keep_wf(t, name, kind, ty);
    lemma_lookup_from_push(t.scopes, sc, t.current as int, x);
    assert(e.scopes == t.scopes.push(sc));
    let n = e.insert(name, kind, ty);
    lemma_insert_then_lookup(e, name, kind, ty, x);
    lemma_lookup_from_other_scope(e.scopes, e.current as int, n.scopes[e.current as int], t.current as int, x);
    assert(n.scopes == e.scopes.update(e.current as int, n.scopes[e.current as int]));
    assert(n.exit().current == t.current);
    assert(e.exit().current == t.current);
}

/// Leaving scope: only the global scope has no parent, so `exit` fails exactly at depth 0
/// and then changes nothing; otherwise it lowers the depth by one.
pub proof fn lemma_exit_depth(t: SymbolTableView)
    requires
        t.wf(),
    ensures
        (t.scopes[t.current as int].parent is None) <==> t.depth() == 0,
        t.depth() == 0 ==> t.exit() == t,
        t.depth() > 0 ==> t.exit().depth() + 1 == t.depth(),
{
    if t.current > 0 {
        assert(t.scopes[t.current as int].parent is Some);
    }
}

proof fn lemma_depth_bound(v: SymbolTableView, i: int)
    requires
        v.wf(),
        0 <= i < v.scopes.len(),
    ensures
        v.scopes[i].depth <= i,
    decreases i,
{
    if i > 0 {
        lemma_depth_bound(v, v.scopes[i].parent->0 as int);
    }
}

proof fn lemma_symbols_map_len(syms: Seq<Symbol>)
    requires
        names_unique(syms),
    ensures
        symbols_map(syms).len() == syms.len(),
        symbols_map(syms).dom().finite(),
    decreases syms.len(),
{
    if syms.len() == 0 {
        assert(symbols_map(syms).dom() =~= Set::empty());
    } else {
        let prefix = syms.drop_last();
        let last = syms.last();
        assert(names_unique(prefix));
        lemma_symbols_map_len(prefix);
        assert forall|j: int| 0 <= j < prefix.len() implies #[trigger] prefix[j].name@ != last.name@ by {
            assert(syms[j] == prefix[j]);
        }
        lemma_symbols_map_absent(prefix, last.name@);
        lemma_symbols_map_push(prefix, last);
        assert(prefix.push(last) =~= syms);
    }
}

spec fn names_unique(syms: Seq<Symbol>) -> bool {
    forall|i: int, j: int|
        0 <= i < syms.len() && 0 <= j < syms.len() && i != j ==> #[trigger] syms[i].name@
            != #[trigger] syms[j].name@
}

spec fn symbols_map(syms: Seq<Symbol>) -> Map<Seq<char>, SymbolView> {
    Map::new(
        |k: Seq<char>| exists|i: int| 0 <= i < syms.len() && #[trigger] syms[i].name@ == k,
        |k: Seq<char>| syms[choose|i: int| 0 <= i < syms.len() && #[trigger] syms[i].name@ == k]@,
    )
}

impl Scope {
    spec fn view(&self) -> ScopeView {
        ScopeView {
            symbols: symbols_map(self.symbols@),
            depth: self.depth as nat,
            parent: match self.parent {
                Some(p) => Some(p as nat),
                None => None,
            },
        }
    }
}

/// The symbol table managing nested scopes.
pub struct SymbolTable {
    scopes: Vec<Scope>,
    current: usize,
    counter: usize,
}

impl View for SymbolTable {
    type V = SymbolTableView;

    closed spec fn view(&self) -> SymbolTableView {
        table_view(self.scopes@, self.current, self.counter)
    }
}

spec fn table_view(scopes: Seq<Scope>, current: usize, counter: usize) -> SymbolTableView {
    SymbolTableView {
        scopes: Seq::new(scopes.len() as nat, |i: int| scopes[i].view()),
        current: current as nat,
        counter: counter as nat,
    }
}

spec fn scopes_unique(scopes: Seq<Scope>) -> bool {
    forall|i: int| 0 <= i < scopes.len() ==> names_unique(#[trigger] scopes[i].symbols@)
}

proof fn lemma_replace_binding(
    old_scopes: Seq<Scope>,
    new_scopes: Seq<Scope>,
    cur: usize,
    counter: usize,
    k: int,
    j: int,
    name: Seq<char>,
)
    requires
        table_view(old_scopes, cur, counter).wf(),
        scopes_unique(old_scopes),
        table_view(old_scopes, cur, counter).binding_scope(name) == Some(k),
        0 <= k < old_scopes.len(),
        0 <= j < old_scopes[k].symbols@.len(),
        old_scopes[k].symbols@[j].name@ == name,
        new_scopes.len() == old_scopes.len(),
        forall|i: int| 0 <= i < old_scopes.len() && i != k ==> new_scopes[i] == old_scopes[i],
        new_scopes[k].depth == old_scopes[k].depth,
        new_scopes[k].parent == old_scopes[k].parent,
        new_scopes[k].symbols@ == old_scopes[k].symbols@.update(j, new_scopes[k].symbols@[j]),
        new_scopes[k].symbols@[j].name@ == name,
    ensures
        new_scopes[k].symbols@[j].index < counter ==> table_view(new_scopes, cur, counter).wf(),
        scopes_unique(new_scopes),
        table_view(new_scopes, cur, counter) == table_view(old_scopes, cur, counter).replace_binding(
            name,
            new_scopes[k].symbols@[j]@,
        ),
{
    let s2 = new_scopes[k].symbols@[j];
    lemma_symbols_map_update(old_scopes[k].symbols@, j, s2);
    assert(scopes_unique(new_scopes));
    assert(table_view(new_scopes, cur, counter).scopes =~= table_view(
        old_scopes,
        cur,
        counter,
    ).replace_binding(name, s2@).scopes);
}

proof fn lemma_symbols_map_index(syms: Seq<Symbol>, i: int)
    requires
        names_unique(syms),
        0 <= i < syms.len(),
    ensures
        symbols_map(syms).contains_key(syms[i].name@),
        symbols_map(syms)[syms[i].name@] == syms[i]@,
{
    let k = syms[i].name@;
    assert(symbols_map(syms).dom().contains(k));
    let j = choose|j: int| 0 <= j < syms.len() && #[trigger] syms[j].name@ == k;
    assert(j == i);
}

proof fn lemma_symbols_map_push(syms: Seq<Symbol>, s: Symbol)
    requires
        names_unique(syms),
        !symbols_map(syms).contains_key(s.name@),
    ensures
        names_unique(syms.push(s)),
        symbols_map(syms.push(s)) =~= symbols_map(syms).insert(s.name@, s@),
{
    let t = syms.push(s);
    assert forall|i: int| 0 <= i < syms.len() implies #[trigger] syms[i].name@ != s.name@ by {
        if syms[i].name@ == s.name@ {
            assert(symbols_map(syms).dom().contains(s.name@));
        }
    }
    assert(names_unique(t));
    assert forall|k: Seq<char>| #[trigger]
        symbols_map(t).contains_key(k) == symbols_map(syms).insert(s.name@, s@).contains_key(k) by {
        if symbols_map(syms).contains_key(k) {
            let j = choose|j: int| 0 <= j < syms.len() && #[trigger] syms[j].name@ == k;
            assert(t[j].name@ == k);
        }
        if symbols_map(t).contains_key(k) && k != s.name@ {
            let j = choose|j: int| 0 <= j < t.len() && #[trigger] t[j].name@ == k;
            assert(syms[j].name@ == k);
        }
        if k == s.name@ {
            assert(t[syms.len() as int].name@ == k);
        }
    }
    assert forall|k: Seq<char>| #[trigger] symbols_map(t).contains_key(k) implies symbols_map(t)[k]
        == symbols_map(syms).insert(s.name@, s@)[k] by {
        if k == s.name@ {
            lemma_symbols_map_index(t, syms.len() as int);
        } else {
            let j = choose|j: int| 0 <= j < syms.len() && #[trigger] syms[j].name@ == k;
            lemma_symbols_map_index(syms, j);
            assert(t[j] == syms[j]);
            lemma_symbols_map_index(t, j);
        }
    }
}

proof fn lemma_symbols_map_update(syms: Seq<Symbol>, i: int, s: Symbol)
    requires
        names_unique(syms),
        0 <= i < syms.len(),
        syms[i].name@ == s.name@,
    ensures
        names_unique(syms.update(i, s)),
        symbols_map(syms.update(i, s)) =~= symbols_map(syms).insert(s.name@, s@),
{
    let t = syms.update(i, s);
    assert(names_unique(t));
    assert forall|k: Seq<char>| #[trigger]
        symbols_map(t).contains_key(k) == symbols_map(syms).insert(s.name@, s@).contains_key(k) by {
        if symbols_map(syms).contains_key(k) {
            let j = choose|j: int| 0 <= j < syms.len() && #[trigger] syms[j].name@ == k;
            assert(t[j].name@ == k);
        }
        if symbols_map(t).contains_key(k) {
            let j = choose|j: int| 0 <= j < t.len() && #[trigger] t[j].name@ == k;
            assert(syms[j].name@ == k);
        }
        if k == s.name@ {
            assert(t[i].name@ == k);
        }
    }
    assert forall|k: Seq<char>| #[trigger] symbols_map(t).contains_key(k) implies symbols_map(t)[k]
        == symbols_map(syms).insert(s.name@, s@)[k] by {
        if k == s.name@ {
            lemma_symbols_map_index(t, i);
        } else {
            let j = choose|j: int| 0 <= j < syms.len() && #[trigger] syms[j].name@ == k;
            lemma_symbols_map_index(syms, j);
            assert(t[j] == syms[j]);
            lemma_symbols_map_index(t, j);
        }
    }
}

/// Position of the symbol named `name` in a scope's symbol list.
fn find_symbol(syms: &Vec<Symbol>, name: &String) -> (r: Option<usize>)
    ensures
        match r {
            Some(j) => j < syms@.len() && syms@[j as int].name@ == name@,
            None => forall|j: int| 0 <= j < syms@.len() ==> #[trigger] syms@[j].name@ != name@,
        },
{
    let mut j: usize = 0;
    while j < syms.len()
        invariant
            0 <= j <= syms@.len(),
            forall|k: int| 0 <= k < j ==> #[trigger] syms@[k].name@ != name@,
        decreases syms@.len() - j,
    {
        if syms[j].name.eq(name) {
            return Some(j);
        }
        j = j + 1;
    }
    None
}

proof fn lemma_symbols_map_absent(syms: Seq<Symbol>, name: Seq<char>)
    requires
        forall|j: int| 0 <= j < syms.len() ==> #[trigger] syms[j].name@ != name,
    ensures
        !symbols_map(syms).contains_key(name),
{
}

impl SymbolTable {
    /// Every scope's names are distinct, and the view is well formed.
    pub closed spec fn wf(&self) -> bool {
        &&& self@.wf()
        &&& scopes_unique(self.scopes@)
    }

    /// A well-formed table has a well-formed view.
    pub proof fn lemma_view_wf(&self)
        requires
            self.wf(),
        ensures
            self@.wf(),
    {
    }

    pub fn new() -> (st: SymbolTable)
        ensures
            st.wf(),
            st@ == SymbolTableView::new_table(),
    {
        let global = Scope { symbols: Vec::new(), depth: 0, parent: None };
        let mut scopes: Vec<Scope> = Vec::new();
        scopes.push(global);
        let st = SymbolTable { scopes, current: 0, counter: 0 };
        assert(symbols_map(st.scopes@[0].symbols@) =~= Map::empty());
        assert(st@.scopes =~= SymbolTableView::new_table().scopes);
        st
    }

    /// Enter a new scope.
    pub fn enter_scope(&mut self)
        requires
            old(self).wf(),
            old(self)@.scopes.len() < usize::MAX,
        ensures
            final(self).wf(),
            final(self)@ == old(self)@.enter(),
    {
        let ghost old_view = self@;
        proof {
            lemma_depth_bound(self@, self.current as int);
        }
        let depth = self.scopes[self.current].depth + 1;
        let parent = Some(self.current);
        self.scopes.push(Scope { symbols: Vec::new(), depth, parent });
        self.current = self.scopes.len() - 1;
        assert(symbols_map(Seq::<Symbol>::empty()) =~= Map::empty());
        assert(self@.scopes =~= old_view.enter().scopes);
    }

    /// Exit the current scope, returning to its parent; the global scope cannot be exited.
    pub fn exit_scope(&mut self) -> (r: bool)
        requires
            old(self).wf(),
        ensures
            final(self).wf(),
            final(self)@ == old(self)@.exit(),
            r == (old(self)@.scopes[old(self)@.current as int].parent is Some),
    {
        let ghost old_view = self@;
        if let Some(parent) = self.scopes[self.current].parent {
            self.current = parent;
            assert(self@.scopes =~= old_view.scopes);
            true
        } else {
            false
        }
    }

    /// Insert a symbol into the current scope; returns the symbol it replaces there.
    pub fn insert(&mut self, name: &str, kind: SymbolKind, ty: Option<Type>) -> (r: Option<Symbol>)
        requires
            old(self).wf(),
            old(self)@.counter < usize::MAX,
        ensures
            final(self).wf(),
            final(self)@ == old(self)@.insert(name@, kind, opt_type_view(ty)),
            match r {
                Some(s) => old(self)@.lookup_current(name@) == Some(s@),
                None => old(self)@.lookup_current(name@) is None,
            },
    {
        let ghost old_view = self@;
        let cur = self.current;
        let depth = self.scopes[cur].depth;
        let index = self.counter;
        self.counter = self.counter + 1;
        let key = String::from_str(name);
        let symbol = Symbol { name: String::from_str(name), kind, ty, scope_depth: depth, index };
        let ghost new_sym = symbol;
        let ghost old_syms = self.scopes@[cur as int].symbols@;
        let found = find_symbol(&self.scopes[cur].symbols, &key);
        match found {
            Some(j) => {
                let mut old_sym = symbol;
                std::mem::swap(&mut self.scopes[cur].symbols[j], &mut old_sym);
                proof {
                    lemma_symbols_map_index(old_syms, j as int);
                    lemma_symbols_map_update(old_syms, j as int, new_sym);
                    assert(self.scopes@[cur as int].symbols@ == old_syms.update(j as int, new_sym));
                    assert(self@.scopes =~= old_view.insert(name@, kind, opt_type_view(ty)).scopes);
                }
                Some(old_sym)
            },
            None => {
                self.scopes[cur].symbols.push(symbol);
                proof {
                    lemma_symbols_map_absent(old_syms, name@);
                    lemma_symbols_map_push(old_syms, new_sym);
                    assert(self@.scopes =~= old_view.insert(name@, kind, opt_type_view(ty)).scopes);
                }
                None
            },
        }
    }

    /// Look up a symbol, searching from the current scope outward.
    pub fn lookup(&self, name: &str) -> (r: Option<&Symbol>)
        requires
            self.wf(),
        ensures
            match r {
                Some(s) => self@.lookup(name@) == Some(s@),
                None => self@.lookup(name@) is None,
            },
    {
        let key = String::from_str(name);
        let mut idx: usize = self.current;
        loop
            invariant
                self.wf(),
                key@ == name@,
                idx < self.scopes@.len(),
                self@.lookup_from(idx as int, name@) == self@.lookup(name@),
            decreases idx,
        {
            let ghost syms = self.scopes@[idx as int].symbols@;
            assert(self@.scopes[idx as int] == self.scopes@[idx as int].view());
            match find_symbol(&self.scopes[idx].symbols, &key) {
                Some(j) => {
                    proof {
                        lemma_symbols_map_index(syms, j as int);
                    }
                    return Some(&self.scopes[idx].symbols[j]);
                },
                None => {
                    proof {
                        lemma_symbols_map_absent(syms, name@);
                    }
                    match self.scopes[idx].parent {
                        Some(p) => {
                            assert(idx > 0);
                            idx = p;
                        },
                        None => {
                            return None;
                        },
                    }
                },
            }
        }
    }

    /// Where the binding a name resolves to is stored: scope index and position.
    fn locate(&self, name: &str) -> (r: Option<(usize, usize)>)
        requires
            self.wf(),
        ensures
            match r {
                Some((k, j)) => {
                    &&& self@.binding_scope(name@) == Some(k as int)
                    &&& k < self.scopes@.len()
                    &&& j < self.scopes@[k as int].symbols@.len()
                    &&& self.scopes@[k as int].symbols@[j as int].name@ == name@
                    &&& self@.lookup(name@) == Some(self.scopes@[k as int].symbols@[j as int]@)
                },
                None => self@.lookup(name@) is None && self@.binding_scope(name@) is None,
            },
    {
        let key = String::from_str(name);
        let mut idx: usize = self.current;
        loop
            invariant
                self.wf(),
                key@ == name@,
                idx < self.scopes@.len(),
                self@.lookup_from(idx as int, name@) == self@.lookup(name@),
                self@.binding_scope_from(idx as int, name@) == self@.binding_scope(name@),
            decreases idx,
        {
            let ghost syms = self.scopes@[idx as int].symbols@;
            assert(self@.scopes[idx as int] == self.scopes@[idx as int].view());
            match find_symbol(&self.scopes[idx].symbols, &key) {
                Some(j) => {
                    proof {
                        lemma_symbols_map_index(syms, j as int);
                    }
                    return Some((idx, j));
                },
                None => {
                    proof {
                        lemma_symbols_map_absent(syms, name@);
                    }
                    match self.scopes[idx].parent {
                        Some(p) => {
                            assert(idx > 0);
                            idx = p;
                        },
                        None => {
                            return None;
                        },
                    }
                },
            }
        }
    }

    /// Look up a symbol mutably, searching from the current scope outward.  Changes made
    /// through the reference land in the binding that `lookup` would return; the table
    /// stays well formed where the name is kept and the index stays below the counter.
    pub fn lookup_mut(&mut self, name: &str) -> (r: Option<&mut Symbol>)
        requires
            old(self).wf(),
        ensures
            match r {
                Some(s) => {
                    &&& old(self)@.lookup(name@) == Some((*s)@)
                    &&& (*final(s)).name@ == name@ ==> final(self)@ == old(self)@.replace_binding(
                        name@,
                        (*final(s))@,
                    )
                    &&& (*final(s)).name@ == name@ && (*final(s)).index < old(self)@.counter
                        ==> final(self).wf()
                },
                None => {
                    &&& old(self)@.lookup(name@) is None
                    &&& final(self)@ == old(self)@
                    &&& final(self).wf()
                },
            },
    {
        match self.locate(name) {
            Some((k, j)) => {
                let ghost old_view = self@;
                let ghost old_scopes = self.scopes@;
                let ghost syms = self.scopes@[k as int].symbols@;
                let sym = &mut self.scopes[k].symbols[j];
                let ghost cur = self.current;
                let ghost counter = self.counter;
                proof {
                    assert forall|sc2: Seq<Scope>|
                        sc2.len() == old_scopes.len() && (forall|i: int|
                            0 <= i < old_scopes.len() && i != k ==> sc2[i] == old_scopes[i])
                            && sc2[k as int].depth == old_scopes[k as int].depth
                            && sc2[k as int].parent == old_scopes[k as int].parent
                            && sc2[k as int].symbols@ == old_scopes[k as int].symbols@.update(
                            j as int,
                            sc2[k as int].symbols@[j as int],
                        ) && sc2[k as int].symbols@[j as int].name@ == name@ implies {
                        &&& sc2[k as int].symbols@[j as int].index < counter ==> table_view(
                            sc2,
                            cur,
                            counter,
                        ).wf()
                        &&& scopes_unique(sc2)
                        &&& #[trigger] table_view(sc2, cur, counter) == old_view.replace_binding(
                            name@,
                            sc2[k as int].symbols@[j as int]@,
                        )
                    } by {
                        lemma_replace_binding(old_scopes, sc2, cur, counter, k as int, j as int, name@);
                    }
                }
                Some(sym)
            },
            None => None,
        }
    }

    /// The binding of a name in the current scope only.
    pub fn lookup_current(&self, name: &str) -> (r: Option<&Symbol>)
        requires
            self.wf(),
        ensures
            match r {
                Some(s) => self@.lookup_current(name@) == Some(s@),
                None => self@.lookup_current(name@) is None,
            },
    {
        let key = String::from_str(name);
        let ghost syms = self.scopes@[self.current as int].symbols@;
        assert(self@.scopes[self.current as int] == self.scopes@[self.current as int].view());
        match find_symbol(&self.scopes[self.current].symbols, &key) {
            Some(j) => {
                proof {
                    lemma_symbols_map_index(syms, j as int);
                }
                Some(&self.scopes[self.current].symbols[j])
            },
            None => {
                proof {
                    lemma_symbols_map_absent(syms, name@);
                }
                None
            },
        }
    }

    /// All symbols of the current scope.
    pub fn current_symbols(&self) -> (r: Vec<&Symbol>)
        requires
            self.wf(),
        ensures
            r@.len() == self@.scopes[self@.current as int].symbols.len(),
            forall|i: int|
                0 <= i < r@.len() ==> self@.lookup_current(r@[i].name@) == Some(r@[i]@),
            forall|i: int, j: int| 0 <= i < j < r@.len() ==> r@[i].name@ != r@[j].name@,
    {
        let syms = &self.scopes[self.current].symbols;
        let ghost s = syms@;
        assert(self@.scopes[self.current as int] == self.scopes@[self.current as int].view());
        let mut out: Vec<&Symbol> = Vec::new();
        let mut i: usize = 0;
        while i < syms.len()
            invariant
                0 <= i <= syms@.len(),
                s == syms@,
                out@.len() == i,
                forall|k: int| 0 <= k < i ==> out@[k] == s[k],
            decreases syms@.len() - i,
        {
            out.push(&syms[i]);
            i = i + 1;
        }
        proof {
            assert(names_unique(s));
            assert forall|i: int| 0 <= i < out@.len() implies self@.lookup_current(out@[i].name@)
                == Some(out@[i]@) by {
                lemma_symbols_map_index(s, i);
            }
            lemma_symbols_map_len(s);
            assert forall|i: int, j: int| 0 <= i < j < out@.len() implies out@[i].name@
                != out@[j].name@ by {
                assert(out@[i] == s[i] && out@[j] == s[j]);
            }
        }
        out
    }

    /// Current scope depth (0 = global).
    pub fn depth(&self) -> (r: usize)
        requires
            self.wf(),
        ensures
            r == self@.depth(),
    {
        assert(self@.scopes[self.current as int] == self.scopes@[self.current as int].view());
        self.scopes[self.current].depth
    }

    /// Resolve a type name: the type recorded for the symbol the name resolves to, where
    /// that symbol is a struct or an enum; nothing for any other name.
    pub fn resolve_type(&self, name: &str) -> (r: Option<Type>)
        requires
            self.wf(),
        ensures
            opt_type_view(r) == match self@.lookup(name@) {
                Some(s) => if s.kind == SymbolKind::Struct || s.kind == SymbolKind::Enum {
                    s.ty
                } else {
                    None
                },
                None => None,
            },
    {
        match self.lookup(name) {
            Some(sym) => {
                let is_type = match sym.kind {
                    SymbolKind::Struct => true,
                    SymbolKind::Enum => true,
                    _ => false,
                };
                if !is_type {
                    return None;
                }
                match &sym.ty {
                    Some(t) => Some(type_clone(t)),
                    None => None,
                }
            },
            None => None,
        }
    }
}

} // verus!
