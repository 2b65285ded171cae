use vstd::prelude::*;
use crate::span::Span;
use crate::typecheck::types::Type;

verus! {

/// A variable binding.
#[derive(Debug, PartialEq)]
pub struct Symbol {
    pub name: String,
    pub ty: Type,
    pub is_mutable: bool,
    pub span: Span,
}

/// The signature of a function.
#[derive(Debug, PartialEq)]
pub struct FunctionSig {
    pub name: String,
    pub param_names: Vec<String>,
    pub param_types: Vec<Type>,
    pub return_ty: Type,
    pub span: Span,
}

impl Clone for Type {
    fn clone(&self) -> (t: Self)
        ensures
            t == *self,
    {
        self.duplicate()
    }
}

impl Clone for Symbol {
    fn clone(&self) -> (s: Self)
        ensures
            s == *self,
    {
        Symbol {
            name: self.name.clone(),
            ty: self.ty.duplicate(),
            is_mutable: self.is_mutable,
            span: self.span,
        }
    }
}

/// A copy of a list of types.
pub fn copy_types(v: &Vec<Type>) -> (r: Vec<Type>)
    ensures
        r@ == v@,
{
    let mut r: Vec<Type> = Vec::new();
    let mut i: usize = 0;
    while i < v.len()
        invariant
            i <= v@.len(),
            r@ == v@.subrange(0, i as int),
        decreases v@.len() - i,
    {
        r.push(v[i].duplicate());
        i += 1;
        assert(r@ =~= v@.subrange(0, i as int));
    }
    assert(r@ =~= v@);
    r
}

/// A copy of a list of names.
pub fn copy_strings(v: &Vec<String>) -> (r: Vec<String>)
    ensures
        r@ == v@,
{
    let mut r: Vec<String> = Vec::new();
    let mut i: usize = 0;
    while i < v.len()
        invariant
            i <= v@.len(),
            r@ == v@.subrange(0, i as int),
        decreases v@.len() - i,
    {
        r.push(v[i].clone());
        i += 1;
        assert(r@ =~= v@.subrange(0, i as int));
    }
    assert(r@ =~= v@);
    r
}

impl Clone for FunctionSig {
    fn clone(&self) -> (s: Self)
        ensures
            s.name == self.name,
            s.param_names@ == self.param_names@,
            s.param_types@ == self.param_types@,
            s.return_ty == self.return_ty,
            s.span == self.span,
    {
        FunctionSig {
            name: self.name.clone(),
            param_names: copy_strings(&self.param_names),
            param_types: copy_types(&self.param_types),
            return_ty: self.return_ty.duplicate(),
            span: self.span,
        }
    }
}

// ---------------------------------------------------------------------------
// Model of scoped lookup
// ---------------------------------------------------------------------------

/// The binding of `name` in one scope, if any.
pub open spec fn scope_lookup(scope: Seq<Symbol>, name: Seq<char>) -> Option<Symbol> {
    if exists|i: int| 0 <= i < scope.len() && (#[trigger] scope[i]).name@ == name {
        Some(scope[choose|i: int| 0 <= i < scope.len() && (#[trigger] scope[i]).name@ == name])
    } else {
        None
    }
}

/// The binding of `name` in the innermost scope that binds it.
pub open spec fn scopes_lookup(scopes: Seq<Seq<Symbol>>, name: Seq<char>) -> Option<Symbol>
    decreases scopes.len(),
{
    if scopes.len() == 0 {
        None
    } else {
        match scope_lookup(scopes.last(), name) {
            Some(s) => Some(s),
            None => scopes_lookup(scopes.drop_last(), name),
        }
    }
}

/// No two bindings in a scope share a name.
pub open spec fn names_unique(scope: Seq<Symbol>) -> bool {
    forall|i: int, j: int|
        0 <= i < scope.len() && 0 <= j < scope.len() && i != j ==> (#[trigger] scope[i]).name@
            != (#[trigger] scope[j]).name@
}

pub open spec fn sig_lookup(sigs: Seq<FunctionSig>, name: Seq<char>) -> Option<FunctionSig> {
    if exists|i: int| 0 <= i < sigs.len() && (#[trigger] sigs[i]).name@ == name {
        Some(sigs[choose|i: int| 0 <= i < sigs.len() && (#[trigger] sigs[i]).name@ == name])
    } else {
        None
    }
}

pub open spec fn sig_names_unique(sigs: Seq<FunctionSig>) -> bool {
    forall|i: int, j: int|
        0 <= i < sigs.len() && 0 <= j < sigs.len() && i != j ==> (#[trigger] sigs[i]).name@
            != (#[trigger] sigs[j]).name@
}

/// Two signatures agree in every field.
pub open spec fn sig_same(a: FunctionSig, b: FunctionSig) -> bool {
    &&& a.name == b.name
    &&& a.param_names@ == b.param_names@
    &&& a.param_types@ == b.param_types@
    &&& a.return_ty == b.return_ty
    &&& a.span == b.span
}

/// Adding a binding to the innermost scope.
pub open spec fn define_in(scopes: Seq<Seq<Symbol>>, sym: Symbol) -> Seq<Seq<Symbol>> {
    scopes.update(scopes.len() - 1, scopes.last().push(sym))
}

/// Nested lexical scopes of variables, and the program's function signatures.
#[derive(Debug)]
pub struct ScopeEnvironment {
    scopes: Vec<Vec<Symbol>>,
    functions: Vec<FunctionSig>,
}

impl ScopeEnvironment {
    /// The scopes, outermost first.
    pub closed spec fn model(&self) -> Seq<Seq<Symbol>> {
        Seq::new(self.scopes@.len(), |i: int| self.scopes@[i]@)
    }

    pub closed spec fn sigs(&self) -> Seq<FunctionSig> {
        self.functions@
    }

    /// There is at least one scope, and names are unique within each scope and
    /// among the functions.
    pub open spec fn wf(&self) -> bool {
        &&& self.model().len() >= 1
        &&& forall|i: int| 0 <= i < self.model().len() ==> names_unique(#[trigger] self.model()[i])
        &&& sig_names_unique(self.sigs())
    }

    pub fn new() -> (env: Self)
        ensures
            env.wf(),
            env.model() == seq![Seq::<Symbol>::empty()],
            env.sigs() == Seq::<FunctionSig>::empty(),
    {
        let mut scopes: Vec<Vec<Symbol>> = Vec::new();
        scopes.push(Vec::new());
        let env = ScopeEnvironment { scopes, functions: Vec::new() };
        assert(env.model() =~= seq![Seq::<Symbol>::empty()]);
        env
    }

    /// Opens a new innermost scope.
    pub fn enter_scope(&mut self)
        requires
            old(self).wf(),
        ensures
            final(self).wf(),
            final(self).model() == old(self).model().push(Seq::<Symbol>::empty()),
            final(self).sigs() == old(self).sigs(),
    {
        self.scopes.push(Vec::new());
        assert(self.model() =~= old(self).model().push(Seq::<Symbol>::empty()));
    }

    /// Closes the innermost scope; the outermost scope is never closed.
    pub fn exit_scope(&mut self)
        requires
            old(self).wf(),
        ensures
            final(self).wf(),
            old(self).model().len() > 1 ==> final(self).model() == old(self).model().drop_last(),
            old(self).model().len() <= 1 ==> final(self).model() == old(self).model(),
            final(self).sigs() == old(self).sigs(),
    {
        if self.scopes.len() > 1 {
            self.scopes.pop();
            assert(self.model() =~= old(self).model().drop_last());
        }
    }

    pub fn depth(&self) -> (n: usize)
        ensures
            n == self.model().len(),
    {
        self.scopes.len()
    }

    /// Binds `symbol` in the innermost scope, or returns the binding that
    /// already uses its name there.
    pub fn define_variable(&mut self, symbol: Symbol) -> (res: Result<(), Symbol>)
        requires
            old(self).wf(),
        ensures
            final(self).wf(),
            final(self).sigs() == old(self).sigs(),
            match scope_lookup(old(self).model().last(), symbol.name@) {
                Some(existing) => res == Err::<(), Symbol>(existing) && final(self).model()
                    == old(self).model(),
                None => res is Ok && final(self).model() == define_in(old(self).model(), symbol),
            },
    {
        let last = self.scopes.len() - 1;
        let ghost m = old(self).model();
        assert(self.scopes@[last as int]@ == m.last());
        let mut i: usize = 0;
        while i < self.scopes[last].len()
            invariant
                self.scopes@ == old(self).scopes@,
                m == old(self).model(),
                old(self).wf(),
                m.len() == self.scopes@.len(),
                self.scopes@[last as int]@ == m.last(),
                last == self.scopes@.len() - 1,
                i <= self.scopes@[last as int]@.len(),
                forall|k: int| 0 <= k < i ==> (#[trigger] self.scopes@[last as int]@[k]).name@
                    != symbol.name@,
            decreases self.scopes@[last as int]@.len() - i,
        {
            if self.scopes[last][i].name == symbol.name {
                let existing = self.scopes[last][i].clone();
                proof {
                    let scope = m.last();
                    assert(scope[i as int].name@ == symbol.name@);
                    let j = choose|j: int| 0 <= j < scope.len() && (#[trigger] scope[j]).name@
                        == symbol.name@;
                    assert(names_unique(m[m.len() - 1]));
                    if j != i {
                        assert(scope[j].name@ != scope[i as int].name@);
                    }
                }
                return Err(existing);
            }
            i += 1;
        }
        assert(scope_lookup(m.last(), symbol.name@).is_none()) by {
            if exists|j: int| 0 <= j < m.last().len() && (#[trigger] m.last()[j]).name@ == symbol.name@ {
                let j = choose|j: int| 0 <= j < m.last().len() && (#[trigger] m.last()[j]).name@
                    == symbol.name@;
                assert(self.scopes@[last as int]@[j] == m.last()[j]);
            }
        }
        let mut cur = self.scopes.pop().unwrap();
        let ghost old_cur = cur@;
        cur.push(symbol);
        self.scopes.push(cur);
        proof {
            assert(self.model() =~= define_in(m, symbol));
            let nm = self.model();
            assert forall|k: int| 0 <= k < nm.len() implies names_unique(#[trigger] nm[k]) by {
                if k < nm.len() - 1 {
                    assert(nm[k] == m[k]);
                } else {
                    let sc = nm[k];
                    assert(sc == old_cur.push(symbol));
                    assert(names_unique(m[k]));
                    assert forall|a: int, b: int|
                        0 <= a < sc.len() && 0 <= b < sc.len() && a != b implies (#[trigger] sc[a]).name@
                            != (#[trigger] sc[b]).name@ by {
                        if a < old_cur.len() && b < old_cur.len() {
                            assert(sc[a] == m[k][a] && sc[b] == m[k][b]);
                        } else if a == old_cur.len() {
                            assert(sc[b] == old_cur[b]);
                            assert(old_cur[b] == self.scopes@[last as int]@[b]) by {
                                assert(old_cur == m.last());
                            }
                        } else {
                            assert(sc[a] == old_cur[a]);
                        }
                    }
                }
            }
        }
        Ok(())
    }

    /// The innermost binding of `name`.
    pub fn lookup_variable(&self, name: &str) -> (r: Option<&Symbol>)
        requires
            self.wf(),
        ensures
            match scopes_lookup(self.model(), name@) {
                Some(s) => r == Some(&s),
                None => r.is_none(),
            },
    {
        let key = String::from_str(name);
        let mut k = self.scopes.len();
        let ghost m = self.model();
        assert(m.subrange(0, k as int) =~= m);
        while k > 0
            invariant
                k <= self.scopes@.len(),
                m == self.model(),
                key@ == name@,
                self.wf(),
                scopes_lookup(m, name@) == scopes_lookup(m.subrange(0, k as int), name@),
            decreases k,
        {
            let scope = &self.scopes[k - 1];
            let ghost sub = m.subrange(0, k as int);
            assert(sub.last() == scope@);
            assert(sub.drop_last() =~= m.subrange(0, k - 1));
            let mut i: usize = 0;
            assert(m[k - 1] == scope@);
            assert(names_unique(m[k - 1]));
            while i < scope.len()
                invariant
                    i <= scope@.len(),
                    1 <= k <= m.len(),
                    m == self.model(),
                    m[k - 1] == scope@,
                    names_unique(scope@),
                    sub == m.subrange(0, k as int),
                    sub.last() == scope@,
                    scopes_lookup(m, name@) == scopes_lookup(sub, name@),
                    key@ == name@,
                    forall|j: int| 0 <= j < i ==> (#[trigger] scope@[j]).name@ != name@,
                decreases scope@.len() - i,
            {
                if scope[i].name == key {
                    proof {
                        let j = choose|j: int| 0 <= j < scope@.len() && (#[trigger] scope@[j]).name@
                            == name@;
                        if j != i {
                            assert(scope@[j].name@ != scope@[i as int].name@);
                        }
                    }
                    return Some(&scope[i]);
                }
                i += 1;
            }
            assert(scope_lookup(scope@, name@).is_none()) by {
                if exists|j: int| 0 <= j < scope@.len() && (#[trigger] scope@[j]).name@ == name@ {
                    let j = choose|j: int| 0 <= j < scope@.len() && (#[trigger] scope@[j]).name@ == name@;
                    assert(scope@[j].name@ != name@);
                }
            }
            k -= 1;
        }
        assert(m.subrange(0, 0) =~= Seq::<Seq<Symbol>>::empty());
        None
    }

    /// Registers a function signature, or returns the one already using its name.
    pub fn define_function(&mut self, sig: FunctionSig) -> (res: Result<(), FunctionSig>)
        requires
            old(self).wf(),
        ensures
            final(self).wf(),
            final(self).model() == old(self).model(),
            match sig_lookup(old(self).sigs(), sig.name@) {
                Some(existing) => (res matches Err(e) && sig_same(e, existing)) && final(self).sigs()
                    == old(self).sigs(),
                None => res is Ok && final(self).sigs() == old(self).sigs().push(sig),
            },
    {
        let ghost fs = old(self).sigs();
        let mut i: usize = 0;
        while i < self.functions.len()
            invariant
                self.functions@ == fs,
                fs == old(self).sigs(),
                old(self).wf(),
                self.model() == old(self).model(),
                self.wf(),
                i <= fs.len(),
                forall|k: int| 0 <= k < i ==> (#[trigger] fs[k]).name@ != sig.name@,
            decreases fs.len() - i,
        {
            if self.functions[i].name == sig.name {
                proof {
                    let j = choose|j: int| 0 <= j < fs.len() && (#[trigger] fs[j]).name@ == sig.name@;
                    if j != i {
                        assert(fs[j].name@ != fs[i as int].name@);
                    }
                }
                return Err(self.functions[i].clone());
            }
            i += 1;
        }
        self.functions.push(sig);
        proof {
            assert(self.model() =~= old(self).model());
            let ns = self.sigs();
            assert forall|a: int, b: int|
                0 <= a < ns.len() && 0 <= b < ns.len() && a != b implies (#[trigger] ns[a]).name@
                    != (#[trigger] ns[b]).name@ by {
                if a < fs.len() && b < fs.len() {
                    assert(ns[a] == fs[a] && ns[b] == fs[b]);
                } else if a == fs.len() {
                    assert(ns[b] == fs[b]);
                } else {
                    assert(ns[a] == fs[a]);
                }
            }
        }
        Ok(())
    }

    /// The signature of the function called `name`.
    pub fn lookup_function(&self, name: &str) -> (r: Option<&FunctionSig>)
        requires
            self.wf(),
        ensures
            match sig_lookup(self.sigs(), name@) {
                Some(s) => r == Some(&s),
                None => r.is_none(),
            },
    {
        let key = String::from_str(name);
        let ghost fs = self.sigs();
        let mut i: usize = 0;
        while i < self.functions.len()
            invariant
                self.functions@ == fs,
                self.wf(),
                key@ == name@,
                i <= fs.len(),
                forall|k: int| 0 <= k < i ==> (#[trigger] fs[k]).name@ != name@,
            decreases fs.len() - i,
        {
            if self.functions[i].name == key {
                proof {
                    let j = choose|j: int| 0 <= j < fs.len() && (#[trigger] fs[j]).name@ == name@;
                    if j != i {
                        assert(fs[j].name@ != fs[i as int].name@);
                    }
                }
                return Some(&self.functions[i]);
            }
            i += 1;
        }
        None
    }

    /// All registered function signatures, in registration order.
    pub fn functions(&self) -> (r: &Vec<FunctionSig>)
        ensures
            r@ == self.sigs(),
    {
        &self.functions
    }
}

// ---------------------------------------------------------------------------
// Laws of scoped lookup
// ---------------------------------------------------------------------------

/// A variable bound in the innermost scope is found by the next lookup of its name.
pub proof fn lemma_lookup_after_define(scopes: Seq<Seq<Symbol>>, sym: Symbol)
    requires
        scopes.len() >= 1,
        scope_lookup(scopes.last(), sym.name@).is_none(),
    ensures
        scopes_lookup(define_in(scopes, sym), sym.name@) == Some(sym),
{
    let ns = define_in(scopes, sym);
    let sc = ns.last();
    assert(sc == scopes.last().push(sym));
    let j = choose|j: int| 0 <= j < sc.len() && (#[trigger] sc[j]).name@ == sym.name@;
    assert(sc[sc.len() - 1].name@ == sym.name@);
    if j < sc.len() - 1 {
        assert(scopes.last()[j] == sc[j]);
    }
}

/// Defining a variable does not change the lookup of any other name.
pub proof fn lemma_lookup_other_after_define(scopes: Seq<Seq<Symbol>>, sym: Symbol, name: Seq<char>)
    requires
        scopes.len() >= 1,
        names_unique(scopes.last()),
        name != sym.name@,
    ensures
        scopes_lookup(define_in(scopes, sym), name) == scopes_lookup(scopes, name),
{
    let ns = define_in(scopes, sym);
    let old_sc = scopes.last();
    let sc = ns.last();
    assert(sc == old_sc.push(sym));
    assert(ns.drop_last() =~= scopes.drop_last());
    if exists|i: int| 0 <= i < sc.len() && (#[trigger] sc[i]).name@ == name {
        let i = choose|i: int| 0 <= i < sc.len() && (#[trigger] sc[i]).name@ == name;
        assert(i < old_sc.len());
        assert(old_sc[i] == sc[i]);
        let j = choose|j: int| 0 <= j < old_sc.len() && (#[trigger] old_sc[j]).name@ == name;
        assert(sc[j] == old_sc[j]);
        if i != j {
            assert(old_sc[i].name@ != old_sc[j].name@);
        }
    } else {
        if exists|i: int| 0 <= i < old_sc.len() && (#[trigger] old_sc[i]).name@ == name {
            let i = choose|i: int| 0 <= i < old_sc.len() && (#[trigger] old_sc[i]).name@ == name;
            assert(sc[i] == old_sc[i]);
        }
    }
}

/// A binding in an inner scope shadows every outer binding of the same name.
pub proof fn lemma_inner_shadows_outer(scopes: Seq<Seq<Symbol>>, sym: Symbol)
    requires
        scopes.len() >= 1,
    ensures
        scopes_lookup(define_in(scopes.push(Seq::<Symbol>::empty()), sym), sym.name@) == Some(sym),
{
    let s2 = scopes.push(Seq::<Symbol>::empty());
    assert(scope_lookup(s2.last(), sym.name@).is_none());
    lemma_lookup_after_define(s2, sym);
}

/// Closing a scope restores every lookup to what it was before the scope was opened,
/// whatever was defined inside it.
pub proof fn lemma_exit_restores(scopes: Seq<Seq<Symbol>>, inner: Seq<Symbol>, name: Seq<char>)
    requires
        scopes.len() >= 1,
    ensures
        scopes.push(inner).drop_last() == scopes,
        scopes_lookup(scopes.push(Seq::<Symbol>::empty()), name) == scopes_lookup(scopes, name),
{
    assert(scopes.push(inner).drop_last() =~= scopes);
    let s2 = scopes.push(Seq::<Symbol>::empty());
    assert(s2.drop_last() =~= scopes);
    assert(scope_lookup(s2.last(), name).is_none());
}


/// The scopes after `define_variable` was called on each of `syms` in turn:
/// each symbol whose name the innermost scope does not hold yet is added to
/// it, the others are refused and change nothing.
pub open spec fn define_all(scopes: Seq<Seq<Symbol>>, syms: Seq<Symbol>) -> Seq<Seq<Symbol>>
    decreases syms.len(),
{
    if syms.len() == 0 {
        scopes
    } else {
        let s = define_all(scopes, syms.drop_last());
        if scope_lookup(s.last(), syms.last().name@) is Some {
            s
        } else {
            define_in(s, syms.last())
        }
    }
}

/// Opening a scope, making any number of definitions in it and closing it
/// again gives back the scopes as they were, so every lookup is as before.
pub proof fn lemma_exit_restores_all(scopes: Seq<Seq<Symbol>>, syms: Seq<Symbol>)
    requires
        scopes.len() >= 1,
    ensures
        define_all(scopes.push(Seq::<Symbol>::empty()), syms).len() == scopes.len() + 1,
        define_all(scopes.push(Seq::<Symbol>::empty()), syms).drop_last() == scopes,
        forall|name: Seq<char>|
            scopes_lookup(#[trigger] define_all(scopes.push(Seq::<Symbol>::empty()), syms).drop_last(), name)
                == scopes_lookup(scopes, name),
    decreases syms.len(),
{
    let s0 = scopes.push(Seq::<Symbol>::empty());
    if syms.len() == 0 {
        assert(s0.drop_last() =~= scopes);
    } else {
        lemma_exit_restores_all(scopes, syms.drop_last());
        let s = define_all(s0, syms.drop_last());
        if scope_lookup(s.last(), syms.last().name@) is None {
            let d = define_in(s, syms.last());
            assert(d.drop_last() =~= s.drop_last());
        }
    }
}

} // verus!
