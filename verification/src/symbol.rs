//! Scoped symbol table used while generating IR.
use vstd::prelude::*;
use crate::ast::{Parameter, Type, copy_params, params_eq};
use crate::virtual_register::VirtualRegister;
use crate::text::{push_str, str_equal};
use crate::grammar::{TypeV, type_v};

verus! {

#[derive(Debug)]
pub enum SymbolKind {
    LocalVariable { offset: i32, register: VirtualRegister },
    Parameter { offset: i32, register: VirtualRegister },
    GlobalVariable,
    Function { params: Vec<Parameter> },
}

#[derive(Debug)]
pub struct Symbol {
    pub name: String,
    pub symbol_type: Type,
    pub kind: SymbolKind,
}

/// One scope: its symbols, whose names are pairwise distinct.
pub type Scope = Vec<Symbol>;

/// The index of the symbol named `name` in a scope, if any.
pub open spec fn scope_index(scope: Seq<Symbol>, name: Seq<char>) -> Option<int> {
    if exists|i: int| 0 <= i < scope.len() && #[trigger] scope[i].name@ == name {
        Some(choose|i: int| 0 <= i < scope.len() && #[trigger] scope[i].name@ == name)
    } else {
        None
    }
}

/// Names in a scope are unique.
pub open spec fn scope_unique(scope: Seq<Symbol>) -> bool {
    forall|i: int, j: int|
        0 <= i < scope.len() && 0 <= j < scope.len() && #[trigger] scope[i].name@
            == #[trigger] scope[j].name@ ==> i == j
}

/// The symbol that `name` resolves to: the innermost scope that defines it
/// wins.
pub open spec fn resolve(scopes: Seq<Seq<Symbol>>, name: Seq<char>) -> Option<Symbol>
    decreases scopes.len(),
{
    if scopes.len() == 0 {
        None
    } else {
        match scope_index(scopes.last(), name) {
            Some(i) => Some(scopes.last()[i]),
            None => resolve(scopes.drop_last(), name),
        }
    }
}

/// What typing needs of a symbol: its name, the view of its type, and
/// whether it names a function.
pub struct SymV {
    pub name: Seq<char>,
    pub ty: TypeV,
    pub function: bool,
}

pub open spec fn sym_v(s: Symbol) -> SymV {
    SymV { name: s.name@, ty: type_v(s.symbol_type), function: s.kind is Function }
}

pub open spec fn scope_v(scope: Seq<Symbol>) -> Seq<SymV> {
    scope.map_values(|s: Symbol| sym_v(s))
}

pub open spec fn scopes_v(scopes: Seq<Seq<Symbol>>) -> Seq<Seq<SymV>> {
    scopes.map_values(|s: Seq<Symbol>| scope_v(s))
}

/// Whether a scope has a symbol of this name.
pub open spec fn declares(scope: Seq<SymV>, name: Seq<char>) -> bool {
    exists|j: int| 0 <= j < scope.len() && #[trigger] scope[j].name == name
}

/// The symbol a name stands for: the innermost scope that declares it wins.
pub open spec fn lookup_v(scopes: Seq<Seq<SymV>>, name: Seq<char>) -> Option<SymV>
    decreases scopes.len(),
{
    if scopes.len() == 0 {
        None
    } else if declares(scopes.last(), name) {
        Some(scopes.last()[choose|j: int| 0 <= j < scopes.last().len() && #[trigger] scopes.last()[j].name == name])
    } else {
        lookup_v(scopes.drop_last(), name)
    }
}

/// A scope declares a name exactly when [`scope_index`] finds it.
pub proof fn lemma_declares(scope: Seq<Symbol>, name: Seq<char>)
    ensures
        declares(scope_v(scope), name) <==> scope_index(scope, name) is Some,
{
    let v = scope_v(scope);
    if declares(v, name) {
        let j = choose|j: int| 0 <= j < v.len() && #[trigger] v[j].name == name;
        assert(scope[j].name@ == name);
    }
    if scope_index(scope, name) is Some {
        let i = scope_index(scope, name)->0;
        assert(v[i].name == name);
    }
}

/// The views follow a symbol added to a scope.
pub proof fn lemma_scopes_v_add(sc: Seq<Seq<Symbol>>, k: int, x: Symbol)
    requires
        0 <= k < sc.len(),
    ensures
        scopes_v(sc.update(k, sc[k].push(x))) == scopes_v(sc).update(k, scopes_v(sc)[k].push(sym_v(x))),
        scopes_v(sc)[k] == scope_v(sc[k]),
{
    assert(scope_v(sc[k].push(x)) =~= scope_v(sc[k]).push(sym_v(x)));
    assert(scopes_v(sc.update(k, sc[k].push(x))) =~= scopes_v(sc).update(k, scopes_v(sc)[k].push(sym_v(x))));
}

/// The views follow a scope opened or closed.
pub proof fn lemma_scopes_v_open_close(sc: Seq<Seq<Symbol>>)
    ensures
        scopes_v(sc.push(Seq::empty())) == scopes_v(sc).push(Seq::empty()),
        sc.len() > 0 ==> scopes_v(sc.drop_last()) == scopes_v(sc).drop_last(),
        scopes_v(sc).len() == sc.len(),
{
    assert(scope_v(Seq::<Symbol>::empty()) =~= Seq::<SymV>::empty());
    assert(scopes_v(sc.push(Seq::empty())) =~= scopes_v(sc).push(Seq::empty()));
    if sc.len() > 0 {
        assert(scopes_v(sc.drop_last()) =~= scopes_v(sc).drop_last());
    }
}

/// [`lookup_v`] on the views finds the view of what [`resolve`] finds.
pub proof fn lemma_lookup_v(scopes: Seq<Seq<Symbol>>, name: Seq<char>)
    requires
        forall|i: int| 0 <= i < scopes.len() ==> scope_unique(#[trigger] scopes[i]),
    ensures
        lookup_v(scopes_v(scopes), name) == match resolve(scopes, name) {
            Some(s) => Some(sym_v(s)),
            None => None::<SymV>,
        },
    decreases scopes.len(),
{
    if scopes.len() > 0 {
        let last = scopes.last();
        let lv = scopes_v(scopes).last();
        assert(lv == scope_v(last));
        assert(scopes_v(scopes).drop_last() =~= scopes_v(scopes.drop_last()));
        assert(scope_unique(scopes[scopes.len() - 1]));
        lemma_declares(last, name);
        match scope_index(last, name) {
            Some(i) => {
                let j = choose|j: int| 0 <= j < lv.len() && #[trigger] lv[j].name == name;
                assert(last[j].name@ == name);
                assert(last[i].name@ == name);
            },
            None => {
                assert forall|i: int| 0 <= i < scopes.drop_last().len() implies scope_unique(#[trigger] scopes.drop_last()[i]) by {
                    assert(scopes.drop_last()[i] == scopes[i]);
                }
                lemma_lookup_v(scopes.drop_last(), name);
            },
        }
    }
}

pub struct SymbolTable {
    scopes: Vec<Scope>,
    current_function: Option<String>,
    local_offset: i32,
}

impl SymbolTable {
    /// The scopes, outermost (global) first.
    pub closed spec fn scopes_view(&self) -> Seq<Seq<Symbol>> {
        Seq::new(self.scopes@.len(), |i: int| self.scopes@[i]@)
    }

    /// At least the global scope, and unique names in every scope.
    pub closed spec fn wf(&self) -> bool {
        &&& self.scopes@.len() >= 1
        &&& forall|i: int| 0 <= i < self.scopes@.len() ==> scope_unique(#[trigger] self.scopes@[i]@)
    }

    /// The stack offset of the most recently added local or parameter.
    pub closed spec fn offset(&self) -> i32 {
        self.local_offset
    }

    pub closed spec fn function(&self) -> Option<String> {
        self.current_function
    }

    /// Every scope of a well-formed table has unique names.
    pub proof fn lemma_scopes_unique(&self)
        requires
            self.wf(),
        ensures
            forall|i: int| 0 <= i < self.scopes_view().len() ==> scope_unique(#[trigger] self.scopes_view()[i]),
            self.scopes_view().len() >= 1,
    {
        assert forall|i: int| 0 <= i < self.scopes_view().len() implies scope_unique(#[trigger] self.scopes_view()[i]) by {
            assert(self.scopes_view()[i] == self.scopes@[i]@);
        }
    }

    pub fn new() -> (r: Self)
        ensures
            r.wf(),
            r.scopes_view().len() == 1,
            r.scopes_view()[0].len() == 0,
            r.offset() == 0,
            r.function() is None,
    {
        let mut scopes: Vec<Scope> = Vec::new();
        scopes.push(Vec::new());
        SymbolTable { scopes, current_function: None, local_offset: 0 }
    }

    pub fn is_global_scope(&self) -> (r: bool)
        ensures
            r == (self.scopes_view().len() == 1),
    {
        self.scopes.len() == 1
    }

    /// Opens an empty innermost scope.
    pub fn enter_scope(&mut self)
        requires
            old(self).wf(),
        ensures
            final(self).wf(),
            final(self).scopes_view() == old(self).scopes_view().push(Seq::empty()),
            final(self).offset() == old(self).offset(),
            final(self).function() == old(self).function(),
    {
        self.scopes.push(Vec::new());
        proof {
            assert(self.scopes_view() =~= old(self).scopes_view().push(Seq::empty()));
        }
    }

    /// Closes the innermost scope; the global scope cannot be closed.
    pub fn exit_scope(&mut self) -> (r: Result<(), String>)
        requires
            old(self).wf(),
        ensures
            final(self).wf(),
            final(self).offset() == old(self).offset(),
            final(self).function() == old(self).function(),
            old(self).scopes_view().len() == 1 ==> r is Err && r->Err_0@ == "Cannot exit global scope"@
                && final(self).scopes_view() == old(self).scopes_view(),
            old(self).scopes_view().len() > 1 ==> r is Ok && final(self).scopes_view() == old(
                self,
            ).scopes_view().drop_last(),
    {
        if self.scopes.len() == 1 {
            return Err("Cannot exit global scope".to_string());
        }
        let _ = self.scopes.pop();
        proof {
            assert(self.scopes_view() =~= old(self).scopes_view().drop_last());
        }
        Ok(())
    }

    pub fn enter_function(&mut self, name: String)
        requires
            old(self).wf(),
        ensures
            final(self).wf(),
            final(self).scopes_view() == old(self).scopes_view(),
            final(self).function() == Some(name),
            final(self).offset() == 0,
    {
        self.current_function = Some(name);
        self.local_offset = 0;
    }

    pub fn exit_function(&mut self)
        requires
            old(self).wf(),
        ensures
            final(self).wf(),
            final(self).scopes_view() == old(self).scopes_view(),
            final(self).function() is None,
            final(self).offset() == 0,
    {
        self.current_function = None;
        self.local_offset = 0;
    }

    fn find_in_scope(scope: &Scope, name: &String) -> (r: Option<usize>)
        requires
            scope_unique(scope@),
        ensures
            match scope_index(scope@, name@) {
                Some(i) => r == Some(i as usize),
                None => r is None,
            },
    {
        let mut i: usize = 0;
        while i < scope.len()
            invariant
                i <= scope.len(),
                scope_unique(scope@),
                forall|j: int| 0 <= j < i ==> scope@[j].name@ != name@,
            decreases scope.len() - i,
        {
            if scope[i].name == *name {
                proof {
                    assert(scope@[i as int].name@ == name@);
                    let j = choose|j: int| 0 <= j < scope@.len() && #[trigger] scope@[j].name@
                        == name@;
                    assert(scope@[j].name@ == scope@[i as int].name@);
                }
                return Some(i);
            }
            i += 1;
        }
        None
    }

    fn add_symbol(&mut self, name: String, symbol_type: Type, kind: SymbolKind) -> (r: Result<
        (),
        String,
    >)
        requires
            old(self).wf(),
        ensures
            final(self).wf(),
            final(self).offset() == old(self).offset(),
            final(self).function() == old(self).function(),
            scope_index(old(self).scopes_view().last(), name@) is Some ==> r is Err && r->Err_0@ == "Symbol '"@ + name@ + "' already defined in current scope"@
                && final(self).scopes_view() == old(self).scopes_view(),
            scope_index(old(self).scopes_view().last(), name@) is None ==> r is Ok
                && final(self).scopes_view() == old(self).scopes_view().update(
                old(self).scopes_view().len() - 1,
                old(self).scopes_view().last().push(
                    Symbol { name: name, symbol_type: symbol_type, kind: kind },
                ),
            ),
    {
        let last = self.scopes.len() - 1;
        proof {
            assert(scope_unique(self.scopes@[last as int]@));
            assert(self.scopes_view().last() == self.scopes@[last as int]@);
        }
        if Self::find_in_scope(&self.scopes[last], &name).is_some() {
            let mut message = "Symbol '".to_string();
            push_str(&mut message, name.as_str());
            push_str(&mut message, "' already defined in current scope");
            return Err(message);
        }
        let ghost old_scopes = self.scopes_view();
        let mut scope = self.scopes.pop().unwrap();
        let ghost sym = Symbol { name: name, symbol_type: symbol_type, kind: kind };
        scope.push(Symbol { name, symbol_type, kind });
        self.scopes.push(scope);
        proof {
            assert(self.scopes_view() =~= old_scopes.update(
                old_scopes.len() - 1,
                old_scopes.last().push(sym),
            ));
            let s = self.scopes@[last as int]@;
            assert forall|i: int, j: int|
                0 <= i < s.len() && 0 <= j < s.len() && #[trigger] s[i].name@
                    == #[trigger] s[j].name@ implies i == j by {
                if i < s.len() - 1 && j < s.len() - 1 {
                    assert(s[i] == old_scopes.last()[i]);
                    assert(s[j] == old_scopes.last()[j]);
                } else if i < s.len() - 1 {
                    assert(s[i] == old_scopes.last()[i]);
                    assert(old_scopes.last()[i].name@ == name@);
                } else if j < s.len() - 1 {
                    assert(s[j] == old_scopes.last()[j]);
                    assert(old_scopes.last()[j].name@ == name@);
                }
            }
            assert forall|k: int| 0 <= k < self.scopes@.len() implies scope_unique(
                #[trigger] self.scopes@[k]@,
            ) by {
                if k < last {
                    assert(self.scopes@[k]@ == old_scopes[k]);
                    assert(old(self).scopes@[k]@ == old_scopes[k]);
                }
            }
        }
        Ok(())
    }

    /// Adds a local variable to the innermost scope at the next stack slot
    /// (eight bytes below the previous one) and returns its offset.
    pub fn add_local_variable(
        &mut self,
        name: String,
        symbol_type: Type,
        register: VirtualRegister,
    ) -> (r: Result<i32, String>)
        requires
            old(self).wf(),
            old(self).offset() >= i32::MIN + 8,
        ensures
            final(self).wf(),
            final(self).offset() == old(self).offset() - 8,
            final(self).function() == old(self).function(),
            scope_index(old(self).scopes_view().last(), name@) is Some ==> r is Err && r->Err_0@ == "Symbol '"@ + name@ + "' already defined in current scope"@
                && final(self).scopes_view() == old(self).scopes_view(),
            scope_index(old(self).scopes_view().last(), name@) is None ==> r == Ok::<i32, String>(
                (old(self).offset() - 8) as i32,
            ) && final(self).scopes_view() == old(self).scopes_view().update(
                old(self).scopes_view().len() - 1,
                old(self).scopes_view().last().push(
                    Symbol {
                        name: name,
                        symbol_type: symbol_type,
                        kind: SymbolKind::LocalVariable {
                            offset: (old(self).offset() - 8) as i32,
                            register: register,
                        },
                    },
                ),
            ),
    {
        self.local_offset = self.local_offset - 8;
        let offset = self.local_offset;
        self.add_symbol(name, symbol_type, SymbolKind::LocalVariable { offset, register })?;
        Ok(offset)
    }

    /// Adds a parameter to the innermost scope at the next stack slot and
    /// returns its offset.
    pub fn add_parameter(&mut self, name: String, symbol_type: Type, register: VirtualRegister) -> (r:
        Result<i32, String>)
        requires
            old(self).wf(),
            old(self).offset() >= i32::MIN + 8,
        ensures
            final(self).wf(),
            final(self).offset() == old(self).offset() - 8,
            final(self).function() == old(self).function(),
            scope_index(old(self).scopes_view().last(), name@) is Some ==> r is Err && r->Err_0@ == "Symbol '"@ + name@ + "' already defined in current scope"@
                && final(self).scopes_view() == old(self).scopes_view(),
            scope_index(old(self).scopes_view().last(), name@) is None ==> r == Ok::<i32, String>(
                (old(self).offset() - 8) as i32,
            ) && final(self).scopes_view() == old(self).scopes_view().update(
                old(self).scopes_view().len() - 1,
                old(self).scopes_view().last().push(
                    Symbol {
                        name: name,
                        symbol_type: symbol_type,
                        kind: SymbolKind::Parameter {
                            offset: (old(self).offset() - 8) as i32,
                            register: register,
                        },
                    },
                ),
            ),
    {
        self.local_offset = self.local_offset - 8;
        let offset = self.local_offset;
        self.add_symbol(name, symbol_type, SymbolKind::Parameter { offset, register })?;
        Ok(offset)
    }

    /// Adds a global variable to the global scope.
    pub fn add_global_variable(&mut self, name: String, symbol_type: Type) -> (r: Result<(), String>)
        requires
            old(self).wf(),
        ensures
            final(self).wf(),
            final(self).offset() == old(self).offset(),
            final(self).function() == old(self).function(),
            scope_index(old(self).scopes_view()[0], name@) is Some ==> r is Err
                && r->Err_0@ == "Global symbol '"@ + name@ + "' already defined"@
                && final(self).scopes_view() == old(self).scopes_view(),
            scope_index(old(self).scopes_view()[0], name@) is None ==> r is Ok
                && final(self).scopes_view() == old(self).scopes_view().update(
                0,
                old(self).scopes_view()[0].push(
                    Symbol { name: name, symbol_type: symbol_type, kind: SymbolKind::GlobalVariable },
                ),
            ),
    {
        proof {
            assert(scope_unique(self.scopes@[0]@));
            assert(self.scopes_view()[0] == self.scopes@[0]@);
        }
        if Self::find_in_scope(&self.scopes[0], &name).is_some() {
            let mut message = "Global symbol '".to_string();
            push_str(&mut message, name.as_str());
            push_str(&mut message, "' already defined");
            return Err(message);
        }
        let ghost old_scopes = self.scopes_view();
        let ghost sym = Symbol { name: name, symbol_type: symbol_type, kind: SymbolKind::GlobalVariable };
        let mut rest = self.scopes.split_off(1);
        let mut global = self.scopes.pop().unwrap();
        global.push(Symbol { name, symbol_type, kind: SymbolKind::GlobalVariable });
        self.scopes.push(global);
        self.scopes.append(&mut rest);
        proof {
            assert(self.scopes_view() =~= old_scopes.update(0, old_scopes[0].push(sym)));
            let s = self.scopes@[0]@;
            assert forall|i: int, j: int|
                0 <= i < s.len() && 0 <= j < s.len() && #[trigger] s[i].name@
                    == #[trigger] s[j].name@ implies i == j by {
                if i < s.len() - 1 && j < s.len() - 1 {
                    assert(s[i] == old_scopes[0][i]);
                    assert(s[j] == old_scopes[0][j]);
                } else if i < s.len() - 1 {
                    assert(s[i] == old_scopes[0][i]);
                } else if j < s.len() - 1 {
                    assert(s[j] == old_scopes[0][j]);
                }
            }
            assert forall|k: int| 0 <= k < self.scopes@.len() implies scope_unique(
                #[trigger] self.scopes@[k]@,
            ) by {
                if k > 0 {
                    assert(self.scopes@[k]@ == old_scopes[k]);
                    assert(old(self).scopes@[k]@ == old_scopes[k]);
                }
            }
        }
        Ok(())
    }

    /// Adds a function to the innermost scope, with its function type.
    pub fn add_function(&mut self, name: String, return_type: Type, params: Vec<Parameter>) -> (r:
        Result<(), String>)
        requires
            old(self).wf(),
        ensures
            final(self).wf(),
            final(self).offset() == old(self).offset(),
            final(self).function() == old(self).function(),
            scope_index(old(self).scopes_view().last(), name@) is Some ==> r is Err && r->Err_0@ == "Symbol '"@ + name@ + "' already defined in current scope"@
                && final(self).scopes_view() == old(self).scopes_view(),
            scope_index(old(self).scopes_view().last(), name@) is None ==> r is Ok && ({
                let s = final(self).scopes_view().last().last();
                &&& final(self).scopes_view() == old(self).scopes_view().update(
                    old(self).scopes_view().len() - 1,
                    old(self).scopes_view().last().push(s),
                )
                &&& s.name == name
                &&& s.symbol_type matches Type::Function { ret_type, params: p } && *ret_type
                    == return_type && params_eq(p@, params@)
                &&& s.kind is Function
            }),
    {
        let copied = copy_params(&params);
        let function_type = Type::Function { ret_type: Box::new(return_type), params: copied };
        let r = self.add_symbol(name, function_type, SymbolKind::Function { params });

        r
    }

    /// The symbol that `name` resolves to, searching from the innermost scope out.
    pub fn lookup(&self, name: &str) -> (r: Option<&Symbol>)
        requires
            self.wf(),
        ensures
            match resolve(self.scopes_view(), name@) {
                Some(s) => r == Some(&s),
                None => r is None,
            },
            lookup_v(scopes_v(self.scopes_view()), name@) == match r {
                Some(s) => Some(sym_v(*s)),
                None => None::<SymV>,
            },
    {
        proof {
            self.lemma_scopes_unique();
            lemma_lookup_v(self.scopes_view(), name@);
        }
        let mut k: usize = self.scopes.len();
        proof {
            assert(self.scopes_view().subrange(0, k as int) =~= self.scopes_view());
        }
        while k > 0
            invariant
                k <= self.scopes@.len(),
                self.wf(),
                resolve(self.scopes_view(), name@) == resolve(self.scopes_view().subrange(0, k as int), name@),
                lookup_v(scopes_v(self.scopes_view()), name@) == match resolve(self.scopes_view(), name@) {
                    Some(s) => Some(sym_v(s)),
                    None => None::<SymV>,
                },
            decreases k,
        {
            let scope = &self.scopes[k - 1];
            let mut i: usize = 0;
            while i < scope.len()
                invariant
                    i <= scope.len(),
                    0 < k <= self.scopes@.len(),
                    self.wf(),
                    scope@ == self.scopes@[k - 1]@,
                    resolve(self.scopes_view(), name@) == resolve(
                        self.scopes_view().subrange(0, k as int),
                        name@,
                    ),
                    forall|j: int| 0 <= j < i ==> scope@[j].name@ != name@,
                    lookup_v(scopes_v(self.scopes_view()), name@) == match resolve(self.scopes_view(), name@) {
                        Some(s) => Some(sym_v(s)),
                        None => None::<SymV>,
                    },
                decreases scope.len() - i,
            {
                if str_equal(scope[i].name.as_str(), name) {
                    proof {
                        let sv = self.scopes_view().subrange(0, k as int);
                        assert(sv.last() == scope@);
                        assert(scope_unique(scope@));
                        assert(scope@[i as int].name@ == name@);
                        let j = choose|j: int| 0 <= j < scope@.len() && #[trigger] scope@[j].name@
                            == name@;
                        assert(scope@[j].name@ == scope@[i as int].name@);
                        assert(scope_index(sv.last(), name@) == Some(i as int));
                        assert(resolve(sv, name@) == Some(scope@[i as int]));
                    }
                    return Some(&scope[i]);
                }
                i += 1;
            }
            proof {
                let sv = self.scopes_view().subrange(0, k as int);
                assert(sv.last() == scope@);
                assert(scope_index(sv.last(), name@) is None);
                assert(sv.drop_last() =~= self.scopes_view().subrange(0, k - 1));
            }
            k -= 1;
        }
        proof {
            assert(self.scopes_view().subrange(0, 0) =~= Seq::<Seq<Symbol>>::empty());
        }
        None
    }

    pub fn get_local_offset(&self) -> (r: i32)
        ensures
            r == self.offset(),
    {
        self.local_offset
    }
}

} // verus!
