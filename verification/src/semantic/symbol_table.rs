//! Symbols and the stack of lexical scopes.

use crate::ast::nodes::Decl;
use crate::semantic::error::{SemanticError, SemanticErrorView};
use crate::utils::span::Span;
use vstd::hash_map::StringHashMap;
use vstd::prelude::*;

verus! {

/// The type of a value. Every declaration of the language has type `Int`.
#[derive(Debug, Clone, Copy, PartialEq, Eq, Structural)]
pub enum Type {
    Int,
    Void,
}

impl Type {
    /// The name of the type, as diagnostics print it.
    pub open spec fn spec_name(self) -> Seq<char> {
        match self {
            Type::Int => "Int"@,
            Type::Void => "Void"@,
        }
    }

    /// The name of the type, as diagnostics print it.
    pub fn name(self) -> (name: String)
        ensures
            name@ == self.spec_name(),
    {
        match self {
            Type::Int => "Int".to_owned(),
            Type::Void => "Void".to_owned(),
        }
    }
}

/// A declared name with its type and the place of its declaration.
#[derive(Debug, Clone)]
pub struct Symbol {
    pub name: String,
    pub ty: Type,
    pub span: Span,
}

/// The mathematical value of a [`Symbol`].
pub struct SymbolView {
    pub name: Seq<char>,
    pub ty: Type,
    pub span: Span,
}

impl View for Symbol {
    type V = SymbolView;

    open spec fn view(&self) -> SymbolView {
        SymbolView { name: self.name@, ty: self.ty, span: self.span }
    }
}

/// A lexical scope: the symbols declared in it, by name.
pub type Scope = Map<Seq<char>, SymbolView>;

/// The scopes that are open, the innermost last.
pub type Scopes = Seq<Scope>;

/// The symbol that `name` refers to: the one of the innermost scope that
/// declares the name.
pub open spec fn resolve(scopes: Scopes, name: Seq<char>) -> Option<SymbolView>
    decreases scopes.len(),
{
    if scopes.len() == 0 {
        None
    } else if scopes.last().contains_key(name) {
        Some(scopes.last()[name])
    } else {
        resolve(scopes.drop_last(), name)
    }
}

/// Declares `symbol` in the innermost scope. A name can be declared once in a
/// scope; that an outer scope declares it too is no obstacle.
pub open spec fn declare(scopes: Scopes, symbol: SymbolView) -> Result<Scopes, SemanticErrorView>
    recommends
        scopes.len() > 0,
{
    if scopes.last().contains_key(symbol.name) {
        Err(SemanticErrorView::DuplicateSymbol(symbol.name, symbol.span))
    } else {
        Ok(scopes.update(scopes.len() - 1, scopes.last().insert(symbol.name, symbol)))
    }
}

/// The value of a result that carries nothing on success.
pub open spec fn unit_viewed(r: Result<(), SemanticError>) -> Result<(), SemanticErrorView> {
    match r {
        Ok(()) => Ok(()),
        Err(e) => Err(e@),
    }
}

/// A stack of lexical scopes.
pub struct SymbolTable {
    scopes: Vec<StringHashMap<Symbol>>,
}

impl View for SymbolTable {
    type V = Scopes;

    closed spec fn view(&self) -> Scopes {
        Seq::new(self.scopes@.len(), |i: int| self.scopes@[i]@.map_values(|s: Symbol| s@))
    }
}

impl SymbolTable {
    /// A table with one scope, the outermost, and nothing declared.
    pub fn new() -> (table: Self)
        ensures
            table@ == seq![Map::<Seq<char>, SymbolView>::empty()],
    {
        let mut scopes: Vec<StringHashMap<Symbol>> = Vec::new();
        scopes.push(StringHashMap::new());
        let table = SymbolTable { scopes };
        assert(table@[0] =~= Map::<Seq<char>, SymbolView>::empty());
        assert(table@ =~= seq![Map::<Seq<char>, SymbolView>::empty()]);
        table
    }

    /// Opens a scope inside the innermost one.
    pub fn enter_scope(&mut self)
        ensures
            final(self)@ == old(self)@.push(Map::<Seq<char>, SymbolView>::empty()),
    {
        self.scopes.push(StringHashMap::new());
        assert(self@.last() =~= Map::<Seq<char>, SymbolView>::empty());
        assert(self@ =~= old(self)@.push(Map::<Seq<char>, SymbolView>::empty()));
    }

    /// Closes the innermost scope, if one is open, and forgets what it declared.
    pub fn exit_scope(&mut self)
        ensures
            final(self)@ == if old(self)@.len() > 0 {
                old(self)@.drop_last()
            } else {
                old(self)@
            },
    {
        self.scopes.pop();
        assert(self@ =~= if old(self)@.len() > 0 {
            old(self)@.drop_last()
        } else {
            old(self)@
        });
    }

    /// Declares the name of a top-level declaration, with type `Int`, in the
    /// innermost scope.
    pub fn insert(&mut self, decl: &Decl) -> (r: Result<(), SemanticError>)
        requires
            old(self)@.len() > 0,
        ensures
            match declare(
                old(self)@,
                SymbolView { name: decl@.name(), ty: Type::Int, span: decl@.span() },
            ) {
                Ok(scopes) => r is Ok && final(self)@ == scopes,
                Err(e) => r is Err && r->Err_0@ == e && final(self)@ == old(self)@,
            },
    {
        let span = decl.span();
        match decl {
            Decl::Function { name, .. } => self.insert_symbol(name.clone(), Type::Int, span),
            Decl::Var { name, .. } => self.insert_symbol(name.clone(), Type::Int, span),
        }
    }

    /// Declares a symbol in the innermost scope.
    pub fn insert_symbol(&mut self, name: String, ty: Type, span: Span) -> (r: Result<
        (),
        SemanticError,
    >)
        requires
            old(self)@.len() > 0,
        ensures
            match declare(old(self)@, SymbolView { name: name@, ty, span }) {
                Ok(scopes) => r is Ok && final(self)@ == scopes,
                Err(e) => r is Err && r->Err_0@ == e && final(self)@ == old(self)@,
            },
    {
        let ghost before = self@;
        let mut scope = self.scopes.pop().unwrap();
        if scope.contains_key(name.as_str()) {
            self.scopes.push(scope);
            assert(self@ =~= before);
            Err(SemanticError::DuplicateSymbol(name, span))
        } else {
            let symbol = Symbol { name: name.clone(), ty, span };
            scope.insert(name, symbol);
            self.scopes.push(scope);
            assert(self@.last() =~= before.last().insert(symbol.name@, symbol@));
            assert(self@ =~= before.update(before.len() - 1, self@.last()));
            Ok(())
        }
    }

    /// The symbol that `name` refers to, if a scope that is open declares it.
    pub fn lookup(&self, name: &str) -> (r: Option<&Symbol>)
        ensures
            match r {
                Some(symbol) => resolve(self@, name@) == Some(symbol@),
                None => resolve(self@, name@) is None,
            },
    {
        let mut i: usize = self.scopes.len();
        assert(self@.take(i as int) =~= self@);
        while i > 0
            invariant
                i <= self.scopes@.len(),
                resolve(self@, name@) == resolve(self@.take(i as int), name@),
            decreases i,
        {
            assert(self@.take(i as int).drop_last() =~= self@.take(i - 1));
            i = i - 1;
            match self.scopes[i].get(name) {
                Some(symbol) => {
                    return Some(symbol);
                },
                None => {},
            }
        }
        assert(self@.take(0).len() == 0);
        None
    }
}

} // verus!
