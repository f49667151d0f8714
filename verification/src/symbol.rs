use vstd::prelude::*;

use crate::table::Table;

verus! {

/// The kinds of Jack variables: `static`, `field` (`THIS`), argument,
/// local; `NONE` for an unknown name.
#[derive(PartialEq, Eq, Structural, Debug, Clone, Copy)]
pub enum Kind {
    STATIC,
    THIS,
    ARG,
    LOCAL,
    NONE,
}

/// Why a variable could not be defined.
#[derive(PartialEq, Eq, Structural, Debug, Clone, Copy)]
pub enum SymbolError {
    /// `NONE` is no kind of variable.
    InvalidKind,
    /// The name is defined already.
    AlreadyDefined,
    /// There are as many variables of the kind as indices.
    TooMany,
}

impl SymbolError {
    /// The text that reports the error, as characters.
    pub open spec fn report(&self) -> Seq<char> {
        match *self {
            SymbolError::InvalidKind => "A variable must be static, field, argument or local"@,
            SymbolError::AlreadyDefined => "The variable is already defined"@,
            SymbolError::TooMany => "Too many variables of one kind"@,
        }
    }

    /// The text that reports the error.
    pub fn message(&self) -> (m: &'static str)
        ensures
            m@ == self.report(),
    {
        match self {
            SymbolError::InvalidKind => "A variable must be static, field, argument or local",
            SymbolError::AlreadyDefined => "The variable is already defined",
            SymbolError::TooMany => "Too many variables of one kind",
        }
    }
}

/// A scope of variables as a value: each variable's type, kind and index,
/// and the number of variables of each kind.
#[verifier::ext_equal]
pub struct Scope {
    pub symbols: Map<Seq<char>, (Seq<char>, Kind, nat)>,
    pub statics: nat,
    pub fields: nat,
    pub args: nat,
    pub locals: nat,
}

/// The scope with no variables.
pub open spec fn empty_scope() -> Scope {
    Scope { symbols: Map::empty(), statics: 0, fields: 0, args: 0, locals: 0 }
}

/// The number of variables of kind `kind` in `sc`.
pub open spec fn scope_count(sc: Scope, kind: Kind) -> nat {
    match kind {
        Kind::STATIC => sc.statics,
        Kind::THIS => sc.fields,
        Kind::ARG => sc.args,
        Kind::LOCAL => sc.locals,
        Kind::NONE => 0,
    }
}

/// `sc` with one more variable of kind `kind` counted.
pub open spec fn count_one_more(sc: Scope, kind: Kind) -> Scope {
    match kind {
        Kind::STATIC => Scope { statics: sc.statics + 1, ..sc },
        Kind::THIS => Scope { fields: sc.fields + 1, ..sc },
        Kind::ARG => Scope { args: sc.args + 1, ..sc },
        Kind::LOCAL => Scope { locals: sc.locals + 1, ..sc },
        Kind::NONE => sc,
    }
}

/// Defining the variable `name` of type `ty` and kind `kind` in `sc`: the
/// scope with it added at the next index of its kind, or why it cannot be.
pub open spec fn define_in(sc: Scope, name: Seq<char>, ty: Seq<char>, kind: Kind) -> Result<
    Scope,
    SymbolError,
> {
    if kind == Kind::NONE {
        Err(SymbolError::InvalidKind)
    } else if sc.symbols.contains_key(name) {
        Err(SymbolError::AlreadyDefined)
    } else if scope_count(sc, kind) == usize::MAX {
        Err(SymbolError::TooMany)
    } else {
        Ok(
            count_one_more(
                Scope { symbols: sc.symbols.insert(name, (ty, kind, scope_count(sc, kind))), ..sc },
                kind,
            ),
        )
    }
}

/// What the table records of a variable.
pub struct Symbol {
    symbol_type: String,
    kind: Kind,
    index: usize,
}

/// The variables of one scope (a class or a subroutine): the type and the
/// kind of each, and its index among the variables of its kind.
pub struct SymbolTable {
    table: Table<Symbol>,
    static_count: usize,
    field_count: usize,
    arg_count: usize,
    local_count: usize,
}

impl SymbolTable {
    /// Each variable's type, kind and index, by name.
    pub closed spec fn symbols(&self) -> Map<Seq<char>, (Seq<char>, Kind, nat)> {
        self.table@.map_values(|s: Symbol| (s.symbol_type@, s.kind, s.index as nat))
    }

    /// The table as a value.
    pub open spec fn scope(&self) -> Scope {
        Scope {
            symbols: self.symbols(),
            statics: self.count(Kind::STATIC),
            fields: self.count(Kind::THIS),
            args: self.count(Kind::ARG),
            locals: self.count(Kind::LOCAL),
        }
    }

    /// The number of variables of kind `kind`.
    pub closed spec fn count(&self, kind: Kind) -> nat {
        match kind {
            Kind::STATIC => self.static_count as nat,
            Kind::THIS => self.field_count as nat,
            Kind::ARG => self.arg_count as nat,
            Kind::LOCAL => self.local_count as nat,
            Kind::NONE => 0,
        }
    }

    /// The table is well formed: each variable has a kind, and the
    /// variables of each kind carry the indices below its count, each once.
    pub closed spec fn wf(&self) -> bool {
        &&& self.table.wf()
        &&& forall|n: Seq<char>| #[trigger]
            self.symbols().contains_key(n) ==> self.symbols()[n].1 != Kind::NONE
                && self.symbols()[n].2 < self.count(self.symbols()[n].1)
        &&& forall|a: Seq<char>, b: Seq<char>|
            #![trigger self.symbols()[a], self.symbols()[b]]
            self.symbols().contains_key(a) && self.symbols().contains_key(b) && a != b
                && self.symbols()[a].1 == self.symbols()[b].1 ==> self.symbols()[a].2
                != self.symbols()[b].2
        &&& forall|k: Kind, i: nat|
            #![trigger self.count(k), self.has_index(k, i)]
            k != Kind::NONE && i < self.count(k) ==> self.has_index(k, i)
    }

    /// Whether some variable of kind `kind` has the index `i`.
    pub closed spec fn has_index(&self, kind: Kind, i: nat) -> bool {
        exists|n: Seq<char>| #[trigger]
            self.symbols().contains_key(n) && self.symbols()[n].1 == kind && self.symbols()[n].2 == i
    }

    /// The number of variables of each kind fits in `usize`.
    pub proof fn lemma_count_fits(&self, kind: Kind)
        ensures
            self.count(kind) <= usize::MAX,
    {
    }

    /// Each variable of a well-formed table has a kind, and an index below
    /// the number of variables of that kind.
    pub proof fn lemma_index_below_count(&self, name: Seq<char>)
        requires
            self.wf(),
            self.symbols().contains_key(name),
        ensures
            self.symbols()[name].1 != Kind::NONE,
            self.symbols()[name].2 < self.count(self.symbols()[name].1),
    {
    }

    /// Two variables of one kind never share an index.
    pub proof fn lemma_indices_distinct(&self, a: Seq<char>, b: Seq<char>)
        requires
            self.wf(),
            self.symbols().contains_key(a),
            self.symbols().contains_key(b),
            a != b,
            self.symbols()[a].1 == self.symbols()[b].1,
        ensures
            self.symbols()[a].2 != self.symbols()[b].2,
    {
    }

    /// Each index below the number of variables of a kind belongs to some
    /// variable of that kind: the indices of a kind run from 0 without gaps.
    pub proof fn lemma_indices_dense(&self, kind: Kind, i: nat)
        requires
            self.wf(),
            kind != Kind::NONE,
            i < self.count(kind),
        ensures
            exists|n: Seq<char>|
                self.symbols().contains_key(n) && self.symbols()[n].1 == kind && #[trigger] self.symbols()[n].2
                    == i,
    {
        assert(self.has_index(kind, i));
    }

    /// An empty table.
    pub fn new() -> (t: Self)
        ensures
            t.wf(),
            t.symbols() == Map::<Seq<char>, (Seq<char>, Kind, nat)>::empty(),
            forall|k: Kind| #[trigger] t.count(k) == 0,
            t.scope() == empty_scope(),
    {
        let t = SymbolTable {
            table: Table::new(),
            static_count: 0,
            field_count: 0,
            arg_count: 0,
            local_count: 0,
        };
        assert(t.symbols() =~= Map::<Seq<char>, (Seq<char>, Kind, nat)>::empty());
        t
    }

    /// Forgets all variables.
    pub fn reset(&mut self)
        ensures
            final(self).wf(),
            final(self).symbols() == Map::<Seq<char>, (Seq<char>, Kind, nat)>::empty(),
            forall|k: Kind| #[trigger] final(self).count(k) == 0,
            final(self).scope() == empty_scope(),
    {
        *self = SymbolTable::new();
    }

    /// Defines the variable `name` of type `symbol_type` and kind `kind`,
    /// with the next index of its kind.
    pub fn define(&mut self, name: String, symbol_type: String, kind: Kind) -> (r: Result<
        (),
        SymbolError,
    >)
        requires
            old(self).wf(),
        ensures
            final(self).wf(),
            kind == Kind::NONE ==> r == Err::<(), SymbolError>(SymbolError::InvalidKind),
            kind != Kind::NONE && old(self).symbols().contains_key(name@) ==> r == Err::<
                (),
                SymbolError,
            >(SymbolError::AlreadyDefined),
            kind != Kind::NONE && !old(self).symbols().contains_key(name@) && old(self).count(kind)
                == usize::MAX ==> r == Err::<(), SymbolError>(SymbolError::TooMany),
            r is Err ==> *final(self) == *old(self),
            r is Ok ==> kind != Kind::NONE && !old(self).symbols().contains_key(name@) && old(
                self,
            ).count(kind) < usize::MAX,
            r is Ok ==> final(self).symbols() == old(self).symbols().insert(
                name@,
                (symbol_type@, kind, old(self).count(kind)),
            ),
            r is Ok ==> final(self).count(kind) == old(self).count(kind) + 1,
            r is Ok ==> forall|k: Kind| k != kind ==> #[trigger] final(self).count(k) == old(
                self,
            ).count(k),
            match define_in(old(self).scope(), name@, symbol_type@, kind) {
                Ok(sc) => r is Ok && final(self).scope() == sc,
                Err(e) => r == Err::<(), SymbolError>(e),
            },
    {
        if kind == Kind::NONE {
            return Err(SymbolError::InvalidKind);
        }
        if self.table.contains_key(name.as_str()) {
            return Err(SymbolError::AlreadyDefined);
        }
        let index = self.var_count(&kind);
        if index == usize::MAX {
            return Err(SymbolError::TooMany);
        }
        let ghost old_table = self.table@;
        self.table.insert(name, Symbol { symbol_type, kind, index });
        match kind {
            Kind::STATIC => self.static_count = index + 1,
            Kind::THIS => self.field_count = index + 1,
            Kind::ARG => self.arg_count = index + 1,
            _ => self.local_count = index + 1,
        }
        assert(self.symbols() =~= old(self).symbols().insert(
            name@,
            (symbol_type@, kind, old(self).count(kind)),
        ));
        proof {
            let before = *old(self);
            let os = before.symbols();
            let ns = self.symbols();
            let c = before.count(kind);
            assert forall|n: Seq<char>| #[trigger] ns.contains_key(n) implies ns[n].1 != Kind::NONE
                && ns[n].2 < self.count(ns[n].1) by {
                if n != name@ {
                    assert(os.contains_key(n));
                }
            }
            assert forall|a: Seq<char>, b: Seq<char>|
                ns.contains_key(a) && ns.contains_key(b) && a != b && ns[a].1 == ns[b].1 implies
                #[trigger] ns[a].2 != #[trigger] ns[b].2 by {
                if a == name@ {
                    assert(os.contains_key(b));
                } else if b == name@ {
                    assert(os.contains_key(a));
                } else {
                    assert(os[a] == ns[a] && os[b] == ns[b]);
                }
            }
            assert forall|k: Kind, i: nat| k != Kind::NONE && i < #[trigger] self.count(k) implies
                #[trigger] self.has_index(k, i) by {
                if k == kind && i == c {
                    assert(ns.contains_key(name@) && ns[name@].1 == k && ns[name@].2 == i);
                } else {
                    assert(before.count(k) == self.count(k) || (k == kind && i < c));
                    assert(before.has_index(k, i));
                    let m = choose|m: Seq<char>|
                        #[trigger] os.contains_key(m) && os[m].1 == k && os[m].2 == i;
                    assert(m != name@);
                    assert(ns.contains_key(m) && ns[m] == os[m]);
                }
            }
        }
        Ok(())
    }

    /// The number of variables of kind `kind`.
    pub fn var_count(&self, kind: &Kind) -> (n: usize)
        ensures
            n == self.count(*kind),
    {
        match kind {
            Kind::STATIC => self.static_count,
            Kind::THIS => self.field_count,
            Kind::ARG => self.arg_count,
            Kind::LOCAL => self.local_count,
            Kind::NONE => 0,
        }
    }

    /// The kind of the variable `name`, if it is defined.
    pub fn kind_of(&self, name: &str) -> (r: Option<Kind>)
        requires
            self.wf(),
        ensures
            r matches Some(k) ==> self.symbols().contains_key(name@) && k == self.symbols()[name@].1,
            r is None ==> !self.symbols().contains_key(name@),
    {
        match self.table.get(name) {
            Some(s) => Some(s.kind),
            None => None,
        }
    }

    /// The index of the variable `name`, if it is defined.
    pub fn index_of(&self, name: &str) -> (r: Option<usize>)
        requires
            self.wf(),
        ensures
            r matches Some(i) ==> self.symbols().contains_key(name@) && i == self.symbols()[name@].2,
            r is None ==> !self.symbols().contains_key(name@),
    {
        match self.table.get(name) {
            Some(s) => Some(s.index),
            None => None,
        }
    }

    /// The type of the variable `name`, if it is defined.
    pub fn type_of(&self, name: &str) -> (r: Option<String>)
        requires
            self.wf(),
        ensures
            r matches Some(t) ==> self.symbols().contains_key(name@) && t@ == self.symbols()[name@].0,
            r is None ==> !self.symbols().contains_key(name@),
    {
        match self.table.get(name) {
            Some(s) => Some(s.symbol_type.clone()),
            None => None,
        }
    }
}

} // verus!
