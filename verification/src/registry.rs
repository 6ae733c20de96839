//! The table of the compatibility bridge: which routines are registered
//! under which canonical symbols, how a called name resolves to one of them,
//! and whether a call passes the expected number of arguments. The routines
//! themselves compute on floating-point arguments and are kept by the caller
//! beside this table.
use vstd::prelude::*;
use crate::compat::{CallingConvention, CompatError, LegacyLanguage, RoutineHandle, RoutineSpec,
    canonical_name, canonical_symbol, fortran_name, fortran_symbol, sanitized};
use crate::text::{owned, str_eq};

verus! {

broadcast use vstd::string::group_string_axioms;

/// View of a routine descriptor.
pub struct SpecView {
    pub symbol: Seq<char>,
    pub convention: CallingConvention,
    pub expected_args: nat,
}

impl View for RoutineSpec {
    type V = SpecView;

    open spec fn view(&self) -> SpecView {
        SpecView {
            symbol: self.symbol@,
            convention: self.convention,
            expected_args: self.expected_args as nat,
        }
    }
}

/// The language whose naming rule a calling convention uses.
pub open spec fn language_of(c: CallingConvention) -> LegacyLanguage {
    match c {
        CallingConvention::C => LegacyLanguage::C,
        CallingConvention::Fortran => LegacyLanguage::Fortran,
    }
}

/// The descriptors by symbol; a later registration of a symbol replaces an
/// earlier one.
pub open spec fn table_map(specs: Seq<SpecView>) -> Map<Seq<char>, SpecView>
    decreases specs.len(),
{
    if specs.len() == 0 {
        Map::empty()
    } else {
        table_map(specs.drop_last()).insert(specs.last().symbol, specs.last())
    }
}

/// The registered symbol a called name resolves to: the name itself, else
/// its C symbol, else its Fortran symbol, whichever is registered first.
pub open spec fn resolved_symbol(m: Map<Seq<char>, SpecView>, name: Seq<char>) -> Option<Seq<char>> {
    if m.contains_key(name) {
        Some(name)
    } else if m.contains_key(sanitized(name)) {
        Some(sanitized(name))
    } else if m.contains_key(fortran_name(name)) {
        Some(fortran_name(name))
    } else {
        None
    }
}

/// Registered routine descriptors.
pub struct RoutineTable {
    specs: Vec<RoutineSpec>,
}

fn copy_spec(s: &RoutineSpec) -> (r: RoutineSpec)
    ensures
        r@ == s@,
{
    RoutineSpec { symbol: s.symbol.clone(), convention: s.convention, expected_args: s.expected_args }
}

impl RoutineTable {
    /// The registered descriptors by symbol.
    pub closed spec fn entries(&self) -> Map<Seq<char>, SpecView> {
        table_map(self.specs@.map_values(|s: RoutineSpec| s@))
    }

    /// A table with nothing registered.
    pub fn new() -> (r: RoutineTable)
        ensures
            r.entries() == Map::<Seq<char>, SpecView>::empty(),
    {
        let r = RoutineTable { specs: Vec::new() };
        assert(r.specs@.map_values(|s: RoutineSpec| s@) =~= Seq::<SpecView>::empty());
        r
    }

    /// Registers a routine under the canonical symbol of `symbol` for its
    /// calling convention, replacing what was registered under that symbol.
    pub fn register(&mut self, symbol: &str, convention: CallingConvention, expected_args: usize) -> (r: RoutineHandle)
        ensures
            r.symbol@ == canonical_name(symbol@, language_of(convention)),
            final(self).entries() == old(self).entries().insert(
                r.symbol@,
                SpecView { symbol: r.symbol@, convention, expected_args: expected_args as nat },
            ),
    {
        let language = match convention {
            CallingConvention::C => LegacyLanguage::C,
            CallingConvention::Fortran => LegacyLanguage::Fortran,
        };
        let canonical = canonical_symbol(symbol, language);
        let spec = RoutineSpec { symbol: canonical.clone(), convention, expected_args };
        let ghost before = self.specs@.map_values(|s: RoutineSpec| s@);
        self.specs.push(spec);
        assert(self.specs@.map_values(|s: RoutineSpec| s@) =~= before.push(spec@));
        assert(self.specs@.map_values(|s: RoutineSpec| s@).drop_last() =~= before);
        RoutineHandle { symbol: canonical }
    }

    /// The descriptor registered under exactly `symbol`.
    pub fn spec(&self, symbol: &str) -> (r: Option<RoutineSpec>)
        ensures
            match r {
                Some(s) => self.entries().contains_key(symbol@) && s@ == self.entries()[symbol@],
                None => !self.entries().contains_key(symbol@),
            },
    {
        let ghost sv = self.specs@.map_values(|s: RoutineSpec| s@);
        let mut i: usize = self.specs.len();
        assert(sv.take(sv.len() as int) =~= sv);
        while i > 0
            invariant
                sv == self.specs@.map_values(|s: RoutineSpec| s@),
                i <= sv.len(),
                table_map(sv).contains_key(symbol@) == table_map(sv.take(i as int)).contains_key(symbol@),
                table_map(sv).contains_key(symbol@) ==> table_map(sv)[symbol@] == table_map(sv.take(i as int))[symbol@],
            decreases i,
        {
            assert(sv.take(i as int).drop_last() =~= sv.take(i - 1));
            assert(sv.take(i as int).last() == sv[i - 1]);
            if str_eq(self.specs[i - 1].symbol.as_str(), symbol) {
                return Some(copy_spec(&self.specs[i - 1]));
            }
            i -= 1;
        }
        assert(sv.take(0) =~= Seq::<SpecView>::empty());
        None
    }

    /// The registered symbol a called name resolves to (see
    /// `resolved_symbol`).
    pub fn resolve_symbol(&self, symbol: &str) -> (r: Option<String>)
        ensures
            match r {
                Some(s) => resolved_symbol(self.entries(), symbol@) == Some(s@),
                None => resolved_symbol(self.entries(), symbol@) is None,
            },
    {
        if self.spec(symbol).is_some() {
            return Some(owned(symbol));
        }
        let c = canonical_symbol(symbol, LegacyLanguage::C);
        if self.spec(c.as_str()).is_some() {
            return Some(c);
        }
        let f = fortran_symbol(symbol);
        if self.spec(f.as_str()).is_some() {
            return Some(f);
        }
        None
    }

    /// Checks a call of `symbol` with `nargs` arguments: the registered
    /// symbol it resolves to, or why it cannot be called.
    pub fn check_call(&self, symbol: &str, nargs: usize) -> (r: Result<String, CompatError>)
        ensures
            match resolved_symbol(self.entries(), symbol@) {
                None => r matches Err(CompatError::RoutineNotRegistered { symbol: s }) && s@ == symbol@,
                Some(res) => if self.entries()[res].expected_args == nargs {
                    r matches Ok(s) && s@ == res
                } else {
                    r matches Err(CompatError::InvalidArgumentCount { symbol: s, expected, got })
                        && s@ == res && expected == self.entries()[res].expected_args && got == nargs
                },
            },
    {
        let resolved = match self.resolve_symbol(symbol) {
            Some(s) => s,
            None => {
                return Err(CompatError::RoutineNotRegistered { symbol: owned(symbol) });
            },
        };
        let spec = match self.spec(resolved.as_str()) {
            Some(s) => s,
            None => {
                return Err(CompatError::RoutineNotRegistered { symbol: owned(symbol) });
            },
        };
        if nargs != spec.expected_args {
            return Err(CompatError::InvalidArgumentCount {
                symbol: resolved,
                expected: spec.expected_args,
                got: nargs,
            });
        }
        Ok(resolved)
    }
}

/// After a routine is registered, calling it by the name it was registered
/// with resolves to a registered symbol.
pub proof fn lemma_registered_name_resolves(m: Map<Seq<char>, SpecView>, name: Seq<char>, convention: CallingConvention, n: nat)
    ensures
        ({
            let sym = canonical_name(name, language_of(convention));
            let m2 = m.insert(sym, SpecView { symbol: sym, convention, expected_args: n });
            resolved_symbol(m2, name) is Some
        }),
{
}

} // verus!
