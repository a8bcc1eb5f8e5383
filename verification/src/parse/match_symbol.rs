use vstd::prelude::*;

use crate::parse::find_path::{ResolveError, ResolveFail, resolve_fail_message, resolved_view};
use crate::parse::symbol::{ComponentSymbol, GlobalSymbol, HardcodedSymbol, Symbol, SymbolType, hardcoded_name, kind_name};

verus! {

/// Why a path does not name the expected kind of symbol.
#[derive(Debug)]
pub enum SymbolError {
    /// The path could not be resolved.
    Resolve(ResolveError),
    /// The path names a symbol of another kind: what was expected, and the
    /// symbol found.
    Kind { expected: String, found: SymbolType },
}

/// The mathematical form of a symbol error.
pub enum SymbolFail {
    Resolve(ResolveFail),
    Kind { expected: Seq<char>, found: SymbolType },
}

impl SymbolError {
    pub open spec fn view(&self) -> SymbolFail {
        match self {
            SymbolError::Resolve(e) => SymbolFail::Resolve(e.view()),
            SymbolError::Kind { expected, found } => SymbolFail::Kind { expected: expected@, found: *found },
        }
    }
}

/// The message that reports a symbol error.
pub open spec fn symbol_fail_message(f: SymbolFail) -> Seq<char> {
    match f {
        SymbolFail::Resolve(r) => resolve_fail_message(r),
        SymbolFail::Kind { expected, found } => "Expected "@ + expected + " but found "@ + kind_name(found),
    }
}

impl SymbolError {
    /// The message that reports the error.
    pub fn message(&self) -> (r: String)
        ensures
            r@ == symbol_fail_message(self.view()),
    {
        match self {
            SymbolError::Resolve(e) => e.message(),
            SymbolError::Kind { expected, found } => {
                let mut m = String::from_str("Expected ");
                m.append(expected.as_str());
                m.append(" but found ");
                m.append(found.name());
                m
            },
        }
    }
}

/// The kind error for a symbol: what was expected, and what was found.
fn kind_error(expected: &str, sym: &Symbol) -> (r: SymbolError)
    ensures
        r.view() == (SymbolFail::Kind { expected: expected@, found: sym.kind }),
{
    SymbolError::Kind { expected: String::from_str(expected), found: sym.kind }
}

/// Checks that a resolved path names a symbol of the expected kind.
pub trait MatchSymbol<'a>: Sized {
    fn expect_component(self) -> Result<(&'a Symbol, ComponentSymbol), SymbolError>;

    fn expect_global(self) -> Result<(&'a Symbol, GlobalSymbol), SymbolError>;

    fn expect_trait(self) -> Result<(&'a Symbol, GlobalSymbol), SymbolError>;

    fn expect_global_or_trait(self) -> Result<(&'a Symbol, GlobalSymbol), SymbolError>;

    fn expect_event(self) -> Result<(&'a Symbol, usize), SymbolError>;

    fn expect_state(self) -> Result<(&'a Symbol, usize), SymbolError>;

    fn expect_system(self) -> Result<(&'a Symbol, usize), SymbolError>;

    fn expect_component_set(self) -> Result<(&'a Symbol, usize), SymbolError>;

    fn expect_any_hardcoded(self) -> Result<(&'a Symbol, HardcodedSymbol), SymbolError>;

    fn expect_hardcoded(self, sym: HardcodedSymbol) -> Result<&'a Symbol, SymbolError>;
}

impl<'a> MatchSymbol<'a> for Result<&'a Symbol, ResolveError> {
    fn expect_component(self) -> (r: Result<(&'a Symbol, ComponentSymbol), SymbolError>)
        ensures
            match resolved_view(self) {
                Ok(s) => match s.kind {
                    SymbolType::Component(c) => r matches Ok((x, v)) && *x == s && v == c,
                    _ => r matches Err(e) && e.view() == (SymbolFail::Kind { expected: "Component"@, found: s.kind }),
                },
                Err(f) => r matches Err(e) && e.view() == SymbolFail::Resolve(f),
            },
    {
        match self {
            Ok(s) => match s.kind {
                SymbolType::Component(c) => Ok((s, c)),
                _ => Err(kind_error("Component", s)),
            },
            Err(e) => Err(SymbolError::Resolve(e)),
        }
    }

    fn expect_global(self) -> (r: Result<(&'a Symbol, GlobalSymbol), SymbolError>)
        ensures
            match resolved_view(self) {
                Ok(s) => match s.kind {
                    SymbolType::Global(g) => r matches Ok((x, v)) && *x == s && v == g,
                    _ => r matches Err(e) && e.view() == (SymbolFail::Kind { expected: "Global"@, found: s.kind }),
                },
                Err(f) => r matches Err(e) && e.view() == SymbolFail::Resolve(f),
            },
    {
        match self {
            Ok(s) => match s.kind {
                SymbolType::Global(g) => Ok((s, g)),
                _ => Err(kind_error("Global", s)),
            },
            Err(e) => Err(SymbolError::Resolve(e)),
        }
    }

    fn expect_trait(self) -> (r: Result<(&'a Symbol, GlobalSymbol), SymbolError>)
        ensures
            match resolved_view(self) {
                Ok(s) => match s.kind {
                    SymbolType::Trait(g) => r matches Ok((x, v)) && *x == s && v == g,
                    _ => r matches Err(e) && e.view() == (SymbolFail::Kind { expected: "Trait"@, found: s.kind }),
                },
                Err(f) => r matches Err(e) && e.view() == SymbolFail::Resolve(f),
            },
    {
        match self {
            Ok(s) => match s.kind {
                SymbolType::Trait(g) => Ok((s, g)),
                _ => Err(kind_error("Trait", s)),
            },
            Err(e) => Err(SymbolError::Resolve(e)),
        }
    }

    fn expect_global_or_trait(self) -> (r: Result<(&'a Symbol, GlobalSymbol), SymbolError>)
        ensures
            match resolved_view(self) {
                Ok(s) => match s.kind {
                    SymbolType::Global(g) | SymbolType::Trait(g) => r matches Ok((x, v)) && *x == s && v == g,
                    _ => r matches Err(e) && e.view() == (SymbolFail::Kind { expected: "Global or Trait"@, found: s.kind }),
                },
                Err(f) => r matches Err(e) && e.view() == SymbolFail::Resolve(f),
            },
    {
        match self {
            Ok(s) => match s.kind {
                SymbolType::Global(g) | SymbolType::Trait(g) => Ok((s, g)),
                _ => Err(kind_error("Global or Trait", s)),
            },
            Err(e) => Err(SymbolError::Resolve(e)),
        }
    }

    fn expect_event(self) -> (r: Result<(&'a Symbol, usize), SymbolError>)
        ensures
            match resolved_view(self) {
                Ok(s) => match s.kind {
                    SymbolType::Event(i) => r matches Ok((x, v)) && *x == s && v == i,
                    _ => r matches Err(e) && e.view() == (SymbolFail::Kind { expected: "Event"@, found: s.kind }),
                },
                Err(f) => r matches Err(e) && e.view() == SymbolFail::Resolve(f),
            },
    {
        match self {
            Ok(s) => match s.kind {
                SymbolType::Event(i) => Ok((s, i)),
                _ => Err(kind_error("Event", s)),
            },
            Err(e) => Err(SymbolError::Resolve(e)),
        }
    }

    fn expect_state(self) -> (r: Result<(&'a Symbol, usize), SymbolError>)
        ensures
            match resolved_view(self) {
                Ok(s) => match s.kind {
                    SymbolType::State(i) => r matches Ok((x, v)) && *x == s && v == i,
                    _ => r matches Err(e) && e.view() == (SymbolFail::Kind { expected: "State"@, found: s.kind }),
                },
                Err(f) => r matches Err(e) && e.view() == SymbolFail::Resolve(f),
            },
    {
        match self {
            Ok(s) => match s.kind {
                SymbolType::State(i) => Ok((s, i)),
                _ => Err(kind_error("State", s)),
            },
            Err(e) => Err(SymbolError::Resolve(e)),
        }
    }

    fn expect_system(self) -> (r: Result<(&'a Symbol, usize), SymbolError>)
        ensures
            match resolved_view(self) {
                Ok(s) => match s.kind {
                    SymbolType::System(i) => r matches Ok((x, v)) && *x == s && v == i,
                    _ => r matches Err(e) && e.view() == (SymbolFail::Kind { expected: "System"@, found: s.kind }),
                },
                Err(f) => r matches Err(e) && e.view() == SymbolFail::Resolve(f),
            },
    {
        match self {
            Ok(s) => match s.kind {
                SymbolType::System(i) => Ok((s, i)),
                _ => Err(kind_error("System", s)),
            },
            Err(e) => Err(SymbolError::Resolve(e)),
        }
    }

    fn expect_component_set(self) -> (r: Result<(&'a Symbol, usize), SymbolError>)
        ensures
            match resolved_view(self) {
                Ok(s) => match s.kind {
                    SymbolType::ComponentSet(i) => r matches Ok((x, v)) && *x == s && v == i,
                    _ => r matches Err(e) && e.view() == (SymbolFail::Kind { expected: "Component Set"@, found: s.kind }),
                },
                Err(f) => r matches Err(e) && e.view() == SymbolFail::Resolve(f),
            },
    {
        match self {
            Ok(s) => match s.kind {
                SymbolType::ComponentSet(i) => Ok((s, i)),
                _ => Err(kind_error("Component Set", s)),
            },
            Err(e) => Err(SymbolError::Resolve(e)),
        }
    }

    fn expect_any_hardcoded(self) -> (r: Result<(&'a Symbol, HardcodedSymbol), SymbolError>)
        ensures
            match resolved_view(self) {
                Ok(s) => match s.kind {
                    SymbolType::Hardcoded(h) => r matches Ok((x, v)) && *x == s && v == h,
                    _ => r matches Err(e) && e.view() == (SymbolFail::Kind { expected: "Hardcoded Symbol"@, found: s.kind }),
                },
                Err(f) => r matches Err(e) && e.view() == SymbolFail::Resolve(f),
            },
    {
        match self {
            Ok(s) => match s.kind {
                SymbolType::Hardcoded(h) => Ok((s, h)),
                _ => Err(kind_error("Hardcoded Symbol", s)),
            },
            Err(e) => Err(SymbolError::Resolve(e)),
        }
    }

    fn expect_hardcoded(self, sym: HardcodedSymbol) -> (r: Result<&'a Symbol, SymbolError>)
        ensures
            match resolved_view(self) {
                Ok(s) => match s.kind {
                    SymbolType::Hardcoded(h) => if h == sym {
                        r matches Ok(x) && *x == s
                    } else {
                        r matches Err(e) && e.view() == (SymbolFail::Kind {
                            expected: "Hardcoded Symbol: '"@ + hardcoded_name(h) + "'"@,
                            found: s.kind,
                        })
                    },
                    _ => r matches Err(e) && e.view() == (SymbolFail::Kind { expected: "Hardcoded Symbol"@, found: s.kind }),
                },
                Err(f) => r matches Err(e) && e.view() == SymbolFail::Resolve(f),
            },
    {
        match self {
            Ok(s) => match s.kind {
                SymbolType::Hardcoded(h) => if h == sym {
                    Ok(s)
                } else {
                    let mut expected = String::from_str("Hardcoded Symbol: '");
                    expected.append(h.name());
                    expected.append("'");
                    Err(SymbolError::Kind { expected, found: s.kind })
                },
                _ => Err(kind_error("Hardcoded Symbol", s)),
            },
            Err(e) => Err(SymbolError::Resolve(e)),
        }
    }
}

} // verus!
