use vstd::prelude::*;

verus! {

/// The crates that the code generator names.
#[derive(Clone, Copy, Debug, PartialEq, Eq, Structural)]
pub enum Crate {
    Main,
    Engine,
    Macros,
}

/// A fixed item of a named crate: its crate, the modules that lead to it,
/// and its identifier.
#[derive(Debug)]
pub struct CratePath {
    pub cr: Crate,
    pub path: Vec<String>,
    pub ident: String,
}

impl CratePath {
    pub fn get_ident(&self) -> (r: String)
        ensures
            r@ == self.ident@,
    {
        self.ident.clone()
    }

    /// `crate`, the modules, then the identifier.
    pub fn full_path(&self) -> (r: Vec<String>)
        ensures
            r@.len() == self.path@.len() + 2,
            r@[0]@ == "crate"@,
            forall|i: int| 0 <= i < self.path@.len() ==> #[trigger] r@[i + 1] == self.path@[i],
            r@.last() == self.ident,
    {
        let mut r: Vec<String> = Vec::new();
        r.push(String::from_str("crate"));
        let mut i: usize = 0;
        while i < self.path.len()
            invariant
                i <= self.path@.len(),
                r@.len() == i + 1,
                r@[0]@ == "crate"@,
                forall|j: int| 0 <= j < i ==> #[trigger] r@[j + 1] == self.path@[j],
            decreases self.path@.len() - i,
        {
            r.push(self.path[i].clone());
            i = i + 1;
        }
        r.push(self.ident.clone());
        r
    }
}

} // verus!

verus! {

/// An engine trait as seen from the entry crate, and the trait it stands for.
pub struct TraitPath<'a> {
    pub main_trait: &'a CratePath,
    pub global_trait: &'a CratePath,
}

/// Enumerations that list their variants.
pub trait ExpandEnum<const N: usize>: Sized {
    fn variants() -> [Self; N];
}

impl ExpandEnum<3> for Crate {
    fn variants() -> (r: [Crate; 3])
        ensures
            r@ == seq![Crate::Main, Crate::Engine, Crate::Macros],
    {
        [Crate::Main, Crate::Engine, Crate::Macros]
    }
}

} // verus!
