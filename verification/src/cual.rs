//! Canonical Universal Asset Locator: a `scheme://authority/path` style
//! identifier that names any asset uniformly across connectors.

use vstd::prelude::*;

verus! {

/// A canonical asset locator, carried as its rendered text.
#[derive(Clone, Debug)]
pub struct Cual {
    uri: String,
}

impl Cual {
    /// The rendered text, viewed.
    pub closed spec fn text(self) -> Seq<char> {
        self.uri@
    }

    /// Wrap an already-rendered locator.
    pub fn new(uri: String) -> (r: Cual)
        ensures
            r.text() == uri@,
    {
        Cual { uri }
    }

    /// The rendered text.
    pub fn uri(&self) -> (r: String)
        ensures
            r@ == self.text(),
    {
        self.uri.clone()
    }

    /// An equal copy.
    pub fn duplicate(&self) -> (r: Cual)
        ensures
            r == *self,
    {
        Cual { uri: self.uri.clone() }
    }
}

impl Cual {
    /// Exact content-equality test.
    pub fn same(&self, other: &Cual) -> (r: bool)
        ensures
            r == (self.text() == other.text()),
    {
        self.uri == other.uri
    }
}

} // verus!
