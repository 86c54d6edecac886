use vstd::prelude::*;

verus! {

/// A raw Nix expression that encodes without quotes.
///
/// Use this wrapper for text that already is a Nix expression and must
/// appear in the output exactly as given (`pkgs.hello`,
/// `lib.mkForce true`, `builtins.currentSystem`).
#[derive(Debug, Clone, PartialEq, Eq, Hash)]
pub struct NixLiteral {
    expr: String,
}

impl View for NixLiteral {
    type V = Seq<char>;

    closed spec fn view(&self) -> Seq<char> {
        self.expr@
    }
}

impl NixLiteral {
    /// Creates a new `NixLiteral` from the expression text.
    pub fn new(expr: &str) -> (r: Self)
        ensures
            r@ == expr@,
    {
        NixLiteral { expr: expr.to_owned() }
    }

    /// Returns the underlying expression text.
    pub fn as_str(&self) -> (r: &str)
        ensures
            r@ == self@,
    {
        self.expr.as_str()
    }

    /// Converts into the owned expression text.
    pub fn into_string(self) -> (r: String)
        ensures
            r@ == self@,
    {
        self.expr
    }
}

} // verus!
