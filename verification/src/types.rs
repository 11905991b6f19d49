//! Identifier-like values: `Name` for bare identifiers, `Id` for the
//! distinguished identifier scalar. Both compare by their text.

use vstd::prelude::*;

verus! {

/// An owned identifier; equality is by text value.
#[derive(Debug)]
pub struct Name(pub String);

/// A distinguished string value used for identifier-like scalars.
#[derive(Debug)]
pub struct Id(pub String);

impl View for Name {
    type V = Seq<char>;

    open spec fn view(&self) -> Seq<char> {
        self.0@
    }
}

impl View for Id {
    type V = Seq<char>;

    open spec fn view(&self) -> Seq<char> {
        self.0@
    }
}

impl Name {
    pub fn new(s: &str) -> (r: Name)
        ensures
            r@ == s@,
    {
        Name(s.to_owned())
    }

    pub fn as_str(&self) -> (r: &str)
        ensures
            r@ == self@,
    {
        self.0.as_str()
    }
}

impl Id {
    pub fn new(s: &str) -> (r: Id)
        ensures
            r@ == s@,
    {
        Id(s.to_owned())
    }

    pub fn as_str(&self) -> (r: &str)
        ensures
            r@ == self@,
    {
        self.0.as_str()
    }
}

/// Relies on str's equality: two string slices are equal exactly when
/// their characters are.
#[verifier::external_body]
pub(crate) fn str_eq(a: &str, b: &str) -> (r: bool)
    ensures
        r == (a@ == b@),
{
    a == b
}

impl PartialEq for Name {
    fn eq(&self, o: &Name) -> (r: bool) {
        self.0 == o.0
    }
}

impl Eq for Name {}

impl vstd::std_specs::cmp::PartialEqSpecImpl for Name {
    open spec fn obeys_eq_spec() -> bool {
        true
    }

    open spec fn eq_spec(&self, o: &Name) -> bool {
        self@ == o@
    }
}

impl PartialEq for Id {
    fn eq(&self, o: &Id) -> (r: bool) {
        self.0 == o.0
    }
}

impl Eq for Id {}

impl vstd::std_specs::cmp::PartialEqSpecImpl for Id {
    open spec fn obeys_eq_spec() -> bool {
        true
    }

    open spec fn eq_spec(&self, o: &Id) -> bool {
        self@ == o@
    }
}

impl Clone for Name {
    fn clone(&self) -> (r: Name)
        ensures
            r@ == self@,
    {
        Name(self.0.clone())
    }
}

impl Clone for Id {
    fn clone(&self) -> (r: Id)
        ensures
            r@ == self@,
    {
        Id(self.0.clone())
    }
}

} // verus!
