//! A named leaf of the syntax tree: a name with the location it was written
//! at, used wherever a bound or referenced name appears.

use vstd::prelude::*;

use crate::location::{HasLocation, Location, SpecLoc};

verus! {

/// Mathematical model of an [`Identifier`].
#[verifier::ext_equal]
pub ghost struct SpecIdentifier {
    pub name: Seq<char>,
    pub location: SpecLoc,
}

/// A name together with the location it was written at.
#[derive(Debug)]
pub struct Identifier {
    pub name: Vec<char>,
    location: Location,
}

impl View for Identifier {
    type V = SpecIdentifier;

    closed spec fn view(&self) -> SpecIdentifier {
        SpecIdentifier { name: self.name@, location: self.location@ }
    }
}

impl Identifier {
    /// Pair a name with its location.
    pub fn new(name: Vec<char>, location: Location) -> (r: Self)
        ensures
            r@ == (SpecIdentifier { name: name@, location: location@ }),
    {
        Identifier { name, location }
    }
}

impl HasLocation for Identifier {
    open spec fn spec_location(&self) -> SpecLoc {
        self@.location
    }

    fn get_location(&self) -> (l: &Location) {
        &self.location
    }
}

} // verus!
