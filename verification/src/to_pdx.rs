//! The serialization trait: anything that renders itself as canonical
//! script text.
use vstd::prelude::*;
use crate::country_definition::CountryDefinition;
use crate::culture::Culture;
use crate::state::{State, StateDivision};

verus! {

/// Structs that can be serialized to canonical script text. The exact
/// text of each implementation is pinned down by the inherent `to_pdx`
/// method it delegates to.
pub trait IToPdx {
    /// Serializes the value to script text.
    fn to_pdx(&self) -> String;
}

impl IToPdx for CountryDefinition {
    fn to_pdx(&self) -> String {
        CountryDefinition::to_pdx(self)
    }
}

impl IToPdx for Culture {
    fn to_pdx(&self) -> String {
        Culture::to_pdx(self)
    }
}

impl IToPdx for State {
    fn to_pdx(&self) -> String {
        State::to_pdx(self)
    }
}

impl IToPdx for StateDivision {
    fn to_pdx(&self) -> String {
        StateDivision::to_pdx(self)
    }
}

} // verus!
