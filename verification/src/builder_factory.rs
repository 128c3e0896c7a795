//! Factories handing out fresh builders, so a caller can stamp one
//! builder per entity without re-supplying configuration.
use vstd::prelude::*;
use crate::country_definition::{spec_cd_new, CountryDefinitionBuilder};
use crate::culture::{spec_culture_new, CultureBuilder};

verus! {

/// Hands out fresh builders for each schema.
pub struct BuilderFactory {}

impl BuilderFactory {
    /// A factory.
    pub fn new() -> (r: BuilderFactory) {
        BuilderFactory {}
    }

    /// A fresh country-definition builder.
    pub fn country_definition_builder(&self) -> (r: CountryDefinitionBuilder)
        ensures
            r@ == spec_cd_new(),
    {
        CountryDefinitionBuilder::new()
    }

    /// A fresh culture builder.
    pub fn culture_builder(&self) -> (r: CultureBuilder)
        ensures
            r@ == spec_culture_new(),
    {
        CultureBuilder::new()
    }
}

/// A factory for country-definition builders alone.
pub struct CountryDefinitionFactory {}

impl CountryDefinitionFactory {
    /// A factory.
    pub fn new() -> (r: CountryDefinitionFactory) {
        CountryDefinitionFactory {}
    }

    /// A fresh builder.
    pub fn create_builder(&self) -> (r: CountryDefinitionBuilder)
        ensures
            r@ == spec_cd_new(),
    {
        CountryDefinitionBuilder::new()
    }
}

} // verus!
