//! Country tiers and their bijective string mapping.
use vstd::prelude::*;
use crate::text::str_eq;

verus! {

/// A country's rank classification.
#[derive(PartialEq, Eq, Structural, Clone, Copy, Debug)]
pub enum CountryTier {
    CityState,
    Principality,
    GrandPrincipality,
    Kingdom,
    Empire,
    Hegemony,
}

/// The canonical spelling of each tier.
pub open spec fn spec_tier_str(t: CountryTier) -> Seq<char> {
    match t {
        CountryTier::CityState => "city_state"@,
        CountryTier::Principality => "principality"@,
        CountryTier::GrandPrincipality => "grand_principality"@,
        CountryTier::Kingdom => "kingdom"@,
        CountryTier::Empire => "empire"@,
        CountryTier::Hegemony => "hegemony"@,
    }
}

/// The tier a spelling denotes, if any.
pub open spec fn spec_tier_from(s: Seq<char>) -> Option<CountryTier> {
    if s == spec_tier_str(CountryTier::CityState) {
        Some(CountryTier::CityState)
    } else if s == spec_tier_str(CountryTier::Principality) {
        Some(CountryTier::Principality)
    } else if s == spec_tier_str(CountryTier::GrandPrincipality) {
        Some(CountryTier::GrandPrincipality)
    } else if s == spec_tier_str(CountryTier::Kingdom) {
        Some(CountryTier::Kingdom)
    } else if s == spec_tier_str(CountryTier::Empire) {
        Some(CountryTier::Empire)
    } else if s == spec_tier_str(CountryTier::Hegemony) {
        Some(CountryTier::Hegemony)
    } else {
        None
    }
}

impl CountryTier {
    /// Converts a spelling to a tier; `None` when the spelling is not one
    /// of the six recognised tier names.
    pub fn from(tier: &str) -> (r: Option<CountryTier>)
        ensures
            r == spec_tier_from(tier@),
    {
        if str_eq(tier, "city_state") {
            Some(CountryTier::CityState)
        } else if str_eq(tier, "principality") {
            Some(CountryTier::Principality)
        } else if str_eq(tier, "grand_principality") {
            Some(CountryTier::GrandPrincipality)
        } else if str_eq(tier, "kingdom") {
            Some(CountryTier::Kingdom)
        } else if str_eq(tier, "empire") {
            Some(CountryTier::Empire)
        } else if str_eq(tier, "hegemony") {
            Some(CountryTier::Hegemony)
        } else {
            None
        }
    }

    /// The canonical spelling of this tier.
    pub fn to_str(&self) -> (r: &'static str)
        ensures
            r@ == spec_tier_str(*self),
    {
        match self {
            CountryTier::CityState => "city_state",
            CountryTier::Principality => "principality",
            CountryTier::GrandPrincipality => "grand_principality",
            CountryTier::Kingdom => "kingdom",
            CountryTier::Empire => "empire",
            CountryTier::Hegemony => "hegemony",
        }
    }
}

/// Law: the tier/string mapping round-trips: every tier's canonical
/// spelling maps back to the same tier.
pub proof fn lemma_tier_round_trip(t: CountryTier)
    ensures
        spec_tier_from(spec_tier_str(t)) == Some(t),
{
    reveal_strlit("city_state");
    reveal_strlit("principality");
    reveal_strlit("grand_principality");
    reveal_strlit("kingdom");
    reveal_strlit("empire");
    reveal_strlit("hegemony");
    assert(spec_tier_str(CountryTier::CityState).len() == 10);
    assert(spec_tier_str(CountryTier::Principality).len() == 12);
    assert(spec_tier_str(CountryTier::GrandPrincipality).len() == 18);
    assert(spec_tier_str(CountryTier::Kingdom).len() == 7);
    assert(spec_tier_str(CountryTier::Empire).len() == 6);
    assert(spec_tier_str(CountryTier::Hegemony).len() == 8);
    assert(spec_tier_str(CountryTier::Principality)[0] == 'p');
    assert(spec_tier_str(CountryTier::Hegemony)[0] == 'h');
    assert(spec_tier_str(CountryTier::Kingdom)[0] == 'k');
}

} // verus!
