//! Cross-entity validation over an assembled collection.
use vicky::color::Color;
use vicky::country_definition::CountryDefinition;
use vicky::country_tier::CountryTier;
use vicky::culture::Culture;
use vicky::mod_state::ModState;
use vicky::mod_validator::ModValidator;

fn s(t: &str) -> String {
    t.to_owned()
}

fn country(tag: &str, culture: &str) -> CountryDefinition {
    CountryDefinition::new(
        s(tag),
        vec![s(culture)],
        Color::Rgb(0, 0, 0),
        s("recognized"),
        CountryTier::Kingdom,
        None,
        None,
    )
}

fn culture(id: &str) -> Culture {
    Culture {
        string_id: s(id),
        traits: vec![],
        ethnicities: vec![],
        graphics: s("european"),
        color: None,
        religion: None,
        male_common_first_names: None,
        female_common_first_names: None,
        common_last_names: None,
        noble_last_names: None,
        male_regal_first_names: None,
        female_regal_first_names: None,
        regal_last_names: None,
    }
}

#[test]
fn undefined_culture_yields_one_diagnostic_naming_it() {
    let mut state = ModState::new();
    state.set_cultures_file(s("cultures.txt"), vec![culture("british")]);
    state.set_country_definitions_file(
        s("countries.txt"),
        vec![country("GBR", "british"), country("ATL", "atlantean")],
    );
    let validator = ModValidator::new();
    let diags = validator.cultures_are_defined(&state);
    assert_eq!(diags.len(), 1);
    assert_eq!(diags[0].message, "Culture `atlantean` is Undefined! @ countries.txt");
}

#[test]
fn defined_cultures_yield_no_diagnostics() {
    let mut state = ModState::new();
    state.set_cultures_file(s("cultures.txt"), vec![culture("british"), culture("french")]);
    state.set_country_definitions_file(
        s("countries.txt"),
        vec![country("GBR", "british"), country("FRA", "french")],
    );
    let validator = ModValidator::new();
    assert!(validator.cultures_are_defined(&state).is_empty());
}

#[test]
fn duplicate_tag_in_one_file_yields_one_diagnostic() {
    let mut state = ModState::new();
    state.set_country_definitions_file(
        s("countries.txt"),
        vec![country("GBR", "british"), country("GBR", "british"), country("FRA", "french")],
    );
    let validator = ModValidator::new();
    let diags = validator.no_duplicate_tags(&state);
    assert_eq!(diags.len(), 1);
    assert_eq!(diags[0].message, "Duplicate Tag `GBR` @ countries.txt");
}

#[test]
fn duplicate_tag_across_files_yields_one_diagnostic_on_the_second() {
    let mut state = ModState::new();
    state.set_country_definitions_file(s("one.txt"), vec![country("GBR", "british")]);
    state.set_country_definitions_file(s("two.txt"), vec![country("GBR", "british")]);
    let validator = ModValidator::new();
    let diags = validator.no_duplicate_tags(&state);
    assert_eq!(diags.len(), 1);
    assert_eq!(diags[0].message, "Duplicate Tag `GBR` @ two.txt");
}

#[test]
fn setting_a_file_again_replaces_its_entities() {
    let mut state = ModState::new();
    state.set_cultures_file(s("cultures.txt"), vec![culture("british")]);
    state.set_country_definitions_file(s("countries.txt"), vec![country("GBR", "british")]);
    state.set_country_definitions_file(s("countries.txt"), vec![country("GBR", "british")]);
    let files = state.get_country_definition_files();
    assert_eq!(files.len(), 1);
    assert_eq!(files[0].entries.len(), 1);
    let validator = ModValidator::new();
    assert!(validator.no_duplicate_tags(&state).is_empty());
}

#[test]
fn setting_a_new_file_appends_and_resetting_keeps_its_place() {
    let mut state = ModState::new();
    state.set_country_definitions_file(s("one.txt"), vec![country("GBR", "british")]);
    state.set_country_definitions_file(s("two.txt"), vec![country("FRA", "french")]);
    state.set_country_definitions_file(s("one.txt"), vec![country("ENG", "british")]);
    let files = state.get_country_definition_files();
    assert_eq!(files.len(), 2);
    assert_eq!(files[0].name, "one.txt");
    assert_eq!(files[0].entries.len(), 1);
    assert_eq!(files[0].entries[0].tag, "ENG");
    assert_eq!(files[1].name, "two.txt");
    assert_eq!(files[1].entries[0].tag, "FRA");
}

#[test]
fn setting_a_culture_file_again_replaces_its_entities() {
    let mut state = ModState::new();
    state.set_cultures_file(s("cultures.txt"), vec![culture("british")]);
    state.set_cultures_file(s("cultures.txt"), vec![culture("french")]);
    let files = state.get_culture_files();
    assert_eq!(files.len(), 1);
    assert_eq!(files[0].entries.len(), 1);
    assert_eq!(files[0].entries[0].string_id, "french");
}

#[test]
fn validate_is_valid_exactly_when_both_lists_are_empty() {
    let mut state = ModState::new();
    state.set_cultures_file(s("cultures.txt"), vec![culture("british")]);
    state.set_country_definitions_file(s("countries.txt"), vec![country("GBR", "british")]);
    let validator = ModValidator::new();
    let (culture_diags, tag_diags, valid) = validator.validate(&state);
    assert!(culture_diags.is_empty());
    assert!(tag_diags.is_empty());
    assert!(valid);
    state.set_country_definitions_file(
        s("countries.txt"),
        vec![country("GBR", "atlantean"), country("GBR", "british")],
    );
    let (culture_diags, tag_diags, valid) = validator.validate(&state);
    assert_eq!(culture_diags.len(), 1);
    assert_eq!(tag_diags.len(), 1);
    assert!(!valid);
}

#[test]
fn distinct_tags_yield_no_diagnostics() {
    let mut state = ModState::new();
    state.set_country_definitions_file(
        s("countries.txt"),
        vec![country("GBR", "british"), country("FRA", "british")],
    );
    state.set_cultures_file(s("cultures.txt"), vec![culture("british")]);
    let validator = ModValidator::new();
    assert!(validator.no_duplicate_tags(&state).is_empty());
    assert!(validator.cultures_are_defined(&state).is_empty());
}
