//! Parsing, coercion and round-trip behaviour of the library.
use vicky::color::Color;
use vicky::country_definition::{
    country_definitions_file_to_pdx, parse_country_definitions, CountryDefinition,
};
use vicky::country_tier::CountryTier;
use vicky::culture::{cultures_file_to_pdx, parse_cultures, Culture};
use vicky::parser::parse_root_fields;
use vicky::state::{parse_states, states_file_to_pdx, State, StateDivision};
use vicky::value::Value;

fn s(t: &str) -> String {
    t.to_owned()
}

fn strings(ts: &[&str]) -> Vec<String> {
    ts.iter().map(|t| s(t)).collect()
}

/// The value of the single root field of `text`.
fn single_value(text: &str) -> Value {
    let mut fields = parse_root_fields(text).expect("structural parse");
    assert_eq!(fields.len(), 1);
    fields.pop().unwrap().1
}

#[test]
fn read_color_with_valid_inputs_should_succeed() {
    let cases: Vec<(&str, Color)> = vec![
        ("c = { 0 0 0 }", Color::Rgb(0, 0, 0)),
        ("c = { 12 23 244 }", Color::Rgb(12, 23, 244)),
        ("c = rgb { 12 23 244 }", Color::Rgb(12, 23, 244)),
        ("c = hsv { 0.1 0.5 0.8 }", Color::Hsv(s("0.1"), s("0.5"), s("0.8"))),
        ("c = hsv360 { 101 50 355 }", Color::Hsv360(101, 50, 355)),
    ];
    for (input, expected) in cases {
        let v = single_value(input);
        let got = v.read_color().expect("color should read");
        assert!(got == expected, "mismatch for {}", input);
    }
}

#[test]
fn read_color_rejects_unknown_tag() {
    let v = single_value("c = cmyk { 1 2 3 }");
    assert!(v.read_color().is_err());
}

#[test]
fn read_color_saturates_bare_triple() {
    // Parse failures and range overflows in the plain triple saturate
    // to zero instead of failing the color.
    let v = single_value("c = { 300 xyz 7 }");
    assert!(v.read_color().unwrap() == Color::Rgb(0, 0, 7));
}

#[test]
fn ethnicities_duplicate_keys_become_a_list() {
    let v = single_value("e = { 1 = a 1 = b }");
    let got = v.read_ethnicities().expect("object should read");
    assert_eq!(got, strings(&["a", "b"]));
}

#[test]
fn quoted_tokens_and_comments_are_handled() {
    let text = "# leading comment\nname = \"Granite House\"_suffix ! another comment\nother = bare\n";
    let fields = parse_root_fields(text).expect("structural parse");
    assert_eq!(fields.len(), 2);
    assert_eq!(fields[0].0, "name");
    match &fields[0].1 {
        Value::Scalar(t) => assert_eq!(t, "Granite House_suffix"),
        _ => panic!("expected a scalar"),
    }
    assert_eq!(fields[1].0, "other");
}

#[test]
fn unbalanced_braces_fail_the_file() {
    assert!(parse_root_fields("a = { b = c ").is_none());
    assert!(parse_root_fields("a = b } ").is_none());
}

#[test]
fn end_to_end_country_definition() {
    let text = "GBR = { color = hsv{ 0.99 0.7 0.9 } country_type = recognized tier = empire cultures = { british scottish } capital = STATE_HOME_COUNTIES }";
    let (defs, diags) = parse_country_definitions(text).expect("file should parse");
    assert_eq!(defs.len(), 1);
    let d = &defs[0];
    assert_eq!(d.tag, "GBR");
    assert!(d.color == Color::Hsv(s("0.99"), s("0.7"), s("0.9")));
    assert_eq!(d.country_type, "recognized");
    assert!(matches!(d.tier, CountryTier::Empire));
    assert_eq!(d.cultures, strings(&["british", "scottish"]));
    assert_eq!(d.religion, None);
    assert_eq!(d.capital, Some(s("STATE_HOME_COUNTIES")));
    assert!(diags.is_empty());
}

#[test]
fn missing_tier_fails_build_and_is_skipped() {
    let text = "GBR = { color = rgb { 1 2 3 } country_type = recognized cultures = { british } }\nFRA = { color = rgb { 4 5 6 } country_type = recognized tier = kingdom cultures = { french } }";
    let (defs, diags) = parse_country_definitions(text).expect("file should parse");
    // The bad entity is excluded from the output; the rest of the file
    // still parses.
    assert_eq!(defs.len(), 1);
    assert_eq!(defs[0].tag, "FRA");
    assert_eq!(diags.len(), 1);
    assert_eq!(diags[0].message, "`Country Definition` is missing property `tier`");
}

#[test]
fn tier_strings_round_trip() {
    let tiers = vec![
        CountryTier::CityState,
        CountryTier::Principality,
        CountryTier::GrandPrincipality,
        CountryTier::Kingdom,
        CountryTier::Empire,
        CountryTier::Hegemony,
    ];
    for t in tiers {
        assert_eq!(CountryTier::from(t.to_str()), Some(t));
    }
    assert_eq!(CountryTier::from("duchy"), None);
}

fn sample_country(tier: CountryTier, color: Color) -> CountryDefinition {
    CountryDefinition::new(
        s("GBR"),
        strings(&["british", "scottish"]),
        color,
        s("recognized"),
        tier,
        None,
        Some(s("STATE_HOME_COUNTIES")),
    )
}

#[test]
fn country_definition_round_trips_across_tiers_and_colors() {
    let tiers = vec![
        CountryTier::CityState,
        CountryTier::Principality,
        CountryTier::GrandPrincipality,
        CountryTier::Kingdom,
        CountryTier::Empire,
        CountryTier::Hegemony,
    ];
    let colors = vec![
        Color::Rgb(12, 200, 3),
        Color::Hsv360(101, 50, 355),
        Color::Hsv(s("0.99"), s("0.7"), s("0.9")),
    ];
    for tier in &tiers {
        for color in &colors {
            let e = sample_country(*tier, color.clone());
            let text = e.to_pdx();
            let (defs, diags) = parse_country_definitions(text.as_str()).expect("round trip");
            assert_eq!(defs.len(), 1);
            assert!(defs[0] == e);
            assert!(diags.is_empty());
        }
    }
}

#[test]
fn country_definition_round_trips_with_absent_optionals() {
    let e = CountryDefinition::new(
        s("FRA"),
        Vec::new(),
        Color::Rgb(0, 0, 0),
        s("recognized"),
        CountryTier::Kingdom,
        None,
        None,
    );
    let (defs, diags) = parse_country_definitions(e.to_pdx().as_str()).expect("round trip");
    assert_eq!(defs.len(), 1);
    assert!(defs[0] == e);
    assert!(diags.is_empty());
}

fn sample_culture() -> Culture {
    Culture {
        string_id: s("british"),
        traits: strings(&["european_heritage", "anglophone"]),
        ethnicities: strings(&["caucasian", "celtic"]),
        graphics: s("european"),
        color: Some(Color::Hsv360(10, 20, 30)),
        religion: Some(s("protestant")),
        male_common_first_names: Some(strings(&["Arthur", "Bertie"])),
        female_common_first_names: None,
        common_last_names: Some(strings(&["Smith"])),
        noble_last_names: None,
        male_regal_first_names: None,
        female_regal_first_names: Some(strings(&["Victoria"])),
        regal_last_names: None,
    }
}

#[test]
fn culture_round_trips() {
    let e = sample_culture();
    let text = e.to_pdx();
    let (cultures, diags) = parse_cultures(text.as_str()).expect("round trip");
    assert_eq!(cultures.len(), 1);
    assert!(cultures[0] == e);
    assert!(diags.is_empty());
}

fn second_country() -> CountryDefinition {
    CountryDefinition::new(
        s("FRA"),
        strings(&["french"]),
        Color::Rgb(4, 5, 6),
        s("recognized"),
        CountryTier::Empire,
        None,
        None,
    )
}

#[test]
fn file_texts_join_blocks_with_one_blank_line() {
    let a = sample_country(CountryTier::Kingdom, Color::Rgb(1, 2, 3));
    let b = second_country();
    let expected = format!("{}\n\n{}", a.to_pdx(), b.to_pdx());
    assert_eq!(country_definitions_file_to_pdx(&vec![a, b]), expected);
    let c = sample_culture();
    let one = c.to_pdx();
    assert_eq!(cultures_file_to_pdx(&vec![c]), one);
    assert_eq!(country_definitions_file_to_pdx(&Vec::new()), "");
}

#[test]
fn joined_file_text_parses_back_to_every_entity() {
    let a = sample_country(CountryTier::Kingdom, Color::Rgb(1, 2, 3));
    let b = second_country();
    let text = country_definitions_file_to_pdx(&vec![
        sample_country(CountryTier::Kingdom, Color::Rgb(1, 2, 3)),
        second_country(),
    ]);
    let (defs, diags) = parse_country_definitions(text.as_str()).expect("file round trip");
    assert_eq!(defs.len(), 2);
    assert!(defs[0] == a);
    assert!(defs[1] == b);
    assert!(diags.is_empty());
}

#[test]
fn culture_missing_required_fields_is_skipped() {
    let (cultures, diags) = parse_cultures("british = { religion = protestant }").expect(
        "file should parse",
    );
    assert!(cultures.is_empty());
    // string_id is seeded from the root key, so the three other
    // required fields are reported.
    assert_eq!(diags.len(), 3);
    assert_eq!(diags[0].message, "`Culture` is missing property `traits`");
    assert_eq!(diags[1].message, "`Culture` is missing property `ethnicities`");
    assert_eq!(diags[2].message, "`Culture` is missing property `graphics`");
}

fn sample_state() -> State {
    State::new(
        s("STATE_HOME_COUNTIES"),
        strings(&["british"]),
        Some(vec![
            StateDivision {
                country: s("GBR"),
                provinces: strings(&["x112233", "x445566"]),
                state_type: None,
            },
            StateDivision {
                country: s("FRA"),
                provinces: strings(&["x778899"]),
                state_type: Some(s("unincorporated")),
            },
        ]),
    )
}

#[test]
fn states_file_round_trips() {
    let states = vec![sample_state(), State::new(s("STATE_EMPTY"), Vec::new(), None)];
    let text = states_file_to_pdx(&states);
    let (parsed, diags) = parse_states(text.as_str()).expect("round trip");
    assert_eq!(parsed.len(), 2);
    assert!(parsed[0] == states[0]);
    assert!(parsed[1] == states[1]);
    assert!(diags.is_empty());
}

#[test]
fn empty_braces_read_as_explicit_absent() {
    let v = single_value("cultures = { }");
    assert!(matches!(v, Value::Absent));
    assert_eq!(v.read_string_array().unwrap(), Vec::<String>::new());
    assert!(v.read_string().is_err());
}
