//! Cultures: the typed record, its builder, the parser driver and the
//! canonical serializer.
use vstd::prelude::*;
use crate::color::{spec_color_text, Color, ColorV};
use crate::country_definition::{
    opt_color_view, opt_text_view, opt_texts_view, spec_coerce_diag, spec_missing_diag,
    spec_obj_fields, spec_words, texts_view,
};
use crate::logger::{DiagV, Diagnostic, ILogger, Logger};
use crate::parser::{parse_root_fields, spec_parse_text};
use crate::text::str_eq;
use crate::value::{FieldV, Value, ValueV};
use crate::value_reader::{
    spec_read_color, spec_read_ethnicities, spec_read_string, spec_read_string_array,
};

verus! {

/// The diagnostics name of this entity type.
pub open spec fn spec_culture_type_str() -> Seq<char> {
    "Culture"@
}

/// Specification-level mirror of [`Culture`].
#[verifier::ext_equal]
pub struct CultureV {
    pub string_id: Seq<char>,
    pub traits: Seq<Seq<char>>,
    pub ethnicities: Seq<Seq<char>>,
    pub graphics: Seq<char>,
    pub color: Option<ColorV>,
    pub religion: Option<Seq<char>>,
    pub male_common_first_names: Option<Seq<Seq<char>>>,
    pub female_common_first_names: Option<Seq<Seq<char>>>,
    pub common_last_names: Option<Seq<Seq<char>>>,
    pub noble_last_names: Option<Seq<Seq<char>>>,
    pub male_regal_first_names: Option<Seq<Seq<char>>>,
    pub female_regal_first_names: Option<Seq<Seq<char>>>,
    pub regal_last_names: Option<Seq<Seq<char>>>,
}

/// One culture. `string_id`, `traits`, `ethnicities` and `graphics` are
/// required; everything else is optional.
#[derive(PartialEq, Debug)]
pub struct Culture {
    pub string_id: String,
    pub traits: Vec<String>,
    pub ethnicities: Vec<String>,
    pub graphics: String,
    pub color: Option<Color>,
    pub religion: Option<String>,
    pub male_common_first_names: Option<Vec<String>>,
    pub female_common_first_names: Option<Vec<String>>,
    pub common_last_names: Option<Vec<String>>,
    pub noble_last_names: Option<Vec<String>>,
    pub male_regal_first_names: Option<Vec<String>>,
    pub female_regal_first_names: Option<Vec<String>>,
    pub regal_last_names: Option<Vec<String>>,
}

impl View for Culture {
    type V = CultureV;

    open spec fn view(&self) -> CultureV {
        CultureV {
            string_id: self.string_id@,
            traits: texts_view(self.traits@),
            ethnicities: texts_view(self.ethnicities@),
            graphics: self.graphics@,
            color: opt_color_view(self.color),
            religion: opt_text_view(self.religion),
            male_common_first_names: opt_texts_view(self.male_common_first_names),
            female_common_first_names: opt_texts_view(self.female_common_first_names),
            common_last_names: opt_texts_view(self.common_last_names),
            noble_last_names: opt_texts_view(self.noble_last_names),
            male_regal_first_names: opt_texts_view(self.male_regal_first_names),
            female_regal_first_names: opt_texts_view(self.female_regal_first_names),
            regal_last_names: opt_texts_view(self.regal_last_names),
        }
    }
}

/// Specification-level mirror of [`CultureBuilder`].
#[verifier::ext_equal]
pub struct CultureBuilderV {
    pub string_id: Option<Seq<char>>,
    pub traits: Option<Seq<Seq<char>>>,
    pub ethnicities: Option<Seq<Seq<char>>>,
    pub graphics: Option<Seq<char>>,
    pub color: Option<ColorV>,
    pub religion: Option<Seq<char>>,
    pub male_common_first_names: Option<Seq<Seq<char>>>,
    pub female_common_first_names: Option<Seq<Seq<char>>>,
    pub common_last_names: Option<Seq<Seq<char>>>,
    pub noble_last_names: Option<Seq<Seq<char>>>,
    pub male_regal_first_names: Option<Seq<Seq<char>>>,
    pub female_regal_first_names: Option<Seq<Seq<char>>>,
    pub regal_last_names: Option<Seq<Seq<char>>>,
    pub diags: Seq<DiagV>,
}

/// A fresh builder: nothing staged, nothing logged.
pub open spec fn spec_culture_new() -> CultureBuilderV {
    CultureBuilderV {
        string_id: None,
        traits: None,
        ethnicities: None,
        graphics: None,
        color: None,
        religion: None,
        male_common_first_names: None,
        female_common_first_names: None,
        common_last_names: None,
        noble_last_names: None,
        male_regal_first_names: None,
        female_regal_first_names: None,
        regal_last_names: None,
        diags: Seq::empty(),
    }
}

/// Seeding the identifier from the enclosing root key.
pub open spec fn spec_culture_apply_root(b: CultureBuilderV, root: Seq<char>) -> CultureBuilderV {
    CultureBuilderV { string_id: Some(root), ..b }
}

/// Applying one `key = value` pair to a culture under construction.
/// The `ethnicities` field uses the duplicate-key object idiom; the
/// seven name lists and `traits` are arrays of texts; unrecognized keys
/// are silently ignored.
pub open spec fn spec_culture_apply(b: CultureBuilderV, key: Seq<char>, v: ValueV) -> (
    CultureBuilderV,
    bool,
) {
    if key == "string_id"@ {
        match spec_read_string(v) {
            Some(s) => (CultureBuilderV { string_id: Some(s), ..b }, true),
            None => (
                CultureBuilderV { diags: b.diags.push(spec_coerce_diag("string_id"@, "String"@)), ..b },
                false,
            ),
        }
    } else if key == "color"@ {
        match spec_read_color(v) {
            Some(c) => (CultureBuilderV { color: Some(c), ..b }, true),
            None => (
                CultureBuilderV { diags: b.diags.push(spec_coerce_diag("color"@, "Color"@)), ..b },
                false,
            ),
        }
    } else if key == "religion"@ {
        match spec_read_string(v) {
            Some(s) => (CultureBuilderV { religion: Some(s), ..b }, true),
            None => (
                CultureBuilderV { diags: b.diags.push(spec_coerce_diag("religion"@, "String"@)), ..b },
                false,
            ),
        }
    } else if key == "traits"@ {
        match spec_read_string_array(v) {
            Some(xs) => (CultureBuilderV { traits: Some(xs), ..b }, true),
            None => (
                CultureBuilderV {
                    diags: b.diags.push(spec_coerce_diag("traits"@, "Vec<String>"@)),
                    ..b
                },
                false,
            ),
        }
    } else if key == "male_common_first_names"@ {
        match spec_read_string_array(v) {
            Some(xs) => (CultureBuilderV { male_common_first_names: Some(xs), ..b }, true),
            None => (
                CultureBuilderV {
                    diags: b.diags.push(
                        spec_coerce_diag("male_common_first_names"@, "Vec<String>"@),
                    ),
                    ..b
                },
                false,
            ),
        }
    } else if key == "female_common_first_names"@ {
        match spec_read_string_array(v) {
            Some(xs) => (CultureBuilderV { female_common_first_names: Some(xs), ..b }, true),
            None => (
                CultureBuilderV {
                    diags: b.diags.push(
                        spec_coerce_diag("female_common_first_names"@, "Vec<String>"@),
                    ),
                    ..b
                },
                false,
            ),
        }
    } else if key == "common_last_names"@ {
        match spec_read_string_array(v) {
            Some(xs) => (CultureBuilderV { common_last_names: Some(xs), ..b }, true),
            None => (
                CultureBuilderV {
                    diags: b.diags.push(spec_coerce_diag("common_last_names"@, "Vec<String>"@)),
                    ..b
                },
                false,
            ),
        }
    } else if key == "noble_last_names"@ {
        match spec_read_string_array(v) {
            Some(xs) => (CultureBuilderV { noble_last_names: Some(xs), ..b }, true),
            None => (
                CultureBuilderV {
                    diags: b.diags.push(spec_coerce_diag("noble_last_names"@, "Vec<String>"@)),
                    ..b
                },
                false,
            ),
        }
    } else if key == "male_regal_first_names"@ {
        match spec_read_string_array(v) {
            Some(xs) => (CultureBuilderV { male_regal_first_names: Some(xs), ..b }, true),
            None => (
                CultureBuilderV {
                    diags: b.diags.push(
                        spec_coerce_diag("male_regal_first_names"@, "Vec<String>"@),
                    ),
                    ..b
                },
                false,
            ),
        }
    } else if key == "female_regal_first_names"@ {
        match spec_read_string_array(v) {
            Some(xs) => (CultureBuilderV { female_regal_first_names: Some(xs), ..b }, true),
            None => (
                CultureBuilderV {
                    diags: b.diags.push(
                        spec_coerce_diag("female_regal_first_names"@, "Vec<String>"@),
                    ),
                    ..b
                },
                false,
            ),
        }
    } else if key == "regal_last_names"@ {
        match spec_read_string_array(v) {
            Some(xs) => (CultureBuilderV { regal_last_names: Some(xs), ..b }, true),
            None => (
                CultureBuilderV {
                    diags: b.diags.push(spec_coerce_diag("regal_last_names"@, "Vec<String>"@)),
                    ..b
                },
                false,
            ),
        }
    } else if key == "ethnicities"@ {
        match spec_read_ethnicities(v) {
            Some(xs) => (CultureBuilderV { ethnicities: Some(xs), ..b }, true),
            None => (
                CultureBuilderV {
                    diags: b.diags.push(spec_coerce_diag("ethnicities"@, "Vec<String>"@)),
                    ..b
                },
                false,
            ),
        }
    } else if key == "graphics"@ {
        match spec_read_string(v) {
            Some(s) => (CultureBuilderV { graphics: Some(s), ..b }, true),
            None => (
                CultureBuilderV { diags: b.diags.push(spec_coerce_diag("graphics"@, "String"@)), ..b },
                false,
            ),
        }
    } else {
        (b, true)
    }
}

/// Finalizing a culture: each unset required field adds one
/// missing-property diagnostic; the culture is produced only when all
/// four required fields are set.
pub open spec fn spec_culture_build(b: CultureBuilderV) -> (Option<CultureV>, Seq<DiagV>) {
    let d0 = b.diags;
    let d1 = if b.string_id is None {
        d0.push(spec_missing_diag(spec_culture_type_str(), "string_id"@))
    } else {
        d0
    };
    let d2 = if b.traits is None {
        d1.push(spec_missing_diag(spec_culture_type_str(), "traits"@))
    } else {
        d1
    };
    let d3 = if b.ethnicities is None {
        d2.push(spec_missing_diag(spec_culture_type_str(), "ethnicities"@))
    } else {
        d2
    };
    let d4 = if b.graphics is None {
        d3.push(spec_missing_diag(spec_culture_type_str(), "graphics"@))
    } else {
        d3
    };
    if b.string_id is Some && b.traits is Some && b.ethnicities is Some && b.graphics is Some {
        (
            Some(
                CultureV {
                    string_id: b.string_id->0,
                    traits: b.traits->0,
                    ethnicities: b.ethnicities->0,
                    graphics: b.graphics->0,
                    color: b.color,
                    religion: b.religion,
                    male_common_first_names: b.male_common_first_names,
                    female_common_first_names: b.female_common_first_names,
                    common_last_names: b.common_last_names,
                    noble_last_names: b.noble_last_names,
                    male_regal_first_names: b.male_regal_first_names,
                    female_regal_first_names: b.female_regal_first_names,
                    regal_last_names: b.regal_last_names,
                },
            ),
            d4,
        )
    } else {
        (None, d4)
    }
}

/// The transient staging record for one culture under construction.
pub struct CultureBuilder {
    pub string_id: Option<String>,
    pub traits: Option<Vec<String>>,
    pub ethnicities: Option<Vec<String>>,
    pub graphics: Option<String>,
    pub color: Option<Color>,
    pub religion: Option<String>,
    pub male_common_first_names: Option<Vec<String>>,
    pub female_common_first_names: Option<Vec<String>>,
    pub common_last_names: Option<Vec<String>>,
    pub noble_last_names: Option<Vec<String>>,
    pub male_regal_first_names: Option<Vec<String>>,
    pub female_regal_first_names: Option<Vec<String>>,
    pub regal_last_names: Option<Vec<String>>,
    pub logger: Logger,
}

impl View for CultureBuilder {
    type V = CultureBuilderV;

    open spec fn view(&self) -> CultureBuilderV {
        CultureBuilderV {
            string_id: opt_text_view(self.string_id),
            traits: opt_texts_view(self.traits),
            ethnicities: opt_texts_view(self.ethnicities),
            graphics: opt_text_view(self.graphics),
            color: opt_color_view(self.color),
            religion: opt_text_view(self.religion),
            male_common_first_names: opt_texts_view(self.male_common_first_names),
            female_common_first_names: opt_texts_view(self.female_common_first_names),
            common_last_names: opt_texts_view(self.common_last_names),
            noble_last_names: opt_texts_view(self.noble_last_names),
            male_regal_first_names: opt_texts_view(self.male_regal_first_names),
            female_regal_first_names: opt_texts_view(self.female_regal_first_names),
            regal_last_names: opt_texts_view(self.regal_last_names),
            diags: self.logger.entries(),
        }
    }
}

impl CultureBuilder {
    /// A fresh, empty builder.
    pub fn new() -> (r: CultureBuilder)
        ensures
            r@ == spec_culture_new(),
    {
        let r = CultureBuilder {
            string_id: None,
            traits: None,
            ethnicities: None,
            graphics: None,
            color: None,
            religion: None,
            male_common_first_names: None,
            female_common_first_names: None,
            common_last_names: None,
            noble_last_names: None,
            male_regal_first_names: None,
            female_regal_first_names: None,
            regal_last_names: None,
            logger: Logger::new(),
        };
        proof {
            assert(r@ =~= spec_culture_new());
        }
        r
    }

    /// Seeds the identifier from the enclosing root key.
    pub fn apply_root(&mut self, root: &String)
        ensures
            final(self)@ == spec_culture_apply_root(old(self)@, root@),
    {
        self.string_id = Some(root.clone());
        proof {
            assert(self@ =~= spec_culture_apply_root(old(self)@, root@));
        }
    }

    /// Interprets one `key = value` pair; a coercion failure records a
    /// diagnostic and leaves the field unset without abandoning the
    /// entity.
    pub fn apply(&mut self, key: &String, value: &Value) -> (r: Result<(), ()>)
        ensures
            final(self)@ == spec_culture_apply(old(self)@, key@, value@).0,
            r is Ok == spec_culture_apply(old(self)@, key@, value@).1,
    {
        if str_eq(key.as_str(), "string_id") {
            match value.read_string() {
                Ok(s) => {
                    self.string_id = Some(s);
                    proof {
                        assert(self@ =~= spec_culture_apply(old(self)@, key@, value@).0);
                    }
                    Ok(())
                },
                Err(_) => {
                    let r = self.logger.coerce_error("string_id", "String");
                    proof {
                        assert(self@ =~= spec_culture_apply(old(self)@, key@, value@).0);
                    }
                    r
                },
            }
        } else if str_eq(key.as_str(), "color") {
            match value.read_color() {
                Ok(c) => {
                    self.color = Some(c);
                    proof {
                        assert(self@ =~= spec_culture_apply(old(self)@, key@, value@).0);
                    }
                    Ok(())
                },
                Err(_) => {
                    let r = self.logger.coerce_error("color", "Color");
                    proof {
                        assert(self@ =~= spec_culture_apply(old(self)@, key@, value@).0);
                    }
                    r
                },
            }
        } else if str_eq(key.as_str(), "religion") {
            match value.read_string() {
                Ok(s) => {
                    self.religion = Some(s);
                    proof {
                        assert(self@ =~= spec_culture_apply(old(self)@, key@, value@).0);
                    }
                    Ok(())
                },
                Err(_) => {
                    let r = self.logger.coerce_error("religion", "String");
                    proof {
                        assert(self@ =~= spec_culture_apply(old(self)@, key@, value@).0);
                    }
                    r
                },
            }
        } else if str_eq(key.as_str(), "traits") {
            match value.read_string_array() {
                Ok(xs) => {
                    self.traits = Some(xs);
                    proof {
                        assert(self@ =~= spec_culture_apply(old(self)@, key@, value@).0);
                    }
                    Ok(())
                },
                Err(_) => {
                    let r = self.logger.coerce_error("traits", "Vec<String>");
                    proof {
                        assert(self@ =~= spec_culture_apply(old(self)@, key@, value@).0);
                    }
                    r
                },
            }
        } else if str_eq(key.as_str(), "male_common_first_names") {
            match value.read_string_array() {
                Ok(xs) => {
                    self.male_common_first_names = Some(xs);
                    proof {
                        assert(self@ =~= spec_culture_apply(old(self)@, key@, value@).0);
                    }
                    Ok(())
                },
                Err(_) => {
                    let r = self.logger.coerce_error("male_common_first_names", "Vec<String>");
                    proof {
                        assert(self@ =~= spec_culture_apply(old(self)@, key@, value@).0);
                    }
                    r
                },
            }
        } else if str_eq(key.as_str(), "female_common_first_names") {
            match value.read_string_array() {
                Ok(xs) => {
                    self.female_common_first_names = Some(xs);
                    proof {
                        assert(self@ =~= spec_culture_apply(old(self)@, key@, value@).0);
                    }
                    Ok(())
                },
                Err(_) => {
                    let r = self.logger.coerce_error("female_common_first_names", "Vec<String>");
                    proof {
                        assert(self@ =~= spec_culture_apply(old(self)@, key@, value@).0);
                    }
                    r
                },
            }
        } else if str_eq(key.as_str(), "common_last_names") {
            match value.read_string_array() {
                Ok(xs) => {
                    self.common_last_names = Some(xs);
                    proof {
                        assert(self@ =~= spec_culture_apply(old(self)@, key@, value@).0);
                    }
                    Ok(())
                },
                Err(_) => {
                    let r = self.logger.coerce_error("common_last_names", "Vec<String>");
                    proof {
                        assert(self@ =~= spec_culture_apply(old(self)@, key@, value@).0);
                    }
                    r
                },
            }
        } else if str_eq(key.as_str(), "noble_last_names") {
            match value.read_string_array() {
                Ok(xs) => {
                    self.noble_last_names = Some(xs);
                    proof {
                        assert(self@ =~= spec_culture_apply(old(self)@, key@, value@).0);
                    }
                    Ok(())
                },
                Err(_) => {
                    let r = self.logger.coerce_error("noble_last_names", "Vec<String>");
                    proof {
                        assert(self@ =~= spec_culture_apply(old(self)@, key@, value@).0);
                    }
                    r
                },
            }
        } else if str_eq(key.as_str(), "male_regal_first_names") {
            match value.read_string_array() {
                Ok(xs) => {
                    self.male_regal_first_names = Some(xs);
                    proof {
                        assert(self@ =~= spec_culture_apply(old(self)@, key@, value@).0);
                    }
                    Ok(())
                },
                Err(_) => {
                    let r = self.logger.coerce_error("male_regal_first_names", "Vec<String>");
                    proof {
                        assert(self@ =~= spec_culture_apply(old(self)@, key@, value@).0);
                    }
                    r
                },
            }
        } else if str_eq(key.as_str(), "female_regal_first_names") {
            match value.read_string_array() {
                Ok(xs) => {
                    self.female_regal_first_names = Some(xs);
                    proof {
                        assert(self@ =~= spec_culture_apply(old(self)@, key@, value@).0);
                    }
                    Ok(())
                },
                Err(_) => {
                    let r = self.logger.coerce_error("female_regal_first_names", "Vec<String>");
                    proof {
                        assert(self@ =~= spec_culture_apply(old(self)@, key@, value@).0);
                    }
                    r
                },
            }
        } else if str_eq(key.as_str(), "regal_last_names") {
            match value.read_string_array() {
                Ok(xs) => {
                    self.regal_last_names = Some(xs);
                    proof {
                        assert(self@ =~= spec_culture_apply(old(self)@, key@, value@).0);
                    }
                    Ok(())
                },
                Err(_) => {
                    let r = self.logger.coerce_error("regal_last_names", "Vec<String>");
                    proof {
                        assert(self@ =~= spec_culture_apply(old(self)@, key@, value@).0);
                    }
                    r
                },
            }
        } else if str_eq(key.as_str(), "ethnicities") {
            match value.read_ethnicities() {
                Ok(xs) => {
                    self.ethnicities = Some(xs);
                    proof {
                        assert(self@ =~= spec_culture_apply(old(self)@, key@, value@).0);
                    }
                    Ok(())
                },
                Err(_) => {
                    let r = self.logger.coerce_error("ethnicities", "Vec<String>");
                    proof {
                        assert(self@ =~= spec_culture_apply(old(self)@, key@, value@).0);
                    }
                    r
                },
            }
        } else if str_eq(key.as_str(), "graphics") {
            match value.read_string() {
                Ok(s) => {
                    self.graphics = Some(s);
                    proof {
                        assert(self@ =~= spec_culture_apply(old(self)@, key@, value@).0);
                    }
                    Ok(())
                },
                Err(_) => {
                    let r = self.logger.coerce_error("graphics", "String");
                    proof {
                        assert(self@ =~= spec_culture_apply(old(self)@, key@, value@).0);
                    }
                    r
                },
            }
        } else {
            proof {
                assert(self@ =~= spec_culture_apply(old(self)@, key@, value@).0);
            }
            Ok(())
        }
    }

    /// Finalizes the culture and hands out all diagnostics recorded for
    /// it.
    pub fn build(self) -> (r: (Result<Culture, ()>, Vec<Diagnostic>))
        ensures
            ({
                let (res, diags) = spec_culture_build(self@);
                crate::logger::diags_view(r.1@) == diags && (match res {
                    Some(e) => r.0 is Ok && r.0->Ok_0@ == e,
                    None => r.0 is Err,
                })
            }),
    {
        let CultureBuilder {
            string_id,
            traits,
            ethnicities,
            graphics,
            color,
            religion,
            male_common_first_names,
            female_common_first_names,
            common_last_names,
            noble_last_names,
            male_regal_first_names,
            female_regal_first_names,
            regal_last_names,
            mut logger,
        } = self;
        let mut missing = false;
        if string_id.is_none() {
            let _ = logger.missing_property_error("Culture", "string_id");
            missing = true;
        }
        if traits.is_none() {
            let _ = logger.missing_property_error("Culture", "traits");
            missing = true;
        }
        if ethnicities.is_none() {
            let _ = logger.missing_property_error("Culture", "ethnicities");
            missing = true;
        }
        if graphics.is_none() {
            let _ = logger.missing_property_error("Culture", "graphics");
            missing = true;
        }
        if missing {
            (Err(()), logger.take_entries())
        } else {
            let e = Culture {
                string_id: string_id.unwrap(),
                traits: traits.unwrap(),
                ethnicities: ethnicities.unwrap(),
                graphics: graphics.unwrap(),
                color,
                religion,
                male_common_first_names,
                female_common_first_names,
                common_last_names,
                noble_last_names,
                male_regal_first_names,
                female_regal_first_names,
                regal_last_names,
            };
            (Ok(e), logger.take_entries())
        }
    }

    /// A fresh builder with the same schema.
    pub fn create_new(&self) -> (r: CultureBuilder)
        ensures
            r@ == spec_culture_new(),
    {
        CultureBuilder::new()
    }
}

/// Applying a list of fields to a builder, first to last.
pub open spec fn spec_culture_apply_fields(b: CultureBuilderV, fields: Seq<FieldV>) -> CultureBuilderV
    decreases fields.len(),
{
    if fields.len() == 0 {
        b
    } else {
        spec_culture_apply(
            spec_culture_apply_fields(b, fields.drop_last()),
            fields.last().key,
            fields.last().val,
        ).0
    }
}

/// One root entity: seed the identifier, apply every field, build.
pub open spec fn spec_culture_entity(root: Seq<char>, fields: Seq<FieldV>) -> (
    Option<CultureV>,
    Seq<DiagV>,
) {
    spec_culture_build(
        spec_culture_apply_fields(spec_culture_apply_root(spec_culture_new(), root), fields),
    )
}

/// Driving the builder over every file-level pair, with the same policy
/// as country definitions: structural errors fail the file, a failed
/// build skips only that entity.
pub open spec fn spec_culture_drive(pairs: Seq<(Seq<char>, ValueV)>) -> Option<
    (Seq<CultureV>, Seq<DiagV>),
>
    decreases pairs.len(),
{
    if pairs.len() == 0 {
        Some((Seq::empty(), Seq::empty()))
    } else {
        match spec_culture_drive(pairs.drop_last()) {
            None => None,
            Some((es, ds)) => match spec_obj_fields(pairs.last().1) {
                None => None,
                Some(fields) => {
                    let (res, bd) = spec_culture_entity(pairs.last().0, fields);
                    match res {
                        Some(e) => Some((es.push(e), ds + bd)),
                        None => Some((es, ds + bd)),
                    }
                },
            },
        }
    }
}

/// The view of a list of cultures.
pub open spec fn cultures_view(s: Seq<Culture>) -> Seq<CultureV> {
    s.map_values(|e: Culture| e@)
}

/// What parsing a whole text yields.
pub open spec fn spec_parse_cultures(s: Seq<char>) -> Option<(Seq<CultureV>, Seq<DiagV>)> {
    match spec_parse_text(s) {
        None => None,
        Some(pairs) => spec_culture_drive(pairs),
    }
}

/// Once a prefix of the file fails structurally, the whole file fails.
proof fn lemma_culture_drive_none(pairs: Seq<(Seq<char>, ValueV)>, k: int)
    requires
        0 <= k <= pairs.len(),
        spec_culture_drive(pairs.take(k)) is None,
    ensures
        spec_culture_drive(pairs) is None,
    decreases pairs.len() - k,
{
    if k == pairs.len() {
        assert(pairs.take(k) =~= pairs);
    } else {
        assert(pairs.take(k + 1).drop_last() =~= pairs.take(k));
        lemma_culture_drive_none(pairs, k + 1);
    }
}

/// Parses a whole source text into its cultures and the diagnostics the
/// builders recorded.
pub fn parse_cultures(text: &str) -> (r: Result<(Vec<Culture>, Vec<Diagnostic>), ()>)
    ensures
        match spec_parse_cultures(text@) {
            None => r is Err,
            Some((es, ds)) => r is Ok && cultures_view(r->Ok_0.0@) == es
                && crate::logger::diags_view(r->Ok_0.1@) == ds,
        },
{
    let pairs = match parse_root_fields(text) {
        Some(p) => p,
        None => {
            return Err(());
        },
    };
    let ghost pairs_v = spec_parse_text(text@).unwrap();
    proof {
        assert(pairs_v.len() == pairs@.len());
        assert(forall|j: int|
            0 <= j < pairs@.len() ==> pairs_v[j] == (#[trigger] pairs@[j].0@, pairs@[j].1@));
    }
    let mut entities: Vec<Culture> = Vec::new();
    let mut diags: Vec<Diagnostic> = Vec::new();
    let mut i: usize = 0;
    while i < pairs.len()
        invariant
            spec_parse_text(text@) == Some(pairs_v),
            i <= pairs@.len(),
            pairs_v.len() == pairs@.len(),
            forall|j: int|
                0 <= j < pairs@.len() ==> pairs_v[j] == (
                #[trigger] pairs@[j].0@,
                pairs@[j].1@,
                ),
            spec_culture_drive(pairs_v.take(i as int)) == Some(
                (cultures_view(entities@), crate::logger::diags_view(diags@)),
            ),
        decreases pairs@.len() - i,
    {
        proof {
            assert(pairs_v.take(i + 1 as int).drop_last() =~= pairs_v.take(i as int));
            assert(pairs_v.take(i + 1 as int).last() == pairs_v[i as int]);
        }
        let mut b = CultureBuilder::new();
        b.apply_root(&pairs[i].0);
        let value = &pairs[i].1;
        match value {
            Value::Object(fs) => {
                let ghost fields_v = value@->Object_0;
                proof {
                    crate::value::lemma_object_view(value);
                }
                let mut j: usize = 0;
                while j < fs.len()
                    invariant
                        0 <= i < pairs_v.len(),
                        j <= fs@.len(),
                        fields_v.len() == fs@.len(),
                        forall|k: int| 0 <= k < fs@.len() ==> fields_v[k] == #[trigger] fs@[k]@,
                        b@ == spec_culture_apply_fields(
                            spec_culture_apply_root(spec_culture_new(), pairs_v[i as int].0),
                            fields_v.take(j as int),
                        ),
                    decreases fs@.len() - j,
                {
                    proof {
                        assert(fields_v.take(j + 1 as int).drop_last() =~= fields_v.take(
                            j as int,
                        ));
                        assert(fields_v.take(j + 1 as int).last() == fields_v[j as int]);
                        assert(fs@[j as int]@ == (FieldV {
                            key: fs@[j as int].key@,
                            val: fs@[j as int].val@,
                        }));
                        assert(fields_v[j as int] == fs@[j as int]@);
                    }
                    let _ = b.apply(&fs[j].key, &fs[j].val);
                    j = j + 1;
                }
                proof {
                    assert(fields_v.take(fields_v.len() as int) =~= fields_v);
                }
            },
            Value::Absent => {
                proof {
                    assert(value@ is Absent);
                    assert(b@ == spec_culture_apply_fields(
                        spec_culture_apply_root(spec_culture_new(), pairs_v[i as int].0),
                        Seq::<FieldV>::empty(),
                    ));
                }
            },
            _ => {
                proof {
                    if *value is Scalar {
                        assert(value@ is Scalar);
                    } else {
                        assert(value@ is Array);
                    }
                    assert(spec_obj_fields(pairs_v[i as int].1) is None);
                    assert(spec_culture_drive(pairs_v.take(i + 1 as int)) is None);
                    lemma_culture_drive_none(pairs_v, i + 1 as int);
                }
                return Err(());
            },
        }
        let (res, mut bd) = b.build();
        match res {
            Ok(e) => {
                entities.push(e);
            },
            Err(_) => {},
        }
        diags.append(&mut bd);
        proof {
            assert(cultures_view(entities@) =~= match spec_culture_drive(
                pairs_v.take(i + 1 as int),
            ) {
                Some((es, _)) => es,
                None => Seq::empty(),
            });
            assert(crate::logger::diags_view(diags@) =~= match spec_culture_drive(
                pairs_v.take(i + 1 as int),
            ) {
                Some((_, ds)) => ds,
                None => Seq::empty(),
            });
        }
        i = i + 1;
    }
    proof {
        assert(pairs_v.take(pairs_v.len() as int) =~= pairs_v);
    }
    Ok((entities, diags))
}

/// The rendering of the duplicate-key list idiom: each entry as a
/// repeated `1 = entry` field.
pub open spec fn spec_eth_words(ws: Seq<Seq<char>>) -> Seq<char>
    decreases ws.len(),
{
    if ws.len() == 0 {
        Seq::empty()
    } else {
        spec_eth_words(ws.drop_last()) + " 1 = "@ + ws.last()
    }
}

/// An optional text-list field line, or its comment placeholder built
/// from the given comment body.
pub open spec fn spec_opt_list_line(name: Seq<char>, body: Seq<char>, o: Option<Seq<Seq<char>>>) -> Seq<char> {
    match o {
        Some(ws) => name + " = {"@ + spec_words(ws) + " }\n"@,
        None => seq!['#'] + body + seq!['\n'],
    }
}

/// The canonical text of one culture: fields in schema order, absent
/// optional fields as inert comment lines.
pub open spec fn spec_culture_to_pdx(e: CultureV) -> Seq<char> {
    e.string_id + " = {\n"@ + (match e.color {
        Some(c) => "color"@ + " = "@ + spec_color_text(c) + "\n"@,
        None => seq!['#'] + " No Color"@ + seq!['\n'],
    }) + (match e.religion {
        Some(rl) => "religion"@ + " = "@ + rl + "\n"@,
        None => seq!['#'] + " No Religion"@ + seq!['\n'],
    }) + ("traits"@ + " = {"@ + spec_words(e.traits) + " }\n"@) + spec_opt_list_line(
        "male_common_first_names"@,
        " No Male Common First Names"@,
        e.male_common_first_names,
    ) + spec_opt_list_line(
        "female_common_first_names"@,
        " No Female Common First Names"@,
        e.female_common_first_names,
    ) + spec_opt_list_line(
        "noble_last_names"@,
        " No Noble Last Names"@,
        e.noble_last_names,
    ) + spec_opt_list_line(
        "common_last_names"@,
        " No Common Last Names"@,
        e.common_last_names,
    ) + spec_opt_list_line(
        "male_regal_first_names"@,
        " No Male Regal First Names"@,
        e.male_regal_first_names,
    ) + spec_opt_list_line(
        "female_regal_first_names"@,
        " No Female Regal First Names"@,
        e.female_regal_first_names,
    ) + spec_opt_list_line(
        "regal_last_names"@,
        " No Regal Last Names"@,
        e.regal_last_names,
    ) + ("ethnicities"@ + " = {"@ + spec_eth_words(e.ethnicities) + " }\n"@) + ("graphics"@
        + " = "@ + e.graphics + "\n"@) + seq!['}']
}

/// Appends the duplicate-key rendering of a list.
fn append_eth_words(out: &mut String, ws: &Vec<String>)
    ensures
        final(out)@ == old(out)@ + spec_eth_words(texts_view(ws@)),
{
    let mut i: usize = 0;
    while i < ws.len()
        invariant
            i <= ws@.len(),
            out@ == old(out)@ + spec_eth_words(texts_view(ws@).take(i as int)),
        decreases ws@.len() - i,
    {
        proof {
            assert(texts_view(ws@).take(i + 1 as int).drop_last() =~= texts_view(ws@).take(
                i as int,
            ));
            assert(texts_view(ws@).take(i + 1 as int).last() == ws@[i as int]@);
        }
        out.append(" 1 = ");
        out.append(ws[i].as_str());
        i = i + 1;
    }
    proof {
        assert(texts_view(ws@).take(ws@.len() as int) =~= texts_view(ws@));
    }
}

/// Appends one optional list field, or its comment placeholder.
fn append_opt_list(out: &mut String, name: &str, body: &str, o: &Option<Vec<String>>)
    ensures
        final(out)@ == old(out)@ + spec_opt_list_line(name@, body@, opt_texts_view(*o)),
{
    proof {
        reveal_strlit("#");
        reveal_strlit("\n");
        assert("#"@ =~= seq!['#']);
        assert("\n"@ =~= seq!['\n']);
    }
    match o {
        Some(ws) => {
            out.append(name);
            out.append(" = {");
            crate::country_definition::append_words(out, ws);
            out.append(" }\n");
        },
        None => {
            out.append("#");
            out.append(body);
            out.append("\n");
        },
    }
}

impl Culture {
    /// Appends the seven optional name-list lines.
    #[verifier::rlimit(100)]
    fn append_name_lists(&self, out: &mut String)
        ensures
            final(out)@ == old(out)@ + spec_opt_list_line(
                "male_common_first_names"@,
                " No Male Common First Names"@,
                opt_texts_view(self.male_common_first_names),
            ) + spec_opt_list_line(
                "female_common_first_names"@,
                " No Female Common First Names"@,
                opt_texts_view(self.female_common_first_names),
            ) + spec_opt_list_line(
                "noble_last_names"@,
                " No Noble Last Names"@,
                opt_texts_view(self.noble_last_names),
            ) + spec_opt_list_line(
                "common_last_names"@,
                " No Common Last Names"@,
                opt_texts_view(self.common_last_names),
            ) + spec_opt_list_line(
                "male_regal_first_names"@,
                " No Male Regal First Names"@,
                opt_texts_view(self.male_regal_first_names),
            ) + spec_opt_list_line(
                "female_regal_first_names"@,
                " No Female Regal First Names"@,
                opt_texts_view(self.female_regal_first_names),
            ) + spec_opt_list_line(
                "regal_last_names"@,
                " No Regal Last Names"@,
                opt_texts_view(self.regal_last_names),
            ),
    {
        append_opt_list(
            out,
            "male_common_first_names",
            " No Male Common First Names",
            &self.male_common_first_names,
        );
        append_opt_list(
            out,
            "female_common_first_names",
            " No Female Common First Names",
            &self.female_common_first_names,
        );
        append_opt_list(
            out,
            "noble_last_names",
            " No Noble Last Names",
            &self.noble_last_names,
        );
        append_opt_list(
            out,
            "common_last_names",
            " No Common Last Names",
            &self.common_last_names,
        );
        append_opt_list(
            out,
            "male_regal_first_names",
            " No Male Regal First Names",
            &self.male_regal_first_names,
        );
        append_opt_list(
            out,
            "female_regal_first_names",
            " No Female Regal First Names",
            &self.female_regal_first_names,
        );
        append_opt_list(
            out,
            "regal_last_names",
            " No Regal Last Names",
            &self.regal_last_names,
        );
    }

    /// Appends the identifier, color, religion and traits lines.
    #[verifier::rlimit(100)]
    fn append_front(&self, out: &mut String)
        ensures
            final(out)@ == old(out)@ + (self.string_id@ + " = {\n"@) + (match opt_color_view(
                self.color,
            ) {
                Some(c) => "color"@ + " = "@ + spec_color_text(c) + "\n"@,
                None => seq!['#'] + " No Color"@ + seq!['\n'],
            }) + (match opt_text_view(self.religion) {
                Some(rl) => "religion"@ + " = "@ + rl + "\n"@,
                None => seq!['#'] + " No Religion"@ + seq!['\n'],
            }) + ("traits"@ + " = {"@ + spec_words(texts_view(self.traits@)) + " }\n"@),
    {
        proof {
            reveal_strlit("#");
            reveal_strlit("\n");
            assert("#"@ =~= seq!['#']);
            assert("\n"@ =~= seq!['\n']);
        }
        out.append(self.string_id.as_str());
        out.append(" = {\n");
        match &self.color {
            Some(c) => {
                out.append("color");
                out.append(" = ");
                let t = c.to_text();
                out.append(t.as_str());
                out.append("\n");
            },
            None => {
                out.append("#");
                out.append(" No Color");
                out.append("\n");
            },
        }
        match &self.religion {
            Some(rl) => {
                out.append("religion");
                out.append(" = ");
                out.append(rl.as_str());
                out.append("\n");
            },
            None => {
                out.append("#");
                out.append(" No Religion");
                out.append("\n");
            },
        }
        out.append("traits");
        out.append(" = {");
        crate::country_definition::append_words(out, &self.traits);
        out.append(" }\n");
    }

    /// Renders this culture as canonical script text.
    #[verifier::rlimit(100)]
    pub fn to_pdx(&self) -> (r: String)
        ensures
            r@ == spec_culture_to_pdx(self@),
    {
        proof {
            reveal_strlit("}");
            assert("}"@ =~= seq!['}']);
        }
        let mut out = String::new();
        self.append_front(&mut out);
        self.append_name_lists(&mut out);
        out.append("ethnicities");
        out.append(" = {");
        append_eth_words(&mut out, &self.ethnicities);
        out.append(" }\n");
        out.append("graphics");
        out.append(" = ");
        out.append(self.graphics.as_str());
        out.append("\n");
        out.append("}");
        out
    }
}

/// The canonical text of a whole culture file: each culture's block,
/// blocks joined by one blank line.
pub open spec fn spec_culture_file_to_pdx(es: Seq<CultureV>) -> Seq<char>
    decreases es.len(),
{
    if es.len() == 0 {
        Seq::empty()
    } else if es.len() == 1 {
        spec_culture_to_pdx(es[0])
    } else {
        spec_culture_file_to_pdx(es.drop_last()) + "\n\n"@ + spec_culture_to_pdx(es.last())
    }
}

/// Renders a whole culture file: the cultures' blocks joined by one
/// blank line.
pub fn cultures_file_to_pdx(cultures: &Vec<Culture>) -> (r: String)
    ensures
        r@ == spec_culture_file_to_pdx(cultures_view(cultures@)),
{
    let ghost es = cultures_view(cultures@);
    let mut out = String::new();
    let mut i: usize = 0;
    while i < cultures.len()
        invariant
            es == cultures_view(cultures@),
            i <= cultures@.len(),
            es.len() == cultures@.len(),
            out@ == spec_culture_file_to_pdx(es.take(i as int)),
        decreases cultures@.len() - i,
    {
        proof {
            assert(es.take(i + 1 as int).drop_last() =~= es.take(i as int));
            assert(es.take(i + 1 as int).last() == es[i as int]);
            assert(es[i as int] == cultures@[i as int]@);
        }
        if i > 0 {
            out.append("\n\n");
        }
        let block = cultures[i].to_pdx();
        out.append(block.as_str());
        proof {
            if i == 0 {
                assert(out@ =~= spec_culture_to_pdx(es[0]));
            } else {
                assert(out@ =~= spec_culture_file_to_pdx(es.take(i as int)) + "\n\n"@
                    + spec_culture_to_pdx(es[i as int]));
            }
        }
        i = i + 1;
    }
    proof {
        assert(es.take(es.len() as int) =~= es);
    }
    out
}

} // verus!
