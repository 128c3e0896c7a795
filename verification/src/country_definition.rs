//! Country definitions: the typed record, its builder, the parser driver
//! and the canonical serializer.
use vstd::prelude::*;
use crate::color::{spec_color_text, Color, ColorV};
use crate::country_tier::{spec_tier_from, spec_tier_str, CountryTier};
use crate::error_messages::{spec_coerce_error_msg, spec_missing_property_msg};
use crate::logger::{DiagV, Diagnostic, ILogger, Logger};
use crate::parser::{parse_root_fields, spec_parse_text};
use crate::text::str_eq;
use crate::value::{FieldV, Value, ValueV};
use crate::value_reader::{spec_read_color, spec_read_string, spec_read_string_array};

verus! {

/// The diagnostics name of this entity type.
pub open spec fn spec_cd_type_str() -> Seq<char> {
    "Country Definition"@
}

/// Specification-level mirror of [`CountryDefinition`].
#[verifier::ext_equal]
pub struct CountryDefinitionV {
    pub tag: Seq<char>,
    pub cultures: Seq<Seq<char>>,
    pub color: ColorV,
    pub country_type: Seq<char>,
    pub tier: CountryTier,
    pub religion: Option<Seq<char>>,
    pub capital: Option<Seq<char>>,
}

/// One country definition. All fields but `religion` and `capital` are
/// required by the schema.
#[derive(PartialEq, Debug)]
pub struct CountryDefinition {
    pub tag: String,
    pub cultures: Vec<String>,
    pub color: Color,
    pub country_type: String,
    pub tier: CountryTier,
    pub religion: Option<String>,
    pub capital: Option<String>,
}

/// The view of an optional text.
pub open spec fn opt_text_view(o: Option<String>) -> Option<Seq<char>> {
    match o {
        Some(s) => Some(s@),
        None => None,
    }
}

/// The view of a list of texts.
pub open spec fn texts_view(s: Seq<String>) -> Seq<Seq<char>> {
    s.map_values(|x: String| x@)
}

impl View for CountryDefinition {
    type V = CountryDefinitionV;

    open spec fn view(&self) -> CountryDefinitionV {
        CountryDefinitionV {
            tag: self.tag@,
            cultures: texts_view(self.cultures@),
            color: self.color@,
            country_type: self.country_type@,
            tier: self.tier,
            religion: opt_text_view(self.religion),
            capital: opt_text_view(self.capital),
        }
    }
}

impl CountryDefinition {
    /// A country definition from its parts.
    pub fn new(
        tag: String,
        cultures: Vec<String>,
        color: Color,
        country_type: String,
        tier: CountryTier,
        religion: Option<String>,
        capital: Option<String>,
    ) -> (r: CountryDefinition)
        ensures
            r@ == (CountryDefinitionV {
                tag: tag@,
                cultures: texts_view(cultures@),
                color: color@,
                country_type: country_type@,
                tier,
                religion: opt_text_view(religion),
                capital: opt_text_view(capital),
            }),
    {
        CountryDefinition { tag, cultures, color, country_type, tier, religion, capital }
    }

    /// A country definition on the heap.
    pub fn new_boxed(
        tag: String,
        cultures: Vec<String>,
        color: Color,
        country_type: String,
        tier: CountryTier,
        religion: Option<String>,
        capital: Option<String>,
    ) -> (r: Box<CountryDefinition>)
        ensures
            r@ == (CountryDefinitionV {
                tag: tag@,
                cultures: texts_view(cultures@),
                color: color@,
                country_type: country_type@,
                tier,
                religion: opt_text_view(religion),
                capital: opt_text_view(capital),
            }),
    {
        Box::new(CountryDefinition::new(tag, cultures, color, country_type, tier, religion, capital))
    }
}

/// Specification-level mirror of [`CountryDefinitionBuilder`]: the staged
/// fields and the diagnostics recorded so far.
#[verifier::ext_equal]
pub struct CdBuilderV {
    pub tag: Option<Seq<char>>,
    pub cultures: Option<Seq<Seq<char>>>,
    pub color: Option<ColorV>,
    pub country_type: Option<Seq<char>>,
    pub tier: Option<CountryTier>,
    pub religion: Option<Seq<char>>,
    pub capital: Option<Seq<char>>,
    pub diags: Seq<DiagV>,
}

/// A fresh builder: nothing staged, nothing logged.
pub open spec fn spec_cd_new() -> CdBuilderV {
    CdBuilderV {
        tag: None,
        cultures: None,
        color: None,
        country_type: None,
        tier: None,
        religion: None,
        capital: None,
        diags: Seq::empty(),
    }
}

/// Seeding the tag from the enclosing root key.
pub open spec fn spec_cd_apply_root(b: CdBuilderV, root: Seq<char>) -> CdBuilderV {
    CdBuilderV { tag: Some(root), ..b }
}

/// One diagnostic for a recognized field whose value has the wrong shape.
pub open spec fn spec_coerce_diag(from: Seq<char>, to: Seq<char>) -> DiagV {
    DiagV { level: crate::logger::LogLevel::Error, message: spec_coerce_error_msg(from, to) }
}

/// Applying one `key = value` pair: a recognized key stages the coerced
/// value, a coercion failure logs a diagnostic and leaves the field
/// unset, an unrecognized key is silently ignored. The second component
/// says whether the application succeeded.
pub open spec fn spec_cd_apply(b: CdBuilderV, key: Seq<char>, v: ValueV) -> (CdBuilderV, bool) {
    if key == "country_type"@ {
        match spec_read_string(v) {
            Some(s) => (CdBuilderV { country_type: Some(s), ..b }, true),
            None => (
                CdBuilderV { diags: b.diags.push(spec_coerce_diag("country_type"@, "String"@)), ..b },
                false,
            ),
        }
    } else if key == "tier"@ {
        match spec_read_string(v) {
            Some(s) => match spec_tier_from(s) {
                Some(t) => (CdBuilderV { tier: Some(t), ..b }, true),
                None => (
                    CdBuilderV { diags: b.diags.push(spec_coerce_diag(s, "CountryTier"@)), ..b },
                    false,
                ),
            },
            None => (
                CdBuilderV { diags: b.diags.push(spec_coerce_diag("country_tier"@, "String"@)), ..b },
                false,
            ),
        }
    } else if key == "color"@ {
        match spec_read_color(v) {
            Some(c) => (CdBuilderV { color: Some(c), ..b }, true),
            None => (
                CdBuilderV { diags: b.diags.push(spec_coerce_diag("color"@, "Color"@)), ..b },
                false,
            ),
        }
    } else if key == "cultures"@ {
        match spec_read_string_array(v) {
            Some(cs) => (CdBuilderV { cultures: Some(cs), ..b }, true),
            None => (
                CdBuilderV {
                    diags: b.diags.push(spec_coerce_diag("cultures"@, "Vec<String>"@)),
                    ..b
                },
                false,
            ),
        }
    } else if key == "religion"@ {
        match spec_read_string(v) {
            Some(s) => (CdBuilderV { religion: Some(s), ..b }, true),
            None => (
                CdBuilderV { diags: b.diags.push(spec_coerce_diag("religion"@, "String"@)), ..b },
                false,
            ),
        }
    } else if key == "capital"@ {
        match spec_read_string(v) {
            Some(s) => (CdBuilderV { capital: Some(s), ..b }, true),
            None => (
                CdBuilderV { diags: b.diags.push(spec_coerce_diag("capital"@, "String"@)), ..b },
                false,
            ),
        }
    } else {
        (b, true)
    }
}

/// One missing-required-field diagnostic.
pub open spec fn spec_missing_diag(ty: Seq<char>, field: Seq<char>) -> DiagV {
    DiagV { level: crate::logger::LogLevel::Error, message: spec_missing_property_msg(ty, field) }
}

/// Finalizing the entity: every required field that is unset adds one
/// missing-property diagnostic; the build yields an entity only when all
/// required fields are set. Unset optional fields stay absent.
pub open spec fn spec_cd_build(b: CdBuilderV) -> (Option<CountryDefinitionV>, Seq<DiagV>) {
    let d0 = b.diags;
    let d1 = if b.tag is None {
        d0.push(spec_missing_diag(spec_cd_type_str(), "tag"@))
    } else {
        d0
    };
    let d2 = if b.cultures is None {
        d1.push(spec_missing_diag(spec_cd_type_str(), "cultures"@))
    } else {
        d1
    };
    let d3 = if b.color is None {
        d2.push(spec_missing_diag(spec_cd_type_str(), "color"@))
    } else {
        d2
    };
    let d4 = if b.country_type is None {
        d3.push(spec_missing_diag(spec_cd_type_str(), "country_type"@))
    } else {
        d3
    };
    let d5 = if b.tier is None {
        d4.push(spec_missing_diag(spec_cd_type_str(), "tier"@))
    } else {
        d4
    };
    if b.tag is Some && b.cultures is Some && b.color is Some && b.country_type is Some
        && b.tier is Some {
        (
            Some(
                CountryDefinitionV {
                    tag: b.tag->0,
                    cultures: b.cultures->0,
                    color: b.color->0,
                    country_type: b.country_type->0,
                    tier: b.tier->0,
                    religion: b.religion,
                    capital: b.capital,
                },
            ),
            d5,
        )
    } else {
        (None, d5)
    }
}

/// The transient staging record for one country definition under
/// construction.
pub struct CountryDefinitionBuilder {
    pub tag: Option<String>,
    pub cultures: Option<Vec<String>>,
    pub color: Option<Color>,
    pub country_type: Option<String>,
    pub tier: Option<CountryTier>,
    pub religion: Option<String>,
    pub capital: Option<String>,
    pub logger: Logger,
}

/// The view of an optional list of texts.
pub open spec fn opt_texts_view(o: Option<Vec<String>>) -> Option<Seq<Seq<char>>> {
    match o {
        Some(s) => Some(texts_view(s@)),
        None => None,
    }
}

/// The view of an optional color.
pub open spec fn opt_color_view(o: Option<Color>) -> Option<ColorV> {
    match o {
        Some(c) => Some(c@),
        None => None,
    }
}

impl View for CountryDefinitionBuilder {
    type V = CdBuilderV;

    open spec fn view(&self) -> CdBuilderV {
        CdBuilderV {
            tag: opt_text_view(self.tag),
            cultures: opt_texts_view(self.cultures),
            color: opt_color_view(self.color),
            country_type: opt_text_view(self.country_type),
            tier: self.tier,
            religion: opt_text_view(self.religion),
            capital: opt_text_view(self.capital),
            diags: self.logger.entries(),
        }
    }
}

impl CountryDefinitionBuilder {
    /// A fresh, empty builder.
    pub fn new() -> (r: CountryDefinitionBuilder)
        ensures
            r@ == spec_cd_new(),
    {
        let r = CountryDefinitionBuilder {
            tag: None,
            cultures: None,
            color: None,
            country_type: None,
            tier: None,
            religion: None,
            capital: None,
            logger: Logger::new(),
        };
        proof {
            assert(r@ =~= spec_cd_new());
        }
        r
    }

    /// Seeds the tag from the enclosing root key.
    pub fn apply_root(&mut self, root: &String)
        ensures
            final(self)@ == spec_cd_apply_root(old(self)@, root@),
    {
        self.tag = Some(root.clone());
        proof {
            assert(self@ =~= spec_cd_apply_root(old(self)@, root@));
        }
    }

    /// Interprets one `key = value` pair; on a coercion failure records a
    /// diagnostic, leaves the field unset and reports the failure without
    /// abandoning the entity.
    pub fn apply(&mut self, key: &String, value: &Value) -> (r: Result<(), ()>)
        ensures
            final(self)@ == spec_cd_apply(old(self)@, key@, value@).0,
            r is Ok == spec_cd_apply(old(self)@, key@, value@).1,
    {
        if str_eq(key.as_str(), "country_type") {
            match value.read_string() {
                Ok(s) => {
                    self.country_type = Some(s);
                    proof {
                        assert(self@ =~= spec_cd_apply(old(self)@, key@, value@).0);
                    }
                    Ok(())
                },
                Err(_) => {
                    let r = self.logger.coerce_error("country_type", "String");
                    proof {
                        assert(self@ =~= spec_cd_apply(old(self)@, key@, value@).0);
                    }
                    r
                },
            }
        } else if str_eq(key.as_str(), "tier") {
            match value.read_string() {
                Ok(s) => match CountryTier::from(s.as_str()) {
                    Some(t) => {
                        self.tier = Some(t);
                        proof {
                            assert(self@ =~= spec_cd_apply(old(self)@, key@, value@).0);
                        }
                        Ok(())
                    },
                    None => {
                        let r = self.logger.coerce_error(s.as_str(), "CountryTier");
                        proof {
                            assert(self@ =~= spec_cd_apply(old(self)@, key@, value@).0);
                        }
                        r
                    },
                },
                Err(_) => {
                    let r = self.logger.coerce_error("country_tier", "String");
                    proof {
                        assert(self@ =~= spec_cd_apply(old(self)@, key@, value@).0);
                    }
                    r
                },
            }
        } else if str_eq(key.as_str(), "color") {
            match value.read_color() {
                Ok(c) => {
                    self.color = Some(c);
                    proof {
                        assert(self@ =~= spec_cd_apply(old(self)@, key@, value@).0);
                    }
                    Ok(())
                },
                Err(_) => {
                    let r = self.logger.coerce_error("color", "Color");
                    proof {
                        assert(self@ =~= spec_cd_apply(old(self)@, key@, value@).0);
                    }
                    r
                },
            }
        } else if str_eq(key.as_str(), "cultures") {
            match value.read_string_array() {
                Ok(cs) => {
                    self.cultures = Some(cs);
                    proof {
                        assert(self@ =~= spec_cd_apply(old(self)@, key@, value@).0);
                    }
                    Ok(())
                },
                Err(_) => {
                    let r = self.logger.coerce_error("cultures", "Vec<String>");
                    proof {
                        assert(self@ =~= spec_cd_apply(old(self)@, key@, value@).0);
                    }
                    r
                },
            }
        } else if str_eq(key.as_str(), "religion") {
            match value.read_string() {
                Ok(s) => {
                    self.religion = Some(s);
                    proof {
                        assert(self@ =~= spec_cd_apply(old(self)@, key@, value@).0);
                    }
                    Ok(())
                },
                Err(_) => {
                    let r = self.logger.coerce_error("religion", "String");
                    proof {
                        assert(self@ =~= spec_cd_apply(old(self)@, key@, value@).0);
                    }
                    r
                },
            }
        } else if str_eq(key.as_str(), "capital") {
            match value.read_string() {
                Ok(s) => {
                    self.capital = Some(s);
                    proof {
                        assert(self@ =~= spec_cd_apply(old(self)@, key@, value@).0);
                    }
                    Ok(())
                },
                Err(_) => {
                    let r = self.logger.coerce_error("capital", "String");
                    proof {
                        assert(self@ =~= spec_cd_apply(old(self)@, key@, value@).0);
                    }
                    r
                },
            }
        } else {
            proof {
                assert(self@ =~= spec_cd_apply(old(self)@, key@, value@).0);
            }
            Ok(())
        }
    }

    /// Finalizes the entity and hands out all diagnostics recorded for
    /// it. The entity is produced exactly when every required field was
    /// set.
    pub fn build(self) -> (r: (Result<CountryDefinition, ()>, Vec<Diagnostic>))
        ensures
            ({
                let (res, diags) = spec_cd_build(self@);
                crate::logger::diags_view(r.1@) == diags && (match res {
                    Some(e) => r.0 is Ok && r.0->Ok_0@ == e,
                    None => r.0 is Err,
                })
            }),
    {
        let CountryDefinitionBuilder {
            tag,
            cultures,
            color,
            country_type,
            tier,
            religion,
            capital,
            mut logger,
        } = self;
        let mut missing = false;
        if tag.is_none() {
            let _ = logger.missing_property_error("Country Definition", "tag");
            missing = true;
        }
        if cultures.is_none() {
            let _ = logger.missing_property_error("Country Definition", "cultures");
            missing = true;
        }
        if color.is_none() {
            let _ = logger.missing_property_error("Country Definition", "color");
            missing = true;
        }
        if country_type.is_none() {
            let _ = logger.missing_property_error("Country Definition", "country_type");
            missing = true;
        }
        if tier.is_none() {
            let _ = logger.missing_property_error("Country Definition", "tier");
            missing = true;
        }
        if missing {
            (Err(()), logger.take_entries())
        } else {
            let e = CountryDefinition {
                tag: tag.unwrap(),
                cultures: cultures.unwrap(),
                color: color.unwrap(),
                country_type: country_type.unwrap(),
                tier: tier.unwrap(),
                religion,
                capital,
            };
            (Ok(e), logger.take_entries())
        }
    }

    /// A fresh builder with the same schema: the prototype operation the
    /// parser driver uses to stamp one builder per root entity.
    pub fn create_new(&self) -> (r: CountryDefinitionBuilder)
        ensures
            r@ == spec_cd_new(),
    {
        CountryDefinitionBuilder::new()
    }
}

/// The field list an entity's value denotes: a braced object, or an
/// empty brace pair standing for no fields at all. Anything else is a
/// structural error that aborts the whole file.
pub open spec fn spec_obj_fields(v: ValueV) -> Option<Seq<FieldV>> {
    match v {
        ValueV::Object(fs) => Some(fs),
        ValueV::Absent => Some(Seq::empty()),
        _ => None,
    }
}

/// Applying a list of fields to a builder, first to last.
pub open spec fn spec_cd_apply_fields(b: CdBuilderV, fields: Seq<FieldV>) -> CdBuilderV
    decreases fields.len(),
{
    if fields.len() == 0 {
        b
    } else {
        spec_cd_apply(
            spec_cd_apply_fields(b, fields.drop_last()),
            fields.last().key,
            fields.last().val,
        ).0
    }
}

/// One root entity: seed the tag, apply every field, build.
pub open spec fn spec_cd_entity(root: Seq<char>, fields: Seq<FieldV>) -> (
    Option<CountryDefinitionV>,
    Seq<DiagV>,
) {
    spec_cd_build(spec_cd_apply_fields(spec_cd_apply_root(spec_cd_new(), root), fields))
}

/// Driving the builder over every file-level pair. An entity whose value
/// is not an object fails the whole file; an entity whose build fails is
/// skipped, its diagnostics kept, and the rest of the file still parses.
pub open spec fn spec_cd_drive(pairs: Seq<(Seq<char>, ValueV)>) -> Option<
    (Seq<CountryDefinitionV>, Seq<DiagV>),
>
    decreases pairs.len(),
{
    if pairs.len() == 0 {
        Some((Seq::empty(), Seq::empty()))
    } else {
        match spec_cd_drive(pairs.drop_last()) {
            None => None,
            Some((es, ds)) => match spec_obj_fields(pairs.last().1) {
                None => None,
                Some(fields) => {
                    let (res, bd) = spec_cd_entity(pairs.last().0, fields);
                    match res {
                        Some(e) => Some((es.push(e), ds + bd)),
                        None => Some((es, ds + bd)),
                    }
                },
            },
        }
    }
}

/// The view of a list of country definitions.
pub open spec fn cds_view(s: Seq<CountryDefinition>) -> Seq<CountryDefinitionV> {
    s.map_values(|e: CountryDefinition| e@)
}

/// What parsing a whole text yields: the structural parse followed by
/// the builder on each root entity.
pub open spec fn spec_parse_country_definitions(s: Seq<char>) -> Option<
    (Seq<CountryDefinitionV>, Seq<DiagV>),
> {
    match spec_parse_text(s) {
        None => None,
        Some(pairs) => spec_cd_drive(pairs),
    }
}

/// Parses a whole source text into its country definitions and the
/// diagnostics the builders recorded. `Err` means a structural failure
/// of the file; a single entity that fails to build is skipped and the
/// rest of the file still parses.
pub fn parse_country_definitions(text: &str) -> (r: Result<
    (Vec<CountryDefinition>, Vec<Diagnostic>),
    (),
>)
    ensures
        match spec_parse_country_definitions(text@) {
            None => r is Err,
            Some((es, ds)) => r is Ok && cds_view(r->Ok_0.0@) == es && crate::logger::diags_view(
                r->Ok_0.1@,
            ) == ds,
        },
{
    let pairs = match parse_root_fields(text) {
        Some(p) => p,
        None => {
            return Err(());
        },
    };
    let ghost pairs_v = spec_parse_text(text@).unwrap();
    proof {
        assert(pairs_v.len() == pairs@.len());
        assert(forall|j: int|
            0 <= j < pairs@.len() ==> pairs_v[j] == (#[trigger] pairs@[j].0@, pairs@[j].1@));
    }
    let mut entities: Vec<CountryDefinition> = Vec::new();
    let mut diags: Vec<Diagnostic> = Vec::new();
    let mut i: usize = 0;
    while i < pairs.len()
        invariant
            spec_parse_text(text@) == Some(pairs_v),
            i <= pairs@.len(),
            pairs_v.len() == pairs@.len(),
            forall|j: int|
                0 <= j < pairs@.len() ==> pairs_v[j] == (
                #[trigger] pairs@[j].0@,
                pairs@[j].1@,
                ),
            spec_cd_drive(pairs_v.take(i as int)) == Some(
                (cds_view(entities@), crate::logger::diags_view(diags@)),
            ),
        decreases pairs@.len() - i,
    {
        proof {
            assert(pairs_v.take(i + 1 as int).drop_last() =~= pairs_v.take(i as int));
            assert(pairs_v.take(i + 1 as int).last() == pairs_v[i as int]);
        }
        let mut b = CountryDefinitionBuilder::new();
        b.apply_root(&pairs[i].0);
        let value = &pairs[i].1;
        match value {
            Value::Object(fs) => {
                let ghost fields_v = value@->Object_0;
                proof {
                    crate::value::lemma_object_view(value);
                }
                let mut j: usize = 0;
                while j < fs.len()
                    invariant
                        0 <= i < pairs_v.len(),
                        j <= fs@.len(),
                        fields_v.len() == fs@.len(),
                        forall|k: int| 0 <= k < fs@.len() ==> fields_v[k] == #[trigger] fs@[k]@,
                        b@ == spec_cd_apply_fields(
                            spec_cd_apply_root(spec_cd_new(), pairs_v[i as int].0),
                            fields_v.take(j as int),
                        ),
                    decreases fs@.len() - j,
                {
                    proof {
                        assert(fields_v.take(j + 1 as int).drop_last() =~= fields_v.take(
                            j as int,
                        ));
                        assert(fields_v.take(j + 1 as int).last() == fields_v[j as int]);
                        assert(fs@[j as int]@ == (FieldV {
                            key: fs@[j as int].key@,
                            val: fs@[j as int].val@,
                        }));
                        assert(fields_v[j as int] == fs@[j as int]@);
                    }
                    let _ = b.apply(&fs[j].key, &fs[j].val);
                    j = j + 1;
                }
                proof {
                    assert(fields_v.take(fields_v.len() as int) =~= fields_v);
                }
            },
            Value::Absent => {
                proof {
                    assert(value@ is Absent);
                    assert(b@ == spec_cd_apply_fields(
                        spec_cd_apply_root(spec_cd_new(), pairs_v[i as int].0),
                        Seq::<FieldV>::empty(),
                    ));
                }
            },
            _ => {
                proof {
                    if *value is Scalar {
                        assert(value@ is Scalar);
                    } else {
                        assert(value@ is Array);
                    }
                    assert(spec_obj_fields(pairs_v[i as int].1) is None);
                    assert(spec_cd_drive(pairs_v.take(i + 1 as int)) is None);
                    lemma_cd_drive_none(pairs_v, i + 1 as int);
                }
                return Err(());
            },
        }
        let (res, mut bd) = b.build();
        match res {
            Ok(e) => {
                entities.push(e);
            },
            Err(_) => {},
        }
        diags.append(&mut bd);
        proof {
            assert(cds_view(entities@) =~= match spec_cd_drive(pairs_v.take(i + 1 as int)) {
                Some((es, _)) => es,
                None => Seq::empty(),
            });
            assert(crate::logger::diags_view(diags@) =~= match spec_cd_drive(
                pairs_v.take(i + 1 as int),
            ) {
                Some((_, ds)) => ds,
                None => Seq::empty(),
            });
        }
        i = i + 1;
    }
    proof {
        assert(pairs_v.take(pairs_v.len() as int) =~= pairs_v);
    }
    Ok((entities, diags))
}

/// Once a prefix of the file fails structurally, the whole file fails.
proof fn lemma_cd_drive_none(pairs: Seq<(Seq<char>, ValueV)>, k: int)
    requires
        0 <= k <= pairs.len(),
        spec_cd_drive(pairs.take(k)) is None,
    ensures
        spec_cd_drive(pairs) is None,
    decreases pairs.len() - k,
{
    if k == pairs.len() {
        assert(pairs.take(k) =~= pairs);
    } else {
        assert(pairs.take(k + 1).drop_last() =~= pairs.take(k));
        lemma_cd_drive_none(pairs, k + 1);
    }
}

/// The space-joined rendering of bare tokens, each preceded by a space.
pub open spec fn spec_words(ws: Seq<Seq<char>>) -> Seq<char>
    decreases ws.len(),
{
    if ws.len() == 0 {
        Seq::empty()
    } else {
        spec_words(ws.drop_last()) + " "@ + ws.last()
    }
}

/// The canonical text of one country definition: fields in schema order,
/// absent optional fields as inert comment lines.
pub open spec fn spec_cd_to_pdx(e: CountryDefinitionV) -> Seq<char> {
    e.tag + " = {\n"@ + ("color"@ + " = "@ + spec_color_text(e.color) + "\n"@) + (
    "country_type"@ + " = "@ + e.country_type + "\n"@) + ("tier"@ + " = "@ + spec_tier_str(
        e.tier,
    ) + "\n"@) + ("cultures"@ + " = {"@ + spec_words(e.cultures) + " }\n"@) + (match e.capital {
        Some(c) => "capital"@ + " = "@ + c + "\n"@,
        None => seq!['#'] + " No Capital"@ + seq!['\n'],
    }) + (match e.religion {
        Some(rl) => "religion"@ + " = "@ + rl + "\n"@,
        None => seq!['#'] + " No Religion"@ + seq!['\n'],
    }) + seq!['}']
}

/// Appends every word of `ws`, each preceded by one space.
pub fn append_words(out: &mut String, ws: &Vec<String>)
    ensures
        final(out)@ == old(out)@ + spec_words(texts_view(ws@)),
{
    let mut i: usize = 0;
    while i < ws.len()
        invariant
            i <= ws@.len(),
            out@ == old(out)@ + spec_words(texts_view(ws@).take(i as int)),
        decreases ws@.len() - i,
    {
        proof {
            assert(texts_view(ws@).take(i + 1 as int).drop_last() =~= texts_view(ws@).take(
                i as int,
            ));
            assert(texts_view(ws@).take(i + 1 as int).last() == ws@[i as int]@);
        }
        out.append(" ");
        out.append(ws[i].as_str());
        i = i + 1;
    }
    proof {
        assert(texts_view(ws@).take(ws@.len() as int) =~= texts_view(ws@));
    }
}

impl CountryDefinition {
    /// Renders this country definition as canonical script text.
    #[verifier::rlimit(100)]
    pub fn to_pdx(&self) -> (r: String)
        ensures
            r@ == spec_cd_to_pdx(self@),
    {
        let mut out = String::new();
        out.append(self.tag.as_str());
        out.append(" = {\n");
        out.append("color");
        out.append(" = ");
        let color = self.color.to_text();
        out.append(color.as_str());
        out.append("\n");
        out.append("country_type");
        out.append(" = ");
        out.append(self.country_type.as_str());
        out.append("\n");
        out.append("tier");
        out.append(" = ");
        out.append(self.tier.to_str());
        out.append("\n");
        out.append("cultures");
        out.append(" = {");
        append_words(&mut out, &self.cultures);
        out.append(" }\n");
        match &self.capital {
            Some(c) => {
                out.append("capital");
                out.append(" = ");
                out.append(c.as_str());
                out.append("\n");
            },
            None => {
                out.append("#");
                out.append(" No Capital");
                out.append("\n");
            },
        }
        match &self.religion {
            Some(rl) => {
                out.append("religion");
                out.append(" = ");
                out.append(rl.as_str());
                out.append("\n");
            },
            None => {
                out.append("#");
                out.append(" No Religion");
                out.append("\n");
            },
        }
        out.append("}");
        proof {
            reveal_strlit("#");
            reveal_strlit("\n");
            reveal_strlit("}");
            assert("#"@ =~= seq!['#']);
            assert("\n"@ =~= seq!['\n']);
            assert("}"@ =~= seq!['}']);
            assert(out@ =~= spec_cd_to_pdx(self@));
        }
        out
    }
}

/// The canonical text of a whole country-definition file: each entity's
/// block, blocks joined by one blank line.
pub open spec fn spec_cd_file_to_pdx(es: Seq<CountryDefinitionV>) -> Seq<char>
    decreases es.len(),
{
    if es.len() == 0 {
        Seq::empty()
    } else if es.len() == 1 {
        spec_cd_to_pdx(es[0])
    } else {
        spec_cd_file_to_pdx(es.drop_last()) + "\n\n"@ + spec_cd_to_pdx(es.last())
    }
}

/// Renders a whole country-definition file: the entities' blocks joined
/// by one blank line.
pub fn country_definitions_file_to_pdx(definitions: &Vec<CountryDefinition>) -> (r: String)
    ensures
        r@ == spec_cd_file_to_pdx(cds_view(definitions@)),
{
    let ghost es = cds_view(definitions@);
    let mut out = String::new();
    let mut i: usize = 0;
    while i < definitions.len()
        invariant
            es == cds_view(definitions@),
            i <= definitions@.len(),
            es.len() == definitions@.len(),
            out@ == spec_cd_file_to_pdx(es.take(i as int)),
        decreases definitions@.len() - i,
    {
        proof {
            assert(es.take(i + 1 as int).drop_last() =~= es.take(i as int));
            assert(es.take(i + 1 as int).last() == es[i as int]);
            assert(es[i as int] == definitions@[i as int]@);
        }
        if i > 0 {
            out.append("\n\n");
        }
        let block = definitions[i].to_pdx();
        out.append(block.as_str());
        proof {
            if i == 0 {
                assert(out@ =~= spec_cd_to_pdx(es[0]));
            } else {
                assert(out@ =~= spec_cd_file_to_pdx(es.take(i as int)) + "\n\n"@ + spec_cd_to_pdx(
                    es[i as int],
                ));
            }
        }
        i = i + 1;
    }
    proof {
        assert(es.take(es.len() as int) =~= es);
    }
    out
}

} // verus!
